//! The mixer tick and the realtime chunk cursor over the master buffer.

use meeting_recorder::mixer::{Mixer, RealtimeCursor};

#[test]
fn tick_drains_new_samples_of_both_sources() {
    let mut mixer = Mixer::new();
    let mut master: Vec<i32> = Vec::new();
    let mic: Vec<i32> = vec![1000, 2000];
    let sys: Vec<i32> = vec![100];
    mixer.tick(&mic, &sys, 100, 100, &mut master);
    assert_eq!(mixer.last_mic, 2);
    assert_eq!(mixer.last_system, 1);
    assert_eq!(master, vec![1100, 2000]);
}

#[test]
fn tick_only_mixes_past_the_high_water_marks() {
    let mut mixer = Mixer::new();
    let mut master: Vec<i32> = Vec::new();
    let mut mic: Vec<i32> = vec![10, 20];
    let sys: Vec<i32> = vec![];
    mixer.tick(&mic, &sys, 100, 100, &mut master);
    mic.push(30);
    mic.push(40);
    mixer.tick(&mic, &sys, 100, 100, &mut master);
    assert_eq!(master, vec![10, 20, 30, 40]);
}

#[test]
fn tick_applies_the_current_gains() {
    let mut mixer = Mixer::new();
    let mut master: Vec<i32> = Vec::new();
    let mic: Vec<i32> = vec![1000];
    let sys: Vec<i32> = vec![1000];
    mixer.tick(&mic, &sys, 250, 150, &mut master);
    // 1000 * 2.5 + 1000 * 1.5
    assert_eq!(master, vec![4000]);
}

#[test]
fn master_grows_by_at_most_the_new_samples_of_both_sources() {
    let mut mixer = Mixer::new();
    let mut master: Vec<i32> = Vec::new();
    let mic: Vec<i32> = vec![1; 160];
    let sys: Vec<i32> = vec![1; 90];
    mixer.tick(&mic, &sys, 100, 100, &mut master);
    assert_eq!(master.len(), 160);
    assert!(master.len() <= mixer.last_mic + mixer.last_system);
}

#[test]
fn two_second_capture_peaks_at_the_soft_clipped_gain() {
    // Two seconds of a half-amplitude wave under the default 2.5 gain: the
    // 1.25 sum saturates to 1 - 1/1.25 = 0.2 of full scale.
    let mut mic: Vec<i32> = Vec::new();
    for i in 0..32000 {
        mic.push(if (i / 8) % 2 == 0 { 16384 } else { -16384 });
    }
    let sys: Vec<i32> = Vec::new();
    let mut mixer = Mixer::new();
    let mut master: Vec<i32> = Vec::new();
    mixer.tick(&mic, &sys, 250, 150, &mut master);
    assert_eq!(master.len(), 32000);
    let peak = master.iter().map(|s| s.abs()).max().unwrap();
    assert_eq!(peak, 32768 - (1073741824 / 40960));
}

#[test]
fn cursor_hands_out_aligned_disjoint_chunks() {
    let master: Vec<i32> = (0..25).collect();
    let mut cursor = RealtimeCursor::new(10);
    let c1 = cursor.next_chunk(&master).unwrap();
    assert_eq!(c1, (0..10).collect::<Vec<i32>>());
    assert_eq!(cursor.last_processed, 10);
    let c2 = cursor.next_chunk(&master).unwrap();
    assert_eq!(c2, (10..20).collect::<Vec<i32>>());
    assert_eq!(cursor.last_processed, 20);
    assert!(cursor.next_chunk(&master).is_none());
    assert_eq!(cursor.last_processed, 20);
}

#[test]
fn cursor_waits_for_a_full_chunk() {
    let master: Vec<i32> = vec![1, 2, 3];
    let mut cursor = RealtimeCursor::new(4);
    assert!(cursor.next_chunk(&master).is_none());
    assert_eq!(cursor.last_processed, 0);
}
