//! The periodic mixing task and the realtime chunk cursor, as pure steps
//! over the shared buffers: each tick drains the new samples of both
//! sources into the master buffer, and the cursor hands the recognizer
//! non-overlapping, boundary-aligned chunks of it.

use vstd::prelude::*;
use crate::sample::{
    mix_soft, soft_clip, mix_sum, samples_within, FX_ONE, FX_LIMIT, GAIN_MAX_CENTI,
};

verus! {

/// High-water marks over the two source buffers.
pub struct Mixer {
    pub last_mic: usize,
    pub last_system: usize,
}

impl Mixer {
    /// A mixer that has consumed nothing.
    pub fn new() -> (r: Mixer)
        ensures
            r.last_mic == 0,
            r.last_system == 0,
    {
        Mixer { last_mic: 0, last_system: 0 }
    }

    /// One 100 ms tick: mixes the samples past each high-water mark with
    /// the current gains, appends the result to the master buffer, and
    /// advances both marks to the buffer ends. The master gains exactly
    /// the longer of the two new slices — never more than both together —
    /// and stays within full scale.
    pub fn tick(
        &mut self,
        mic: &Vec<i32>,
        system: &Vec<i32>,
        mic_gain_centi: u32,
        system_gain_centi: u32,
        master: &mut Vec<i32>,
    )
        requires
            old(self).last_mic <= mic@.len(),
            old(self).last_system <= system@.len(),
            mic_gain_centi <= GAIN_MAX_CENTI,
            system_gain_centi <= GAIN_MAX_CENTI,
            samples_within(mic@, FX_LIMIT as int),
            samples_within(system@, FX_LIMIT as int),
            samples_within(old(master)@, FX_ONE as int),
            old(master)@.len() <= old(self).last_mic + old(self).last_system,
        ensures
            final(self).last_mic == mic@.len(),
            final(self).last_system == system@.len(),
            final(master)@.len() == old(master)@.len() + (if mic@.len() - old(self).last_mic
                >= system@.len() - old(self).last_system {
                mic@.len() - old(self).last_mic
            } else {
                system@.len() - old(self).last_system
            }),
            final(master)@.subrange(0, old(master)@.len() as int) == old(master)@,
            forall|i: int|
                old(master)@.len() <= i < final(master)@.len() ==> #[trigger] final(master)@[i]
                    == soft_clip(
                    mix_sum(
                        mic@.skip(old(self).last_mic as int),
                        system@.skip(old(self).last_system as int),
                        mic_gain_centi as int,
                        system_gain_centi as int,
                        i - old(master)@.len(),
                    ),
                ),
            samples_within(final(master)@, FX_ONE as int),
            final(master)@.len() <= final(self).last_mic + final(self).last_system,
    {
        let ghost old_master = master@;
        let new_mic: Vec<i32> = copy_from(mic, self.last_mic);
        let new_system: Vec<i32> = copy_from(system, self.last_system);
        let mixed: Vec<i32> = mix_soft(&new_mic, &new_system, mic_gain_centi, system_gain_centi);
        let mut j: usize = 0;
        let n: usize = mixed.len();
        while j < n
            invariant
                n == mixed@.len(),
                j <= n,
                master@ == old_master + mixed@.take(j as int),
                samples_within(mixed@, FX_ONE as int),
                samples_within(old_master, FX_ONE as int),
                samples_within(master@, FX_ONE as int),
            decreases n - j,
        {
            master.push(mixed[j]);
            proof {
                assert(master@ =~= old_master + mixed@.take(j as int + 1));
            }
            j = j + 1;
        }
        self.last_mic = mic.len();
        self.last_system = system.len();
        proof {
            assert(mixed@.take(n as int) =~= mixed@);
            assert(master@.subrange(0, old_master.len() as int) =~= old_master);
        }
    }
}

/// Copies `v[from..]` into a fresh buffer.
fn copy_from(v: &Vec<i32>, from: usize) -> (r: Vec<i32>)
    requires
        from <= v@.len(),
    ensures
        r@ == v@.skip(from as int),
{
    let n: usize = v.len();
    let mut out: Vec<i32> = Vec::new();
    let mut i: usize = from;
    while i < n
        invariant
            from <= i <= n,
            n == v@.len(),
            out@ == v@.subrange(from as int, i as int),
        decreases n - i,
    {
        out.push(v[i]);
        proof {
            assert(out@ =~= v@.subrange(from as int, i as int + 1));
        }
        i = i + 1;
    }
    proof {
        assert(v@.subrange(from as int, n as int) =~= v@.skip(from as int));
    }
    out
}

/// The realtime transcription cursor over the master buffer.
pub struct RealtimeCursor {
    pub last_processed: usize,
    pub chunk_size: usize,
}

impl RealtimeCursor {
    /// A cursor at the start of the master buffer.
    pub fn new(chunk_size: usize) -> (r: RealtimeCursor)
        requires
            chunk_size >= 1,
        ensures
            r.last_processed == 0,
            r.chunk_size == chunk_size,
    {
        RealtimeCursor { last_processed: 0, chunk_size }
    }

    /// Takes the next chunk when one full chunk of unprocessed samples is
    /// available, advancing the cursor past it; otherwise changes nothing.
    /// The cursor only ever advances, so successive chunks cover disjoint,
    /// consecutive ranges of the master buffer.
    pub fn next_chunk(&mut self, master: &Vec<i32>) -> (r: Option<Vec<i32>>)
        requires
            old(self).last_processed + old(self).chunk_size <= usize::MAX,
        ensures
            final(self).chunk_size == old(self).chunk_size,
            match r {
                Option::Some(c) => {
                    &&& master@.len() >= old(self).last_processed + old(self).chunk_size
                    &&& c@ == master@.subrange(
                        old(self).last_processed as int,
                        old(self).last_processed + old(self).chunk_size,
                    )
                    &&& final(self).last_processed == old(self).last_processed + old(
                        self,
                    ).chunk_size
                },
                Option::None => {
                    &&& master@.len() < old(self).last_processed + old(self).chunk_size
                    &&& *final(self) == *old(self)
                },
            },
    {
        if master.len() >= self.last_processed + self.chunk_size {
            let endpoint: usize = self.last_processed + self.chunk_size;
            let mut chunk: Vec<i32> = Vec::new();
            let mut i: usize = self.last_processed;
            while i < endpoint
                invariant
                    self.last_processed <= i <= endpoint,
                    endpoint <= master@.len(),
                    chunk@ == master@.subrange(self.last_processed as int, i as int),
                decreases endpoint - i,
            {
                chunk.push(master[i]);
                proof {
                    assert(chunk@ =~= master@.subrange(self.last_processed as int, i as int + 1));
                }
                i = i + 1;
            }
            self.last_processed = endpoint;
            Some(chunk)
        } else {
            None
        }
    }
}

/// Chunk ranges never overlap: once the cursor has passed a chunk, the
/// range of any later chunk starts at or after the end of the earlier one
/// and the two share no sample index.
pub proof fn lemma_chunk_ranges_disjoint(c1: int, c2: int, k: int, x: int)
    requires
        k >= 1,
        c2 >= c1 + k,
        c1 <= x < c1 + k,
    ensures
        !(c2 <= x < c2 + k),
{
}

/// Chunk extraction keeps the cursor aligned to chunk boundaries: starting
/// from an aligned cursor, the cursor after a take is aligned again.
pub proof fn lemma_cursor_stays_aligned(last: int, chunk: int)
    requires
        chunk >= 1,
        last % chunk == 0,
    ensures
        (last + chunk) % chunk == 0,
{
    assert((last + chunk) % chunk == 0) by (nonlinear_arith)
        requires chunk >= 1 && last % chunk == 0;
}

/// The master buffer never outgrows its sources: with each source bounded
/// by what a rate-limited device can produce in the elapsed time, the
/// master holds at most both bounds together. The wall-clock bound on the
/// sources themselves belongs to the devices, not to this engine.
pub proof fn lemma_master_bounded_by_sources(
    last_mic: int,
    last_system: int,
    master_len: int,
    source_cap: int,
)
    requires
        master_len <= last_mic + last_system,
        last_mic <= source_cap,
        last_system <= source_cap,
    ensures
        master_len <= 2 * source_cap,
{
}

} // verus!
