//! WAV framing for 16-bit PCM: the header layout is this engine's own
//! on-disk format, written and checked byte by byte.
//!
//! The encoder emits the canonical 44-byte RIFF/WAVE header followed by
//! little-endian samples; the canonical decoder accepts exactly that shape
//! (16-bit integer PCM), and a wider reader takes 16- and 32-bit integer
//! PCM. Float data and exotic headers are left to the host shell.

use vstd::prelude::*;
use crate::errors::RecorderError;

verus! {

/// Little-endian 16-bit field at `off`.
pub open spec fn le16_at(b: Seq<u8>, off: int) -> int {
    (b[off] as int) + 256 * (b[off + 1] as int)
}

/// Little-endian 32-bit field at `off`.
pub open spec fn le32_at(b: Seq<u8>, off: int) -> int {
    (b[off] as int) + 256 * (b[off + 1] as int) + 65536 * (b[off + 2] as int) + 16777216 * (b[off
        + 3] as int)
}

/// Two little-endian bytes of a 16-bit value.
pub open spec fn u16_le(v: int) -> Seq<u8> {
    seq![(v % 256) as u8, (v / 256 % 256) as u8]
}

/// Four little-endian bytes of a 32-bit value.
pub open spec fn u32_le(v: int) -> Seq<u8> {
    seq![
        (v % 256) as u8,
        (v / 256 % 256) as u8,
        (v / 65536 % 256) as u8,
        (v / 16777216 % 256) as u8,
    ]
}

/// The interleaved little-endian bytes of the sample data.
pub open spec fn pcm_bytes(s: Seq<i16>) -> Seq<u8> {
    Seq::new(
        2 * s.len(),
        |j: int|
            if j % 2 == 0 {
                ((s[j / 2] as u16) % 256) as u8
            } else {
                ((s[j / 2] as u16) / 256) as u8
            },
    )
}

/// The canonical 44-byte header for `n` 16-bit samples: RIFF chunk, "fmt "
/// chunk for integer PCM, and the "data" chunk length.
pub open spec fn wav_header(sample_rate: int, channels: int, n: int) -> Seq<u8> {
    seq![0x52u8, 0x49u8, 0x46u8, 0x46u8]  // "RIFF"
     + u32_le(36 + 2 * n) + seq![0x57u8, 0x41u8, 0x56u8, 0x45u8]  // "WAVE"
     + seq![0x66u8, 0x6du8, 0x74u8, 0x20u8]  // "fmt "
     + u32_le(16) + u16_le(1) + u16_le(channels) + u32_le(sample_rate) + u32_le(
        sample_rate * 2 * channels,
    ) + u16_le(2 * channels) + u16_le(16) + seq![0x64u8, 0x61u8, 0x74u8, 0x61u8]  // "data"
     + u32_le(2 * n)
}

/// A whole WAV file image.
pub open spec fn wav_bytes(sample_rate: int, channels: int, s: Seq<i16>) -> Seq<u8> {
    wav_header(sample_rate, channels, s.len() as int) + pcm_bytes(s)
}

/// The decoder accepts exactly the byte shape the encoder emits: 16-bit
/// integer PCM under the canonical header, sizes consistent.
pub open spec fn wav_parse_ok(b: Seq<u8>) -> bool {
    &&& b.len() >= 44
    &&& b[0] == 0x52 && b[1] == 0x49 && b[2] == 0x46 && b[3] == 0x46
    &&& b[8] == 0x57 && b[9] == 0x41 && b[10] == 0x56 && b[11] == 0x45
    &&& b[12] == 0x66 && b[13] == 0x6d && b[14] == 0x74 && b[15] == 0x20
    &&& le32_at(b, 16) == 16
    &&& le16_at(b, 20) == 1
    &&& 1 <= le16_at(b, 22)
    &&& le16_at(b, 34) == 16
    &&& b[36] == 0x64 && b[37] == 0x61 && b[38] == 0x74 && b[39] == 0x61
    &&& le32_at(b, 40) == b.len() - 44
    &&& (b.len() - 44) % 2 == 0
}

/// The samples held by a well-formed WAV image.
pub open spec fn wav_samples(b: Seq<u8>) -> Seq<i16> {
    Seq::new((((b.len() - 44) as int) / 2) as nat, |k: int| (le16_at(b, 44 + 2 * k) as u16) as i16)
}

/// A decoded WAV file: its format fields and its raw 16-bit samples.
#[derive(Debug)]
pub struct WavData {
    pub sample_rate: u32,
    pub channels: u16,
    pub bits_per_sample: u16,
    pub samples: Vec<i16>,
}

fn push_u16_le(out: &mut Vec<u8>, v: u16)
    ensures
        final(out)@ == old(out)@ + u16_le(v as int),
{
    out.push((v % 256) as u8);
    out.push((v / 256) as u8);
    proof {
        let vi = v as int;
        assert(vi / 256 % 256 == vi / 256) by (nonlinear_arith)
            requires 0 <= vi && vi < 65536;
        assert(out@ =~= old(out)@ + u16_le(v as int));
    }
}

fn push_u32_le(out: &mut Vec<u8>, v: u32)
    ensures
        final(out)@ == old(out)@ + u32_le(v as int),
{
    out.push((v % 256) as u8);
    out.push((v / 256 % 256) as u8);
    out.push((v / 65536 % 256) as u8);
    out.push((v / 16777216) as u8);
    proof {
        let vi = v as int;
        assert(vi / 16777216 % 256 == vi / 16777216) by (nonlinear_arith)
            requires 0 <= vi && vi < 0x1_0000_0000;
        assert(out@ =~= old(out)@ + u32_le(v as int));
    }
}

/// Frames 16-bit samples as a complete WAV file image.
pub fn encode_wav(samples: &Vec<i16>, sample_rate: u32, channels: u16) -> (r: Vec<u8>)
    requires
        1 <= channels <= 16,
        1 <= sample_rate <= 1000000,
        samples@.len() <= 0xFFF_FFFF,
    ensures
        r@ == wav_bytes(sample_rate as int, channels as int, samples@),
        r@.len() == 44 + 2 * samples@.len(),
{
    let n: usize = samples.len();
    let mut out: Vec<u8> = Vec::new();
    out.push(0x52);
    out.push(0x49);
    out.push(0x46);
    out.push(0x46);
    push_u32_le(&mut out, 36 + 2 * (n as u32));
    out.push(0x57);
    out.push(0x41);
    out.push(0x56);
    out.push(0x45);
    out.push(0x66);
    out.push(0x6d);
    out.push(0x74);
    out.push(0x20);
    push_u32_le(&mut out, 16);
    push_u16_le(&mut out, 1);
    push_u16_le(&mut out, channels);
    push_u32_le(&mut out, sample_rate);
    proof {
        let sr = sample_rate as int;
        let ci = channels as int;
        assert(sr * 2 * ci <= 1000000 * 2 * 16) by (nonlinear_arith)
            requires 1 <= sr && sr <= 1000000 && 1 <= ci && ci <= 16;
        assert(sr * 2 * ci >= 0) by (nonlinear_arith)
            requires sr >= 1 && ci >= 1;
    }
    push_u32_le(&mut out, sample_rate * 2 * (channels as u32));
    push_u16_le(&mut out, 2 * channels);
    push_u16_le(&mut out, 16);
    out.push(0x64);
    out.push(0x61);
    out.push(0x74);
    out.push(0x61);
    push_u32_le(&mut out, 2 * (n as u32));
    proof {
        assert(out@ =~= wav_header(sample_rate as int, channels as int, n as int));
    }
    let ghost header: Seq<u8> = out@;
    proof {
        assert(out@ =~= header + pcm_bytes(samples@.subrange(0, 0)));
    }
    let mut i: usize = 0;
    while i < n
        invariant
            n == samples@.len(),
            i <= n,
            header == wav_header(sample_rate as int, channels as int, n as int),
            out@ == header + pcm_bytes(samples@.subrange(0, i as int)),
        decreases n - i,
    {
        let u: u16 = #[verifier::truncate] (samples[i] as u16);
        out.push((u % 256) as u8);
        out.push((u / 256) as u8);
        proof {
            assert(out@ =~= header + pcm_bytes(samples@.subrange(0, i as int + 1)));
        }
        i = i + 1;
    }
    proof {
        assert(samples@.subrange(0, n as int) =~= samples@);
        assert(out@ =~= wav_bytes(sample_rate as int, channels as int, samples@));
    }
    out
}

fn read_u16_le(b: &Vec<u8>, off: usize) -> (v: u16)
    requires
        off + 2 <= b@.len(),
    ensures
        v as int == le16_at(b@, off as int),
{
    let n: usize = b.len();
    proof {
        assert(off + 2 <= n);
    }
    (b[off] as u16) + 256 * (b[off + 1] as u16)
}

fn read_u32_le(b: &Vec<u8>, off: usize) -> (v: u32)
    requires
        off + 4 <= b@.len(),
    ensures
        v as int == le32_at(b@, off as int),
{
    let n: usize = b.len();
    proof {
        assert(off + 4 <= n);
    }
    (b[off] as u32) + 256 * (b[off + 1] as u32) + 65536 * (b[off + 2] as u32) + 16777216 * (b[off
        + 3] as u32)
}

/// Parses a WAV file image of the canonical 16-bit PCM shape; anything else
/// is a [`RecorderError::DecodeError`].
pub fn decode_wav(bytes: &Vec<u8>) -> (r: Result<WavData, RecorderError>)
    ensures
        match r {
            Result::Ok(w) => {
                &&& wav_parse_ok(bytes@)
                &&& w.sample_rate as int == le32_at(bytes@, 24)
                &&& w.channels as int == le16_at(bytes@, 22)
                &&& w.bits_per_sample == 16
                &&& w.samples@ == wav_samples(bytes@)
            },
            Result::Err(e) => e == RecorderError::DecodeError && !wav_parse_ok(bytes@),
        },
{
    let n: usize = bytes.len();
    if n < 44 {
        return Err(RecorderError::DecodeError);
    }
    if !(bytes[0] == 0x52 && bytes[1] == 0x49 && bytes[2] == 0x46 && bytes[3] == 0x46) {
        return Err(RecorderError::DecodeError);
    }
    if !(bytes[8] == 0x57 && bytes[9] == 0x41 && bytes[10] == 0x56 && bytes[11] == 0x45) {
        return Err(RecorderError::DecodeError);
    }
    if !(bytes[12] == 0x66 && bytes[13] == 0x6d && bytes[14] == 0x74 && bytes[15] == 0x20) {
        return Err(RecorderError::DecodeError);
    }
    if read_u32_le(bytes, 16) != 16 {
        return Err(RecorderError::DecodeError);
    }
    if read_u16_le(bytes, 20) != 1 {
        return Err(RecorderError::DecodeError);
    }
    let channels: u16 = read_u16_le(bytes, 22);
    if channels < 1 {
        return Err(RecorderError::DecodeError);
    }
    if read_u16_le(bytes, 34) != 16 {
        return Err(RecorderError::DecodeError);
    }
    if !(bytes[36] == 0x64 && bytes[37] == 0x61 && bytes[38] == 0x74 && bytes[39] == 0x61) {
        return Err(RecorderError::DecodeError);
    }
    let data_len: u32 = read_u32_le(bytes, 40);
    if data_len as u64 != (n - 44) as u64 {
        return Err(RecorderError::DecodeError);
    }
    if (n - 44) % 2 != 0 {
        return Err(RecorderError::DecodeError);
    }
    let sample_rate: u32 = read_u32_le(bytes, 24);
    let count: usize = (n - 44) / 2;
    let mut samples: Vec<i16> = Vec::new();
    let mut k: usize = 0;
    while k < count
        invariant
            n == bytes@.len(),
            n >= 44,
            count == (n - 44) as int / 2,
            (n - 44) as int % 2 == 0,
            k <= count,
            samples@.len() == k as int,
            forall|j: int|
                0 <= j < k as int ==> #[trigger] samples@[j] == (le16_at(bytes@, 44 + 2 * j) as u16)
                    as i16,
        decreases count - k,
    {
        proof {
            let ki = k as int;
            let ci = count as int;
            let ni = n as int;
            assert(44 + 2 * ki + 2 <= ni) by (nonlinear_arith)
                requires
                    0 <= ki < ci,
                    ci == (ni - 44) / 2,
                    (ni - 44) % 2 == 0,
                    ni >= 44,
            ;
        }
        let v: u16 = read_u16_le(bytes, 44 + 2 * k);
        samples.push(v as i16);
        k = k + 1;
    }
    proof {
        assert(samples@ =~= wav_samples(bytes@));
    }
    Ok(WavData { sample_rate, channels, bits_per_sample: 16, samples })
}

/// Writing then reading a buffer preserves the sample count and every
/// sample exactly: the decoder accepts every image the encoder emits and
/// recovers the format fields and the data unchanged.
pub proof fn lemma_wav_round_trip(sample_rate: int, channels: int, s: Seq<i16>)
    requires
        1 <= channels <= 16,
        1 <= sample_rate <= 1000000,
        s.len() <= 0xFFF_FFFF,
    ensures
        wav_parse_ok(wav_bytes(sample_rate, channels, s)),
        le32_at(wav_bytes(sample_rate, channels, s), 24) == sample_rate,
        le16_at(wav_bytes(sample_rate, channels, s), 22) == channels,
        wav_samples(wav_bytes(sample_rate, channels, s)) == s,
{
    let b = wav_bytes(sample_rate, channels, s);
    let n = s.len() as int;
    assert(b.len() == 44 + 2 * n);
    lemma_le16_round(1);
    lemma_le16_round(channels);
    lemma_le16_round(16);
    lemma_le16_round(2 * channels);
    lemma_le32_round(16);
    lemma_le32_round(36 + 2 * n);
    lemma_le32_round(2 * n);
    lemma_le32_round(sample_rate);
    assert(sample_rate * 2 * channels <= 1000000 * 2 * 16) by (nonlinear_arith)
        requires 1 <= sample_rate && sample_rate <= 1000000 && 1 <= channels && channels <= 16;
    assert(sample_rate * 2 * channels >= 0) by (nonlinear_arith)
        requires sample_rate >= 1 && channels >= 1;
    lemma_le32_round(sample_rate * 2 * channels);
    assert(le32_at(b, 16) == 16);
    assert(le16_at(b, 20) == 1);
    assert(le16_at(b, 22) == channels);
    assert(le32_at(b, 24) == sample_rate);
    assert(le16_at(b, 34) == 16);
    assert(le32_at(b, 40) == 2 * n);
    assert((b.len() - 44) % 2 == 0);
    assert(wav_parse_ok(b));
    assert forall|k: int| 0 <= k < n implies wav_samples(b)[k] == s[k] by {
        let u = s[k] as u16;
        assert(b[44 + 2 * k] == pcm_bytes(s)[2 * k]);
        assert(b[44 + 2 * k + 1] == pcm_bytes(s)[2 * k + 1]);
        assert((2 * k) % 2 == 0 && (2 * k) / 2 == k && (2 * k + 1) % 2 == 1 && (2 * k + 1) / 2
            == k) by (nonlinear_arith);
        assert(le16_at(b, 44 + 2 * k) == (u as int) % 256 + 256 * ((u as int) / 256));
        let ui = u as int;
        assert(ui % 256 + 256 * (ui / 256) == ui) by (nonlinear_arith)
            requires 0 <= ui && ui < 65536;
        let x: i16 = s[k];
        assert(((x as u16) as i16) == x) by (bit_vector);
    }
    assert(wav_samples(b) =~= s);
}

/// Whole-file duration in seconds, rounded to nearest (half away from zero),
/// from the frame count and the sample rate.
pub open spec fn rounded_duration_seconds(frames: int, rate: int) -> int {
    (2 * frames + rate) / (2 * rate)
}

/// Computes the rounded whole-second duration from the format fields, the
/// fallback a meeting's length takes when no recognizer spans supply one.
pub fn duration_seconds_from(n_samples: usize, channels: u16, sample_rate: u32) -> (r: u64)
    requires
        1 <= sample_rate <= 1000000,
        1 <= channels <= 16,
        n_samples <= 0xFFF_FFFF,
    ensures
        r == rounded_duration_seconds(n_samples as int / channels as int, sample_rate as int),
{
    let frames: u64 = (n_samples as u64) / (channels as u64);
    proof {
        let ci = channels as int;
        let sl = n_samples as int;
        assert(sl / ci <= sl) by (nonlinear_arith)
            requires ci >= 1 && sl >= 0;
    }
    (2 * frames + sample_rate as u64) / (2 * sample_rate as u64)
}

/// The rounded duration of a decoded canonical file.
pub fn wav_duration_seconds(w: &WavData) -> (r: u64)
    requires
        1 <= w.sample_rate <= 1000000,
        1 <= w.channels <= 16,
        w.samples@.len() <= 0xFFF_FFFF,
    ensures
        r == rounded_duration_seconds(
            w.samples@.len() as int / w.channels as int,
            w.sample_rate as int,
        ),
{
    duration_seconds_from(w.samples.len(), w.channels, w.sample_rate)
}

/// Format facts reported for an audio file; durations and rates are integer
/// (milliseconds and kilobits) rather than fractional.
pub struct AudioQualityInfo {
    pub sample_rate: u32,
    pub channels: u16,
    pub bits_per_sample: u16,
    pub duration_millis: u64,
    pub file_size_bytes: u64,
    pub bitrate_kbps: u32,
}

/// Derives the quality report from the format fields: duration is
/// `frames * 1000 / rate` milliseconds and the bitrate is the file size in
/// bits over that duration, zero when the file holds no frames.
pub fn quality_info_from(
    sample_rate: u32,
    channels: u16,
    bits_per_sample: u16,
    n_samples: usize,
    file_size_bytes: u64,
) -> (r: AudioQualityInfo)
    requires
        1 <= sample_rate <= 1000000,
        1 <= channels <= 16,
        n_samples <= 0xFFF_FFFF,
        file_size_bytes <= 0xFFFF_FFFF,
    ensures
        r.sample_rate == sample_rate,
        r.channels == channels,
        r.bits_per_sample == bits_per_sample,
        r.duration_millis == n_samples as int / channels as int * 1000 / sample_rate as int,
        r.file_size_bytes == file_size_bytes,
        r.duration_millis > 0 ==> r.bitrate_kbps as int == {
            let exact = file_size_bytes as int * 8 * 1000 / (r.duration_millis as int) / 1000;
            if exact > 0xFFFF_FFFF {
                0xFFFF_FFFF as int
            } else {
                exact
            }
        },
        r.duration_millis == 0 ==> r.bitrate_kbps == 0,
{
    let frames: u64 = (n_samples as u64) / (channels as u64);
    proof {
        let ci = channels as int;
        let sl = n_samples as int;
        assert(sl / ci <= sl) by (nonlinear_arith)
            requires ci >= 1 && sl >= 0;
        let fi = frames as int;
        assert(fi * 1000 <= 0xFFF_FFFF * 1000) by (nonlinear_arith)
            requires 0 <= fi && fi <= 0xFFF_FFFF;
    }
    let duration_millis: u64 = frames * 1000 / (sample_rate as u64);
    proof {
        let sr = sample_rate as int;
        let fi = frames as int;
        assert(fi * 1000 / sr <= fi * 1000) by (nonlinear_arith)
            requires sr >= 1 && fi >= 0;
    }
    let bitrate_kbps: u32 = if duration_millis > 0 {
        let bits: u64 = file_size_bytes * 8 * 1000;
        let r64: u64 = bits / duration_millis / 1000;
        proof {
            let bi = bits as int;
            let di = duration_millis as int;
            assert(bi / di / 1000 <= bi) by (nonlinear_arith)
                requires di >= 1 && bi >= 0;
        }
        if r64 > 0xFFFF_FFFF {
            0xFFFF_FFFF
        } else {
            r64 as u32
        }
    } else {
        0
    };
    AudioQualityInfo {
        sample_rate,
        channels,
        bits_per_sample,
        duration_millis,
        file_size_bytes,
        bitrate_kbps,
    }
}

/// The quality report of a decoded canonical file.
pub fn audio_quality_info(w: &WavData, file_size_bytes: u64) -> (r: AudioQualityInfo)
    requires
        1 <= w.sample_rate <= 1000000,
        1 <= w.channels <= 16,
        w.samples@.len() <= 0xFFF_FFFF,
        file_size_bytes <= 0xFFFF_FFFF,
    ensures
        r.sample_rate == w.sample_rate,
        r.channels == w.channels,
        r.bits_per_sample == w.bits_per_sample,
        r.duration_millis == w.samples@.len() as int / w.channels as int * 1000 / w.sample_rate
            as int,
        r.file_size_bytes == file_size_bytes,
        r.duration_millis > 0 ==> r.bitrate_kbps as int == {
            let exact = file_size_bytes as int * 8 * 1000 / (r.duration_millis as int) / 1000;
            if exact > 0xFFFF_FFFF {
                0xFFFF_FFFF as int
            } else {
                exact
            }
        },
        r.duration_millis == 0 ==> r.bitrate_kbps == 0,
{
    quality_info_from(w.sample_rate, w.channels, w.bits_per_sample, w.samples.len(), file_size_bytes)
}

proof fn lemma_le16_round(v: int)
    requires
        0 <= v < 65536,
    ensures
        le16_at(u16_le(v), 0) == v,
{
    assert(v % 256 + 256 * (v / 256 % 256) == v) by (nonlinear_arith)
        requires 0 <= v && v < 65536;
}

proof fn lemma_le32_round(v: int)
    requires
        0 <= v < 0x1_0000_0000,
    ensures
        le32_at(u32_le(v), 0) == v,
{
    assert(v % 256 + 256 * (v / 256 % 256) + 65536 * (v / 65536 % 256) + 16777216 * (v / 16777216
        % 256) == v) by (nonlinear_arith)
        requires 0 <= v && v < 0x1_0000_0000;
}

/// The shape the wider reader accepts: the canonical header with integer
/// PCM of 16 or 32 bits, sizes consistent with the sample width.
pub open spec fn wav_parse_pcm_ok(b: Seq<u8>) -> bool {
    &&& b.len() >= 44
    &&& b[0] == 0x52 && b[1] == 0x49 && b[2] == 0x46 && b[3] == 0x46
    &&& b[8] == 0x57 && b[9] == 0x41 && b[10] == 0x56 && b[11] == 0x45
    &&& b[12] == 0x66 && b[13] == 0x6d && b[14] == 0x74 && b[15] == 0x20
    &&& le32_at(b, 16) == 16
    &&& le16_at(b, 20) == 1
    &&& 1 <= le16_at(b, 22)
    &&& (le16_at(b, 34) == 16 || le16_at(b, 34) == 32)
    &&& b[36] == 0x64 && b[37] == 0x61 && b[38] == 0x74 && b[39] == 0x61
    &&& le32_at(b, 40) == b.len() - 44
    &&& (b.len() - 44) % (le16_at(b, 34) / 8) == 0
}

/// The raw PCM values a wider image holds: 16-bit samples widened with
/// their sign, 32-bit samples as they stand.
pub open spec fn wav_pcm_samples(b: Seq<u8>) -> Seq<i32> {
    if le16_at(b, 34) == 16 {
        Seq::new(
            (((b.len() - 44) as int) / 2) as nat,
            |k: int| (((le16_at(b, 44 + 2 * k) as u16) as i16) as i32),
        )
    } else {
        Seq::new(
            (((b.len() - 44) as int) / 4) as nat,
            |k: int| ((le32_at(b, 44 + 4 * k) as u32) as i32),
        )
    }
}

/// A decoded file in raw PCM form: the format fields and every sample as a
/// signed value of its stored width.
#[derive(Debug)]
pub struct WavPcm {
    pub sample_rate: u32,
    pub channels: u16,
    pub bits_per_sample: u16,
    pub samples: Vec<i32>,
}

/// Parses a WAV image holding 16- or 32-bit integer PCM; anything else —
/// float data included, which this crate cannot carry — is a
/// [`RecorderError::DecodeError`] for the host shell to handle.
pub fn decode_wav_pcm(bytes: &Vec<u8>) -> (r: Result<WavPcm, RecorderError>)
    ensures
        match r {
            Result::Ok(w) => {
                &&& wav_parse_pcm_ok(bytes@)
                &&& w.sample_rate as int == le32_at(bytes@, 24)
                &&& w.channels as int == le16_at(bytes@, 22)
                &&& w.bits_per_sample as int == le16_at(bytes@, 34)
                &&& w.samples@ == wav_pcm_samples(bytes@)
            },
            Result::Err(e) => e == RecorderError::DecodeError && !wav_parse_pcm_ok(bytes@),
        },
{
    let n: usize = bytes.len();
    if n < 44 {
        return Err(RecorderError::DecodeError);
    }
    if !(bytes[0] == 0x52 && bytes[1] == 0x49 && bytes[2] == 0x46 && bytes[3] == 0x46) {
        return Err(RecorderError::DecodeError);
    }
    if !(bytes[8] == 0x57 && bytes[9] == 0x41 && bytes[10] == 0x56 && bytes[11] == 0x45) {
        return Err(RecorderError::DecodeError);
    }
    if !(bytes[12] == 0x66 && bytes[13] == 0x6d && bytes[14] == 0x74 && bytes[15] == 0x20) {
        return Err(RecorderError::DecodeError);
    }
    if read_u32_le(bytes, 16) != 16 {
        return Err(RecorderError::DecodeError);
    }
    if read_u16_le(bytes, 20) != 1 {
        return Err(RecorderError::DecodeError);
    }
    let channels: u16 = read_u16_le(bytes, 22);
    if channels < 1 {
        return Err(RecorderError::DecodeError);
    }
    let bits: u16 = read_u16_le(bytes, 34);
    if bits != 16 && bits != 32 {
        return Err(RecorderError::DecodeError);
    }
    if !(bytes[36] == 0x64 && bytes[37] == 0x61 && bytes[38] == 0x74 && bytes[39] == 0x61) {
        return Err(RecorderError::DecodeError);
    }
    let data_len: u32 = read_u32_le(bytes, 40);
    if data_len as u64 != (n - 44) as u64 {
        return Err(RecorderError::DecodeError);
    }
    let stride: usize = (bits / 8) as usize;
    if (n - 44) % stride != 0 {
        return Err(RecorderError::DecodeError);
    }
    let sample_rate: u32 = read_u32_le(bytes, 24);
    let count: usize = (n - 44) / stride;
    let mut samples: Vec<i32> = Vec::new();
    if bits == 16 {
        let mut k: usize = 0;
        while k < count
            invariant
                n == bytes@.len(),
                n >= 44,
                count == (n - 44) as int / 2,
                (n - 44) as int % 2 == 0,
                k <= count,
                samples@.len() == k as int,
                forall|j: int|
                    0 <= j < k as int ==> #[trigger] samples@[j] == (((le16_at(
                        bytes@,
                        44 + 2 * j,
                    ) as u16) as i16) as i32),
            decreases count - k,
        {
            proof {
                let ki = k as int;
                let ci = count as int;
                let ni = n as int;
                assert(44 + 2 * ki + 2 <= ni) by (nonlinear_arith)
                    requires
                        0 <= ki < ci,
                        ci == (ni - 44) / 2,
                        (ni - 44) % 2 == 0,
                        ni >= 44,
                ;
            }
            let v: u16 = read_u16_le(bytes, 44 + 2 * k);
            samples.push((v as i16) as i32);
            k = k + 1;
        }
    } else {
        let mut k: usize = 0;
        while k < count
            invariant
                n == bytes@.len(),
                n >= 44,
                count == (n - 44) as int / 4,
                (n - 44) as int % 4 == 0,
                k <= count,
                samples@.len() == k as int,
                forall|j: int|
                    0 <= j < k as int ==> #[trigger] samples@[j] == ((le32_at(
                        bytes@,
                        44 + 4 * j,
                    ) as u32) as i32),
            decreases count - k,
        {
            proof {
                let ki = k as int;
                let ci = count as int;
                let ni = n as int;
                assert(44 + 4 * ki + 4 <= ni) by (nonlinear_arith)
                    requires
                        0 <= ki < ci,
                        ci == (ni - 44) / 4,
                        (ni - 44) % 4 == 0,
                        ni >= 44,
                ;
            }
            let v: u32 = read_u32_le(bytes, 44 + 4 * k);
            samples.push(v as i32);
            k = k + 1;
        }
    }
    proof {
        assert(samples@ =~= wav_pcm_samples(bytes@));
    }
    Ok(WavPcm { sample_rate, channels, bits_per_sample: bits, samples })
}

} // verus!
