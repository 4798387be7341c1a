//! Decoding recorded loops from WAV files held in memory.

use crate::fixed::div_floor;
use vstd::arithmetic::div_mod::{lemma_div_is_ordered, lemma_div_multiples_vanish};
use vstd::prelude::*;
use vstd::slice::slice_subrange;
use vstd::utf8::valid_utf8;

verus! {

/// The format chunk of a WAV file.
#[derive(Debug, Clone, Copy, PartialEq, Eq)]
pub struct WavHeader {
    pub audio_format: u16,
    pub channel_count: u16,
    pub sampling_rate: u32,
    pub bytes_per_second: u32,
    pub bytes_per_sample: u16,
    pub bits_per_sample: u16,
}

/// The samples of a WAV file as they are stored, by bit depth. Samples of
/// 24 bits stand in the upper three bytes of 32.
#[derive(Debug, PartialEq, Eq)]
pub enum SampleData {
    Eight(Vec<u8>),
    Sixteen(Vec<i16>),
    TwentyFour(Vec<i32>),
    Empty,
}

/// The samples of a WAV file as sequences.
pub enum Payload {
    Eight(Seq<u8>),
    Sixteen(Seq<i16>),
    TwentyFour(Seq<i32>),
    Empty,
}

impl View for SampleData {
    type V = Payload;

    open spec fn view(&self) -> Payload {
        match self {
            SampleData::Eight(v) => Payload::Eight(v@),
            SampleData::Sixteen(v) => Payload::Sixteen(v@),
            SampleData::TwentyFour(v) => Payload::TwentyFour(v@),
            SampleData::Empty => Payload::Empty,
        }
    }
}

/// Why a file gave no loop.
#[derive(Debug, Clone, Copy, PartialEq, Eq)]
pub enum DecodeError {
    /// The header of a chunk does not lie within the file, or a chunk is
    /// named in bytes that are no text.
    Malformed,
    /// The decoder refused the file.
    Rejected,
}

/// The amplitude that stands for 1.
pub const FULL_SCALE: i32 = 0x7FFF_FFFF;

/// The number that four bytes hold, lowest byte first.
pub open spec fn le32(bytes: Seq<u8>, at: int) -> int {
    bytes[at] + 0x100 * bytes[at + 1] + 0x1_0000 * bytes[at + 2] + 0x100_0000 * bytes[at + 3]
}

/// The four bytes at `at` are text: valid UTF-8.
pub open spec fn text4(bytes: Seq<u8>, at: int) -> bool {
    valid_utf8(bytes.subrange(at, at + 4))
}

/// The four bytes at `at` spell `WAVE`.
pub open spec fn spells_wave(bytes: Seq<u8>, at: int) -> bool {
    bytes[at] == 0x57 && bytes[at + 1] == 0x41 && bytes[at + 2] == 0x56 && bytes[at + 3] == 0x45
}

/// Where the chunk that starts at `at` ends: behind its name, its length,
/// its contents and the byte that pads them to an even count.
pub open spec fn chunk_end(bytes: Seq<u8>, at: int) -> int {
    at + 8 + le32(bytes, at + 4) + le32(bytes, at + 4) % 2
}

/// The chunks from `at` up to `end` are sound: the name and the length of
/// each lie within the file, and the name is text. Where the contents of
/// a chunk end is read from its length alone, whether they lie within the
/// file or not.
pub open spec fn chunks_sound(bytes: Seq<u8>, at: int, end: int) -> bool
    decreases
        (if at + 8 <= bytes.len() {
            bytes.len() - at
        } else {
            0
        }),
{
    if at >= end {
        true
    } else if at < 0 || at + 8 > bytes.len() {
        false
    } else {
        text4(bytes, at) && chunks_sound(bytes, chunk_end(bytes, at), end)
    }
}

/// The file can be handed to the decoder: it is too short to hold a form
/// type, or its form type is text and, where that is `WAVE`, the chunks
/// that the outer length spans are sound.
pub open spec fn decodable(bytes: Seq<u8>) -> bool {
    bytes.len() < 12 || (text4(bytes, 8) && (spells_wave(bytes, 8) ==> chunks_sound(
        bytes,
        12,
        4 + le32(bytes, 4),
    )))
}

/// Reads four bytes as a number, lowest byte first.
fn read_le32(bytes: &[u8], at: usize) -> (r: u64)
    requires
        at + 4 <= bytes@.len(),
    ensures
        r == le32(bytes@, at as int),
        r <= 0xFFFF_FFFF,
{
    bytes[at] as u64 + 0x100 * (bytes[at + 1] as u64) + 0x1_0000 * (bytes[at + 2] as u64)
        + 0x100_0000 * (bytes[at + 3] as u64)
}

/// `std::str::from_utf8`, asked only whether it accepts `bytes`: it does
/// where they are valid UTF-8, and there only.
#[verifier::external_body]
fn is_text(bytes: &[u8]) -> (ok: bool)
    ensures
        ok == valid_utf8(bytes@),
{
    match std::str::from_utf8(bytes) {
        Ok(_) => true,
        Err(_) => false,
    }
}

/// Whether the four bytes at `at` are text.
fn is_text4(bytes: &[u8], at: usize) -> (r: bool)
    requires
        at + 4 <= bytes@.len(),
    ensures
        r == text4(bytes@, at as int),
{
    let end = bytes.len() - (bytes.len() - at - 4);
    is_text(slice_subrange(bytes, at, end))
}

/// Whether the file can be handed to the decoder.
pub fn check_chunks(bytes: &[u8]) -> (ok: bool)
    ensures
        ok == decodable(bytes@),
{
    let n = bytes.len();
    if n < 12 {
        return true;
    }
    if !is_text4(bytes, 8) {
        return false;
    }
    if !(bytes[8] == 0x57 && bytes[9] == 0x41 && bytes[10] == 0x56 && bytes[11] == 0x45) {
        return true;
    }
    let end: u64 = 4 + read_le32(bytes, 4);
    let mut at: usize = 12;
    while (at as u64) < end
        invariant
            n == bytes@.len(),
            12 <= at <= n,
            end == 4 + le32(bytes@, 4),
            decodable(bytes@) == chunks_sound(bytes@, at as int, end as int),
        decreases n - at,
    {
        if n - at < 8 {
            return false;
        }
        if !is_text4(bytes, at) {
            return false;
        }
        let len = read_le32(bytes, at + 4);
        let padded: u64 = len + len % 2;
        let room: u64 = (n - at - 8) as u64;
        if padded > room {
            let next: u128 = at as u128 + 8 + padded as u128;
            proof {
                assert(next == chunk_end(bytes@, at as int));
                assert(next > n);
                assert(next >= end ==> chunks_sound(bytes@, next as int, end as int));
                assert(next < end ==> !chunks_sound(bytes@, next as int, end as int));
            }
            return next >= end as u128;
        }
        at = at + 8 + padded as usize;
    }
    true
}

/// An 8-bit sample as a fraction of `FULL_SCALE`: the sample over 255.
pub open spec fn amplitude8(sample: u8) -> int {
    sample * FULL_SCALE / 255
}

/// A 16-bit sample as a fraction of `FULL_SCALE`: the sample over 32768.
pub open spec fn amplitude16(sample: i16) -> int {
    sample * FULL_SCALE / 32768
}

/// A 24-bit sample, which fills the range of 32 bits, as a fraction of
/// `FULL_SCALE`: the sample over the full range.
pub open spec fn amplitude24(sample: i32) -> int {
    sample * FULL_SCALE / 0x8000_0000
}

/// The amplitudes of a payload, frame by frame; none for an empty one.
pub open spec fn normalized(p: Payload) -> Seq<i32> {
    match p {
        Payload::Eight(v) => Seq::new(v.len(), |k: int| amplitude8(v[k]) as i32),
        Payload::Sixteen(v) => Seq::new(v.len(), |k: int| amplitude16(v[k]) as i32),
        Payload::TwentyFour(v) => Seq::new(v.len(), |k: int| amplitude24(v[k]) as i32),
        Payload::Empty => Seq::empty(),
    }
}

/// A sample of no more than `divisor` in size has an amplitude of no more
/// than `FULL_SCALE`.
proof fn lemma_amplitude(sample: int, divisor: int)
    requires
        0 < divisor,
        -divisor <= sample <= divisor,
    ensures
        -FULL_SCALE <= sample * FULL_SCALE / divisor <= FULL_SCALE,
        sample >= 0 ==> sample * FULL_SCALE / divisor >= 0,
{
    let full = FULL_SCALE as int;
    assert(-full * divisor <= sample * full <= full * divisor) by (nonlinear_arith)
        requires
            -divisor <= sample <= divisor,
            full >= 0,
    ;
    lemma_div_is_ordered(-full * divisor, sample * full, divisor);
    lemma_div_is_ordered(sample * full, full * divisor, divisor);
    lemma_div_multiples_vanish(-full, divisor);
    lemma_div_multiples_vanish(full, divisor);
    assert(-full * divisor == divisor * (-full) && full * divisor == divisor * full)
        by (nonlinear_arith);
    if sample >= 0 {
        assert(sample * full >= 0) by (nonlinear_arith)
            requires
                sample >= 0,
                full >= 0,
        ;
        vstd::arithmetic::div_mod::lemma_div_pos_is_pos(sample * full, divisor);
    }
}

/// Every amplitude lies between minus one and one.
pub proof fn lemma_normalized_range(p: Payload, k: int)
    requires
        0 <= k < normalized(p).len(),
    ensures
        -FULL_SCALE <= normalized(p)[k] <= FULL_SCALE,
        p is Eight ==> normalized(p)[k] >= 0,
{
    match p {
        Payload::Eight(v) => {
            lemma_amplitude(v[k] as int, 255);
        },
        Payload::Sixteen(v) => {
            lemma_amplitude(v[k] as int, 32768);
        },
        Payload::TwentyFour(v) => {
            lemma_amplitude(v[k] as int, 0x8000_0000);
        },
        Payload::Empty => {},
    }
}

/// `sample * FULL_SCALE / divisor`, rounded down.
fn amplitude(sample: i64, divisor: u32) -> (r: i32)
    requires
        0 < divisor,
        -divisor <= sample <= divisor,
    ensures
        r == sample * FULL_SCALE / (divisor as int),
{
    proof {
        lemma_amplitude(sample as int, divisor as int);
    }
    assert(-0x1_0000_0000 * 0x7FFF_FFFF <= sample * FULL_SCALE <= 0x1_0000_0000 * 0x7FFF_FFFF)
        by (nonlinear_arith)
        requires
            -0x1_0000_0000 <= sample <= 0x1_0000_0000,
            FULL_SCALE == 0x7FFF_FFFF,
    ;
    div_floor(sample * (FULL_SCALE as i64), divisor) as i32
}

/// Turns stored samples into amplitudes.
pub fn normalize(data: &SampleData) -> (frames: Vec<i32>)
    ensures
        frames@ == normalized(data@),
{
    let mut frames: Vec<i32> = Vec::new();
    match data {
        SampleData::Eight(v) => {
            let mut k: usize = 0;
            while k < v.len()
                invariant
                    k <= v@.len(),
                    frames@.len() == k,
                    forall|i: int| 0 <= i < k ==> #[trigger] frames@[i] == amplitude8(v@[i]) as i32,
                decreases v@.len() - k,
            {
                frames.push(amplitude(v[k] as i64, 255));
                k += 1;
            }
            assert(frames@ =~= normalized(data@));
        },
        SampleData::Sixteen(v) => {
            let mut k: usize = 0;
            while k < v.len()
                invariant
                    k <= v@.len(),
                    frames@.len() == k,
                    forall|i: int| 0 <= i < k ==> #[trigger] frames@[i] == amplitude16(v@[i]) as i32,
                decreases v@.len() - k,
            {
                frames.push(amplitude(v[k] as i64, 32768));
                k += 1;
            }
            assert(frames@ =~= normalized(data@));
        },
        SampleData::TwentyFour(v) => {
            let mut k: usize = 0;
            while k < v.len()
                invariant
                    k <= v@.len(),
                    frames@.len() == k,
                    forall|i: int| 0 <= i < k ==> #[trigger] frames@[i] == amplitude24(v@[i]) as i32,
                decreases v@.len() - k,
            {
                frames.push(amplitude(v[k] as i64, 0x8000_0000));
                k += 1;
            }
            assert(frames@ =~= normalized(data@));
        },
        SampleData::Empty => {
            assert(frames@ =~= normalized(data@));
        },
    }
    frames
}

/// What the decoder makes of a file: its header and its samples, or
/// nothing where it refuses the file.
pub uninterp spec fn wav_payload(bytes: Seq<u8>) -> Option<(WavHeader, Payload)>;

/// `std::io::Error`: what the decoder returns where it refuses a file.
/// Nothing is read from it.
#[verifier::external_type_specification]
#[verifier::external_body]
pub struct ExIoError(std::io::Error);

/// `wav::read` on a reader over `bytes`, with the header and the samples
/// it returns moved field by field into this crate's types.
///
/// The decoder reads the form type as text and walks the chunks that the
/// outer length spans, reading each one's name as text; it stops the
/// program where a name is no text or the header of a chunk does not lie
/// within the file. `decodable` rules both out. Before it reads the
/// contents of a format or data chunk it allocates the length that the
/// chunk declares, four gigabytes at most; contents that are cut short it
/// then refuses with an error. Nothing is claimed of what it returns but
/// that it depends on the bytes alone.
#[verifier::external_body]
fn wav_read(bytes: &[u8]) -> (r: Result<(WavHeader, SampleData), std::io::Error>)
    requires
        decodable(bytes@),
    ensures
        r is Ok <==> wav_payload(bytes@) is Some,
        r matches Ok(x) ==> wav_payload(bytes@) == Some((x.0, x.1@)),
{
    let (h, d) = wav::read(&mut std::io::Cursor::new(bytes))?;
    let header = WavHeader { audio_format: h.audio_format, channel_count: h.channel_count,
        sampling_rate: h.sampling_rate, bytes_per_second: h.bytes_per_second,
        bytes_per_sample: h.bytes_per_sample, bits_per_sample: h.bits_per_sample };
    let data = match d {
        wav::BitDepth::Eight(v) => SampleData::Eight(v),
        wav::BitDepth::Sixteen(v) => SampleData::Sixteen(v),
        wav::BitDepth::TwentyFour(v) => SampleData::TwentyFour(v),
        wav::BitDepth::Empty => SampleData::Empty,
    };
    Ok((header, data))
}

/// Decodes a WAV file into its header and its amplitudes.
///
/// A file whose chunks are not sound is malformed; a sound file that the
/// decoder refuses is rejected; any other gives the decoder's header and
/// the amplitudes of the decoder's samples.
pub fn read_wav_f32(bytes: &[u8]) -> (r: Result<(WavHeader, Vec<i32>), DecodeError>)
    ensures
        !decodable(bytes@) ==> r == Err::<(WavHeader, Vec<i32>), DecodeError>(
            DecodeError::Malformed,
        ),
        decodable(bytes@) && wav_payload(bytes@) is None ==> r == Err::<
            (WavHeader, Vec<i32>),
            DecodeError,
        >(DecodeError::Rejected),
        decodable(bytes@) ==> (wav_payload(bytes@) matches Some(found) ==> (r matches Ok(x) && x.0
            == found.0 && x.1@ == normalized(found.1))),
{
    if !check_chunks(bytes) {
        return Err(DecodeError::Malformed);
    }
    match wav_read(bytes) {
        Ok(found) => {
            let frames = normalize(&found.1);
            Ok((found.0, frames))
        },
        Err(_) => Err(DecodeError::Rejected),
    }
}

} // verus!
