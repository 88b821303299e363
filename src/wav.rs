//! The WAV codec: a RIFF/WAVE container of chunks read into sample words
//! and written from an audio buffer.
//!
//! A chunk is a 4-byte identifier, a little-endian `u32` size, `size` bytes
//! of payload, and one pad byte when `size` is odd. Decoding reads the `fmt `
//! and `data` chunks and skips every other one (`JUNK` among them).
use vstd::prelude::*;

use crate::buffer::AudioBuffer;
use crate::bytes::{
    le16, le16_bytes, le32, le32_bytes, lemma_le16_round_trip, lemma_le32_round_trip, push_le16,
    push_le32, read_u16_le, read_u32_le,
};

verus! {

/// The largest payload of one `data` chunk that the encoder writes (1 GiB).
pub const MAX_CHUNK_BYTES: usize = 0x4000_0000;

/// The number of samples that fill a `data` chunk of `MAX_CHUNK_BYTES`.
pub const MAX_CHUNK_SAMPLES: usize = 0x1000_0000;

/// The sample rate of a decoded file that has no format chunk.
pub const DEFAULT_SAMPLE_RATE: u32 = 48_000;

/// The channel count of a decoded file that has no format chunk.
pub const DEFAULT_CHANNEL_COUNT: usize = 2;

/// Format id of 16-bit signed integer PCM.
pub const FORMAT_PCM16: u16 = 1;

/// Format id of 32-bit IEEE-754 floating point.
pub const FORMAT_FLOAT32: u16 = 3;

/// `RIFF`, the identifier of the container.
pub const RIFF_IDENTIFIER: [u8; 4] = [0x52, 0x49, 0x46, 0x46];

/// `WAVE`, the form type of the container.
pub const WAVE_IDENTIFIER: [u8; 4] = [0x57, 0x41, 0x56, 0x45];

/// `fmt `, the identifier of the format chunk.
pub const FMT_IDENTIFIER: [u8; 4] = [0x66, 0x6d, 0x74, 0x20];

/// `data`, the identifier of a chunk of samples.
pub const DATA_IDENTIFIER: [u8; 4] = [0x64, 0x61, 0x74, 0x61];

/// The bytes of `RIFF`.
pub open spec fn riff_id() -> Seq<u8> {
    seq![0x52u8, 0x49u8, 0x46u8, 0x46u8]
}

/// The bytes of `WAVE`.
pub open spec fn wave_id() -> Seq<u8> {
    seq![0x57u8, 0x41u8, 0x56u8, 0x45u8]
}

/// The bytes of `fmt `.
pub open spec fn fmt_id() -> Seq<u8> {
    seq![0x66u8, 0x6du8, 0x74u8, 0x20u8]
}

/// The bytes of `data`.
pub open spec fn data_id() -> Seq<u8> {
    seq![0x64u8, 0x61u8, 0x74u8, 0x61u8]
}

/// The fields of a format chunk that decoding uses.
#[derive(Clone, Copy, Debug, PartialEq, Eq, Structural)]
pub struct DataFormat {
    /// 1 for 16-bit integer PCM, 3 for 32-bit float.
    pub audio_format: u16,
    pub channel_count: u16,
    pub sample_rate: u32,
}

/// One decoded sample, in the encoding that its `data` chunk had.
#[derive(Clone, Copy, Debug, PartialEq, Eq, Structural)]
pub enum WavSample {
    /// A signed 16-bit PCM value; its float value is `value / 32767`.
    Pcm16(i16),
    /// The bit pattern of a 32-bit float.
    Float32(u32),
}

/// Why a byte sequence is not a WAV file that can be decoded.
#[derive(Clone, Copy, Debug, PartialEq, Eq, Structural)]
pub enum WavError {
    /// The `RIFF` or the `WAVE` identifier is missing.
    MalformedContainer,
    /// The input ends inside a header, a chunk header or a chunk.
    UnexpectedEnd,
    /// A `data` chunk comes before any format chunk.
    UnknownAudioFormat,
    /// The format chunk names a sample encoding other than 1 or 3.
    UnsupportedAudioFormat(u16),
}

/// What a WAV file decodes to: the sample layout and the samples.
pub struct WavContents {
    pub channel_count: usize,
    pub sample_rate: u32,
    pub samples: Vec<WavSample>,
}

/// The signed value of a 16-bit two's-complement word.
pub open spec fn signed16(u: int) -> i16 {
    if u < 32768 {
        u as i16
    } else {
        (u - 65536) as i16
    }
}

/// The PCM samples of a payload; an odd trailing byte is dropped.
pub open spec fn pcm16_samples(p: Seq<u8>) -> Seq<WavSample> {
    Seq::new(p.len() / 2, |k: int| WavSample::Pcm16(signed16(le16(p, 2 * k))))
}

/// The float samples of a payload; up to three trailing bytes are dropped.
pub open spec fn float32_samples(p: Seq<u8>) -> Seq<WavSample> {
    Seq::new(p.len() / 4, |k: int| WavSample::Float32(le32(p, 4 * k) as u32))
}

/// The format that a format chunk's payload declares.
pub open spec fn format_of(p: Seq<u8>) -> DataFormat {
    DataFormat {
        audio_format: le16(p, 0) as u16,
        channel_count: le16(p, 2) as u16,
        sample_rate: le32(p, 4) as u32,
    }
}

/// What one chunk does to the decoder's state: the format in force after
/// it, and the samples that it adds.
pub open spec fn chunk_effect(id: Seq<u8>, payload: Seq<u8>, format: Option<DataFormat>) -> Result<
    (Option<DataFormat>, Seq<WavSample>),
    WavError,
> {
    if id == fmt_id() {
        if payload.len() < 8 {
            Err(WavError::UnexpectedEnd)
        } else {
            Ok((Some(format_of(payload)), Seq::empty()))
        }
    } else if id == data_id() {
        match format {
            None => Err(WavError::UnknownAudioFormat),
            Some(f) => if f.audio_format == FORMAT_PCM16 {
                Ok((format, pcm16_samples(payload)))
            } else if f.audio_format == FORMAT_FLOAT32 {
                Ok((format, float32_samples(payload)))
            } else {
                Err(WavError::UnsupportedAudioFormat(f.audio_format))
            },
        }
    } else {
        Ok((format, Seq::empty()))
    }
}

/// The declared payload size of the chunk whose header starts at `pos`.
pub open spec fn chunk_size(b: Seq<u8>, pos: int) -> int {
    le32(b, pos + 4)
}

/// Where the chunk at `pos` ends: after its payload and, when the size is
/// odd, one pad byte (which may lie past the end of the input).
pub open spec fn chunk_end(b: Seq<u8>, pos: int) -> int {
    pos + 8 + chunk_size(b, pos) + chunk_size(b, pos) % 2
}

/// The effect of the chunk at `pos`, which starts at least 4 bytes before
/// the end of the input.
pub open spec fn chunk_at(b: Seq<u8>, pos: int, format: Option<DataFormat>) -> Result<
    (Option<DataFormat>, Seq<WavSample>),
    WavError,
> {
    if b.len() - pos < 8 || b.len() - pos - 8 < chunk_size(b, pos) {
        Err(WavError::UnexpectedEnd)
    } else {
        chunk_effect(
            b.subrange(pos, pos + 4),
            b.subrange(pos + 8, pos + 8 + chunk_size(b, pos)),
            format,
        )
    }
}

/// The decoder's state after the chunks from `pos` to the end, starting from
/// `format` with `samples` decoded so far. Fewer than 4 bytes left end the
/// input.
pub open spec fn chunks_from(
    b: Seq<u8>,
    pos: int,
    format: Option<DataFormat>,
    samples: Seq<WavSample>,
) -> Result<(Option<DataFormat>, Seq<WavSample>), WavError>
    decreases b.len() + 1 - pos,
{
    if b.len() - pos < 4 {
        Ok((format, samples))
    } else if b.len() - pos < 8 || b.len() - pos - 8 < chunk_size(b, pos) {
        Err(WavError::UnexpectedEnd)
    } else {
        match chunk_effect(
            b.subrange(pos, pos + 4),
            b.subrange(pos + 8, pos + 8 + chunk_size(b, pos)),
            format,
        ) {
            Err(e) => Err(e),
            Ok((f, s)) => chunks_from(b, chunk_end(b, pos), f, samples + s),
        }
    }
}

/// What a byte sequence decodes to: channel count, sample rate and samples,
/// with the defaults where no format chunk was seen.
pub open spec fn decode_wav(b: Seq<u8>) -> Result<(usize, u32, Seq<WavSample>), WavError> {
    if b.len() < 4 {
        Err(WavError::UnexpectedEnd)
    } else if b.subrange(0, 4) != riff_id() {
        Err(WavError::MalformedContainer)
    } else if b.len() < 12 {
        Err(WavError::UnexpectedEnd)
    } else if b.subrange(8, 12) != wave_id() {
        Err(WavError::MalformedContainer)
    } else {
        match chunks_from(b, 12, None, Seq::empty()) {
            Err(e) => Err(e),
            Ok((None, s)) => Ok((DEFAULT_CHANNEL_COUNT, DEFAULT_SAMPLE_RATE, s)),
            Ok((Some(f), s)) => Ok((f.channel_count as usize, f.sample_rate, s)),
        }
    }
}

/// Whether `b[i..i + 4]` holds the four bytes `id`.
fn has_id(b: &Vec<u8>, i: usize, id: [u8; 4]) -> (r: bool)
    requires
        i + 4 <= b@.len(),
    ensures
        r == (b@.subrange(i as int, i as int + 4) == id@),
{
    // The length of a vector fits in a `usize`, and so do the indices below.
    let len = b.len();
    assert(i + 4 <= len);
    let r = b[i] == id[0] && b[i + 1] == id[1] && b[i + 2] == id[2] && b[i + 3] == id[3];
    assert(r ==> b@.subrange(i as int, i as int + 4) =~= id@);
    r
}

/// Append the samples of the payload `b[start..start + size]` to `samples`,
/// decoded as `format` prescribes.
fn parse_sampled_data(
    b: &Vec<u8>,
    start: usize,
    size: usize,
    format: u16,
    samples: &mut Vec<WavSample>,
) -> (r: Result<(), WavError>)
    requires
        start + size <= b@.len(),
    ensures
        format == FORMAT_PCM16 ==> r is Ok && final(samples)@ == old(samples)@ + pcm16_samples(
            b@.subrange(start as int, start + size),
        ),
        format == FORMAT_FLOAT32 ==> r is Ok && final(samples)@ == old(samples)@ + float32_samples(
            b@.subrange(start as int, start + size),
        ),
        format != FORMAT_PCM16 && format != FORMAT_FLOAT32 ==> r == Err::<(), WavError>(
            WavError::UnsupportedAudioFormat(format),
        ),
{
    let len = b.len();
    let ghost p = b@.subrange(start as int, start + size);
    let ghost before = samples@;
    if format == FORMAT_PCM16 {
        let count = size / 2;
        let mut k: usize = 0;
        while k < count
            invariant
                len == b@.len(),
                start + size <= b@.len(),
                count == size / 2,
                p == b@.subrange(start as int, start + size),
                k <= count,
                samples@ == before + pcm16_samples(p).take(k as int),
            decreases count - k,
        {
            let u = read_u16_le(b, start + 2 * k);
            let v: i16 = if u < 32768 {
                u as i16
            } else {
                (u as i32 - 65536) as i16
            };
            samples.push(WavSample::Pcm16(v));
            k += 1;
            assert(samples@ =~= before + pcm16_samples(p).take(k as int));
        }
        assert(pcm16_samples(p).take(k as int) =~= pcm16_samples(p));
        Ok(())
    } else if format == FORMAT_FLOAT32 {
        let count = size / 4;
        let mut k: usize = 0;
        while k < count
            invariant
                len == b@.len(),
                start + size <= b@.len(),
                count == size / 4,
                p == b@.subrange(start as int, start + size),
                k <= count,
                samples@ == before + float32_samples(p).take(k as int),
            decreases count - k,
        {
            let w = read_u32_le(b, start + 4 * k);
            samples.push(WavSample::Float32(w));
            k += 1;
            assert(samples@ =~= before + float32_samples(p).take(k as int));
        }
        assert(float32_samples(p).take(k as int) =~= float32_samples(p));
        Ok(())
    } else {
        Err(WavError::UnsupportedAudioFormat(format))
    }
}

/// Read the format that the payload `b[start..start + size]` declares.
fn parse_data_format_chunk(b: &Vec<u8>, start: usize, size: usize) -> (r: Result<DataFormat, WavError>)
    requires
        start + size <= b@.len(),
    ensures
        size < 8 ==> r == Err::<DataFormat, WavError>(WavError::UnexpectedEnd),
        size >= 8 ==> r == Ok::<DataFormat, WavError>(
            format_of(b@.subrange(start as int, start + size)),
        ),
{
    // The length of a vector fits in a `usize`, and so do the offsets below.
    let len = b.len();
    assert(start + size <= len);
    if size < 8 {
        return Err(WavError::UnexpectedEnd);
    }
    let audio_format = read_u16_le(b, start);
    let channel_count = read_u16_le(b, start + 2);
    let sample_rate = read_u32_le(b, start + 4);
    Ok(DataFormat { audio_format, channel_count, sample_rate })
}

/// Apply the chunk whose header starts at `pos` to the format and the
/// samples, and return where its payload ends.
fn parse_chunk(
    b: &Vec<u8>,
    pos: usize,
    format: &mut Option<DataFormat>,
    samples: &mut Vec<WavSample>,
) -> (r: Result<usize, WavError>)
    requires
        pos + 4 <= b@.len(),
    ensures
        match chunk_at(b@, pos as int, *old(format)) {
            Err(e) => r == Err::<usize, WavError>(e),
            Ok((f, s)) => r == Ok::<usize, WavError>((pos + 8 + chunk_size(b@, pos as int)) as usize)
                && *final(format) == f && final(samples)@ == old(samples)@ + s,
        },
{
    let len = b.len();
    if len - pos < 8 {
        return Err(WavError::UnexpectedEnd);
    }
    let size = read_u32_le(b, pos + 4) as usize;
    if len - pos - 8 < size {
        return Err(WavError::UnexpectedEnd);
    }
    let start = pos + 8;
    if has_id(b, pos, FMT_IDENTIFIER) {
        proof {
            assert(FMT_IDENTIFIER@ =~= fmt_id());
        }
        let f = parse_data_format_chunk(b, start, size)?;
        *format = Some(f);
    } else if has_id(b, pos, DATA_IDENTIFIER) {
        proof {
            assert(DATA_IDENTIFIER@ =~= data_id());
            assert(FMT_IDENTIFIER@ != data_id()) by {
                assert(FMT_IDENTIFIER@[0] != data_id()[0]);
            }
        }
        match *format {
            None => {
                return Err(WavError::UnknownAudioFormat);
            },
            Some(f) => {
                parse_sampled_data(b, start, size, f.audio_format, samples)?;
            },
        }
    } else {
        proof {
            assert(FMT_IDENTIFIER@ =~= fmt_id());
            assert(DATA_IDENTIFIER@ =~= data_id());
        }
        assert(samples@ + Seq::<WavSample>::empty() =~= samples@);
    }
    Ok(start + size)
}

/// Read the chunk at `*cursor`, apply it to the format and the samples, and
/// move the cursor past it and its pad byte. Returns `Ok(false)`, changing
/// nothing, when fewer than 4 bytes are left. After a chunk of odd size at
/// the very end the cursor stands one past the end, where the pad byte
/// would be; the input must leave room for that position in a `usize`.
pub fn parse_any_chunk(
    b: &Vec<u8>,
    cursor: &mut usize,
    format: &mut Option<DataFormat>,
    samples: &mut Vec<WavSample>,
) -> (r: Result<bool, WavError>)
    requires
        b@.len() < usize::MAX,
    ensures
        b@.len() - *old(cursor) < 4 ==> r == Ok::<bool, WavError>(false) && *final(cursor)
            == *old(cursor) && *final(format) == *old(format) && final(samples)@ == old(
            samples,
        )@,
        b@.len() - *old(cursor) >= 4 ==> match chunk_at(b@, *old(cursor) as int, *old(format)) {
            Err(e) => r == Err::<bool, WavError>(e),
            Ok((f, s)) => r == Ok::<bool, WavError>(true) && *final(cursor) == chunk_end(
                b@,
                *old(cursor) as int,
            ) && *final(format) == f && final(samples)@ == old(samples)@ + s,
        },
{
    let len = b.len();
    let pos = *cursor;
    if pos > len || len - pos < 4 {
        return Ok(false);
    }
    let end = parse_chunk(b, pos, format, samples)?;
    *cursor = end + (end - pos - 8) % 2;
    Ok(true)
}

/// Decode a WAV file held in memory.
pub fn from_wav_bytes(b: &Vec<u8>) -> (r: Result<WavContents, WavError>)
    ensures
        match r {
            Ok(c) => decode_wav(b@) == Ok::<(usize, u32, Seq<WavSample>), WavError>(
                (c.channel_count, c.sample_rate, c.samples@),
            ),
            Err(e) => decode_wav(b@) == Err::<(usize, u32, Seq<WavSample>), WavError>(e),
        },
{
    let len = b.len();
    if len < 4 {
        return Err(WavError::UnexpectedEnd);
    }
    proof {
        assert(RIFF_IDENTIFIER@ =~= riff_id());
        assert(WAVE_IDENTIFIER@ =~= wave_id());
    }
    if !has_id(b, 0, RIFF_IDENTIFIER) {
        return Err(WavError::MalformedContainer);
    }
    if len < 12 {
        return Err(WavError::UnexpectedEnd);
    }
    if !has_id(b, 8, WAVE_IDENTIFIER) {
        return Err(WavError::MalformedContainer);
    }
    assert(b@.subrange(0, 4) == riff_id());
    assert(b@.subrange(8, 12) == wave_id());
    let mut cursor: usize = 12;
    let mut format: Option<DataFormat> = None;
    let mut samples: Vec<WavSample> = Vec::new();
    loop
        invariant
            len == b@.len(),
            12 <= len,
            b@.subrange(0, 4) == riff_id(),
            b@.subrange(8, 12) == wave_id(),
            cursor <= len,
            chunks_from(b@, cursor as int, format, samples@) == chunks_from(
                b@,
                12,
                None,
                Seq::empty(),
            ),
        ensures
            chunks_from(b@, 12, None, Seq::empty()) == Ok::<
                (Option<DataFormat>, Seq<WavSample>),
                WavError,
            >((format, samples@)),
        decreases len - cursor,
    {
        let ghost before = (cursor, format, samples@);
        if len - cursor < 4 {
            break;
        }
        let end = match parse_chunk(b, cursor, &mut format, &mut samples) {
            Err(e) => {
                return Err(e);
            },
            Ok(end) => end,
        };
        // A pad byte missing at the very end leaves nothing more to read.
        if (end - cursor - 8) % 2 == 1 && end < len {
            cursor = end + 1;
        } else {
            cursor = end;
        }
        assert(chunks_from(b@, chunk_end(b@, before.0 as int), format, samples@) == chunks_from(
            b@,
            cursor as int,
            format,
            samples@,
        ));
    }
    let (channel_count, sample_rate) = match format {
        None => (DEFAULT_CHANNEL_COUNT, DEFAULT_SAMPLE_RATE),
        Some(f) => (f.channel_count as usize, f.sample_rate),
    };
    Ok(WavContents { channel_count, sample_rate, samples })
}

/// The sample words, four little-endian bytes each.
pub open spec fn sample_bytes(s: Seq<u32>) -> Seq<u8>
    decreases s.len(),
{
    if s.len() == 0 {
        Seq::empty()
    } else {
        sample_bytes(s.drop_last()) + le32_bytes(s.last() as int)
    }
}

/// One `data` chunk holding the sample words `s`.
pub open spec fn data_chunk(s: Seq<u32>) -> Seq<u8> {
    data_id() + le32_bytes(4 * s.len() as int) + sample_bytes(s)
}

/// The `data` chunks of the encoder: `MAX_CHUNK_SAMPLES` words in each but
/// the last, which holds the rest (and is empty when `s` is).
pub open spec fn data_chunks(s: Seq<u32>) -> Seq<u8>
    decreases s.len(),
{
    if s.len() <= MAX_CHUNK_SAMPLES {
        data_chunk(s)
    } else {
        data_chunk(s.take(MAX_CHUNK_SAMPLES as int)) + data_chunks(s.skip(MAX_CHUNK_SAMPLES as int))
    }
}

/// The format chunk of the encoder: float samples, and each field cut to the
/// width of its slot.
pub open spec fn fmt_chunk(channel_count: int, sample_rate: int) -> Seq<u8> {
    fmt_id() + le32_bytes(16) + le16_bytes(FORMAT_FLOAT32 as int) + le16_bytes(
        channel_count % 65536,
    ) + le32_bytes(sample_rate) + le32_bytes(sample_rate * channel_count * 4 % 0x1_0000_0000)
        + le16_bytes(channel_count * 4 % 65536) + le16_bytes(32)
}

/// The WAV file that the encoder writes for a buffer.
pub open spec fn wav_bytes(channel_count: int, sample_rate: int, s: Seq<u32>) -> Seq<u8> {
    riff_id() + le32_bytes((4 + 24 + data_chunks(s).len() as int) % 0x1_0000_0000) + wave_id()
        + fmt_chunk(channel_count, sample_rate) + data_chunks(s)
}

/// Append the four bytes `id` to `out`.
fn push_bytes(out: &mut Vec<u8>, id: [u8; 4])
    ensures
        final(out)@ == old(out)@ + id@,
{
    out.push(id[0]);
    out.push(id[1]);
    out.push(id[2]);
    out.push(id[3]);
    assert(final(out)@ =~= old(out)@ + id@);
}

/// Append the bytes of the sample words `s[start..end]` to `out`.
fn push_sample_bytes(out: &mut Vec<u8>, s: &Vec<u32>, start: usize, end: usize)
    requires
        start <= end <= s@.len(),
    ensures
        final(out)@ == old(out)@ + sample_bytes(s@.subrange(start as int, end as int)),
{
    let ghost before = out@;
    let mut i = start;
    assert(sample_bytes(s@.subrange(start as int, i as int)) =~= Seq::<u8>::empty());
    assert(before + Seq::<u8>::empty() =~= before);
    while i < end
        invariant
            start <= i <= end <= s@.len(),
            out@ == before + sample_bytes(s@.subrange(start as int, i as int)),
        decreases end - i,
    {
        push_le32(out, s[i]);
        i += 1;
        assert(s@.subrange(start as int, i as int).drop_last() =~= s@.subrange(
            start as int,
            i as int - 1,
        ));
        assert(out@ =~= before + sample_bytes(s@.subrange(start as int, i as int)));
    }
}

/// The `data` chunks that hold the sample words `s`.
fn data_chunk_bytes(s: &Vec<u32>) -> (r: Vec<u8>)
    ensures
        r@ == data_chunks(s@),
{
    let n = s.len();
    let mut data: Vec<u8> = Vec::new();
    let mut start: usize = 0;
    assert(s@.subrange(0, n as int) =~= s@);
    assert(data@ + data_chunks(s@) =~= data_chunks(s@));
    loop
        invariant_except_break
            data@ + data_chunks(s@.subrange(start as int, n as int)) == data_chunks(s@),
        invariant
            n == s@.len(),
            start <= n,
        ensures
            data@ == data_chunks(s@),
        decreases n - start,
    {
        let ghost rest = s@.subrange(start as int, n as int);
        let end = if n - start > MAX_CHUNK_SAMPLES {
            start + MAX_CHUNK_SAMPLES
        } else {
            n
        };
        let ghost before = data@;
        push_bytes(&mut data, DATA_IDENTIFIER);
        push_le32(&mut data, (4 * (end - start)) as u32);
        push_sample_bytes(&mut data, s, start, end);
        assert(DATA_IDENTIFIER@ =~= data_id());
        assert(data@ =~= before + data_chunk(s@.subrange(start as int, end as int)));
        if end == n {
            assert(rest.len() <= MAX_CHUNK_SAMPLES);
            break;
        }
        assert(rest.take(MAX_CHUNK_SAMPLES as int) =~= s@.subrange(start as int, end as int));
        assert(rest.skip(MAX_CHUNK_SAMPLES as int) =~= s@.subrange(end as int, n as int));
        assert(data_chunks(rest) == data_chunk(rest.take(MAX_CHUNK_SAMPLES as int)) + data_chunks(
            rest.skip(MAX_CHUNK_SAMPLES as int),
        ));
        assert(data@ + data_chunks(s@.subrange(end as int, n as int)) =~= before + data_chunks(
            rest,
        ));
        start = end;
    }
    data
}

impl AudioBuffer {
    /// Encode the buffer as a WAV file of float samples.
    ///
    /// The samples go into `data` chunks of at most `MAX_CHUNK_BYTES` each.
    /// The channel count, the byte rate and the block alignment are written
    /// modulo the width of their fields, and so is the container size.
    pub fn to_wav_bytes(&self) -> (r: Vec<u8>)
        ensures
            r@ == wav_bytes(self.channel_count as int, self.sample_rate as int, self.data@),
    {
        let mut data = data_chunk_bytes(&self.data);
        let channel_count = self.channel_count;
        let sample_rate = self.sample_rate;
        let field_channels: u16 = (channel_count % 65536) as u16;
        assert((sample_rate as int) * (channel_count as int) * 4 <= 0xffff_ffff * 0xffff_ffff_ffff_ffff * 4)
            by (nonlinear_arith)
            requires
                sample_rate <= 0xffff_ffff,
                channel_count <= 0xffff_ffff_ffff_ffff,
        ;
        let byte_rate: u32 = ((sample_rate as u128) * (channel_count as u128) * 4 % 0x1_0000_0000) as u32;
        let block_align: u16 = ((channel_count as u128) * 4 % 65536) as u16;
        let container_size: u32 = ((4 + 24 + data.len() as u128) % 0x1_0000_0000) as u32;

        let mut out: Vec<u8> = Vec::new();
        push_bytes(&mut out, RIFF_IDENTIFIER);
        push_le32(&mut out, container_size);
        push_bytes(&mut out, WAVE_IDENTIFIER);
        push_bytes(&mut out, FMT_IDENTIFIER);
        push_le32(&mut out, 16);
        push_le16(&mut out, FORMAT_FLOAT32);
        push_le16(&mut out, field_channels);
        push_le32(&mut out, sample_rate);
        push_le32(&mut out, byte_rate);
        push_le16(&mut out, block_align);
        push_le16(&mut out, 32);
        assert(RIFF_IDENTIFIER@ =~= riff_id());
        assert(WAVE_IDENTIFIER@ =~= wave_id());
        assert(FMT_IDENTIFIER@ =~= fmt_id());
        out.append(&mut data);
        assert(out@ =~= wav_bytes(channel_count as int, sample_rate as int, self.data@));
        out
    }
}

/// The float samples that a sequence of sample words decodes to.
pub open spec fn as_float32_samples(s: Seq<u32>) -> Seq<WavSample> {
    s.map_values(|x: u32| WavSample::Float32(x))
}

/// Each sample word becomes four bytes, which decode back to it.
proof fn lemma_sample_bytes_decode(s: Seq<u32>)
    ensures
        sample_bytes(s).len() == 4 * s.len(),
        float32_samples(sample_bytes(s)) == as_float32_samples(s),
    decreases s.len(),
{
    if s.len() > 0 {
        let init = s.drop_last();
        lemma_sample_bytes_decode(init);
        let p = sample_bytes(init);
        let l = le32_bytes(s.last() as int);
        lemma_le32_round_trip(s.last() as int);
        let b = sample_bytes(s);
        assert(b == p + l);
        assert forall|k: int| 0 <= k < s.len() implies le32(b, 4 * k) as u32 == s[k] by {
            if k < s.len() - 1 {
                assert(float32_samples(p)[k] == as_float32_samples(init)[k]);
                assert(le32(b, 4 * k) == le32(p, 4 * k));
            } else {
                assert(le32(b, 4 * k) == le32(l, 0));
            }
        }
        assert(float32_samples(b) =~= as_float32_samples(s));
    } else {
        assert(float32_samples(sample_bytes(s)) =~= as_float32_samples(s));
    }
}

/// The `data` chunks of `t`, standing at `pos` up to the end of `b`, add the
/// words of `t` as float samples.
#[verifier::rlimit(50)]
proof fn lemma_data_chunks_decode(
    b: Seq<u8>,
    pos: int,
    t: Seq<u32>,
    f: DataFormat,
    acc: Seq<WavSample>,
)
    requires
        0 <= pos,
        b.len() == pos + data_chunks(t).len(),
        b.subrange(pos, b.len() as int) == data_chunks(t),
        f.audio_format == FORMAT_FLOAT32,
    ensures
        chunks_from(b, pos, Some(f), acc) == Ok::<(Option<DataFormat>, Seq<WavSample>), WavError>(
            (Some(f), acc + as_float32_samples(t)),
        ),
    decreases t.len(),
{
    let first = if t.len() <= MAX_CHUNK_SAMPLES {
        t
    } else {
        t.take(MAX_CHUNK_SAMPLES as int)
    };
    let c = data_chunk(first);
    lemma_sample_bytes_decode(first);
    lemma_le32_round_trip(4 * first.len() as int);
    let end = pos + c.len();
    assert(b.subrange(pos, end) == c) by {
        if t.len() > MAX_CHUNK_SAMPLES {
            assert(data_chunks(t) == c + data_chunks(t.skip(MAX_CHUNK_SAMPLES as int)));
        }
        assert(b.subrange(pos, end) =~= data_chunks(t).subrange(0, c.len() as int));
        assert(data_chunks(t).subrange(0, c.len() as int) =~= c);
    }
    assert(chunk_size(b, pos) == 4 * first.len() as int) by {
        assert(le32(b, pos + 4) == le32(c, 4));
        assert(le32(c, 4) == le32(le32_bytes(4 * first.len() as int), 0));
    }
    assert(b.subrange(pos, pos + 4) =~= data_id()) by {
        assert(b.subrange(pos, pos + 4) =~= c.subrange(0, 4));
    }
    assert(b.subrange(pos + 8, pos + 8 + chunk_size(b, pos)) =~= sample_bytes(first)) by {
        assert(b.subrange(pos + 8, end) =~= c.subrange(8, c.len() as int));
    }
    assert(data_id() != fmt_id()) by {
        assert(data_id()[0] != fmt_id()[0]);
    }
    assert(chunk_end(b, pos) == end);
    let s1 = as_float32_samples(first);
    assert(chunk_effect(
        b.subrange(pos, pos + 4),
        b.subrange(pos + 8, pos + 8 + chunk_size(b, pos)),
        Some(f),
    ) == Ok::<(Option<DataFormat>, Seq<WavSample>), WavError>((Some(f), s1)));
    if t.len() <= MAX_CHUNK_SAMPLES {
        assert(end == b.len());
        assert(chunks_from(b, end, Some(f), acc + s1) == Ok::<
            (Option<DataFormat>, Seq<WavSample>),
            WavError,
        >((Some(f), acc + s1)));
    } else {
        let rest = t.skip(MAX_CHUNK_SAMPLES as int);
        assert(data_chunks(t) == c + data_chunks(rest));
        assert(b.subrange(end, b.len() as int) =~= data_chunks(rest)) by {
            assert(b.subrange(end, b.len() as int) =~= data_chunks(t).subrange(
                c.len() as int,
                data_chunks(t).len() as int,
            ));
        }
        lemma_data_chunks_decode(b, end, rest, f, acc + s1);
        assert(acc + s1 + as_float32_samples(rest) =~= acc + as_float32_samples(t));
    }
}

/// Decoding what the encoder writes for a buffer gives back its channel
/// count, its sample rate and its sample words, for every channel count that
/// the format chunk's 16-bit field can hold.
#[verifier::rlimit(50)]
pub proof fn lemma_wav_round_trip(buffer: AudioBuffer)
    requires
        1 <= buffer.channel_count <= 65535,
    ensures
        decode_wav(wav_bytes(buffer.channel_count as int, buffer.sample_rate as int, buffer.data@))
            == Ok::<(usize, u32, Seq<WavSample>), WavError>(
            (buffer.channel_count, buffer.sample_rate, as_float32_samples(buffer.data@)),
        ),
{
    let cc = buffer.channel_count as int;
    let sr = buffer.sample_rate as int;
    let s = buffer.data@;
    let fmt = fmt_chunk(cc, sr);
    let d = data_chunks(s);
    let b = wav_bytes(cc, sr, s);
    let header = riff_id() + le32_bytes((4 + 24 + d.len() as int) % 0x1_0000_0000) + wave_id();
    assert(b == header + fmt + d);
    assert(header.len() == 12);
    assert(fmt.len() == 24);
    assert(b.subrange(0, 4) =~= riff_id());
    assert(b.subrange(8, 12) =~= wave_id());
    let payload = b.subrange(20, 36);
    lemma_le32_round_trip(16);
    lemma_le16_round_trip(3);
    lemma_le16_round_trip(cc);
    lemma_le32_round_trip(sr);
    assert(chunk_size(b, 12) == 16) by {
        assert(le32(b, 16) == le32(le32_bytes(16), 0));
    }
    assert(b.subrange(12, 16) =~= fmt_id());
    let f = DataFormat { audio_format: 3, channel_count: cc as u16, sample_rate: sr as u32 };
    assert(format_of(payload) == f) by {
        assert(le16(payload, 0) == le16(le16_bytes(3), 0));
        assert(le16(payload, 2) == le16(le16_bytes(cc % 65536), 0));
        assert(le32(payload, 4) == le32(le32_bytes(sr), 0));
    }
    assert(chunk_effect(b.subrange(12, 16), payload, None) == Ok::<
        (Option<DataFormat>, Seq<WavSample>),
        WavError,
    >((Some(f), Seq::empty())));
    assert(chunk_end(b, 12) == 36);
    assert(b.subrange(36, b.len() as int) =~= d);
    lemma_data_chunks_decode(b, 36, s, f, Seq::empty());
    assert(Seq::<WavSample>::empty() + as_float32_samples(s) =~= as_float32_samples(s));
}

} // verus!
