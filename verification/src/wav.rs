//! WAV (RIFF, 16-bit PCM) framing: building a canonical mono file from `i16` samples and
//! reading the first channel of a 16-bit PCM file back, with the chunk walk it needs.
use vstd::prelude::*;

verus! {

/// Why a byte buffer is not a readable 16-bit PCM WAV file.
#[derive(Debug, Clone, Copy, PartialEq, Eq, Structural)]
pub enum WavError {
    /// Fewer than the 44 bytes of a canonical header.
    TooShort,
    /// The `RIFF` / `WAVE` tags are missing.
    NotRiffWave,
    /// A `fmt ` chunk shorter than 16 bytes, or cut off by the end of the buffer.
    InvalidFmt,
    /// The format tag is not 1 (uncompressed PCM).
    NotPcm,
    /// No `data` chunk before the end of the buffer.
    MissingData,
    /// The sample width is not 16 bits.
    Not16Bit,
}

/// What the chunk walk found: the format fields in force and the sample bytes
/// `start..end` of the `data` chunk.
#[derive(Debug, Clone, Copy, PartialEq, Eq, Structural)]
pub struct WavFound {
    /// Sample rate in Hz.
    pub rate: u32,
    /// Interleaved channels per frame.
    pub channels: u16,
    /// Bits per sample.
    pub bits: u16,
    /// First byte of the sample data.
    pub start: usize,
    /// One past the last byte of the sample data (clipped to the buffer).
    pub end: usize,
}

/// The tag `RIFF`.
pub open spec fn tag_riff() -> Seq<u8> {
    seq![82u8, 73, 70, 70]
}

/// The tag `WAVE`.
pub open spec fn tag_wave() -> Seq<u8> {
    seq![87u8, 65, 86, 69]
}

/// The tag `fmt `.
pub open spec fn tag_fmt() -> Seq<u8> {
    seq![102u8, 109, 116, 32]
}

/// The tag `data`.
pub open spec fn tag_data() -> Seq<u8> {
    seq![100u8, 97, 116, 97]
}

/// The four bytes at `pos` are `tag`.
pub open spec fn tag_at(data: Seq<u8>, pos: int, tag: Seq<u8>) -> bool {
    data.subrange(pos, pos + 4) == tag
}

/// The little-endian 16-bit word at `i`.
pub open spec fn le16_at(data: Seq<u8>, i: int) -> int {
    data[i] + 256 * data[i + 1]
}

/// The little-endian 32-bit word at `i`.
pub open spec fn le32_at(data: Seq<u8>, i: int) -> int {
    data[i] + 256 * data[i + 1] + 0x1_0000 * data[i + 2] + 0x100_0000 * data[i + 3]
}

/// The little-endian two's-complement 16-bit sample at `i`.
pub open spec fn le_i16_at(data: Seq<u8>, i: int) -> int {
    let v = le16_at(data, i);
    if v >= 0x8000 {
        v - 0x1_0000
    } else {
        v
    }
}

/// The chunk walk from byte `pos` with the format fields `rate`, `ch`, `bits` in force: each
/// chunk is a 4-byte tag and a little-endian 32-bit size; a `fmt ` chunk of at least 16 bytes
/// with format tag 1 replaces the channel count, rate and sample width; the first `data` chunk
/// ends the walk; running past the buffer means there is no `data` chunk.
pub open spec fn wav_walk(data: Seq<u8>, pos: nat, rate: u32, ch: u16, bits: u16) -> Result<
    WavFound,
    WavError,
>
    decreases data.len() - pos,
{
    if pos + 8 > data.len() {
        Err(WavError::MissingData)
    } else {
        let size = le32_at(data, pos as int + 4);
        let p: int = pos as int + 8;
        if tag_at(data, pos as int, tag_fmt()) {
            if size < 16 || p + 16 > data.len() {
                Err(WavError::InvalidFmt)
            } else if le16_at(data, p) != 1 {
                Err(WavError::NotPcm)
            } else if p + size > data.len() {
                Err(WavError::MissingData)
            } else {
                wav_walk(
                    data,
                    (p + size) as nat,
                    le32_at(data, p + 4) as u32,
                    le16_at(data, p + 2) as u16,
                    le16_at(data, p + 14) as u16,
                )
            }
        } else if tag_at(data, pos as int, tag_data()) {
            Ok(
                WavFound {
                    rate,
                    channels: ch,
                    bits,
                    start: p as usize,
                    end: (if p + size <= data.len() {
                        p + size
                    } else {
                        data.len() as int
                    }) as usize,
                },
            )
        } else if p + size > data.len() {
            Err(WavError::MissingData)
        } else {
            wav_walk(data, (p + size) as nat, rate, ch, bits)
        }
    }
}

/// The chunk walk of a whole file: it starts after the 12-byte `RIFF` header, at 48000 Hz,
/// one channel and 16 bits until a `fmt ` chunk says otherwise.
pub open spec fn wav_scan(data: Seq<u8>) -> Result<WavFound, WavError> {
    wav_walk(data, 12, 48000, 1, 16)
}

/// The first-channel samples of the frames of `ch` channels in `start..end`; a partial frame
/// at the end is dropped.
pub open spec fn wav_frames(data: Seq<u8>, start: int, end: int, ch: int) -> Seq<i16> {
    Seq::new(((end - start) / (2 * ch)) as nat, |i: int| le_i16_at(data, start + i * 2 * ch) as i16)
}

/// The file declares zero channels for its 16-bit samples, so it has no frame size.
pub open spec fn wav_has_no_channels(data: Seq<u8>) -> bool {
    &&& data.len() >= 44
    &&& tag_at(data, 0, tag_riff())
    &&& tag_at(data, 8, tag_wave())
    &&& wav_scan(data) matches Ok(f)
    &&& f.bits == 16
    &&& f.channels == 0
}

/// What reading `data` as 16-bit PCM gives: the first-channel samples and the sample rate, or
/// the first error met.
pub open spec fn wav_decode(data: Seq<u8>) -> Result<(Seq<i16>, u32), WavError> {
    if data.len() < 44 {
        Err(WavError::TooShort)
    } else if !tag_at(data, 0, tag_riff()) || !tag_at(data, 8, tag_wave()) {
        Err(WavError::NotRiffWave)
    } else {
        match wav_scan(data) {
            Err(e) => Err(e),
            Ok(f) => if f.bits != 16 {
                Err(WavError::Not16Bit)
            } else {
                Ok((wav_frames(data, f.start as int, f.end as int, f.channels as int), f.rate))
            },
        }
    }
}

/// Byte `k` (0 = least significant) of `v`.
pub open spec fn byte_of(v: int, k: nat) -> u8 {
    ((v / vstd::arithmetic::power::pow(256, k)) % 256) as u8
}

/// The little-endian bytes of a 32-bit word.
pub open spec fn le32_bytes(v: int) -> Seq<u8> {
    seq![byte_of(v, 0), byte_of(v, 1), byte_of(v, 2), byte_of(v, 3)]
}

/// The 16-bit two's-complement pattern of a sample.
pub open spec fn i16_bits(s: i16) -> int {
    if s < 0 {
        s + 0x1_0000
    } else {
        s as int
    }
}

/// The samples as little-endian 16-bit words, one after another.
pub open spec fn pcm_bytes(s: Seq<i16>) -> Seq<u8> {
    Seq::new(
        2 * s.len(),
        |k: int|
            if k % 2 == 0 {
                (i16_bits(s[k / 2]) % 256) as u8
            } else {
                (i16_bits(s[k / 2]) / 256) as u8
            },
    )
}

/// The canonical 44-byte header of a mono 16-bit PCM file of `n` samples at `rate` Hz:
/// `RIFF`, size `36 + 2n`, `WAVE`, a 16-byte `fmt ` chunk (PCM, one channel, `rate`,
/// `2 rate` bytes per second, 2-byte frames, 16 bits), then the `data` tag and size `2n`.
pub open spec fn wav_header(n: nat, rate: u32) -> Seq<u8> {
    tag_riff() + le32_bytes(36 + 2 * (n as int)) + tag_wave() + tag_fmt() + le32_bytes(16) + seq![
        1u8,
        0,
        1,
        0,
    ] + le32_bytes(rate as int) + le32_bytes(2 * rate) + seq![2u8, 0, 16, 0] + tag_data()
        + le32_bytes(2 * (n as int))
}

/// The canonical mono 16-bit PCM file holding `samples` at `rate` Hz.
pub open spec fn wav_encode(samples: Seq<i16>, rate: u32) -> Seq<u8> {
    wav_header(samples.len(), rate) + pcm_bytes(samples)
}

// ─────────────────────────────────────────────────────────────────────────────
// Byte-level proofs
// ─────────────────────────────────────────────────────────────────────────────
proof fn lemma_pow256()
    ensures
        vstd::arithmetic::power::pow(256, 0) == 1,
        vstd::arithmetic::power::pow(256, 1) == 256,
        vstd::arithmetic::power::pow(256, 2) == 0x1_0000,
        vstd::arithmetic::power::pow(256, 3) == 0x100_0000,
{
    vstd::arithmetic::power::lemma_pow0(256);
    vstd::arithmetic::power::lemma_pow1(256);
    vstd::arithmetic::power::lemma_pow_adds(256, 1, 1);
    vstd::arithmetic::power::lemma_pow_adds(256, 2, 1);
}

/// Reading back the little-endian bytes of a 32-bit word gives the word.
proof fn lemma_le32_bytes(v: int)
    requires
        0 <= v < 0x1_0000_0000,
    ensures
        le32_bytes(v)[0] + 256 * le32_bytes(v)[1] + 0x1_0000 * le32_bytes(v)[2] + 0x100_0000
            * le32_bytes(v)[3] == v,
{
    lemma_pow256();
    let b0 = v % 256;
    let b1 = (v / 256) % 256;
    let b2 = (v / 0x1_0000) % 256;
    let b3 = (v / 0x100_0000) % 256;
    assert(le32_bytes(v)[0] == b0);
    assert(le32_bytes(v)[1] == b1);
    assert(le32_bytes(v)[2] == b2);
    assert(le32_bytes(v)[3] == b3);
    assert(b0 + 256 * b1 + 0x1_0000 * b2 + 0x100_0000 * b3 == v) by (nonlinear_arith)
        requires
            0 <= v < 0x1_0000_0000,
            b0 == v % 256,
            b1 == (v / 256) % 256,
            b2 == (v / 0x1_0000) % 256,
            b3 == (v / 0x100_0000) % 256,
    ;
}

/// Reading back the bytes of a sample gives the sample.
proof fn lemma_pcm_sample(s: Seq<i16>, i: int)
    requires
        0 <= i < s.len(),
    ensures
        pcm_bytes(s).len() == 2 * s.len(),
        le_i16_at(pcm_bytes(s), 2 * i) == s[i],
{
    let b = pcm_bytes(s);
    let v = i16_bits(s[i]);
    assert((2 * i) / 2 == i && (2 * i) % 2 == 0);
    assert((2 * i + 1) / 2 == i && (2 * i + 1) % 2 == 1);
    assert(b[2 * i] == v % 256);
    assert(b[2 * i + 1] == v / 256);
    assert(0 <= v < 0x1_0000);
    assert(v % 256 + 256 * (v / 256) == v);
}

proof fn lemma_tag_at(data: Seq<u8>, pos: int, tag: Seq<u8>)
    requires
        0 <= pos,
        pos + 4 <= data.len(),
        tag.len() == 4,
        data[pos] == tag[0],
        data[pos + 1] == tag[1],
        data[pos + 2] == tag[2],
        data[pos + 3] == tag[3],
    ensures
        tag_at(data, pos, tag),
{
    assert(data.subrange(pos, pos + 4) =~= tag);
}

/// A `data` chunk the walk finds lies inside the buffer.
proof fn lemma_walk_bounds(data: Seq<u8>, pos: nat, rate: u32, ch: u16, bits: u16)
    requires
        data.len() <= usize::MAX,
    ensures
        wav_walk(data, pos, rate, ch, bits) matches Ok(f) ==> f.start <= f.end <= data.len(),
    decreases data.len() - pos,
{
    if pos + 8 <= data.len() {
        let size = le32_at(data, pos as int + 4);
        let p: int = pos as int + 8;
        if tag_at(data, pos as int, tag_fmt()) {
            if !(size < 16 || p + 16 > data.len()) && le16_at(data, p) == 1 && p + size
                <= data.len() {
                lemma_walk_bounds(
                    data,
                    (p + size) as nat,
                    le32_at(data, p + 4) as u32,
                    le16_at(data, p + 2) as u16,
                    le16_at(data, p + 14) as u16,
                );
            }
        } else if !tag_at(data, pos as int, tag_data()) && p + size <= data.len() {
            lemma_walk_bounds(data, (p + size) as nat, rate, ch, bits);
        }
    }
}

/// The fields of the canonical header, read back from a file that starts with it.
#[verifier::rlimit(40)]
proof fn lemma_header_fields(n: nat, rate: u32, rest: Seq<u8>)
    requires
        36 + 2 * n <= u32::MAX,
        2 * rate <= u32::MAX,
    ensures
        ({
            let e = wav_header(n, rate) + rest;
            &&& wav_header(n, rate).len() == 44
            &&& e.len() == 44 + rest.len()
            &&& tag_at(e, 0, tag_riff())
            &&& tag_at(e, 8, tag_wave())
            &&& tag_at(e, 12, tag_fmt())
            &&& !tag_at(e, 12, tag_data())
            &&& tag_at(e, 36, tag_data())
            &&& !tag_at(e, 36, tag_fmt())
            &&& le32_at(e, 16) == 16
            &&& le16_at(e, 20) == 1
            &&& le16_at(e, 22) == 1
            &&& le32_at(e, 24) == rate
            &&& le16_at(e, 34) == 16
            &&& le32_at(e, 40) == 2 * n
            &&& forall|k: int| 0 <= k < rest.len() ==> e[44 + k] == rest[k]
        }),
{
    let h = wav_header(n, rate);
    let e = h + rest;
    lemma_pow256();
    lemma_le32_bytes(36 + 2 * (n as int));
    lemma_le32_bytes(16);
    lemma_le32_bytes(rate as int);
    lemma_le32_bytes(2 * rate);
    lemma_le32_bytes(2 * (n as int));
    let flat: Seq<u8> = tag_riff() + le32_bytes(36 + 2 * (n as int)) + tag_wave() + tag_fmt()
        + le32_bytes(16) + seq![1u8, 0, 1, 0] + le32_bytes(rate as int) + le32_bytes(2 * rate)
        + seq![2u8, 0, 16, 0] + tag_data() + le32_bytes(2 * (n as int));
    assert(h == flat);
    assert(h.len() == 44);
    assert(e.subrange(0, 4) =~= tag_riff());
    assert(e.subrange(8, 12) =~= tag_wave());
    assert(e.subrange(12, 16) =~= tag_fmt());
    assert(e.subrange(36, 40) =~= tag_data());
    assert(e.subrange(12, 16)[0] != tag_data()[0]);
    assert(e.subrange(36, 40)[0] != tag_fmt()[0]);
    assert(e[16] == le32_bytes(16)[0] && e[17] == le32_bytes(16)[1] && e[18] == le32_bytes(16)[2]
        && e[19] == le32_bytes(16)[3]);
    assert(e[20] == 1 && e[21] == 0 && e[22] == 1 && e[23] == 0);
    assert(e[24] == le32_bytes(rate as int)[0] && e[25] == le32_bytes(rate as int)[1] && e[26]
        == le32_bytes(rate as int)[2] && e[27] == le32_bytes(rate as int)[3]);
    assert(e[34] == 16 && e[35] == 0);
    assert(e[40] == le32_bytes(2 * (n as int))[0] && e[41] == le32_bytes(2 * (n as int))[1]
        && e[42] == le32_bytes(2 * (n as int))[2] && e[43] == le32_bytes(2 * (n as int))[3]);
}

/// Decoding the canonical file of `samples` at `rate` gives the samples and the rate back.
pub proof fn lemma_wav_roundtrip(samples: Seq<i16>, rate: u32)
    requires
        36 + 2 * samples.len() <= u32::MAX,
        2 * rate <= u32::MAX,
        44 + 2 * samples.len() <= usize::MAX,
    ensures
        wav_decode(wav_encode(samples, rate)) == Ok::<(Seq<i16>, u32), WavError>((samples, rate)),
        !wav_has_no_channels(wav_encode(samples, rate)),
{
    let n = samples.len();
    let e = wav_encode(samples, rate);
    lemma_header_fields(n, rate, pcm_bytes(samples));
    lemma_roundtrip_scan(samples, rate);
    lemma_roundtrip_frames(samples, rate);
    let f = WavFound {
        rate,
        channels: 1,
        bits: 16,
        start: 44,
        end: (44 + 2 * (n as int)) as usize,
    };
    assert(f.end as int == 44 + 2 * (n as int));
    assert(wav_decode(e) == Ok::<(Seq<i16>, u32), WavError>(
        (wav_frames(e, 44, 44 + 2 * (n as int), 1), rate),
    ));
}

/// The chunk walk over the canonical file finds the `fmt ` chunk and then the `data` chunk.
proof fn lemma_roundtrip_scan(samples: Seq<i16>, rate: u32)
    requires
        36 + 2 * samples.len() <= u32::MAX,
        2 * rate <= u32::MAX,
    ensures
        wav_scan(wav_encode(samples, rate)) == Ok::<WavFound, WavError>(
            WavFound {
                rate,
                channels: 1,
                bits: 16,
                start: 44,
                end: (44 + 2 * (samples.len() as int)) as usize,
            },
        ),
{
    let n = samples.len();
    let e = wav_encode(samples, rate);
    lemma_header_fields(n, rate, pcm_bytes(samples));
    assert(e.len() == 44 + 2 * n);
    assert(wav_walk(e, 36, rate, 1, 16) == Ok::<WavFound, WavError>(
        WavFound { rate, channels: 1, bits: 16, start: 44, end: (44 + 2 * (n as int)) as usize },
    ));
    assert(wav_walk(e, 12, 48000, 1, 16) == wav_walk(e, 36, rate, 1, 16));
}

/// The first-channel samples of the canonical file are the samples.
proof fn lemma_roundtrip_frames(samples: Seq<i16>, rate: u32)
    requires
        36 + 2 * samples.len() <= u32::MAX,
        2 * rate <= u32::MAX,
    ensures
        wav_frames(wav_encode(samples, rate), 44, 44 + 2 * (samples.len() as int), 1) == samples,
{
    let n = samples.len();
    let p = pcm_bytes(samples);
    let e = wav_encode(samples, rate);
    lemma_header_fields(n, rate, p);
    let fr = wav_frames(e, 44, 44 + 2 * (n as int), 1);
    assert(fr.len() == n);
    assert forall|i: int| 0 <= i < n implies fr[i] == samples[i] by {
        lemma_pcm_sample(samples, i);
        assert(e[44 + 2 * i] == p[2 * i]);
        assert(e[44 + (2 * i + 1)] == p[2 * i + 1]);
        assert(i * 2 * 1 == 2 * i);
        assert(le_i16_at(e, 44 + i * 2 * 1) == le_i16_at(p, 2 * i));
    }
    assert(fr =~= samples);
}

// ─────────────────────────────────────────────────────────────────────────────
// Executable framing
// ─────────────────────────────────────────────────────────────────────────────
fn read_le16(data: &[u8], i: usize) -> (r: u16)
    requires
        i + 2 <= data@.len(),
    ensures
        r == le16_at(data@, i as int),
{
    data[i] as u16 + 256 * data[i + 1] as u16
}

fn read_le32(data: &[u8], i: usize) -> (r: u32)
    requires
        i + 4 <= data@.len(),
    ensures
        r == le32_at(data@, i as int),
{
    data[i] as u32 + 256 * data[i + 1] as u32 + 0x1_0000 * data[i + 2] as u32 + 0x100_0000
        * data[i + 3] as u32
}

fn has_tag(data: &[u8], pos: usize, t0: u8, t1: u8, t2: u8, t3: u8) -> (r: bool)
    requires
        pos + 4 <= data@.len(),
    ensures
        r == tag_at(data@, pos as int, seq![t0, t1, t2, t3]),
{
    let r = data[pos] == t0 && data[pos + 1] == t1 && data[pos + 2] == t2 && data[pos + 3] == t3;
    proof {
        let tag = seq![t0, t1, t2, t3];
        if r {
            lemma_tag_at(data@, pos as int, tag);
        } else {
            if tag_at(data@, pos as int, tag) {
                let sub = data@.subrange(pos as int, pos + 4);
                assert(sub[0] == t0 && sub[1] == t1 && sub[2] == t2 && sub[3] == t3);
            }
        }
    }
    r
}

/// The chunk walk of [`wav_scan`].
fn wav_find_data(data: &[u8]) -> (r: Result<WavFound, WavError>)
    requires
        data@.len() >= 12,
    ensures
        r == wav_scan(data@),
{
    let n = data.len();
    let mut pos: usize = 12;
    let mut rate: u32 = 48000;
    let mut ch: u16 = 1;
    let mut bits: u16 = 16;
    loop
        invariant
            n == data@.len(),
            pos <= n,
            wav_walk(data@, pos as nat, rate, ch, bits) == wav_scan(data@),
        decreases n - pos,
    {
        if n - pos < 8 {
            return Err(WavError::MissingData);
        }
        let size: u32 = read_le32(data, pos + 4);
        let p = pos + 8;
        if has_tag(data, pos, 102, 109, 116, 32) {
            proof {
                assert(seq![102u8, 109, 116, 32] =~= tag_fmt());
            }
            if size < 16 || n - p < 16 {
                return Err(WavError::InvalidFmt);
            }
            if read_le16(data, p) != 1 {
                return Err(WavError::NotPcm);
            }
            if size as u64 > (n - p) as u64 {
                return Err(WavError::MissingData);
            }
            ch = read_le16(data, p + 2);
            rate = read_le32(data, p + 4);
            bits = read_le16(data, p + 14);
        } else if has_tag(data, pos, 100, 97, 116, 97) {
            proof {
                assert(seq![100u8, 109, 116, 32] =~= tag_fmt() ==> false);
                assert(seq![102u8, 109, 116, 32] =~= tag_fmt());
                assert(seq![100u8, 97, 116, 97] =~= tag_data());
            }
            let end = if size as u64 <= (n - p) as u64 {
                p + size as usize
            } else {
                n
            };
            return Ok(WavFound { rate, channels: ch, bits, start: p, end });
        } else {
            proof {
                assert(seq![102u8, 109, 116, 32] =~= tag_fmt());
                assert(seq![100u8, 97, 116, 97] =~= tag_data());
            }
            if size as u64 > (n - p) as u64 {
                return Err(WavError::MissingData);
            }
        }
        pos = p + size as usize;
    }
}

/// Whether `data` declares zero channels for its 16-bit samples (see [`wav_has_no_channels`]),
/// the one input [`wav_pcm16_decode`] cannot frame.
pub fn wav_pcm16_has_no_channels(data: &[u8]) -> (r: bool)
    ensures
        r == wav_has_no_channels(data@),
{
    if data.len() < 44 {
        return false;
    }
    let riff = has_tag(data, 0, 82, 73, 70, 70);
    let wave = has_tag(data, 8, 87, 65, 86, 69);
    proof {
        assert(seq![82u8, 73, 70, 70] =~= tag_riff());
        assert(seq![87u8, 65, 86, 69] =~= tag_wave());
    }
    if !riff || !wave {
        return false;
    }
    match wav_find_data(data) {
        Ok(f) => f.bits == 16 && f.channels == 0,
        Err(_) => false,
    }
}

/// Read a 16-bit PCM WAV file: the first-channel samples and the sample rate.
///
/// The header is checked for `RIFF`/`WAVE`; chunks are walked until the first `data`
/// chunk, with the format fields of the last `fmt ` chunk before it (48000 Hz, one channel and
/// 16 bits without one). A `data` chunk running past the buffer is cut at its end, and a
/// partial frame at the end is dropped.
pub fn wav_pcm16_decode(data: &[u8]) -> (r: Result<(Vec<i16>, u32), WavError>)
    requires
        !wav_has_no_channels(data@),
    ensures
        match r {
            Ok((s, rate)) => wav_decode(data@) == Ok::<(Seq<i16>, u32), WavError>((s@, rate)),
            Err(e) => wav_decode(data@) == Err::<(Seq<i16>, u32), WavError>(e),
        },
{
    let n = data.len();
    if n < 44 {
        return Err(WavError::TooShort);
    }
    let riff = has_tag(data, 0, 82, 73, 70, 70);
    let wave = has_tag(data, 8, 87, 65, 86, 69);
    proof {
        assert(seq![82u8, 73, 70, 70] =~= tag_riff());
        assert(seq![87u8, 65, 86, 69] =~= tag_wave());
    }
    if !riff || !wave {
        return Err(WavError::NotRiffWave);
    }
    let found = match wav_find_data(data) {
        Ok(f) => f,
        Err(e) => {
            return Err(e);
        },
    };
    if found.bits != 16 {
        return Err(WavError::Not16Bit);
    }
    let start = found.start;
    let end = found.end;
    let step: usize = 2 * found.channels as usize;
    proof {
        lemma_walk_bounds(data@, 12, 48000, 1, 16);
        assert(found.channels != 0);
        assert(start <= end <= n);
    }
    let count = (end - start) / step;
    let mut out: Vec<i16> = Vec::new();
    let mut i: usize = 0;
    while i < count
        invariant
            n == data@.len(),
            start <= end <= n,
            step >= 2,
            count == (end - start) / (step as int),
            i <= count,
            out@.len() == i,
            forall|j: int|
                0 <= j < i ==> out@[j] == le_i16_at(data@, start + j * step) as i16,
        decreases count - i,
    {
        proof {
            vstd::arithmetic::div_mod::lemma_fundamental_div_mod((end - start) as int, step as int);
            vstd::arithmetic::mul::lemma_mul_inequality(i + 1, count as int, step as int);
            vstd::arithmetic::mul::lemma_mul_is_distributive_add_other_way(step as int, i as int, 1);
            vstd::arithmetic::mul::lemma_mul_is_commutative(step as int, i as int);
            vstd::arithmetic::mul::lemma_mul_is_commutative(step as int, count as int);
            vstd::arithmetic::mul::lemma_mul_is_commutative(step as int, i + 1);
        }
        assert((i + 1) * step <= end - start);
        let at = start + i * step;
        let v: u16 = read_le16(data, at);
        let s: i16 = if v >= 0x8000 {
            (v as i32 - 0x1_0000) as i16
        } else {
            v as i16
        };
        out.push(s);
        i += 1;
    }
    proof {
        let fr = wav_frames(data@, start as int, end as int, found.channels as int);
        assert forall|j: int| 0 <= j < count implies out@[j] == fr[j] by {
            assert(j * 2 * (found.channels as int) == j * (step as int)) by (nonlinear_arith)
                requires
                    step == 2 * found.channels,
            ;
        }
        assert(out@ =~= fr);
    }
    Ok((out, found.rate))
}

fn push_le32(out: &mut Vec<u8>, v: u32)
    ensures
        final(out)@ == old(out)@ + le32_bytes(v as int),
{
    proof {
        lemma_pow256();
    }
    out.push((v % 256) as u8);
    out.push(((v / 256) % 256) as u8);
    out.push(((v / 0x1_0000) % 256) as u8);
    out.push(((v / 0x100_0000) % 256) as u8);
    assert(out@ =~= old(out)@ + le32_bytes(v as int));
}

fn push_tag(out: &mut Vec<u8>, t0: u8, t1: u8, t2: u8, t3: u8)
    ensures
        final(out)@ == old(out)@ + seq![t0, t1, t2, t3],
{
    out.push(t0);
    out.push(t1);
    out.push(t2);
    out.push(t3);
    assert(out@ =~= old(out)@ + seq![t0, t1, t2, t3]);
}

/// Build the canonical mono 16-bit PCM file holding `samples` at `sample_rate` Hz: the
/// 44-byte `RIFF`/`WAVE` header and the samples as little-endian words. Reading it back gives
/// the samples and the rate.
pub fn wav_pcm16_encode(samples: &[i16], sample_rate: u32) -> (r: Vec<u8>)
    requires
        36 + 2 * samples@.len() <= u32::MAX,
        2 * sample_rate <= u32::MAX,
        44 + 2 * samples@.len() <= usize::MAX,
    ensures
        r@ == wav_encode(samples@, sample_rate),
        wav_decode(r@) == Ok::<(Seq<i16>, u32), WavError>((samples@, sample_rate)),
{
    let n = samples.len();
    let data_size: u32 = (2 * n) as u32;
    let mut out: Vec<u8> = Vec::new();
    push_tag(&mut out, 82, 73, 70, 70);
    push_le32(&mut out, 36 + data_size);
    push_tag(&mut out, 87, 65, 86, 69);
    push_tag(&mut out, 102, 109, 116, 32);
    push_le32(&mut out, 16);
    push_tag(&mut out, 1, 0, 1, 0);
    push_le32(&mut out, sample_rate);
    push_le32(&mut out, 2 * sample_rate);
    push_tag(&mut out, 2, 0, 16, 0);
    push_tag(&mut out, 100, 97, 116, 97);
    push_le32(&mut out, data_size);
    proof {
        assert(seq![82u8, 73, 70, 70] =~= tag_riff());
        assert(seq![87u8, 65, 86, 69] =~= tag_wave());
        assert(seq![102u8, 109, 116, 32] =~= tag_fmt());
        assert(seq![100u8, 97, 116, 97] =~= tag_data());
        assert(out@ =~= wav_header(n as nat, sample_rate));
    }
    let ghost hdr = out@;
    let mut i: usize = 0;
    while i < n
        invariant
            n == samples@.len(),
            i <= n,
            hdr.len() == 44,
            out@ == hdr + pcm_bytes(samples@.subrange(0, i as int)),
        decreases n - i,
    {
        let s = samples[i];
        let u: u16 = if s < 0 {
            (s as i32 + 0x1_0000) as u16
        } else {
            s as u16
        };
        out.push((u % 256) as u8);
        out.push((u / 256) as u8);
        proof {
            let a = samples@.subrange(0, i as int);
            let b = samples@.subrange(0, i + 1);
            assert(b =~= a.push(s));
            assert(u == i16_bits(s));
            assert forall|k: int| 0 <= k < 2 * (i + 1) implies pcm_bytes(b)[k] == (pcm_bytes(a)
                + seq![(u % 256) as u8, (u / 256) as u8])[k] by {
                if k < 2 * i {
                    assert(k / 2 < i);
                } else {
                    assert(k / 2 == i);
                }
            }
            assert(pcm_bytes(b) =~= pcm_bytes(a) + seq![(u % 256) as u8, (u / 256) as u8]);
            assert(out@ =~= hdr + pcm_bytes(b));
        }
        i += 1;
    }
    proof {
        assert(samples@.subrange(0, n as int) =~= samples@);
        lemma_wav_roundtrip(samples@, sample_rate);
    }
    out
}

} // verus!
