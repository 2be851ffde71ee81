//! 16-bit PCM WAV files: the one format the bot writes for its tones and for the
//! speech it hands to an external recogniser.
use vstd::prelude::*;
use vstd::bytes::{
    spec_u16_from_le_bytes, spec_u16_to_le_bytes, spec_u32_from_le_bytes, spec_u32_to_le_bytes,
    u16_to_le_bytes, u32_from_le_bytes, u32_to_le_bytes,
};

verus! {

/// `"RIFF"`.
pub open spec fn riff_tag() -> Seq<u8> {
    seq![0x52u8, 0x49u8, 0x46u8, 0x46u8]
}

/// `"WAVE"`.
pub open spec fn wave_tag() -> Seq<u8> {
    seq![0x57u8, 0x41u8, 0x56u8, 0x45u8]
}

/// `"fmt "`.
pub open spec fn fmt_tag() -> Seq<u8> {
    seq![0x66u8, 0x6du8, 0x74u8, 0x20u8]
}

/// `"data"`.
pub open spec fn data_tag() -> Seq<u8> {
    seq![0x64u8, 0x61u8, 0x74u8, 0x61u8]
}

/// The little-endian bytes of a `u16`.
pub open spec fn le16(x: u16) -> Seq<u8> {
    spec_u16_to_le_bytes(x)
}

/// The little-endian bytes of a `u32`.
pub open spec fn le32(x: u32) -> Seq<u8> {
    spec_u32_to_le_bytes(x)
}

/// The samples as little-endian 16-bit words, in order.
pub open spec fn pcm_data(samples: Seq<i16>) -> Seq<u8>
    decreases samples.len(),
{
    if samples.len() == 0 {
        Seq::<u8>::empty()
    } else {
        pcm_data(samples.drop_last()) + le16(samples.last() as u16)
    }
}

/// A canonical 44-byte-header PCM WAV file holding interleaved 16-bit `samples`.
/// The two length fields hold their values truncated to 32 bits.
pub open spec fn wav_file(channels: u16, sample_rate: u32, samples: Seq<i16>) -> Seq<u8> {
    let data_len = 2 * samples.len();
    riff_tag() + le32((36 + data_len) as u32) + wave_tag() + fmt_tag() + le32(16) + le16(1) + le16(
        channels,
    ) + le32(sample_rate) + le32((sample_rate * channels * 2) as u32) + le16((channels * 2) as u16)
        + le16(16) + data_tag() + le32(data_len as u32) + pcm_data(samples)
}

/// Appends the bytes of `more` to `out`.
fn append_bytes(out: &mut Vec<u8>, more: &[u8])
    ensures
        final(out)@ == old(out)@ + more@,
{
    let ghost base = out@;
    for i in 0..more.len()
        invariant
            out@ == base + more@.take(i as int),
    {
        out.push(more[i]);
        assert(more@.take(i + 1) =~= more@.take(i as int).push(more@[i as int]));
    }
    assert(more@.take(more.len() as int) =~= more@);
}

/// Writes interleaved 16-bit samples as a PCM WAV file with the given channel count
/// and sample rate.
pub fn encode_pcm16(channels: u16, sample_rate: u32, samples: &[i16]) -> (r: Vec<u8>)
    requires
        sample_rate * channels * 2 <= u32::MAX,
        channels * 2 <= u16::MAX,
        36 + 2 * samples.len() <= usize::MAX,
    ensures
        r@ == wav_file(channels, sample_rate, samples@),
{
    let data_len: usize = samples.len() * 2;
    let mut out: Vec<u8> = Vec::new();
    let riff: Vec<u8> = vec![0x52u8, 0x49u8, 0x46u8, 0x46u8];
    append_bytes(&mut out, riff.as_slice());
    append_bytes(&mut out, u32_to_le_bytes((36 + data_len) as u32).as_slice());
    let wave: Vec<u8> = vec![0x57u8, 0x41u8, 0x56u8, 0x45u8];
    append_bytes(&mut out, wave.as_slice());
    let fmt: Vec<u8> = vec![0x66u8, 0x6du8, 0x74u8, 0x20u8];
    append_bytes(&mut out, fmt.as_slice());
    append_bytes(&mut out, u32_to_le_bytes(16).as_slice());
    append_bytes(&mut out, u16_to_le_bytes(1).as_slice());
    append_bytes(&mut out, u16_to_le_bytes(channels).as_slice());
    append_bytes(&mut out, u32_to_le_bytes(sample_rate).as_slice());
    append_bytes(&mut out, u32_to_le_bytes(sample_rate * (channels as u32) * 2).as_slice());
    append_bytes(&mut out, u16_to_le_bytes(channels * 2).as_slice());
    append_bytes(&mut out, u16_to_le_bytes(16).as_slice());
    let data: Vec<u8> = vec![0x64u8, 0x61u8, 0x74u8, 0x61u8];
    append_bytes(&mut out, data.as_slice());
    append_bytes(&mut out, u32_to_le_bytes(data_len as u32).as_slice());
    let ghost header = out@;
    assert(header =~= riff_tag() + le32((36 + data_len) as u32) + wave_tag() + fmt_tag() + le32(16)
        + le16(1) + le16(channels) + le32(sample_rate) + le32((sample_rate * channels * 2) as u32)
        + le16((channels * 2) as u16) + le16(16) + data_tag() + le32(data_len as u32));
    for i in 0..samples.len()
        invariant
            out@ == header + pcm_data(samples@.take(i as int)),
    {
        let word = u16_to_le_bytes(samples[i] as u16);
        append_bytes(&mut out, word.as_slice());
        proof {
            let t = samples@.take(i + 1);
            assert(t.drop_last() =~= samples@.take(i as int));
            assert(out@ =~= header + pcm_data(t));
        }
    }
    assert(samples@.take(samples.len() as int) =~= samples@);
    out
}

} // verus!

verus! {

/// Why bytes could not be read as a WAV file.
#[derive(Debug, Clone, Copy, PartialEq, Eq, Structural)]
pub enum WavError {
    /// The bytes do not start with a RIFF/WAVE header.
    NotRiffWave,
    /// No complete `data` chunk was found.
    NoDataChunk,
}

/// The little-endian `u32` stored at `i`.
pub open spec fn u32_at(b: Seq<u8>, i: int) -> u32 {
    spec_u32_from_le_bytes(b.subrange(i, i + 4))
}

/// The 16-bit little-endian samples held by `d`; an odd trailing byte is ignored.
pub open spec fn samples_of(d: Seq<u8>) -> Seq<i16> {
    Seq::new(d.len() / 2, |i: int| spec_u16_from_le_bytes(d.subrange(2 * i, 2 * i + 2)) as i16)
}

/// Walks the chunks from `pos` on, with `rate` the sample rate read so far: a `fmt `
/// chunk sets the rate from its bytes 4..8, the first `data` chunk ends the walk, other
/// chunks are skipped. Chunks are word aligned, so an odd size is followed by a pad byte.
/// A chunk whose declared size runs past the end stops the walk.
pub open spec fn read_chunks(b: Seq<u8>, pos: int, rate: u32) -> Result<(u32, Seq<i16>), WavError>
    decreases b.len() + 1 - pos,
{
    if pos < 0 || pos + 8 > b.len() {
        Err(WavError::NoDataChunk)
    } else {
        let size = u32_at(b, pos + 4);
        let start = pos + 8;
        let end = start + size;
        let next = end + size % 2;
        if end > b.len() {
            Err(WavError::NoDataChunk)
        } else if b.subrange(pos, pos + 4) == fmt_tag() {
            read_chunks(b, next, u32_at(b, start + 4))
        } else if b.subrange(pos, pos + 4) == data_tag() {
            Ok((rate, samples_of(b.subrange(start, end))))
        } else {
            read_chunks(b, next, rate)
        }
    }
}

/// Every `fmt ` chunk met by the walk from `pos` has bytes 4..8 inside the file.
pub open spec fn fmt_reads_in_bounds(b: Seq<u8>, pos: int) -> bool
    decreases b.len() + 1 - pos,
{
    if pos < 0 || pos + 8 > b.len() {
        true
    } else {
        let size = u32_at(b, pos + 4);
        let start = pos + 8;
        let end = start + size;
        let next = end + size % 2;
        if end > b.len() {
            true
        } else if b.subrange(pos, pos + 4) == fmt_tag() {
            start + 8 <= b.len() && fmt_reads_in_bounds(b, next)
        } else if b.subrange(pos, pos + 4) == data_tag() {
            true
        } else {
            fmt_reads_in_bounds(b, next)
        }
    }
}

/// Whether the bytes start with `"RIFF"`.
pub open spec fn starts_riff(b: Seq<u8>) -> bool {
    b.len() >= 4 && b.take(4) == riff_tag()
}

/// The sample rate and samples of a WAV file: the rate of the last `fmt ` chunk before
/// the first `data` chunk (0 when there is none), and the samples of that `data` chunk.
pub open spec fn decode_wav(b: Seq<u8>) -> Result<(u32, Seq<i16>), WavError> {
    if !starts_riff(b) || b.subrange(8, 12) != wave_tag() {
        Err(WavError::NotRiffWave)
    } else {
        read_chunks(b, 12, 0)
    }
}

/// Whether `b[i..i + 4]` equals the four bytes of `tag`.
fn tag_at(b: &[u8], i: usize, tag: &[u8]) -> (r: bool)
    requires
        i + 4 <= b.len(),
        tag.len() == 4,
    ensures
        r == (b@.subrange(i as int, i + 4) == tag@),
{
    let r = b[i] == tag[0] && b[i + 1] == tag[1] && b[i + 2] == tag[2] && b[i + 3] == tag[3];
    if r {
        assert(b@.subrange(i as int, i + 4) =~= tag@);
    } else {
        assert(b@.subrange(i as int, i + 4) != tag@) by {
            if b@.subrange(i as int, i + 4) == tag@ {
                assert(b@.subrange(i as int, i + 4)[0] == tag@[0]);
                assert(b@.subrange(i as int, i + 4)[1] == tag@[1]);
                assert(b@.subrange(i as int, i + 4)[2] == tag@[2]);
                assert(b@.subrange(i as int, i + 4)[3] == tag@[3]);
            }
        }
    }
    r
}

/// The little-endian `u32` stored at `i`.
fn read_u32(b: &[u8], i: usize) -> (r: u32)
    requires
        i + 4 <= b.len(),
    ensures
        r == u32_at(b@, i as int),
{
    let mut word: Vec<u8> = Vec::new();
    word.push(b[i]);
    word.push(b[i + 1]);
    word.push(b[i + 2]);
    word.push(b[i + 3]);
    assert(word@ =~= b@.subrange(i as int, i + 4));
    u32_from_le_bytes(word.as_slice())
}

/// The 16-bit little-endian samples of `b[start..end]`.
fn read_samples(b: &[u8], start: usize, end: usize) -> (r: Vec<i16>)
    requires
        start <= end <= b.len(),
    ensures
        r@ == samples_of(b@.subrange(start as int, end as int)),
{
    let ghost d = b@.subrange(start as int, end as int);
    let count: usize = (end - start) / 2;
    let mut r: Vec<i16> = Vec::new();
    for i in 0..count
        invariant
            count == d.len() / 2,
            d == b@.subrange(start as int, end as int),
            start <= end <= b.len(),
            r@ =~= samples_of(d).take(i as int),
    {
        let mut pair: Vec<u8> = Vec::new();
        pair.push(b[start + 2 * i]);
        pair.push(b[start + 2 * i + 1]);
        assert(pair@ =~= d.subrange(2 * i, 2 * i + 2));
        let x = vstd::bytes::u16_from_le_bytes(pair.as_slice());
        r.push(x as i16);
        assert(samples_of(d).take(i + 1) =~= samples_of(d).take(i as int).push(x as i16));
    }
    assert(samples_of(d).take(count as int) =~= samples_of(d));
    r
}

/// Whether [`decode_pcm16`] can read `b` without running past its end: a file that
/// starts with "RIFF" holds the 12-byte header, and in a RIFF/WAVE file every `fmt `
/// chunk the walk meets holds the sample rate. A reader that indexes the bytes the way
/// [`decode_pcm16`] does panics on any other input.
pub fn wav_readable(b: &[u8]) -> (r: bool)
    ensures
        r == ((starts_riff(b@) ==> b.len() >= 12) && (starts_riff(b@) && b@.subrange(8, 12) == wave_tag()
            ==> fmt_reads_in_bounds(b@, 12)) && b.len() < usize::MAX),
{
    if b.len() == usize::MAX {
        return false;
    }
    let riff: Vec<u8> = vec![0x52u8, 0x49u8, 0x46u8, 0x46u8];
    let wave: Vec<u8> = vec![0x57u8, 0x41u8, 0x56u8, 0x45u8];
    let fmt: Vec<u8> = vec![0x66u8, 0x6du8, 0x74u8, 0x20u8];
    let data: Vec<u8> = vec![0x64u8, 0x61u8, 0x74u8, 0x61u8];
    assert(riff@ =~= riff_tag() && wave@ =~= wave_tag() && fmt@ =~= fmt_tag() && data@ =~= data_tag());
    if !(b.len() >= 4 && tag_at(b, 0, riff.as_slice())) {
        assert(!starts_riff(b@)) by {
            if b.len() >= 4 {
                assert(b@.take(4) =~= b@.subrange(0, 4));
            }
        }
        return true;
    }
    assert(b@.take(4) =~= b@.subrange(0, 4));
    if b.len() < 12 {
        return false;
    }
    if !tag_at(b, 8, wave.as_slice()) {
        return true;
    }
    let mut pos: usize = 12;
    while pos <= b.len() && b.len() - pos >= 8
        invariant
            b.len() < usize::MAX,
            fmt@ == fmt_tag(),
            data@ == data_tag(),
            starts_riff(b@),
            b.len() >= 12,
            b@.subrange(8, 12) == wave_tag(),
            pos <= b.len() + 1,
            fmt_reads_in_bounds(b@, 12) == fmt_reads_in_bounds(b@, pos as int),
        decreases b.len() + 1 - pos,
    {
        let size = read_u32(b, pos + 4);
        let start = pos + 8;
        if size as usize > b.len() - start {
            assert(pos + 8 + size > b.len());
            assert(fmt_reads_in_bounds(b@, pos as int));
            return true;
        }
        let end = start + size as usize;
        let next = end + (size % 2) as usize;
        if tag_at(b, pos, fmt.as_slice()) {
            if b.len() - start < 8 {
                assert(pos + 8 + size <= b.len());
                assert(!fmt_reads_in_bounds(b@, pos as int));
                return false;
            }
        } else if tag_at(b, pos, data.as_slice()) {
            return true;
        }
        pos = next;
    }
    true
}

/// Reads a 16-bit PCM WAV file back into its sample rate and samples.
pub fn decode_pcm16(b: &[u8]) -> (r: Result<(u32, Vec<i16>), WavError>)
    requires
        starts_riff(b@) ==> b.len() >= 12,
        starts_riff(b@) && b@.subrange(8, 12) == wave_tag() ==> fmt_reads_in_bounds(b@, 12),
        b.len() < usize::MAX,
    ensures
        match r {
            Ok((rate, samples)) => decode_wav(b@) == Ok::<(u32, Seq<i16>), WavError>((rate, samples@)),
            Err(e) => decode_wav(b@) == Err::<(u32, Seq<i16>), WavError>(e),
        },
{
    let riff: Vec<u8> = vec![0x52u8, 0x49u8, 0x46u8, 0x46u8];
    let wave: Vec<u8> = vec![0x57u8, 0x41u8, 0x56u8, 0x45u8];
    let fmt: Vec<u8> = vec![0x66u8, 0x6du8, 0x74u8, 0x20u8];
    let data: Vec<u8> = vec![0x64u8, 0x61u8, 0x74u8, 0x61u8];
    assert(riff@ =~= riff_tag() && wave@ =~= wave_tag() && fmt@ =~= fmt_tag() && data@ =~= data_tag());
    if !(b.len() >= 4 && tag_at(b, 0, riff.as_slice())) {
        assert(!starts_riff(b@)) by {
            if b.len() >= 4 {
                assert(b@.take(4) =~= b@.subrange(0, 4));
            }
        }
        return Err(WavError::NotRiffWave);
    }
    assert(b@.take(4) =~= b@.subrange(0, 4));
    if !tag_at(b, 8, wave.as_slice()) {
        return Err(WavError::NotRiffWave);
    }
    let mut rate: u32 = 0;
    let mut pos: usize = 12;
    while pos <= b.len() && b.len() - pos >= 8
        invariant
            b.len() < usize::MAX,
            fmt@ == fmt_tag(),
            data@ == data_tag(),
            pos <= b.len() + 1,
            decode_wav(b@) == read_chunks(b@, pos as int, rate),
            fmt_reads_in_bounds(b@, pos as int),
        decreases b.len() + 1 - pos,
    {
        let size = read_u32(b, pos + 4);
        let start = pos + 8;
        if size as usize > b.len() - start {
            return Err(WavError::NoDataChunk);
        }
        let end = start + size as usize;
        let next = end + (size % 2) as usize;
        if tag_at(b, pos, fmt.as_slice()) {
            rate = read_u32(b, start + 4);
        } else if tag_at(b, pos, data.as_slice()) {
            let samples = read_samples(b, start, end);
            return Ok((rate, samples));
        }
        pos = next;
    }
    Err(WavError::NoDataChunk)
}

} // verus!

verus! {

/// The 44 header bytes of [`wav_file`].
pub open spec fn wav_header(channels: u16, sample_rate: u32, count: nat) -> Seq<u8> {
    let data_len = 2 * count;
    riff_tag() + le32((36 + data_len) as u32) + wave_tag() + fmt_tag() + le32(16) + le16(1) + le16(
        channels,
    ) + le32(sample_rate) + le32((sample_rate * channels * 2) as u32) + le16((channels * 2) as u16)
        + le16(16) + data_tag() + le32(data_len as u32)
}

/// Each sample occupies its own two bytes of [`pcm_data`].
proof fn lemma_pcm_data(samples: Seq<i16>)
    ensures
        pcm_data(samples).len() == 2 * samples.len(),
        forall|i: int|
            0 <= i < samples.len() ==> #[trigger] pcm_data(samples).subrange(2 * i, 2 * i + 2) == le16(
                samples[i] as u16,
            ),
    decreases samples.len(),
{
    vstd::bytes::lemma_auto_spec_u16_to_from_le_bytes();
    if samples.len() > 0 {
        let prev = samples.drop_last();
        lemma_pcm_data(prev);
        let whole = pcm_data(samples);
        assert forall|i: int| 0 <= i < samples.len() implies #[trigger] whole.subrange(2 * i, 2 * i + 2)
            == le16(samples[i] as u16) by {
            if i < prev.len() {
                assert(whole.subrange(2 * i, 2 * i + 2) =~= pcm_data(prev).subrange(2 * i, 2 * i + 2));
            } else {
                assert(whole.subrange(2 * i, 2 * i + 2) =~= le16(samples.last() as u16));
            }
        }
    }
}

/// Reading back the bytes of [`pcm_data`] gives the samples.
proof fn lemma_samples_of_pcm_data(samples: Seq<i16>)
    ensures
        samples_of(pcm_data(samples)) == samples,
{
    lemma_pcm_data(samples);
    vstd::bytes::lemma_auto_spec_u16_to_from_le_bytes();
    let back = samples_of(pcm_data(samples));
    assert forall|i: int| 0 <= i < samples.len() implies back[i] == samples[i] by {
        let x = samples[i];
        assert(pcm_data(samples).subrange(2 * i, 2 * i + 2) == le16(x as u16));
        assert((x as u16) as i16 == x) by (bit_vector);
    }
    assert(back =~= samples);
}

/// A WAV file written by [`encode_pcm16`] reads back as the sample rate and samples it
/// was written from, whatever the channel count, provided its length fields did not
/// overflow 32 bits.
pub proof fn lemma_wav_round_trip(channels: u16, sample_rate: u32, samples: Seq<i16>)
    requires
        36 + 2 * samples.len() <= u32::MAX,
    ensures
        starts_riff(wav_file(channels, sample_rate, samples)),
        wav_file(channels, sample_rate, samples).len() >= 12,
        fmt_reads_in_bounds(wav_file(channels, sample_rate, samples), 12),
        decode_wav(wav_file(channels, sample_rate, samples)) == Ok::<(u32, Seq<i16>), WavError>(
            (sample_rate, samples),
        ),
{
    vstd::bytes::lemma_auto_spec_u16_to_from_le_bytes();
    vstd::bytes::lemma_auto_spec_u32_to_from_le_bytes();
    lemma_pcm_data(samples);
    lemma_samples_of_pcm_data(samples);
    let n: int = samples.len() as int;
    let h = wav_header(channels, sample_rate, samples.len());
    let d = pcm_data(samples);
    let b = wav_file(channels, sample_rate, samples);
    assert(b =~= h + d);
    assert(h.len() == 44);
    assert(b.subrange(0, 4) =~= riff_tag());
    assert(b.take(4) =~= riff_tag());
    assert(b.subrange(8, 12) =~= wave_tag());
    assert(b.subrange(12, 16) =~= fmt_tag());
    assert(b.subrange(16, 20) =~= le32(16));
    assert(b.subrange(24, 28) =~= le32(sample_rate));
    assert(b.subrange(36, 40) =~= data_tag());
    assert(b.subrange(40, 44) =~= le32((2 * n) as u32));
    assert(b.subrange(44, 44 + 2 * n) =~= d);
    assert(u32_at(b, 16) == 16);
    assert(u32_at(b, 24) == sample_rate);
    assert(u32_at(b, 40) == 2 * n);
    assert(fmt_tag() != data_tag()) by {
        assert(fmt_tag()[0] != data_tag()[0]);
    }
    assert(b.subrange(36, 40) != fmt_tag()) by {
        assert(fmt_tag()[0] != data_tag()[0]);
    }
    assert(read_chunks(b, 36, sample_rate) == Ok::<(u32, Seq<i16>), WavError>((sample_rate, samples)));
    assert(read_chunks(b, 12, 0) == read_chunks(b, 36, sample_rate));
    assert(fmt_reads_in_bounds(b, 36));
}

} // verus!

verus! {

/// Each sample repeated once per channel, so every channel carries the same signal.
pub open spec fn interleaved(mono: Seq<i16>, channels: nat) -> Seq<i16>
    decreases mono.len(),
{
    if mono.len() == 0 {
        Seq::<i16>::empty()
    } else {
        interleaved(mono.drop_last(), channels) + Seq::new(channels, |_i: int| mono.last())
    }
}

/// Repeats each sample once per channel.
pub fn interleave(mono: &[i16], channels: u16) -> (r: Vec<i16>)
    ensures
        r@ == interleaved(mono@, channels as nat),
{
    let mut r: Vec<i16> = Vec::new();
    for i in 0..mono.len()
        invariant
            r@ == interleaved(mono@.take(i as int), channels as nat),
    {
        let ghost base = r@;
        let s = mono[i];
        let mut c: u16 = 0;
        while c < channels
            invariant
                c <= channels,
                r@ == base + Seq::new(c as nat, |_i: int| s),
            decreases channels - c,
        {
            r.push(s);
            assert(base + Seq::new((c + 1) as nat, |_i: int| s) =~= (base + Seq::new(c as nat, |_i: int| s)).push(s));
            c = c + 1;
        }
        assert(mono@.take(i + 1).drop_last() =~= mono@.take(i as int));
        assert(r@ =~= interleaved(mono@.take(i + 1), channels as nat));
    }
    assert(mono@.take(mono.len() as int) =~= mono@);
    r
}

/// The header of a written file records what it was given: the PCM format code 1, the
/// channel count, the sample rate, the byte rate and block alignment they imply, 16 bits
/// per sample, and the data length, before the sample bytes.
pub proof fn lemma_wav_header_fields(channels: u16, sample_rate: u32, samples: Seq<i16>)
    ensures
        ({
            let b = wav_file(channels, sample_rate, samples);
            &&& b.subrange(0, 4) == seq![0x52u8, 0x49u8, 0x46u8, 0x46u8]
            &&& b.subrange(8, 16) == seq![0x57u8, 0x41u8, 0x56u8, 0x45u8, 0x66u8, 0x6du8, 0x74u8, 0x20u8]
            &&& spec_u16_from_le_bytes(b.subrange(20, 22)) == 1
            &&& spec_u16_from_le_bytes(b.subrange(22, 24)) == channels
            &&& spec_u32_from_le_bytes(b.subrange(24, 28)) == sample_rate
            &&& spec_u32_from_le_bytes(b.subrange(28, 32)) == (sample_rate * channels * 2) as u32
            &&& spec_u16_from_le_bytes(b.subrange(32, 34)) == (channels * 2) as u16
            &&& spec_u16_from_le_bytes(b.subrange(34, 36)) == 16
            &&& b.subrange(36, 40) == seq![0x64u8, 0x61u8, 0x74u8, 0x61u8]
            &&& spec_u32_from_le_bytes(b.subrange(40, 44)) == (2 * samples.len()) as u32
            &&& b.skip(44) == pcm_data(samples)
        }),
{
    vstd::bytes::lemma_auto_spec_u16_to_from_le_bytes();
    vstd::bytes::lemma_auto_spec_u32_to_from_le_bytes();
    let data_len = 2 * samples.len();
    let b = wav_file(channels, sample_rate, samples);
    let p1 = riff_tag();
    let p2 = le32((36 + data_len) as u32);
    let p3 = wave_tag();
    let p4 = fmt_tag();
    let p5 = le32(16);
    let p6 = le16(1);
    let p7 = le16(channels);
    let p8 = le32(sample_rate);
    let p9 = le32((sample_rate * channels * 2) as u32);
    let p10 = le16((channels * 2) as u16);
    let p11 = le16(16);
    let p12 = data_tag();
    let p13 = le32(data_len as u32);
    let p14 = pcm_data(samples);
    assert(b == p1 + p2 + p3 + p4 + p5 + p6 + p7 + p8 + p9 + p10 + p11 + p12 + p13 + p14);
    assert(b.subrange(0, 4) =~= p1);
    assert(b.subrange(8, 16) =~= p3 + p4);
    assert(b.subrange(20, 22) =~= p6);
    assert(b.subrange(22, 24) =~= p7);
    assert(b.subrange(24, 28) =~= p8);
    assert(b.subrange(28, 32) =~= p9);
    assert(b.subrange(32, 34) =~= p10);
    assert(b.subrange(34, 36) =~= p11);
    assert(b.subrange(36, 40) =~= p12);
    assert(b.subrange(40, 44) =~= p13);
    assert(b.skip(44) =~= p14);
}

} // verus!
