//! WAV files, read and written by `hound`.
use vstd::prelude::*;

verus! {

/// What the head of a WAV file says of its samples.
#[derive(Clone, Copy, Debug, PartialEq, Eq, Structural)]
pub struct Header {
    pub channels: u16,
    pub sample_rate: u32,
    pub bits_per_sample: u16,
    /// Whether the samples are floating point numbers; otherwise they are integers.
    pub float: bool,
}

/// `hound::Error`, why a file could not be read or written.
#[verifier::external_type_specification]
#[verifier::external_body]
pub struct ExWavError(hound::Error);

/// The header that `hound::WavReader` reads in a byte string, if it accepts it as a WAV file.
pub uninterp spec fn header_of(bytes: Seq<u8>) -> Option<Header>;

/// All samples that `hound::WavReader::samples::<i16>` reads in a byte string, channels
/// interleaved, if it can read every one of them as 16 bit.
pub uninterp spec fn samples_of(bytes: Seq<u8>) -> Option<Seq<i16>>;

/// The header of a recording of one channel in 16 bit integers.
pub open spec fn mono16(sample_rate: u32) -> Header {
    Header { channels: 1, sample_rate, bits_per_sample: 16, float: false }
}

/// The `len` lowest bytes of `n`, the lowest one first.
pub open spec fn little_endian(n: int, len: nat) -> Seq<u8>
    decreases len,
{
    if len == 0 {
        seq![]
    } else {
        seq![(n % 256) as u8] + little_endian(n / 256, (len - 1) as nat)
    }
}

/// The samples as bytes, each of them in two.
pub open spec fn sample_bytes(samples: Seq<i16>) -> Seq<u8>
    decreases samples.len(),
{
    if samples.len() == 0 {
        seq![]
    } else {
        sample_bytes(samples.drop_last()) + little_endian(samples.last() as int, 2)
    }
}

/// The WAV file of one channel in 16 bit integers: a head of 44 bytes, and the samples.
pub open spec fn written(sample_rate: u32, samples: Seq<i16>) -> Seq<u8> {
    let len = 2 * samples.len() as int;
    seq![82u8, 73, 70, 70]  // RIFF
        + little_endian(36 + len, 4) + seq![87u8, 65, 86, 69, 102, 109, 116, 32]  // WAVEfmt
        + little_endian(16, 4) + little_endian(1, 2) + little_endian(1, 2) + little_endian(
        sample_rate as int,
        4,
    ) + little_endian(2 * sample_rate, 4) + little_endian(2, 2) + little_endian(16, 2) + seq![
        100u8,
        97,
        116,
        97,
    ]  // data
        + little_endian(len, 4) + sample_bytes(samples)
}

/// Whether `hound` can write `len` samples under a header of one channel in 16 bit integers: the
/// byte rate and the file's length are stored in 32 bits, and the byte rate is divided by the
/// sample rate.
pub open spec fn writable(sample_rate: u32, len: nat) -> bool {
    &&& 0 < sample_rate
    &&& 2 * sample_rate <= u32::MAX
    &&& 2 * len + 36 <= u32::MAX
}

/// `hound::WavReader::new` and `spec`: the header, a function of the bytes alone. A file that is
/// accepted has at least one channel.
#[verifier::external_body]
pub(crate) fn read_header(bytes: &[u8]) -> (r: Result<Header, hound::Error>)
    ensures
        match header_of(bytes@) {
            Some(h) => r == Ok::<Header, hound::Error>(h),
            None => r is Err,
        },
        r matches Ok(h) ==> h.channels > 0,
{
    let spec = hound::WavReader::new(std::io::Cursor::new(bytes))?.spec();
    Ok(Header {
        channels: spec.channels,
        sample_rate: spec.sample_rate,
        bits_per_sample: spec.bits_per_sample,
        float: spec.sample_format == hound::SampleFormat::Float,
    })
}

/// `hound::WavReader::new` and `into_samples::<i16>`: all samples, a function of the bytes alone.
/// They can be read only where the header can be, and they are whole frames of all channels.
#[verifier::external_body]
pub(crate) fn read_samples(bytes: &[u8]) -> (r: Result<Vec<i16>, hound::Error>)
    ensures
        match samples_of(bytes@) {
            Some(s) => r matches Ok(v) && v@ == s,
            None => r is Err,
        },
        r is Ok ==> header_of(bytes@) is Some,
        r matches Ok(v) ==> v@.len() % (header_of(bytes@)->0.channels as nat) == 0,
{
    hound::WavReader::new(std::io::Cursor::new(bytes))?.into_samples::<i16>().collect()
}

/// `hound::WavWriter::new`, `write_sample` for each sample, and `finalize`, into memory: the file as
/// [`written`] spells it out. Reading it gives the header and the samples back.
#[verifier::external_body]
pub(crate) fn write(header: Header, samples: &[i16]) -> (r: Result<Vec<u8>, hound::Error>)
    requires
        header == mono16(header.sample_rate),
        writable(header.sample_rate, samples@.len()),
    ensures
        r is Ok,
        r->Ok_0@ == written(header.sample_rate, samples@),
        header_of(r->Ok_0@) == Some(header),
        samples_of(r->Ok_0@) == Some(samples@),
{
    let mut buf = std::io::Cursor::new(Vec::new());
    let spec = hound::WavSpec {
        channels: header.channels,
        sample_rate: header.sample_rate,
        bits_per_sample: header.bits_per_sample,
        sample_format: hound::SampleFormat::Int,
    };
    let mut w = hound::WavWriter::new(&mut buf, spec)?;
    for &s in samples {
        w.write_sample(s)?;
    }
    w.finalize()?;
    Ok(buf.into_inner())
}

/// The WAV file of one channel in 16 bit integers with the given samples.
pub fn encode(sample_rate: u32, samples: &[i16]) -> (r: Vec<u8>)
    requires
        writable(sample_rate, samples@.len()),
    ensures
        r@ == written(sample_rate, samples@),
        header_of(r@) == Some(mono16(sample_rate)),
        samples_of(r@) == Some(samples@),
{
    let header = Header { channels: 1, sample_rate, bits_per_sample: 16, float: false };
    match write(header, samples) {
        Ok(bytes) => bytes,
        Err(_) => Vec::new(),
    }
}

} // verus!
