//! The sample engine: decode a WAV byte buffer, overwrite the
//! resolved sample ranges with generated samples, and re-encode.

use crate::generator::{Generator, Silence};
use crate::range::{resolve_spec, ResolveError};
use crate::replace::{Replace, ReplaceView};
use vstd::prelude::*;

verus! {

/// What a decoded WAV container holds, mathematically.
#[verifier::ext_equal]
pub ghost struct WavView {
    pub sample_rate: u32,
    pub channels: u16,
    pub bits_per_sample: u16,
    /// Total number of interleaved samples the data chunk holds.
    pub len: u32,
    /// The decoded 16-bit samples; nothing when the sample data could
    /// not be decoded as 16-bit integers.
    pub samples: Option<Seq<i16>>,
}

/// A decoded WAV container.
#[derive(Debug)]
pub struct WavData {
    pub sample_rate: u32,
    pub channels: u16,
    pub bits_per_sample: u16,
    /// Total number of interleaved samples the data chunk holds.
    pub len: u32,
    /// The decoded 16-bit samples; nothing when the sample data could
    /// not be decoded as 16-bit integers.
    pub samples: Option<Vec<i16>>,
}

impl View for WavData {
    type V = WavView;

    open spec fn view(&self) -> WavView {
        WavView {
            sample_rate: self.sample_rate,
            channels: self.channels,
            bits_per_sample: self.bits_per_sample,
            len: self.len,
            samples: match self.samples {
                Some(s) => Some(s@),
                None => None,
            },
        }
    }
}

/// What decoding a WAV byte buffer yields: a function of the bytes
/// alone.
pub uninterp spec fn wav_decode_of(bytes: Seq<u8>) -> Option<WavView>;

/// What encoding samples into a WAV byte buffer yields: a function of
/// the format and the samples alone.
pub uninterp spec fn wav_encode_of(
    sample_rate: u32,
    channels: u16,
    bits_per_sample: u16,
    samples: Seq<i16>,
) -> Option<Seq<u8>>;

/// Relies on `hound::WavReader::new` to read the WAV header from the
/// byte buffer, on `spec` and `len` for the format and the total
/// interleaved sample count (hound documents `len` as the number of
/// values the sample iterator yields), and on `into_samples` to
/// decode the data chunk into 16-bit samples.  Decoding a byte buffer
/// is a function of the bytes alone.
#[verifier::external_body]
fn wav_decode(bytes: &Vec<u8>) -> (r: Option<WavData>)
    ensures
        match r {
            Some(d) => wav_decode_of(bytes@) == Some(d@) && (d@.samples matches Some(s) ==> s.len()
                == d@.len),
            None => wav_decode_of(bytes@) is None,
        },
{
    let reader = hound::WavReader::new(std::io::Cursor::new(bytes.as_slice())).ok()?;
    let (spec, len) = (reader.spec(), reader.len());
    let samples = reader.into_samples::<i16>().collect::<Result<Vec<i16>, _>>().ok();
    Some(WavData {
        sample_rate: spec.sample_rate,
        channels: spec.channels,
        bits_per_sample: spec.bits_per_sample,
        len,
        samples,
    })
}

/// Relies on `hound::WavWriter::new` to write a PCM WAV header with
/// the given format, on `write_sample` for each 16-bit sample in
/// order, and on `finalize` to complete the container.  Encoding is a
/// function of the format and the samples alone.  The excluded inputs
/// are those on which the writer's own 32-bit header arithmetic does
/// not work: it divides the byte rate by the sample rate and takes
/// the sample count modulo the channel count (neither may be zero),
/// it computes the byte rate as `sample_rate * 2 * channels` in
/// `u32`, and it counts the data bytes, plus a header of at most 68
/// bytes, in `u32` as well.
#[verifier::external_body]
fn wav_encode(sample_rate: u32, channels: u16, bits_per_sample: u16, samples: &Vec<i16>) -> (r:
    Option<Vec<u8>>)
    requires
        sample_rate > 0,
        channels > 0,
        bits_per_sample == 16,
        2 * channels * sample_rate <= u32::MAX,
        2 * samples@.len() + 68 <= u32::MAX,
    ensures
        match r {
            Some(v) => wav_encode_of(sample_rate, channels, bits_per_sample, samples@) == Some(
                v@,
            ),
            None => wav_encode_of(sample_rate, channels, bits_per_sample, samples@) is None,
        },
{
    let sample_format = hound::SampleFormat::Int;
    let spec = hound::WavSpec { channels, sample_rate, bits_per_sample, sample_format };
    let mut cursor = std::io::Cursor::new(Vec::new());
    let mut writer = hound::WavWriter::new(&mut cursor, spec).ok()?;
    for s in samples.iter() {
        writer.write_sample(*s).ok()?;
    }
    writer.finalize().ok()?;
    Some(cursor.into_inner())
}

/// Why processing a WAV buffer failed.
#[derive(Debug, Clone, Copy, PartialEq, Eq, Structural)]
pub enum ProcessError {
    /// The container or its sample data could not be decoded.
    DecodeFailed,
    /// The file is not 16-bit PCM.
    UnsupportedFormat { bits_per_sample: u16 },
    /// The decoded header declares a sample rate and channel count
    /// that no output file could carry: either is zero, or their byte
    /// rate leaves `u32`.
    InvalidFormat { sample_rate: u32, channels: u16 },
    /// The sample data is too long for the 32-bit length fields of an
    /// output file.
    DataTooLong { len: usize },
    /// The replacement at the given position failed to resolve.
    Resolve { index: usize, error: ResolveError },
    /// The processed samples could not be re-encoded.
    EncodeFailed,
}

/// `data` with `[start, end)` replaced by `gen`.
pub open spec fn splice(data: Seq<i16>, start: int, end: int, gen: Seq<i16>) -> Seq<i16> {
    data.subrange(0, start) + gen + data.subrange(end, data.len() as int)
}

/// What applying one directive to the sample buffer yields: its range
/// is resolved against the buffer, an empty interval is a no-op, and
/// any other interval is overwritten with generated samples.
pub open spec fn apply_one_spec<G: Generator>(
    data: Seq<i16>,
    sample_rate: u32,
    channels: u16,
    r: ReplaceView,
    g: G,
) -> Result<Seq<i16>, ResolveError> {
    match resolve_spec(r.range, sample_rate, channels, data.len() as usize) {
        Err(e) => Err(e),
        Ok(iv) => if iv.0 == iv.1 {
            Ok(data)
        } else {
            Ok(splice(data, iv.0 as int, iv.1 as int, g.gen_spec(iv.0 as int, iv.1 as int, sample_rate)))
        },
    }
}

/// What applying the directives from position `i` on yields: the
/// first failing directive aborts with its index and error.
pub open spec fn apply_from_spec<G: Generator>(
    data: Seq<i16>,
    sample_rate: u32,
    channels: u16,
    rs: Seq<ReplaceView>,
    i: int,
    g: G,
) -> Result<Seq<i16>, (int, ResolveError)>
    decreases rs.len() - i,
{
    if i < 0 || i >= rs.len() {
        Ok(data)
    } else {
        match apply_one_spec(data, sample_rate, channels, rs[i], g) {
            Err(e) => Err((i, e)),
            Ok(d2) => apply_from_spec(d2, sample_rate, channels, rs, i + 1, g),
        }
    }
}

/// Applying directives never changes the buffer's length, for any
/// generator that fills its ranges exactly.
pub proof fn lemma_apply_from_len<G: Generator>(
    data: Seq<i16>,
    sample_rate: u32,
    channels: u16,
    rs: Seq<ReplaceView>,
    i: int,
    g: G,
)
    requires
        forall|s: int, e: int|
            0 <= s <= e ==> (#[trigger] g.gen_spec(s, e, sample_rate)).len() == e - s,
    ensures
        apply_from_spec(data, sample_rate, channels, rs, i, g) matches Ok(out) ==> out.len()
            == data.len(),
    decreases rs.len() - i,
{
    if 0 <= i < rs.len() {
        match apply_one_spec(data, sample_rate, channels, rs[i], g) {
            Err(_) => {}
            Ok(d2) => {
                lemma_apply_from_len(d2, sample_rate, channels, rs, i + 1, g);
            }
        }
    }
}

/// Apply all the directives to the sample buffer, in order.
pub fn apply_replaces<G: Generator>(
    data: Vec<i16>,
    sample_rate: u32,
    channels: u16,
    replaces: &Vec<Replace>,
    gen: &G,
) -> (r: Result<Vec<i16>, (usize, ResolveError)>)
    ensures
        match r {
            Ok(out) => apply_from_spec(
                data@,
                sample_rate,
                channels,
                replaces.deep_view(),
                0,
                *gen,
            ) == Ok::<_, (int, ResolveError)>(out@),
            Err(e) => apply_from_spec(
                data@,
                sample_rate,
                channels,
                replaces.deep_view(),
                0,
                *gen,
            ) == Err::<Seq<i16>, _>((e.0 as int, e.1)),
        },
{
    let ghost rsv = replaces.deep_view();
    let mut out = data;
    let n = replaces.len();
    let mut i: usize = 0;
    #[verifier::loop_isolation(false)]
    while i < n
        invariant
            i <= n,
            n == rsv.len(),
            rsv == replaces.deep_view(),
            apply_from_spec(data@, sample_rate, channels, rsv, 0, *gen) == apply_from_spec(
                out@,
                sample_rate,
                channels,
                rsv,
                i as int,
                *gen,
            ),
        decreases n - i,
    {
        let iv = match replaces[i].range.resolve(sample_rate, channels, out.len()) {
            Ok(iv) => iv,
            Err(e) => {
                proof {
                    assert(rsv[i as int].range == replaces@[i as int]@.range);
                }
                return Err((i, e));
            }
        };
        let (start, end) = iv;
        proof {
            assert(rsv[i as int].range == replaces@[i as int]@.range);
        }
        if start != end {
            let ghost pre = out@;
            let generated = gen.generate(start, end, sample_rate);
            let mut j: usize = start;
            #[verifier::loop_isolation(false)]
            while j < end
                invariant
                    start <= j <= end <= out@.len(),
                    out@.len() == pre.len(),
                    generated@ == gen.gen_spec(start as int, end as int, sample_rate),
                    generated@.len() == end - start,
                    forall|m: int| 0 <= m < start ==> out@[m] == pre[m],
                    forall|m: int| end <= m < pre.len() ==> out@[m] == pre[m],
                    forall|m: int| start <= m < j ==> out@[m] == generated@[m - start],
                decreases end - j,
            {
                out.set(j, generated[j - start]);
                j = j + 1;
            }
            proof {
                assert(out@ =~= splice(pre, start as int, end as int, generated@));
            }
        }
        i = i + 1;
    }
    Ok(out)
}

/// Replacing an interval with silence zeroes exactly that interval
/// and keeps every other sample.
pub proof fn lemma_silence_splice(data: Seq<i16>, start: int, end: int, g: Silence, rate: u32)
    requires
        0 <= start <= end <= data.len(),
    ensures
        splice(data, start, end, g.gen_spec(start, end, rate)).len() == data.len(),
        forall|k: int|
            0 <= k < data.len() ==> splice(data, start, end, g.gen_spec(start, end, rate))[k]
                == (if start <= k < end {
                0i16
            } else {
                data[k]
            }),
{
}

/// What processing a WAV buffer yields: the container is decoded,
/// only 16-bit PCM with a non-zero sample rate and channel count is
/// accepted, every directive is applied to the samples in order, and
/// the result is re-encoded with the original format.
pub open spec fn process_wav_spec<G: Generator>(
    bytes: Seq<u8>,
    rs: Seq<ReplaceView>,
    g: G,
) -> Result<Seq<u8>, ProcessError> {
    match wav_decode_of(bytes) {
        None => Err(ProcessError::DecodeFailed),
        Some(d) => if d.bits_per_sample != 16 {
            Err(ProcessError::UnsupportedFormat { bits_per_sample: d.bits_per_sample })
        } else if d.sample_rate == 0 || d.channels == 0 || 2 * d.channels * d.sample_rate
            > u32::MAX {
            Err(ProcessError::InvalidFormat { sample_rate: d.sample_rate, channels: d.channels })
        } else {
            match d.samples {
                None => Err(ProcessError::DecodeFailed),
                Some(s) => match apply_from_spec(s, d.sample_rate, d.channels, rs, 0, g) {
                    Err(e) => Err(ProcessError::Resolve { index: e.0 as usize, error: e.1 }),
                    Ok(processed) => if 2 * processed.len() + 68 > u32::MAX {
                        Err(ProcessError::DataTooLong { len: processed.len() as usize })
                    } else {
                        match wav_encode_of(d.sample_rate, d.channels, 16, processed) {
                            None => Err(ProcessError::EncodeFailed),
                            Some(out) => Ok(out),
                        }
                    },
                },
            }
        },
    }
}

/// Process a single WAV buffer and apply all the specified
/// replacements.
pub fn process_wav<G: Generator>(bytes: &Vec<u8>, replaces: &Vec<Replace>, gen: &G) -> (r: Result<
    Vec<u8>,
    ProcessError,
>)
    ensures
        match r {
            Ok(out) => process_wav_spec(bytes@, replaces.deep_view(), *gen) == Ok::<
                _,
                ProcessError,
            >(out@),
            Err(e) => process_wav_spec(bytes@, replaces.deep_view(), *gen) == Err::<Seq<u8>, _>(
                e,
            ),
        },
{
    let d = match wav_decode(bytes) {
        Some(d) => d,
        None => {
            return Err(ProcessError::DecodeFailed);
        }
    };
    if d.bits_per_sample != 16 {
        return Err(ProcessError::UnsupportedFormat { bits_per_sample: d.bits_per_sample });
    }
    let ch2: u64 = 2u64 * (d.channels as u64);
    proof {
        assert((ch2 as int) * (d.sample_rate as int) <= 131070 * 4294967295 && (ch2 as int) * (
        d.sample_rate as int) == 2 * (d.channels as int) * (d.sample_rate as int))
            by (nonlinear_arith)
            requires
                ch2 == 2 * (d.channels as int),
                0 <= d.channels < 65536,
                0 <= d.sample_rate <= 4294967295,
        ;
    }
    let byte_rate: u64 = ch2 * (d.sample_rate as u64);
    if d.sample_rate == 0 || d.channels == 0 || byte_rate > u32::MAX as u64 {
        return Err(
            ProcessError::InvalidFormat { sample_rate: d.sample_rate, channels: d.channels },
        );
    }
    let samples = match d.samples {
        Some(s) => s,
        None => {
            return Err(ProcessError::DecodeFailed);
        }
    };
    let processed = match apply_replaces(samples, d.sample_rate, d.channels, replaces, gen) {
        Ok(p) => p,
        Err(e) => {
            return Err(ProcessError::Resolve { index: e.0, error: e.1 });
        }
    };
    if processed.len() > (((u32::MAX - 68) / 2) as usize) {
        return Err(ProcessError::DataTooLong { len: processed.len() });
    }
    match wav_encode(d.sample_rate, d.channels, 16, &processed) {
        Some(out) => Ok(out),
        None => Err(ProcessError::EncodeFailed),
    }
}

/// What silencing a WAV buffer yields: the container's format and
/// duration are read, only 16-bit PCM with a non-zero sample rate and
/// channel count is accepted, and an all-zero buffer of identical
/// duration is encoded with the original format.
pub open spec fn silence_wav_spec(bytes: Seq<u8>) -> Result<Seq<u8>, ProcessError> {
    match wav_decode_of(bytes) {
        None => Err(ProcessError::DecodeFailed),
        Some(d) => if d.bits_per_sample != 16 {
            Err(ProcessError::UnsupportedFormat { bits_per_sample: d.bits_per_sample })
        } else if d.sample_rate == 0 || d.channels == 0 || 2 * d.channels * d.sample_rate
            > u32::MAX {
            Err(ProcessError::InvalidFormat { sample_rate: d.sample_rate, channels: d.channels })
        } else if 2 * d.len + 68 > u32::MAX {
            Err(ProcessError::DataTooLong { len: d.len as usize })
        } else {
            match wav_encode_of(
                d.sample_rate,
                d.channels,
                16,
                Seq::new(d.len as nat, |i: int| 0i16),
            ) {
                None => Err(ProcessError::EncodeFailed),
                Some(out) => Ok(out),
            }
        },
    }
}

/// Replace the given WAV buffer with silence of identical duration
/// and format.
pub fn silence_wav(bytes: &Vec<u8>) -> (r: Result<Vec<u8>, ProcessError>)
    ensures
        match r {
            Ok(out) => silence_wav_spec(bytes@) == Ok::<_, ProcessError>(out@),
            Err(e) => silence_wav_spec(bytes@) == Err::<Seq<u8>, _>(e),
        },
{
    let d = match wav_decode(bytes) {
        Some(d) => d,
        None => {
            return Err(ProcessError::DecodeFailed);
        }
    };
    if d.bits_per_sample != 16 {
        return Err(ProcessError::UnsupportedFormat { bits_per_sample: d.bits_per_sample });
    }
    let ch2: u64 = 2u64 * (d.channels as u64);
    proof {
        assert((ch2 as int) * (d.sample_rate as int) <= 131070 * 4294967295 && (ch2 as int) * (
        d.sample_rate as int) == 2 * (d.channels as int) * (d.sample_rate as int))
            by (nonlinear_arith)
            requires
                ch2 == 2 * (d.channels as int),
                0 <= d.channels < 65536,
                0 <= d.sample_rate <= 4294967295,
        ;
    }
    let byte_rate: u64 = ch2 * (d.sample_rate as u64);
    if d.sample_rate == 0 || d.channels == 0 || byte_rate > u32::MAX as u64 {
        return Err(
            ProcessError::InvalidFormat { sample_rate: d.sample_rate, channels: d.channels },
        );
    }
    if d.len > (u32::MAX - 68) / 2 {
        return Err(ProcessError::DataTooLong { len: d.len as usize });
    }
    let total = d.len as usize;
    let mut zeros: Vec<i16> = Vec::new();
    let mut i: usize = 0;
    #[verifier::loop_isolation(false)]
    while i < total
        invariant
            i <= total,
            zeros@ =~= Seq::new(i as nat, |m: int| 0i16),
        decreases total - i,
    {
        zeros.push(0i16);
        proof {
            assert(zeros@ =~= Seq::new((i + 1) as nat, |m: int| 0i16));
        }
        i = i + 1;
    }
    proof {
        assert(zeros@ =~= Seq::new(d.len as nat, |m: int| 0i16));
    }
    match wav_encode(d.sample_rate, d.channels, 16, &zeros) {
        Some(out) => Ok(out),
        None => Err(ProcessError::EncodeFailed),
    }
}

} // verus!
