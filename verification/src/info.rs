//! Basic information about a tracker module, and what ripping its samples
//! gives.

use vstd::prelude::*;
use crate::audio_buffer::{AudioBuffer, aligned, pcm_depth, pcm_raw};
use crate::error::{Error, ExtractionError};
use crate::export::{AudioFormat, format_encoded};
use crate::module::{GenericTracker, decoded_pcm};
use crate::sample::{Sample, channel_count};

verus! {

/// Basic information about a tracker module
///
/// If you need more information, you are better off just loading a module
#[derive(Debug, Clone)]
pub struct Info {
    pub name: String,
    pub format: String,
    pub total_samples: usize,
    pub total_sample_size: usize,
}

/// The sum of the lengths of the samples, in bytes.
pub open spec fn total_length(s: Seq<Sample>) -> nat
    decreases s.len(),
{
    if s.len() == 0 { 0 } else { total_length(s.drop_last()) + s.last().length as nat }
}

proof fn lemma_total_length_prefix(s: Seq<Sample>, i: int)
    requires
        0 <= i <= s.len(),
    ensures
        total_length(s.take(i)) <= total_length(s),
    decreases s.len() - i,
{
    if i < s.len() {
        lemma_total_length_prefix(s, i + 1);
        assert(s.take(i + 1).drop_last() =~= s.take(i));
    } else {
        assert(s.take(i) =~= s);
    }
}

/// Whether the lengths of a module's samples add up to a size that `usize`
/// holds.
pub fn total_length_fits(module: &GenericTracker) -> (r: bool)
    ensures
        r == (total_length(module.samples@) <= usize::MAX),
{
    let samples = module.samples();
    let mut total: u128 = 0;
    let mut i: usize = 0;
    while i < samples.len()
        invariant
            samples@ == module.samples@,
            i <= samples@.len(),
            total == total_length(samples@.take(i as int)),
            total <= i * 0x1_0000_0000,
        decreases samples@.len() - i,
    {
        assert(samples@.take(i as int + 1).drop_last() =~= samples@.take(i as int));
        total = total + samples[i].length as u128;
        i += 1;
    }
    assert(samples@.take(samples@.len() as int) =~= samples@);
    total <= usize::MAX as u128
}

impl Info {
    /// Information about a loaded module: its name, format, number of
    /// samples and the size of their data in kilobytes (rounded down).
    pub fn new(module: &GenericTracker) -> (r: Info)
        requires
            total_length(module.samples@) <= usize::MAX,
        ensures
            r.name@ == module.info.name@,
            r.format@ == module.info.format@,
            r.total_samples == module.samples@.len(),
            r.total_sample_size == total_length(module.samples@) / 1000,
    {
        let samples = module.samples();
        let mut total: usize = 0;
        let mut i: usize = 0;
        while i < samples.len()
            invariant
                samples@ == module.samples@,
                total_length(samples@) <= usize::MAX,
                i <= samples@.len(),
                total == total_length(samples@.take(i as int)),
            decreases samples@.len() - i,
        {
            assert(samples@.take(i as int + 1).drop_last() =~= samples@.take(i as int));
            proof {
                lemma_total_length_prefix(samples@, i as int + 1);
            }
            total = total + samples[i].length as usize;
            i += 1;
        }
        assert(samples@.take(samples@.len() as int) =~= samples@);
        Info {
            name: module.info.name.clone(),
            format: module.info.format.clone(),
            total_samples: samples.len(),
            total_sample_size: total / 1000,
        }
    }
}

/// The file that stores a sample in a format, from the sample's decoded
/// data: read with its depth, and written in the format.
pub fn encode_pcm(smp: &Sample, pcm: &[u8], format: AudioFormat) -> (r: Vec<u8>)
    ensures
        exists|buf: AudioBuffer|
            pcm_depth(buf.pcm) == smp.depth && pcm_raw(buf.pcm) == aligned(smp.depth, pcm@)
                && buf.channels == channel_count(smp.channel) && buf.rate == smp.rate
                && r@ == #[trigger] format_encoded(format, *smp, buf),
{
    let buf = AudioBuffer::new(smp, pcm);
    let mut out: Vec<u8> = Vec::new();
    format.write(smp, &buf, &mut out);
    assert(out@ =~= format_encoded(format, *smp, buf));
    out
}

/// The file that stores a sample of a module in a format: the sample's data
/// decoded, read with its depth, and written in the format.
pub fn encode_sample(module: &GenericTracker, smp: &Sample, format: AudioFormat) -> (r: Result<Vec<u8>, Error>)
    ensures
        r is Ok <==> decoded_pcm(module.inner@, *smp) is Some,
        r matches Ok(bytes) ==> exists|buf: AudioBuffer|
            pcm_depth(buf.pcm) == smp.depth && pcm_raw(buf.pcm) == aligned(smp.depth, decoded_pcm(module.inner@, *smp)->0)
                && buf.channels == channel_count(smp.channel) && buf.rate == smp.rate
                && bytes@ == #[trigger] format_encoded(format, *smp, buf),
{
    let pcm = module.pcm(smp)?;
    Ok(encode_pcm(smp, pcm.as_slice(), format))
}

/// Whether a module's samples can be ripped: a module without samples is
/// refused before anything is written.
pub fn check_rippable(module: &GenericTracker) -> (r: Result<(), Error>)
    ensures
        r is Ok <==> module.samples@.len() > 0,
        r matches Err(e) ==> e == Error::EmptyModule,
{
    if module.samples.len() == 0 {
        Err(Error::EmptyModule)
    } else {
        Ok(())
    }
}

/// Summarise the failures of ripping `total` samples.
pub fn extraction_outcome(errors: Vec<ExtractionError>, total: usize) -> (r: Result<(), Error>)
    ensures
        errors@.len() == 0 ==> r is Ok,
        errors@.len() != 0 && errors@.len() == total ==> r == Err::<(), Error>(
            Error::FailedRip(crate::error::FailedExtraction::Total(errors)),
        ),
        errors@.len() != 0 && errors@.len() != total ==> r == Err::<(), Error>(
            Error::FailedRip(crate::error::FailedExtraction::Partial(errors)),
        ),
{
    let n = errors.len();
    if n == 0 {
        Ok(())
    } else if n == total {
        Error::extraction_failure(errors)
    } else {
        Error::partial_extraction(errors)
    }
}

} // verus!
