//! A loaded tracker module: its information, its raw data and its samples.

use vstd::prelude::*;
use crate::bytes::{slice_range, to_owned_bytes};
use crate::dsp::{adpcm_decode, adpcm_decoded, adpcm_fits, delta_decode, sample_delta_decoded};
use crate::error::{Error, Fail};
use crate::it_compression::{decompress_it21n, it21n_decompressed};
use crate::sample::{PcmType, Sample, SampleView, depth_is_8_bit, frames_of, sample_end};

verus! {

/// Information about a tracker module
#[derive(Debug, Default, Clone)]
pub struct Info {
    pub name: String,
    pub format: String,
    pub comments: String,
    pub source: Option<String>,
}

/// A tracker module: its raw data and the samples found in it.
pub struct GenericTracker {
    pub info: Info,
    pub inner: Vec<u8>,
    pub samples: Vec<Sample>,
}

/// The views of a sequence of samples.
pub open spec fn views(v: Seq<Sample>) -> Seq<SampleView> {
    v.map_values(|s: Sample| s@)
}

/// Whether a loaded module holds the given data, samples and information.
pub open spec fn loaded_as(m: GenericTracker, data: Seq<u8>, samples: Seq<SampleView>, title: Seq<char>, format: Seq<char>) -> bool {
    &&& views(m.samples@) == samples
    &&& m.inner@ == data
    &&& m.info.name@ == title
    &&& m.info.format@ == format
    &&& m.info.comments@ == Seq::<char>::empty()
    &&& m.info.source is None
}

/// The samples that the first `n` sample headers yield, where header `k`
/// yields `f(k)`: a sample, nothing, or a failure that ends the loading.
pub open spec fn collect_samples(f: spec_fn(int) -> Result<Option<SampleView>, Fail>, n: nat) -> Result<Seq<SampleView>, Fail>
    decreases n,
{
    if n == 0 {
        Ok(Seq::empty())
    } else {
        match collect_samples(f, (n - 1) as nat) {
            Err(e) => Err(e),
            Ok(prev) => match f(n - 1) {
                Err(e) => Err(e),
                Ok(None) => Ok(prev),
                Ok(Some(s)) => Ok(prev.push(s)),
            },
        }
    }
}

/// Where every header yields only samples with a property, every sample
/// collected has it.
pub proof fn lemma_collect_all(f: spec_fn(int) -> Result<Option<SampleView>, Fail>, n: nat, p: spec_fn(SampleView) -> bool)
    requires
        forall|k: int| 0 <= k < n ==> match #[trigger] f(k) {
            Ok(Some(v)) => p(v),
            _ => true,
        },
    ensures
        collect_samples(f, n) matches Ok(s) ==> forall|i: int| 0 <= i < s.len() ==> p(#[trigger] s[i]),
    decreases n,
{
    if n > 0 {
        lemma_collect_all(f, (n - 1) as nat, p);
        let k = n - 1;
        assert(match f(k) { Ok(Some(v)) => p(v), _ => true });
    }
}

/// Once some headers fail, all of them do, with the same failure.
pub proof fn lemma_collect_err(f: spec_fn(int) -> Result<Option<SampleView>, Fail>, n: nat, m: nat)
    requires
        n <= m,
        collect_samples(f, n) is Err,
    ensures
        collect_samples(f, m) == collect_samples(f, n),
    decreases m - n,
{
    if n < m {
        lemma_collect_err(f, n, (m - 1) as nat);
    }
}

/// The bytes of `inner` that a sample's pointer and length cover, where they
/// lie inside it.
pub open spec fn sample_slice(inner: Seq<u8>, pointer: u32, length: u32) -> Option<Seq<u8>> {
    let end = sample_end(pointer, length) as int;
    if pointer <= end && end <= inner.len() {
        Some(inner.subrange(pointer as int, end))
    } else {
        None
    }
}

/// The bytes of `inner` from a sample's pointer to the end, where the pointer
/// lies inside it.
pub open spec fn trailing_slice(inner: Seq<u8>, pointer: u32) -> Option<Seq<u8>> {
    if pointer <= inner.len() {
        Some(inner.skip(pointer as int))
    } else {
        None
    }
}

/// The error for a sample whose data lies outside the module, or whose
/// compressed data ends before the sample does.
pub open spec fn bad_sample_of(smp: Sample) -> Error {
    Error::BadSample { raw_index: smp.index_raw, pointer: smp.pointer, length: smp.length }
}

/// The bad-sample error where no sample is known: every field zero.
pub open spec fn bad_sample_unknown() -> Error {
    Error::BadSample { raw_index: 0, pointer: 0, length: 0 }
}

/// The bytes of `buf` in the range `idx`, or the bad-sample error where the
/// range does not lie inside `buf`.
pub fn get_buf(buf: &[u8], idx: std::ops::Range<usize>) -> (r: Result<&[u8], Error>)
    ensures
        r is Ok <==> idx.start <= idx.end <= buf@.len(),
        r matches Ok(s) ==> s@ == buf@.subrange(idx.start as int, idx.end as int),
        r matches Err(e) ==> e == bad_sample_unknown(),
{
    if idx.start <= idx.end && idx.end <= buf.len() {
        Ok(slice_range(buf, idx.start, idx.end))
    } else {
        Err(Error::BadSample { raw_index: 0, pointer: 0, length: 0 })
    }
}

/// A copy of the bytes of `buf` in the range `idx`, or the bad-sample error
/// where the range does not lie inside `buf`.
pub fn get_buf_owned(buf: &[u8], idx: std::ops::Range<usize>) -> (r: Result<Vec<u8>, Error>)
    ensures
        r is Ok <==> idx.start <= idx.end <= buf@.len(),
        r matches Ok(v) ==> v@ == buf@.subrange(idx.start as int, idx.end as int),
        r matches Err(e) ==> e == bad_sample_unknown(),
{
    let s = get_buf(buf, idx)?;
    Ok(to_owned_bytes(s))
}

/// The decoded data of a sample that `pcm` gives back, where it succeeds.
pub open spec fn decoded_pcm(inner: Seq<u8>, smp: Sample) -> Option<Seq<u8>> {
    match smp.pcm_type {
        PcmType::PCM => sample_slice(inner, smp.pointer, smp.length),
        PcmType::DELTA => match sample_slice(inner, smp.pointer, smp.length) {
            Some(s) => Some(sample_delta_decoded(depth_is_8_bit(smp.depth), smp.channel is Stereo, s)),
            None => None,
        },
        PcmType::ADPCM => match sample_slice(inner, smp.pointer, smp.length) {
            Some(s) => if adpcm_fits(smp.length, s) { Some(adpcm_decoded(smp.length, s)) } else { None },
            None => None,
        },
        _ => match trailing_slice(inner, smp.pointer) {
            Some(t) => it21n_decompressed(
                depth_is_8_bit(smp.depth), t, frames_of(smp.length, smp.depth, smp.channel),
                smp.pcm_type == PcmType::IT215, smp.channel is Stereo,
            ),
            None => None,
        },
    }
}

/// Whether the sample's data lies where its kind of storage needs it: the
/// whole of it inside the module, or (for compressed data) its start.
pub open spec fn data_in_module(inner: Seq<u8>, smp: Sample) -> bool {
    match smp.pcm_type {
        PcmType::IT214 | PcmType::IT215 => trailing_slice(inner, smp.pointer) is Some,
        _ => sample_slice(inner, smp.pointer, smp.length) is Some,
    }
}

impl GenericTracker {
    /// The decoded PCM data of one of the module's samples: plain data as it
    /// is stored, delta values decoded, ADPCM and Impulse Tracker compressed
    /// data decompressed.
    pub fn pcm(&self, smp: &Sample) -> (r: Result<Vec<u8>, Error>)
        ensures
            r matches Ok(v) ==> decoded_pcm(self.inner@, *smp) == Some(v@),
            r is Err ==> decoded_pcm(self.inner@, *smp) is None,
            !data_in_module(self.inner@, *smp) ==> r == Err::<Vec<u8>, Error>(bad_sample_of(*smp)),
            data_in_module(self.inner@, *smp) && smp.pcm_type == PcmType::ADPCM ==> (r matches Err(e) ==> e is Io),
            smp.pcm_type == PcmType::IT214 || smp.pcm_type == PcmType::IT215
                ==> (r matches Err(e) ==> e == bad_sample_of(*smp)),
    {
        match smp.pcm_type {
            PcmType::PCM => {
                let s = self.get_slice(smp)?;
                Ok(to_owned_bytes(s))
            },
            PcmType::DELTA => {
                let s = self.get_owned_slice(smp)?;
                Ok(delta_decode(smp, s))
            },
            PcmType::ADPCM => {
                let s = self.get_slice(smp)?;
                adpcm_decode(smp, s)
            },
            PcmType::IT214 | PcmType::IT215 => {
                let t = self.get_slice_trailing(smp)?;
                decompress_it21n(smp, t, smp.length_frames(), smp.pcm_type == PcmType::IT215, smp.is_stereo())
            },
        }
    }

    fn get_slice(&self, smp: &Sample) -> (r: Result<&[u8], Error>)
        ensures
            r matches Ok(s) ==> sample_slice(self.inner@, smp.pointer, smp.length) == Some(s@),
            r matches Err(e) ==> sample_slice(self.inner@, smp.pointer, smp.length) is None && e == bad_sample_of(*smp),
    {
        let range = smp.ptr_range();
        if range.start <= range.end && range.end <= self.inner.len() {
            Ok(slice_range(self.inner.as_slice(), range.start, range.end))
        } else {
            Err(Error::bad_sample(smp))
        }
    }

    fn get_owned_slice(&self, smp: &Sample) -> (r: Result<Vec<u8>, Error>)
        ensures
            r matches Ok(v) ==> sample_slice(self.inner@, smp.pointer, smp.length) == Some(v@),
            r matches Err(e) ==> sample_slice(self.inner@, smp.pointer, smp.length) is None && e == bad_sample_of(*smp),
    {
        let s = self.get_slice(smp)?;
        Ok(to_owned_bytes(s))
    }

    fn get_slice_trailing(&self, smp: &Sample) -> (r: Result<&[u8], Error>)
        ensures
            r matches Ok(s) ==> trailing_slice(self.inner@, smp.pointer) == Some(s@),
            r matches Err(e) ==> trailing_slice(self.inner@, smp.pointer) is None && e == bad_sample_of(*smp),
    {
        let start = smp.pointer as usize;
        if start <= self.inner.len() {
            Ok(slice_range(self.inner.as_slice(), start, self.inner.len()))
        } else {
            Err(Error::bad_sample(smp))
        }
    }

    /// Record the path that the module was loaded from.
    pub fn set_source(&mut self, path: String)
        ensures
            final(self).info.source == Some(path),
            final(self).info.name == old(self).info.name,
            final(self).info.format == old(self).info.format,
            final(self).info.comments == old(self).info.comments,
            final(self).inner == old(self).inner,
            final(self).samples == old(self).samples,
    {
        self.info.source = Some(path);
    }

    /// The module's samples.
    pub fn samples(&self) -> (r: &[Sample])
        ensures
            r@ == self.samples@,
    {
        self.samples.as_slice()
    }

    /// The path the module was loaded from, where it is known.
    pub fn source(&self) -> (r: Option<&str>)
        ensures
            r is Some <==> self.info.source is Some,
            r matches Some(p) ==> p@ == self.info.source->0@,
    {
        match &self.info.source {
            Some(p) => Some(p.as_str()),
            None => None,
        }
    }

    /// The number of samples.
    pub fn len(&self) -> (r: usize)
        ensures
            r == self.samples@.len(),
    {
        self.samples.len()
    }

    /// Whether the module has no samples.
    pub fn is_empty(&self) -> (r: bool)
        ensures
            r == (self.samples@.len() == 0),
    {
        self.samples.len() == 0
    }

    /// Information about the module.
    pub fn info(&self) -> (r: &Info)
        ensures
            *r == self.info,
    {
        &self.info
    }

    /// The module's raw data.
    pub fn raw(&self) -> (r: &[u8])
        ensures
            r@ == self.inner@,
    {
        self.inner.as_slice()
    }
}

} // verus!
