//! Decoded sample data held as typed PCM values, ready to be written out.
//!
//! 16-bit values are read from, and written back as, little-endian byte
//! pairs.

use vstd::prelude::*;
use crate::sample::{Depth, Sample, channel_count, depth_is_8_bit};

verus! {

/// Signed 8-bit value of an unsigned 8-bit sample (dasp's conversion):
/// `s - 128`.
#[verifier::external_body]
fn u8_to_i8(s: u8) -> (r: i8)
    ensures
        r == s - 128,
{
    dasp::sample::conv::u8::to_i8(s)
}

/// Signed 8-bit value of a signed 16-bit sample (dasp's conversion): its
/// high byte, `s >> 8`.
#[verifier::external_body]
fn i16_to_i8(s: i16) -> (r: i8)
    ensures
        r == s as int / 256,
{
    dasp::sample::conv::i16::to_i8(s)
}

/// Signed 8-bit value of an unsigned 16-bit sample (dasp's conversion): its
/// high byte, less 128.
#[verifier::external_body]
fn u16_to_i8(s: u16) -> (r: i8)
    ensures
        r == s / 256 - 128,
{
    dasp::sample::conv::u16::to_i8(s)
}

/// PCM values of one of the four supported kinds.
#[derive(Debug, Clone)]
pub enum Pcm {
    I8(Vec<i8>),
    U8(Vec<u8>),
    I16(Vec<i16>),
    U16(Vec<u16>),
}

/// The little-endian bytes of 16-bit words.
pub open spec fn words_le(w: Seq<u16>) -> Seq<u8> {
    Seq::new(2 * w.len(), |i: int| if i % 2 == 0 { (w[i / 2] % 256) as u8 } else { (w[i / 2] / 256) as u8 })
}

/// The bytes that the values are stored as.
pub open spec fn pcm_raw(p: Pcm) -> Seq<u8> {
    match p {
        Pcm::I8(v) => v@.map_values(|x: i8| x as u8),
        Pcm::U8(v) => v@,
        Pcm::I16(v) => words_le(v@.map_values(|x: i16| x as u16)),
        Pcm::U16(v) => words_le(v@),
    }
}

pub open spec fn pcm_depth(p: Pcm) -> Depth {
    match p {
        Pcm::I8(_) => Depth::I8,
        Pcm::U8(_) => Depth::U8,
        Pcm::I16(_) => Depth::I16,
        Pcm::U16(_) => Depth::U16,
    }
}

/// The number of values.
pub open spec fn pcm_len(p: Pcm) -> nat {
    match p {
        Pcm::I8(v) => v@.len(),
        Pcm::U8(v) => v@.len(),
        Pcm::I16(v) => v@.len(),
        Pcm::U16(v) => v@.len(),
    }
}

/// The bytes that make up whole values of the given depth: a trailing odd
/// byte of 16-bit data is left out.
pub open spec fn aligned(depth: Depth, s: Seq<u8>) -> Seq<u8> {
    match depth {
        Depth::I8 | Depth::U8 => s,
        _ => s.take(s.len() - s.len() % 2),
    }
}

/// Value `i` converted to a signed 8-bit sample.
pub open spec fn sample_i8(p: Pcm, i: int) -> i8 {
    match p {
        Pcm::I8(v) => v@[i],
        Pcm::U8(v) => (v@[i] - 128) as i8,
        Pcm::I16(v) => (v@[i] as int / 256) as i8,
        Pcm::U16(v) => (v@[i] / 256 - 128) as i8,
    }
}

proof fn lemma_word_bytes(lo: u8, hi: u8)
    ensures
        ((lo + 256 * hi) as u16) % 256 == lo,
        ((lo + 256 * hi) as u16) / 256 == hi,
        (((lo + 256 * hi) as u16) as i16) as u16 == (lo + 256 * hi) as u16,
{
    let w: u16 = (lo + 256 * hi) as u16;
    assert(w % 256 == lo && w / 256 == hi) by (bit_vector)
        requires w == (lo + 256 * hi) as u16;
    assert((w as i16) as u16 == w) by (bit_vector);
}

impl Pcm {
    /// Read PCM values of the given depth from their bytes.
    pub fn new(depth: Depth, buffer: &[u8]) -> (r: Self)
        ensures
            pcm_depth(r) == depth,
            pcm_raw(r) == aligned(depth, buffer@),
    {
        match depth {
            Depth::U8 => {
                let mut v: Vec<u8> = Vec::new();
                let mut i: usize = 0;
                while i < buffer.len()
                    invariant
                        i <= buffer@.len(),
                        v@ == buffer@.take(i as int),
                    decreases buffer@.len() - i,
                {
                    v.push(buffer[i]);
                    i += 1;
                    assert(v@ =~= buffer@.take(i as int));
                }
                assert(v@ =~= buffer@);
                Pcm::U8(v)
            },
            Depth::I8 => {
                let mut v: Vec<i8> = Vec::new();
                let mut i: usize = 0;
                while i < buffer.len()
                    invariant
                        i <= buffer@.len(),
                        v@.len() == i,
                        forall|j: int| 0 <= j < i ==> (#[trigger] v@[j]) as u8 == buffer@[j],
                    decreases buffer@.len() - i,
                {
                    let b = buffer[i];
                    let x = b as i8;
                    assert(x as u8 == b) by (bit_vector)
                        requires x == b as i8;
                    v.push(x);
                    i += 1;
                }
                assert(v@.map_values(|x: i8| x as u8) =~= buffer@);
                Pcm::I8(v)
            },
            Depth::I16 => {
                let len = buffer.len();
                let n = len / 2;
                let mut v: Vec<i16> = Vec::new();
                let mut i: usize = 0;
                while i < n
                    invariant
                        len == buffer@.len(),
                        n == buffer@.len() / 2,
                        i <= n,
                        v@.len() == i,
                        forall|j: int| 0 <= j < i ==> (#[trigger] v@[j]) as u16 == (buffer@[2 * j] + 256 * buffer@[2 * j + 1]) as u16,
                    decreases n - i,
                {
                    let lo = buffer[2 * i];
                    let hi = buffer[2 * i + 1];
                    let w: u16 = lo as u16 + 256 * hi as u16;
                    proof {
                        lemma_word_bytes(lo, hi);
                    }
                    v.push(w as i16);
                    i += 1;
                }
                proof {
                    let a = aligned(depth, buffer@);
                    let r = words_le(v@.map_values(|x: i16| x as u16));
                    assert forall|k: int| 0 <= k < a.len() implies r[k] == a[k] by {
                        let j = k / 2;
                        lemma_word_bytes(buffer@[2 * j], buffer@[2 * j + 1]);
                    }
                    assert(r =~= a);
                }
                Pcm::I16(v)
            },
            Depth::U16 => {
                let len = buffer.len();
                let n = len / 2;
                let mut v: Vec<u16> = Vec::new();
                let mut i: usize = 0;
                while i < n
                    invariant
                        len == buffer@.len(),
                        n == buffer@.len() / 2,
                        i <= n,
                        v@.len() == i,
                        forall|j: int| 0 <= j < i ==> (#[trigger] v@[j]) == (buffer@[2 * j] + 256 * buffer@[2 * j + 1]) as u16,
                    decreases n - i,
                {
                    let lo = buffer[2 * i];
                    let hi = buffer[2 * i + 1];
                    v.push(lo as u16 + 256 * hi as u16);
                    i += 1;
                }
                proof {
                    let a = aligned(depth, buffer@);
                    let r = words_le(v@);
                    assert forall|k: int| 0 <= k < a.len() implies r[k] == a[k] by {
                        let j = k / 2;
                        lemma_word_bytes(buffer@[2 * j], buffer@[2 * j + 1]);
                    }
                    assert(r =~= a);
                }
                Pcm::U16(v)
            },
        }
    }

    /// The bytes that the values are stored as.
    pub fn raw(&self) -> (r: Vec<u8>)
        ensures
            r@ == pcm_raw(*self),
    {
        match self {
            Pcm::I8(v) => {
                let mut out: Vec<u8> = Vec::new();
                let mut i: usize = 0;
                while i < v.len()
                    invariant
                        i <= v@.len(),
                        out@ == v@.map_values(|x: i8| x as u8).take(i as int),
                    decreases v@.len() - i,
                {
                    out.push(v[i] as u8);
                    i += 1;
                    assert(out@ =~= v@.map_values(|x: i8| x as u8).take(i as int));
                }
                assert(out@ =~= v@.map_values(|x: i8| x as u8));
                out
            },
            Pcm::U8(v) => v.clone(),
            Pcm::I16(v) => {
                let ghost w = v@.map_values(|x: i16| x as u16);
                let mut out: Vec<u8> = Vec::new();
                let mut i: usize = 0;
                while i < v.len()
                    invariant
                        i <= v@.len(),
                        w == v@.map_values(|x: i16| x as u16),
                        out@ == words_le(w).take(2 * i),
                    decreases v@.len() - i,
                {
                    let x = v[i] as u16;
                    out.push((x % 256) as u8);
                    out.push((x / 256) as u8);
                    i += 1;
                    assert(out@ =~= words_le(w).take(2 * i));
                }
                assert(out@ =~= words_le(w));
                out
            },
            Pcm::U16(v) => {
                let mut out: Vec<u8> = Vec::new();
                let mut i: usize = 0;
                while i < v.len()
                    invariant
                        i <= v@.len(),
                        out@ == words_le(v@).take(2 * i),
                    decreases v@.len() - i,
                {
                    let x = v[i];
                    out.push((x % 256) as u8);
                    out.push((x / 256) as u8);
                    i += 1;
                    assert(out@ =~= words_le(v@).take(2 * i));
                }
                assert(out@ =~= words_le(v@));
                out
            },
        }
    }

    /// The bit depth of the values.
    pub fn depth(&self) -> (r: Depth)
        ensures
            r == pcm_depth(*self),
    {
        match self {
            Pcm::I8(_) => Depth::I8,
            Pcm::U8(_) => Depth::U8,
            Pcm::I16(_) => Depth::I16,
            Pcm::U16(_) => Depth::U16,
        }
    }

    /// Value `index` converted to a signed 8-bit sample, if there is one.
    pub fn get_sample(&self, index: usize) -> (r: Option<i8>)
        ensures
            r == (if index < pcm_len(*self) { Some(sample_i8(*self, index as int)) } else { None }),
    {
        match self {
            Pcm::I8(v) => if index < v.len() { Some(v[index]) } else { None },
            Pcm::U8(v) => if index < v.len() { Some(u8_to_i8(v[index])) } else { None },
            Pcm::I16(v) => if index < v.len() { Some(i16_to_i8(v[index])) } else { None },
            Pcm::U16(v) => if index < v.len() { Some(u16_to_i8(v[index])) } else { None },
        }
    }

    /// The number of values.
    pub fn len_samples(&self) -> (r: usize)
        ensures
            r == pcm_len(*self),
    {
        match self {
            Pcm::I8(v) => v.len(),
            Pcm::U8(v) => v.len(),
            Pcm::I16(v) => v.len(),
            Pcm::U16(v) => v.len(),
        }
    }

    /// The number of bytes of each value.
    pub fn bytes(&self) -> (r: usize)
        ensures
            r == (match *self {
                Pcm::I8(_) | Pcm::U8(_) => 1usize,
                _ => 2usize,
            }),
    {
        match self {
            Pcm::I8(_) | Pcm::U8(_) => 1,
            Pcm::I16(_) | Pcm::U16(_) => 2,
        }
    }
}

/// Reading the bytes of PCM values back gives the bytes they were read
/// from, but for a trailing odd byte of 16-bit data.
pub proof fn law_pcm_raw_new(depth: Depth, buffer: Seq<u8>, p: Pcm)
    requires
        pcm_depth(p) == depth,
        pcm_raw(p) == aligned(depth, buffer),
    ensures
        pcm_raw(p) == buffer <==> (depth_is_8_bit(depth) || buffer.len() % 2 == 0),
{
    if !depth_is_8_bit(depth) {
        if buffer.len() % 2 == 0 {
            assert(buffer.take(buffer.len() as int) =~= buffer);
        } else {
            assert(pcm_raw(p).len() != buffer.len());
        }
    }
}

/// Decoded sample data with its channel count and sample rate.
#[derive(Debug, Clone)]
pub struct AudioBuffer {
    pub pcm: Pcm,
    pub channels: u8,
    pub rate: u32,
}

impl AudioBuffer {
    /// The bytes that the values are stored as.
    pub fn raw(&self) -> (r: Vec<u8>)
        ensures
            r@ == pcm_raw(self.pcm),
    {
        self.pcm.raw()
    }

    /// The number of values, over all channels.
    pub fn len(&self) -> (r: usize)
        ensures
            r == pcm_len(self.pcm),
    {
        self.pcm.len_samples()
    }

    /// The decoded data of a sample, read with the sample's depth, channels
    /// and rate.
    pub fn new(smp: &Sample, buf: &[u8]) -> (r: Self)
        ensures
            pcm_depth(r.pcm) == smp.depth,
            pcm_raw(r.pcm) == aligned(smp.depth, buf@),
            r.channels == channel_count(smp.channel),
            r.rate == smp.rate,
    {
        AudioBuffer { pcm: Pcm::new(smp.depth, buf), channels: smp.channels() as u8, rate: smp.rate }
    }

    /// All values, channel after channel, converted to signed 8-bit samples
    /// and stored as bytes.
    pub fn planar_i8(&self) -> (r: Vec<u8>)
        ensures
            r@ == Seq::new(pcm_len(self.pcm), |i: int| sample_i8(self.pcm, i) as u8),
    {
        let n = self.pcm.len_samples();
        let mut out: Vec<u8> = Vec::new();
        let mut i: usize = 0;
        while i < n
            invariant
                n == pcm_len(self.pcm),
                i <= n,
                out@ == Seq::new(pcm_len(self.pcm), |k: int| sample_i8(self.pcm, k) as u8).take(i as int),
            decreases n - i,
        {
            let s = self.pcm.get_sample(i).unwrap();
            out.push(s as u8);
            i += 1;
            assert(out@ =~= Seq::new(pcm_len(self.pcm), |k: int| sample_i8(self.pcm, k) as u8).take(i as int));
        }
        assert(out@ =~= Seq::new(pcm_len(self.pcm), |k: int| sample_i8(self.pcm, k) as u8));
        out
    }
}

} // verus!
