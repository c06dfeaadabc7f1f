//! Transformations of raw PCM data: delta decoding, ADPCM decoding, sign
//! flips, byte-order swaps, (de)interleaving and bit-depth reduction.
//!
//! 16-bit PCM is held as little-endian byte pairs, the layout that tracker
//! modules store it in.

use vstd::prelude::*;
use crate::bytes::u16_le;
use crate::error::Error;
use crate::sample::{Depth, PcmType, Sample, depth_is_8_bit};

verus! {

/// `byteorder::LittleEndian::read_u16` on the two bytes at `idx`: their
/// little-endian value. It panics on fewer than two bytes, which `requires`
/// rules out.
#[verifier::external_body]
fn le_read_u16(buf: &[u8], idx: usize) -> (r: u16)
    requires
        idx + 2 <= buf@.len(),
    ensures
        r == u16_le(buf@, idx as int),
{
    <byteorder::LittleEndian as byteorder::ByteOrder>::read_u16(&buf[idx..idx + 2])
}

/// `byteorder::LittleEndian::write_u16` on the two bytes at `idx`: they
/// become the little-endian bytes of `n`; the rest of the buffer is kept.
#[verifier::external_body]
fn le_write_u16(buf: &mut Vec<u8>, idx: usize, n: u16)
    requires
        idx + 2 <= old(buf)@.len(),
    ensures
        final(buf)@ == old(buf)@.update(idx as int, (n % 256) as u8).update(idx + 1, (n / 256) as u8),
{
    <byteorder::LittleEndian as byteorder::ByteOrder>::write_u16(&mut buf[idx..idx + 2], n)
}

/// Wrapping sum of the first `n` bytes.
pub open spec fn wsum_u8(s: Seq<u8>, n: nat) -> u8
    decreases n,
{
    if n == 0 { 0 } else { wsum_u8(s, (n - 1) as nat).wrapping_add(s[n - 1]) }
}

/// Wrapping sum of the first `n` little-endian 16-bit words.
pub open spec fn wsum_u16(s: Seq<u8>, n: nat) -> u16
    decreases n,
{
    if n == 0 { 0 } else { wsum_u16(s, (n - 1) as nat).wrapping_add(u16_le(s, 2 * (n - 1))) }
}

/// 8-bit delta values decoded: every output byte is the wrapping sum of the
/// input up to it.
pub open spec fn delta_decoded_u8(s: Seq<u8>) -> Seq<u8> {
    Seq::new(s.len(), |i: int| wsum_u8(s, (i + 1) as nat))
}

/// Little-endian byte `i` of a sequence of 16-bit words given by `w`.
pub open spec fn word_byte(w: u16, i: int) -> u8 {
    if i % 2 == 0 { (w % 256) as u8 } else { (w / 256) as u8 }
}

/// 16-bit delta values decoded (a trailing odd byte is dropped): every output
/// word is the wrapping sum of the input words up to it.
pub open spec fn delta_decoded_u16(s: Seq<u8>) -> Seq<u8> {
    Seq::new(2 * (s.len() / 2), |i: int| word_byte(wsum_u16(s, (i / 2 + 1) as nat), i))
}

/// 8-bit delta encoding: each byte less the one before it (wrapping), the
/// first byte as it is.
pub open spec fn delta_encoded_u8(d: Seq<u8>) -> Seq<u8> {
    Seq::new(d.len(), |i: int| if i == 0 { d[0] } else { d[i].wrapping_sub(d[i - 1]) })
}

proof fn lemma_wsum_of_encoded(d: Seq<u8>, n: nat)
    requires
        1 <= n <= d.len(),
    ensures
        wsum_u8(delta_encoded_u8(d), n) == d[n - 1],
    decreases n,
{
    let e = delta_encoded_u8(d);
    assert(wsum_u8(e, n) == wsum_u8(e, (n - 1) as nat).wrapping_add(e[n - 1]));
    if n > 1 {
        lemma_wsum_of_encoded(d, (n - 1) as nat);
        assert(e[n - 1] == d[n - 1].wrapping_sub(d[n - 2]));
    } else {
        assert(wsum_u8(e, 0) == 0);
        assert(e[0] == d[0]);
    }
}

/// Delta decoding undoes delta encoding, and encoding undoes decoding: 8-bit
/// delta values and the samples they stand for determine each other.
pub proof fn law_delta_decode_u8(d: Seq<u8>)
    ensures
        delta_decoded_u8(delta_encoded_u8(d)) == d,
        delta_encoded_u8(delta_decoded_u8(d)) == d,
{
    assert forall|i: int| 0 <= i < d.len() implies #[trigger] delta_decoded_u8(delta_encoded_u8(d))[i] == d[i] by {
        lemma_wsum_of_encoded(d, (i + 1) as nat);
    }
    assert(delta_decoded_u8(delta_encoded_u8(d)) =~= d);
    let s = delta_decoded_u8(d);
    assert forall|i: int| 0 <= i < d.len() implies #[trigger] delta_encoded_u8(s)[i] == d[i] by {
        assert(wsum_u8(d, (i + 1) as nat) == wsum_u8(d, i as nat).wrapping_add(d[i]));
        if i == 0 {
            assert(wsum_u8(d, 0) == 0);
        } else {
            assert(s[i - 1] == wsum_u8(d, i as nat));
        }
    }
    assert(delta_encoded_u8(s) =~= d);
}

/// Decode 8-bit delta values.
pub fn delta_decode_u8(pcm: Vec<u8>) -> (r: Vec<u8>)
    ensures
        r@ == delta_decoded_u8(pcm@),
{
    let mut pcm = pcm;
    let ghost input = pcm@;
    let mut old: u8 = 0;
    let mut i: usize = 0;
    while i < pcm.len()
        invariant
            pcm@.len() == input.len(),
            i <= pcm@.len(),
            old == wsum_u8(input, i as nat),
            forall|j: int| 0 <= j < i ==> pcm@[j] == wsum_u8(input, (j + 1) as nat),
            forall|j: int| i <= j < pcm@.len() ==> pcm@[j] == input[j],
        decreases pcm@.len() - i,
    {
        let new = pcm[i].wrapping_add(old);
        assert(new == wsum_u8(input, (i + 1) as nat));
        pcm.set(i, new);
        old = new;
        i += 1;
    }
    assert(pcm@ =~= delta_decoded_u8(input));
    pcm
}

/// Drop a trailing odd byte so that the buffer holds whole 16-bit words.
pub fn align_u16(pcm: &mut Vec<u8>)
    ensures
        final(pcm)@ == old(pcm)@.take((2 * (old(pcm)@.len() / 2)) as int),
{
    let len = pcm.len();
    if len % 2 != 0 {
        pcm.truncate(len - 1);
    }
    proof {
        assert(final(pcm)@ =~= old(pcm)@.take((2 * (old(pcm)@.len() / 2)) as int));
    }
}

/// The little-endian 16-bit words of the data (a trailing odd byte left out).
pub open spec fn words(s: Seq<u8>) -> Seq<u16> {
    Seq::new(s.len() / 2, |k: int| u16_le(s, 2 * k))
}

/// 16-bit words stored as little-endian byte pairs.
pub open spec fn word_bytes(w: Seq<u16>) -> Seq<u8> {
    Seq::new(2 * w.len(), |i: int| word_byte(w[i / 2], i))
}

/// 16-bit delta encoding: each word less the one before it (wrapping), the
/// first word as it is.
pub open spec fn delta_encoded_u16(d: Seq<u8>) -> Seq<u8> {
    let w = words(d);
    word_bytes(Seq::new(w.len(), |k: int| if k == 0 { w[0] } else { w[k].wrapping_sub(w[k - 1]) }))
}

proof fn lemma_word_round_trip(x: u16, lo: u8, hi: u8)
    ensures
        u16_le(seq![(x % 256) as u8, (x / 256) as u8], 0) == x,
        (((lo + 256 * hi) as u16) % 256) as u8 == lo,
        (((lo + 256 * hi) as u16) / 256) as u8 == hi,
{
}

proof fn lemma_wsum_of_encoded_u16(d: Seq<u8>, n: nat)
    requires
        1 <= n <= d.len() / 2,
    ensures
        wsum_u16(delta_encoded_u16(d), n) == u16_le(d, 2 * (n - 1)),
    decreases n,
{
    let e = delta_encoded_u16(d);
    let w = words(d);
    let k = n - 1;
    let x = if k == 0 { w[0] } else { w[k].wrapping_sub(w[k - 1]) };
    assert(e[2 * k] == (x % 256) as u8 && e[2 * k + 1] == (x / 256) as u8);
    lemma_word_round_trip(x, 0, 0);
    assert(u16_le(e, 2 * k) == u16_le(seq![(x % 256) as u8, (x / 256) as u8], 0));
    assert(wsum_u16(e, n) == wsum_u16(e, k as nat).wrapping_add(u16_le(e, 2 * k)));
    if n > 1 {
        lemma_wsum_of_encoded_u16(d, k as nat);
    } else {
        assert(wsum_u16(e, 0) == 0);
    }
}

/// Delta decoding undoes delta encoding of 16-bit data: decoding the words'
/// differences gives back the whole words of the data.
pub proof fn law_delta_decode_u16(d: Seq<u8>)
    ensures
        delta_decoded_u16(delta_encoded_u16(d)) == d.take((2 * (d.len() / 2)) as int),
{
    let e = delta_encoded_u16(d);
    let r = delta_decoded_u16(e);
    assert(e.len() == 2 * (d.len() / 2));
    assert forall|i: int| 0 <= i < r.len() implies #[trigger] r[i] == d.take((2 * (d.len() / 2)) as int)[i] by {
        let k = i / 2;
        lemma_wsum_of_encoded_u16(d, (k + 1) as nat);
        lemma_word_round_trip(0, d[2 * k], d[2 * k + 1]);
    }
    assert(r =~= d.take((2 * (d.len() / 2)) as int));
}

/// Decode 16-bit delta values.
pub fn delta_decode_u16(pcm: Vec<u8>) -> (r: Vec<u8>)
    ensures
        r@ == delta_decoded_u16(pcm@),
{
    let ghost input = pcm@;
    let mut pcm = pcm;
    align_u16(&mut pcm);
    let ghost aligned = pcm@;
    let mut old: u16 = 0;
    let mut i: usize = 0;
    let l = pcm.len();
    let n = l / 2;
    while i < n
        invariant
            pcm@.len() == aligned.len(),
            l == pcm@.len(),
            aligned.len() == 2 * (input.len() / 2),
            aligned == input.take(aligned.len() as int),
            n == aligned.len() / 2,
            i <= n,
            old == wsum_u16(input, i as nat),
            forall|j: int| 0 <= j < 2 * i ==> pcm@[j] == word_byte(wsum_u16(input, (j / 2 + 1) as nat), j),
            forall|j: int| 2 * i <= j < pcm@.len() ==> pcm@[j] == input[j],
        decreases n - i,
    {
        let w = le_read_u16(pcm.as_slice(), 2 * i);
        let new = w.wrapping_add(old);
        proof {
            assert(u16_le(pcm@, 2 * i) == u16_le(input, 2 * i));
            assert(new == wsum_u16(input, (i + 1) as nat));
        }
        le_write_u16(&mut pcm, 2 * i, new);
        old = new;
        i += 1;
    }
    proof {
        assert(pcm@ =~= delta_decoded_u16(input));
    }
    pcm
}


/// Delta decoding with the sample's bit depth.
pub open spec fn delta_decoded(is_8_bit: bool, s: Seq<u8>) -> Seq<u8> {
    if is_8_bit { delta_decoded_u8(s) } else { delta_decoded_u16(s) }
}

/// Delta decoding of a sample: stereo samples hold their left channel in the
/// first half and their right channel in the second, decoded separately.
pub open spec fn sample_delta_decoded(is_8_bit: bool, stereo: bool, s: Seq<u8>) -> Seq<u8> {
    if stereo {
        delta_decoded(is_8_bit, s.take((s.len() / 2) as int)) + delta_decoded(is_8_bit, s.skip((s.len() / 2) as int))
    } else {
        delta_decoded(is_8_bit, s)
    }
}

fn delta_decode_by_depth(is_8_bit: bool, buf: Vec<u8>) -> (r: Vec<u8>)
    ensures
        r@ == delta_decoded(is_8_bit, buf@),
{
    if is_8_bit {
        delta_decode_u8(buf)
    } else {
        delta_decode_u16(buf)
    }
}

/// Decode a sample stored as delta values.
pub fn delta_decode(smp: &Sample, buf: Vec<u8>) -> (r: Vec<u8>)
    ensures
        r@ == sample_delta_decoded(depth_is_8_bit(smp.depth), smp.channel is Stereo, buf@),
{
    let is_8_bit = smp.is_8_bit();
    if smp.is_stereo() {
        let ghost input = buf@;
        let half = buf.len() / 2;
        let mut left = buf;
        let right = left.split_off(half);
        assert(left@ =~= input.take(half as int));
        assert(right@ =~= input.skip(half as int));
        let mut decoded = delta_decode_by_depth(is_8_bit, left);
        let mut decoded_right = delta_decode_by_depth(is_8_bit, right);
        decoded.append(&mut decoded_right);
        return decoded;
    }
    delta_decode_by_depth(is_8_bit, buf)
}

/// A sample whose data is delta encoded decoded; any other data unchanged.
pub open spec fn maybe_delta_decoded(smp: Sample, s: Seq<u8>) -> Seq<u8> {
    if smp.pcm_type == PcmType::DELTA {
        delta_decoded(depth_is_8_bit(smp.depth), s)
    } else {
        s
    }
}

/// Delta decode the sample data where the sample is stored as delta values.
///
/// Delta coded data sounds very quiet if left undecoded.
pub fn maybe_delta_decode(smp: &Sample, pcm: Vec<u8>) -> (r: Vec<u8>)
    ensures
        r@ == maybe_delta_decoded(*smp, pcm@),
{
    if matches!(smp.pcm_type, PcmType::DELTA) {
        delta_decode_by_depth(smp.is_8_bit(), pcm)
    } else {
        pcm
    }
}

/// Bytes with 128 subtracted (wrapping): unsigned 8-bit samples become
/// signed and signed ones unsigned.
pub open spec fn sign_flipped_u8(s: Seq<u8>) -> Seq<u8> {
    Seq::new(s.len(), |i: int| s[i].wrapping_sub(128))
}

/// Little-endian 16-bit words with 32768 subtracted (wrapping); a trailing odd
/// byte is kept as it is.
pub open spec fn sign_flipped_u16(s: Seq<u8>) -> Seq<u8> {
    Seq::new(
        s.len(),
        |i: int|
            if i < 2 * (s.len() / 2) {
                word_byte(u16_le(s, 2 * (i / 2)).wrapping_sub(32768), i)
            } else {
                s[i]
            },
    )
}

/// Turn unsigned 8-bit samples into signed ones (and back).
pub fn make_signed_8bit(buf: &mut Vec<u8>)
    ensures
        final(buf)@ == sign_flipped_u8(old(buf)@),
{
    let mut i: usize = 0;
    while i < buf.len()
        invariant
            buf@.len() == old(buf)@.len(),
            i <= buf@.len(),
            forall|j: int| 0 <= j < i ==> buf@[j] == old(buf)@[j].wrapping_sub(128),
            forall|j: int| i <= j < buf@.len() ==> buf@[j] == old(buf)@[j],
        decreases buf@.len() - i,
    {
        let v = buf[i].wrapping_sub(128);
        buf.set(i, v);
        i += 1;
    }
    proof {
        assert(final(buf)@ =~= sign_flipped_u8(old(buf)@));
    }
}

/// Turn unsigned 16-bit samples into signed ones (and back).
pub fn make_signed_16bit(buf: &mut Vec<u8>)
    ensures
        final(buf)@ == sign_flipped_u16(old(buf)@),
{
    let l = buf.len();
    let n = l / 2;
    let mut i: usize = 0;
    while i < n
        invariant
            buf@.len() == old(buf)@.len(),
            l == buf@.len(),
            n == l / 2,
            i <= n,
            forall|j: int| 0 <= j < 2 * i ==> buf@[j] == word_byte(u16_le(old(buf)@, 2 * (j / 2)).wrapping_sub(32768), j),
            forall|j: int| 2 * i <= j < buf@.len() ==> buf@[j] == old(buf)@[j],
        decreases n - i,
    {
        let idx: usize = i * 2;
        let new = le_read_u16(buf.as_slice(), idx).wrapping_sub(32768);
        assert(u16_le(buf@, idx as int) == u16_le(old(buf)@, idx as int));
        le_write_u16(buf, idx, new);
        i += 1;
    }
    proof {
        assert(final(buf)@ =~= sign_flipped_u16(old(buf)@));
    }
}

/// Turn unsigned samples of the given depth into signed ones (and back).
pub fn make_signed(buf: &mut Vec<u8>, depth: Depth)
    requires
        depth is U16 || depth is U8,
    ensures
        depth is U16 ==> final(buf)@ == sign_flipped_u16(old(buf)@),
        depth is U8 ==> final(buf)@ == sign_flipped_u8(old(buf)@),
{
    match depth {
        Depth::U16 => make_signed_16bit(buf),
        _ => make_signed_8bit(buf),
    }
}

/// Flip the sign of 8-bit samples: unsigned become signed and vice versa.
pub fn flip_sign_8(pcm: Vec<u8>) -> (r: Vec<u8>)
    ensures
        r@ == sign_flipped_u8(pcm@),
{
    let mut pcm = pcm;
    make_signed_8bit(&mut pcm);
    pcm
}

/// Flip the sign of 16-bit samples: unsigned become signed and vice versa.
pub fn flip_sign_16(pcm: Vec<u8>) -> (r: Vec<u8>)
    ensures
        r@ == sign_flipped_u16(pcm@),
{
    let mut pcm = pcm;
    make_signed_16bit(&mut pcm);
    pcm
}

/// Flipping the sign twice gives the samples back.
pub proof fn law_flip_sign_8_involutive(s: Seq<u8>)
    ensures
        sign_flipped_u8(sign_flipped_u8(s)) == s,
{
    assert(sign_flipped_u8(sign_flipped_u8(s)) =~= s);
}

/// Flipping the sign of 16-bit samples twice gives the samples back.
pub proof fn law_flip_sign_16_involutive(s: Seq<u8>)
    ensures
        sign_flipped_u16(sign_flipped_u16(s)) == s,
{
    let f = sign_flipped_u16(s);
    assert forall|i: int| 0 <= i < s.len() implies #[trigger] sign_flipped_u16(f)[i] == s[i] by {
        if i < 2 * (s.len() / 2) {
            let k = 2 * (i / 2);
            let w = u16_le(s, k).wrapping_sub(32768);
            assert(f[k] == word_byte(w, k));
            assert(f[k + 1] == word_byte(w, k + 1));
            assert(u16_le(f, k) == w);
        }
    }
    assert(sign_flipped_u16(f) =~= s);
}


/// Flipping the sign of 8-bit samples moves each by half the range:
/// `(x + 128) mod 256`, which maps unsigned and signed values onto each other.
pub proof fn law_flip_sign_8_values(s: Seq<u8>)
    ensures
        sign_flipped_u8(s).len() == s.len(),
        forall|i: int| 0 <= i < s.len() ==> #[trigger] sign_flipped_u8(s)[i] as int == (s[i] + 128) % 256,
{
}

/// Flipping the sign of 16-bit little-endian samples moves each word by half
/// its range: the low byte stays, the high byte becomes `(x + 128) mod 256`;
/// a trailing odd byte stays.
pub proof fn law_flip_sign_16_values(s: Seq<u8>)
    ensures
        sign_flipped_u16(s).len() == s.len(),
        forall|k: int| 0 <= k < s.len() / 2 ==> {
            &&& #[trigger] sign_flipped_u16(s)[2 * k] == s[2 * k]
            &&& sign_flipped_u16(s)[2 * k + 1] as int == (s[2 * k + 1] + 128) % 256
        },
        s.len() % 2 == 1 ==> sign_flipped_u16(s)[s.len() - 1] == s[s.len() - 1],
{
    assert forall|k: int| 0 <= k < s.len() / 2 implies {
        &&& #[trigger] sign_flipped_u16(s)[2 * k] == s[2 * k]
        &&& sign_flipped_u16(s)[2 * k + 1] as int == (s[2 * k + 1] + 128) % 256
    } by {
        let w = u16_le(s, 2 * k);
        assert(w == 256 * s[2 * k + 1] + s[2 * k]);
        let v = w.wrapping_sub(32768);
        assert(v as int == (w + 32768) % 65536);
        assert(2 * ((2 * k + 1) / 2) == 2 * k);
        assert((v % 256) as int == s[2 * k] as int);
        assert((v / 256) as int == (s[2 * k + 1] + 128) % 256);
    }
}

/// Swapping the bytes of 16-bit words exchanges the two bytes of each word
/// and keeps a trailing odd byte.
pub proof fn law_byte_swap_values(s: Seq<u8>)
    ensures
        byte_swapped_16(s).len() == s.len(),
        forall|k: int| 0 <= k < s.len() / 2 ==> {
            &&& #[trigger] byte_swapped_16(s)[2 * k] == s[2 * k + 1]
            &&& byte_swapped_16(s)[2 * k + 1] == s[2 * k]
        },
        s.len() % 2 == 1 ==> byte_swapped_16(s)[s.len() - 1] == s[s.len() - 1],
{
    assert forall|k: int| 0 <= k < s.len() / 2 implies {
        &&& #[trigger] byte_swapped_16(s)[2 * k] == s[2 * k + 1]
        &&& byte_swapped_16(s)[2 * k + 1] == s[2 * k]
    } by {
        assert((2 * k) % 2 == 0 && (2 * k + 1) % 2 == 1);
    }
}

/// Each 16-bit word's two bytes swapped; a trailing odd byte is kept.
pub open spec fn byte_swapped_16(s: Seq<u8>) -> Seq<u8> {
    Seq::new(
        s.len(),
        |i: int|
            if i < 2 * (s.len() / 2) {
                if i % 2 == 0 { s[i + 1] } else { s[i - 1] }
            } else {
                s[i]
            },
    )
}

fn swap_16(pcm: Vec<u8>) -> (r: Vec<u8>)
    ensures
        r@ == byte_swapped_16(pcm@),
{
    let mut pcm = pcm;
    let ghost input = pcm@;
    let l = pcm.len();
    let n = l / 2;
    let mut i: usize = 0;
    while i < n
        invariant
            pcm@.len() == input.len(),
            l == input.len(),
            n == l / 2,
            i <= n,
            forall|j: int| 0 <= j < 2 * i ==> pcm@[j] == byte_swapped_16(input)[j],
            forall|j: int| 2 * i <= j < pcm@.len() ==> pcm@[j] == input[j],
        decreases n - i,
    {
        let a = pcm[2 * i];
        let b = pcm[2 * i + 1];
        pcm.set(2 * i, b);
        pcm.set(2 * i + 1, a);
        i += 1;
    }
    assert(pcm@ =~= byte_swapped_16(input));
    pcm
}

/// Convert little-endian 16-bit PCM to big endian.
pub fn to_be_16(pcm: Vec<u8>) -> (r: Vec<u8>)
    ensures
        r@ == byte_swapped_16(pcm@),
{
    swap_16(pcm)
}

/// Convert 16-bit PCM to little endian. The data is little endian already.
pub fn to_le_16(pcm: Vec<u8>) -> (r: Vec<u8>)
    ensures
        r@ == pcm@,
{
    pcm
}

/// Swapping the bytes twice gives the data back.
pub proof fn law_byte_swap_involutive(s: Seq<u8>)
    ensures
        byte_swapped_16(byte_swapped_16(s)) == s,
{
    assert(byte_swapped_16(byte_swapped_16(s)) =~= s);
}

/// 8-bit `LLLLRRRR` interleaved to `LRLRLRLR`: the first half alternates with
/// the second half; a trailing odd byte is dropped.
pub open spec fn interleaved_8(s: Seq<u8>) -> Seq<u8> {
    let h = s.len() / 2;
    Seq::new(2 * h, |i: int| if i % 2 == 0 { s[i / 2] } else { s[h + i / 2] })
}

/// 8-bit `LRLRLRLR` deinterleaved to `LLLLRRRR`; a trailing odd byte is dropped.
pub open spec fn deinterleaved_8(s: Seq<u8>) -> Seq<u8> {
    let h = s.len() / 2;
    Seq::new(2 * h, |i: int| if i < h { s[2 * i] } else { s[2 * (i - h) + 1] })
}

/// 16-bit `LLLLRRRR` interleaved to `LRLRLRLR` (units are little-endian byte
/// pairs); a trailing odd word or byte is dropped.
pub open spec fn interleaved_16(s: Seq<u8>) -> Seq<u8> {
    let h = s.len() / 4;
    Seq::new(
        4 * h,
        |i: int| if i % 4 < 2 { s[2 * (i / 4) + i % 4] } else { s[2 * (h + i / 4) + i % 4 - 2] },
    )
}

/// 16-bit `LRLRLRLR` deinterleaved to `LLLLRRRR`; a trailing odd word or byte
/// is dropped.
pub open spec fn deinterleaved_16(s: Seq<u8>) -> Seq<u8> {
    let h = s.len() / 4;
    Seq::new(
        4 * h,
        |i: int| if i < 2 * h { s[4 * (i / 2) + i % 2] } else { s[4 * ((i - 2 * h) / 2) + 2 + i % 2] },
    )
}

/// Interleave 8-bit PCM stored as `LLLLRRRR` into `LRLRLRLR`.
pub fn interleave_8(pcm: &[u8]) -> (r: Vec<u8>)
    ensures
        r@ == interleaved_8(pcm@),
{
    let l = pcm.len();
    let h = l / 2;
    let mut out: Vec<u8> = Vec::new();
    let mut k: usize = 0;
    while k < h
        invariant
            h == pcm@.len() / 2,
            l == pcm@.len(),
            k <= h,
            out@ =~= interleaved_8(pcm@).take(2 * k),
        decreases h - k,
    {
        out.push(pcm[k]);
        out.push(pcm[h + k]);
        k += 1;
        assert(out@ =~= interleaved_8(pcm@).take(2 * k));
    }
    out
}

/// Deinterleave 8-bit PCM stored as `LRLRLRLR` into `LLLLRRRR`.
pub fn deinterleave_8(pcm: &[u8]) -> (r: Vec<u8>)
    ensures
        r@ == deinterleaved_8(pcm@),
{
    let l = pcm.len();
    let h = l / 2;
    let mut out: Vec<u8> = Vec::new();
    let mut k: usize = 0;
    while k < 2 * h
        invariant
            h == pcm@.len() / 2,
            l == pcm@.len(),
            k <= 2 * h,
            out@ =~= deinterleaved_8(pcm@).take(k as int),
        decreases 2 * h - k,
    {
        if k < h {
            out.push(pcm[2 * k]);
        } else {
            out.push(pcm[2 * (k - h) + 1]);
        }
        k += 1;
        assert(out@ =~= deinterleaved_8(pcm@).take(k as int));
    }
    out
}

/// Interleave 16-bit PCM stored as `LLLLRRRR` into `LRLRLRLR`.
pub fn interleave_16(pcm: &[u8]) -> (r: Vec<u8>)
    ensures
        r@ == interleaved_16(pcm@),
{
    let l = pcm.len();
    let h = l / 4;
    let mut out: Vec<u8> = Vec::new();
    let mut k: usize = 0;
    while k < h
        invariant
            h == pcm@.len() / 4,
            l == pcm@.len(),
            k <= h,
            out@ =~= interleaved_16(pcm@).take(4 * k),
        decreases h - k,
    {
        out.push(pcm[2 * k]);
        out.push(pcm[2 * k + 1]);
        out.push(pcm[2 * (h + k)]);
        out.push(pcm[2 * (h + k) + 1]);
        k += 1;
        assert(out@ =~= interleaved_16(pcm@).take(4 * k));
    }
    out
}

/// Deinterleave 16-bit PCM stored as `LRLRLRLR` into `LLLLRRRR`.
pub fn deinterleave_16(pcm: &[u8]) -> (r: Vec<u8>)
    ensures
        r@ == deinterleaved_16(pcm@),
{
    let l = pcm.len();
    let h = l / 4;
    let mut out: Vec<u8> = Vec::new();
    let mut k: usize = 0;
    while k < 2 * h
        invariant
            h == pcm@.len() / 4,
            l == pcm@.len(),
            k <= 2 * h,
            out@ =~= deinterleaved_16(pcm@).take(2 * k),
        decreases 2 * h - k,
    {
        if k < h {
            out.push(pcm[4 * k]);
            out.push(pcm[4 * k + 1]);
        } else {
            out.push(pcm[4 * (k - h) + 2]);
            out.push(pcm[4 * (k - h) + 3]);
        }
        k += 1;
        assert(out@ =~= deinterleaved_16(pcm@).take(2 * k));
    }
    out
}

/// Interleaving 8-bit data whose two channels are stored one after the
/// other makes frames: frame `k` holds the `k`-th value of the first half,
/// then the `k`-th value of the second half (a trailing odd byte is dropped).
pub proof fn law_interleave_8_frames(s: Seq<u8>)
    ensures
        interleaved_8(s).len() == 2 * (s.len() / 2),
        forall|k: int| 0 <= k < s.len() / 2 ==> {
            &&& #[trigger] interleaved_8(s)[2 * k] == s[k]
            &&& interleaved_8(s)[2 * k + 1] == s[s.len() / 2 + k]
        },
{
    assert forall|k: int| 0 <= k < s.len() / 2 implies {
        &&& #[trigger] interleaved_8(s)[2 * k] == s[k]
        &&& interleaved_8(s)[2 * k + 1] == s[s.len() / 2 + k]
    } by {
        assert((2 * k) % 2 == 0 && (2 * k) / 2 == k && (2 * k + 1) % 2 == 1 && (2 * k + 1) / 2 == k);
    }
}

/// Interleaving 16-bit data whose two channels are stored one after the
/// other makes frames of two little-endian words: frame `k` holds the
/// `k`-th word of the first half, then the `k`-th word of the second half.
pub proof fn law_interleave_16_frames(s: Seq<u8>)
    ensures
        interleaved_16(s).len() == 4 * (s.len() / 4),
        forall|k: int| 0 <= k < s.len() / 4 ==> {
            let h = 2 * (s.len() / 4);
            &&& #[trigger] interleaved_16(s)[4 * k] == s[2 * k]
            &&& interleaved_16(s)[4 * k + 1] == s[2 * k + 1]
            &&& interleaved_16(s)[4 * k + 2] == s[h + 2 * k]
            &&& interleaved_16(s)[4 * k + 3] == s[h + 2 * k + 1]
        },
{
    assert forall|k: int| 0 <= k < s.len() / 4 implies {
        let h = 2 * (s.len() / 4);
        &&& #[trigger] interleaved_16(s)[4 * k] == s[2 * k]
        &&& interleaved_16(s)[4 * k + 1] == s[2 * k + 1]
        &&& interleaved_16(s)[4 * k + 2] == s[h + 2 * k]
        &&& interleaved_16(s)[4 * k + 3] == s[h + 2 * k + 1]
    } by {
        assert((4 * k) % 4 == 0 && (4 * k) / 4 == k);
        assert((4 * k + 1) % 4 == 1 && (4 * k + 1) / 4 == k);
        assert((4 * k + 2) % 4 == 2 && (4 * k + 2) / 4 == k);
        assert((4 * k + 3) % 4 == 3 && (4 * k + 3) / 4 == k);
    }
}

/// Deinterleaving undoes interleaving (8-bit, whole frames).
pub proof fn law_deinterleave_interleave_8(s: Seq<u8>)
    requires
        s.len() % 2 == 0,
    ensures
        deinterleaved_8(interleaved_8(s)) == s,
{
    assert(deinterleaved_8(interleaved_8(s)) =~= s);
}

/// Interleaving undoes deinterleaving (8-bit, whole frames).
pub proof fn law_interleave_deinterleave_8(s: Seq<u8>)
    requires
        s.len() % 2 == 0,
    ensures
        interleaved_8(deinterleaved_8(s)) == s,
{
    assert(interleaved_8(deinterleaved_8(s)) =~= s);
}

/// Deinterleaving undoes interleaving (16-bit, whole frames).
#[verifier::spinoff_prover]
#[verifier::rlimit(40)]
pub proof fn law_deinterleave_interleave_16(s: Seq<u8>)
    requires
        s.len() % 4 == 0,
    ensures
        deinterleaved_16(interleaved_16(s)) == s,
{
    assert(deinterleaved_16(interleaved_16(s)) =~= s);
}

/// Interleaving undoes deinterleaving (16-bit, whole frames).
#[verifier::spinoff_prover]
#[verifier::rlimit(40)]
pub proof fn law_interleave_deinterleave_16(s: Seq<u8>)
    requires
        s.len() % 4 == 0,
    ensures
        interleaved_16(deinterleaved_16(s)) == s,
{
    let d = deinterleaved_16(s);
    assert forall|i: int| 0 <= i < s.len() implies #[trigger] interleaved_16(d)[i] == s[i] by {
        let q = i / 4;
        let m = i % 4;
        if m < 2 {
            let j = 2 * q + m;
            assert(j / 2 == q && j % 2 == m);
        } else {
            let j = 2 * (s.len() / 4 + q) + m - 2;
            assert((j - 2 * (s.len() / 4)) / 2 == q && j % 2 == m - 2);
        }
    }
    assert(interleaved_16(d) =~= s);
}

/// 16-bit samples reduced to 8 bits: the high byte of each little-endian word.
pub open spec fn reduced_16_to_8(s: Seq<u8>) -> Seq<u8> {
    Seq::new(s.len() / 2, |i: int| s[2 * i + 1])
}

/// Convert 16-bit PCM samples to 8-bit ones.
pub fn reduce_bit_depth_16_to_8(pcm: &[u8]) -> (r: Vec<u8>)
    ensures
        r@ == reduced_16_to_8(pcm@),
{
    let l = pcm.len();
    let n = l / 2;
    let mut out: Vec<u8> = Vec::new();
    let mut k: usize = 0;
    while k < n
        invariant
            n == pcm@.len() / 2,
            l == pcm@.len(),
            k <= n,
            out@ =~= reduced_16_to_8(pcm@).take(k as int),
        decreases n - k,
    {
        out.push(pcm[2 * k + 1]);
        k += 1;
        assert(out@ =~= reduced_16_to_8(pcm@).take(k as int));
    }
    out
}


/// Nibble `k` of the ADPCM data that follows the 16-byte table: the low
/// nibble of a byte comes before its high nibble.
pub open spec fn adpcm_nibble(buf: Seq<u8>, k: int) -> u8 {
    if k % 2 == 0 { buf[16 + k / 2] & 15u8 } else { (buf[16 + k / 2] >> 4u8) & 15u8 }
}

/// The `n`-th decoded ADPCM value: the wrapping sum of the table entries
/// that the first `n` nibbles select.
pub open spec fn adpcm_value(buf: Seq<u8>, n: nat) -> u8
    decreases n,
{
    if n == 0 {
        0
    } else {
        adpcm_value(buf, (n - 1) as nat).wrapping_add(buf[adpcm_nibble(buf, n - 1) as int])
    }
}

/// Number of data bytes that ADPCM decoding reads for a sample of `length` bytes.
pub open spec fn adpcm_count(length: u32, buf_len: int) -> int {
    if (length + 1) / 2 < buf_len { (length + 1) / 2 } else { buf_len }
}

/// Whether the buffer holds the table and all the data bytes to be read.
pub open spec fn adpcm_fits(length: u32, buf: Seq<u8>) -> bool {
    buf.len() >= 16 && 16 + adpcm_count(length, buf.len() as int) <= buf.len()
}

/// ADPCM data decoded: two values per data byte.
pub open spec fn adpcm_decoded(length: u32, buf: Seq<u8>) -> Seq<u8> {
    Seq::new((2 * adpcm_count(length, buf.len() as int)) as nat, |i: int| adpcm_value(buf, (i + 1) as nat))
}

proof fn lemma_nibbles(b: u8)
    by (bit_vector)
    ensures
        b & 15u8 == b % 16,
        (b >> 4u8) & 15u8 == b / 16,
{
}

/// ADPCM decoding is a running sum: each data byte after the 16-byte table
/// gives two values, the first adding the table entry that the byte's low
/// four bits select to the value before it (zero at the start), the second
/// adding the entry that its high four bits select, wrapping at 256. The
/// data holds two values for each of `(length + 1) / 2` bytes (or as many
/// bytes as the buffer has, if fewer).
pub proof fn law_adpcm_running_sum(length: u32, buf: Seq<u8>)
    ensures
        ({
            let out = adpcm_decoded(length, buf);
            let count = if (length + 1) / 2 < buf.len() { (length + 1) / 2 } else { buf.len() as int };
            &&& out.len() == 2 * count
            &&& forall|k: int| 0 <= k < count && 16 + k < buf.len() ==> {
                let prev: int = if k == 0 { 0 } else { out[2 * k - 1] as int };
                &&& #[trigger] out[2 * k] as int == (prev + buf[(buf[16 + k] % 16) as int]) % 256
                &&& out[2 * k + 1] as int == (out[2 * k] + buf[(buf[16 + k] / 16) as int]) % 256
            }
        }),
{
    let out = adpcm_decoded(length, buf);
    let count = if (length + 1) / 2 < buf.len() { (length + 1) / 2 } else { buf.len() as int };
    assert forall|k: int| 0 <= k < count && 16 + k < buf.len() implies {
        let prev: int = if k == 0 { 0 } else { out[2 * k - 1] as int };
        &&& #[trigger] out[2 * k] as int == (prev + buf[(buf[16 + k] % 16) as int]) % 256
        &&& out[2 * k + 1] as int == (out[2 * k] + buf[(buf[16 + k] / 16) as int]) % 256
    } by {
        lemma_adpcm_pair(buf, k);
        assert(out[2 * k] == adpcm_value(buf, (2 * k + 1) as nat));
        assert(out[2 * k + 1] == adpcm_value(buf, (2 * k + 2) as nat));
        if k > 0 {
            assert(out[2 * k - 1] == adpcm_value(buf, (2 * k) as nat));
        }
    }
}

proof fn lemma_adpcm_pair(buf: Seq<u8>, k: int)
    requires
        0 <= k,
        16 + k < buf.len(),
    ensures
        adpcm_value(buf, (2 * k + 1) as nat) as int == (adpcm_value(buf, (2 * k) as nat) + buf[(buf[16 + k] % 16) as int]) % 256,
        adpcm_value(buf, (2 * k + 2) as nat) as int
            == (adpcm_value(buf, (2 * k + 1) as nat) + buf[(buf[16 + k] / 16) as int]) % 256,
        k == 0 ==> adpcm_value(buf, 0) == 0,
{
    lemma_nibbles(buf[16 + k]);
    assert(adpcm_nibble(buf, 2 * k) == buf[16 + k] % 16);
    assert(adpcm_nibble(buf, 2 * k + 1) == buf[16 + k] / 16);
}

fn end_of_data() -> (e: Error)
    ensures
        e matches Error::Io(m) && m@ == "failed to fill whole buffer"@,
{
    Error::Io("failed to fill whole buffer".to_owned())
}

/// Decode 4-bit ADPCM sample data (ModPlug): a 16-byte table of deltas,
/// then one byte for every two samples.
pub fn adpcm_decode(sample: &Sample, buf: &[u8]) -> (r: Result<Vec<u8>, Error>)
    ensures
        r is Ok <==> adpcm_fits(sample.length, buf@),
        r matches Ok(v) ==> v@ == adpcm_decoded(sample.length, buf@),
        r matches Err(e) ==> e is Io,
{
    if buf.len() < 16 {
        return Err(end_of_data());
    }
    let half: u64 = (sample.length as u64 + 1) / 2;
    let length: usize = if half < buf.len() as u64 { half as usize } else { buf.len() };
    if buf.len() - 16 < length {
        return Err(end_of_data());
    }
    let mut out: Vec<u8> = Vec::with_capacity(length);
    let mut delta: u8 = 0;
    let mut i: usize = 0;
    while i < length
        invariant
            buf@.len() >= 16,
            length == adpcm_count(sample.length, buf@.len() as int),
            16 + length <= buf@.len(),
            i <= length,
            out@ =~= adpcm_decoded(sample.length, buf@).take(2 * i),
            delta == adpcm_value(buf@, (2 * i) as nat),
        decreases length - i,
    {
        let value = buf[16 + i];
        let lo = value & 15u8;
        let hi = (value >> 4u8) & 15u8;
        assert(lo < 16 && hi < 16) by (bit_vector)
            requires lo == value & 15u8, hi == (value >> 4u8) & 15u8;
        assert(adpcm_nibble(buf@, 2 * i) == lo);
        assert(adpcm_nibble(buf@, 2 * i + 1) == hi);
        delta = delta.wrapping_add(buf[lo as usize]);
        assert(delta == adpcm_value(buf@, (2 * i + 1) as nat));
        out.push(delta);
        delta = delta.wrapping_add(buf[hi as usize]);
        assert(delta == adpcm_value(buf@, (2 * i + 2) as nat));
        out.push(delta);
        i += 1;
        assert(out@ =~= adpcm_decoded(sample.length, buf@).take(2 * i));
    }
    Ok(out)
}

/// A sample with its raw data, 16-bit data cut to whole words.
pub struct RawSample<'a> {
    pub smp: &'a Sample,
    pub pcm: Vec<u8>,
}

impl<'a> RawSample<'a> {
    /// Pair a sample with its raw data, which must not be empty.
    pub fn new(smp: &'a Sample, pcm: Vec<u8>) -> (r: Self)
        requires
            pcm@.len() > 0,
        ensures
            *r.smp == *smp,
            r.pcm@ == (if depth_is_8_bit(smp.depth) { pcm@ } else { pcm@.take((2 * (pcm@.len() / 2)) as int) }),
    {
        let mut pcm = pcm;
        if !smp.is_8_bit() {
            align_u16(&mut pcm);
        }
        RawSample { smp, pcm }
    }
}

/// How frames of raw sample data are read: interleaved or not, and the bit
/// depths that are supported.
pub struct RawFramesIter {
    pub interleaved: bool,
    pub supported_depths: Vec<Depth>,
}

/// Helper trait to allow chaining operations on PCM data.
pub trait PCMFormatter: Sized {
    /// Convert 16-bit PCM samples to big endian.
    fn to_be_16(self) -> Self;
    /// Convert 16-bit PCM samples to little endian.
    fn to_le_16(self) -> Self;
    /// Convert unsigned 8-bit samples to signed 8-bit samples and vice versa.
    fn flip_sign_8(self) -> Self;
    /// Convert unsigned 16-bit samples to signed 16-bit samples and vice versa.
    fn flip_sign_16(self) -> Self;
    /// Interleave 8-bit PCM stored as `LLLLRRRR` into `LRLRLRLR`.
    fn interleave_8(self) -> Self;
    /// Interleave 16-bit PCM stored as `LLLLRRRR` into `LRLRLRLR`.
    fn interleave_16(self) -> Self;
    /// Deinterleave 8-bit PCM stored as `LRLRLRLR` into `LLLLRRRR`.
    fn deinterleave_8(self) -> Self;
    /// Deinterleave 16-bit PCM stored as `LRLRLRLR` into `LLLLRRRR`.
    fn deinterleave_16(self) -> Self;
    /// Convert 16-bit PCM samples to 8-bit.
    fn reduce_bit_depth_16_to_8(self) -> Self;
}

impl PCMFormatter for Vec<u8> {
    fn to_be_16(self) -> (r: Self)
        ensures
            r@ == byte_swapped_16(self@),
    {
        to_be_16(self)
    }

    fn to_le_16(self) -> (r: Self)
        ensures
            r@ == self@,
    {
        to_le_16(self)
    }

    fn flip_sign_8(self) -> (r: Self)
        ensures
            r@ == sign_flipped_u8(self@),
    {
        flip_sign_8(self)
    }

    fn flip_sign_16(self) -> (r: Self)
        ensures
            r@ == sign_flipped_u16(self@),
    {
        flip_sign_16(self)
    }

    fn interleave_8(self) -> (r: Self)
        ensures
            r@ == interleaved_8(self@),
    {
        interleave_8(self.as_slice())
    }

    fn interleave_16(self) -> (r: Self)
        ensures
            r@ == interleaved_16(self@),
    {
        interleave_16(self.as_slice())
    }

    fn deinterleave_8(self) -> (r: Self)
        ensures
            r@ == deinterleaved_8(self@),
    {
        deinterleave_8(self.as_slice())
    }

    fn deinterleave_16(self) -> (r: Self)
        ensures
            r@ == deinterleaved_16(self@),
    {
        deinterleave_16(self.as_slice())
    }

    fn reduce_bit_depth_16_to_8(self) -> (r: Self)
        ensures
            r@ == reduced_16_to_8(self@),
    {
        reduce_bit_depth_16_to_8(self.as_slice())
    }
}

} // verus!
