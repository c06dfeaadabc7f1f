//! Impulse Tracker 2.14 / 2.15 sample decompression.
//!
//! Compressed samples are stored in blocks. Each block starts with its
//! length as a little-endian `u16`, followed by a bit stream that is read
//! least significant bit first. Every value in the stream is stored with the
//! current bit width; special values change the width. Decoded values are
//! integrated once (IT 2.14) or twice (IT 2.15).

use vstd::prelude::*;
use crate::bytes::{in_bounds, read_u16_le, u16_le};
use crate::error::Error;
use crate::module::bad_sample_of;
use crate::sample::{Sample, depth_is_8_bit};

verus! {

/// `2^k`
pub open spec fn p2(k: nat) -> nat
    decreases k,
{
    if k == 0 { 1 } else { 2 * p2((k - 1) as nat) }
}

/// Bit number `p` of the byte stream `buf`, counting from the least
/// significant bit of the first byte.
pub open spec fn bit_at(buf: Seq<u8>, p: int) -> u8 {
    (buf[p / 8] >> ((p % 8) as u8)) & 1u8
}

/// The `n` bits starting at bit `p`, the first of them the least significant.
pub open spec fn bits(buf: Seq<u8>, p: int, n: nat) -> nat
    decreases n,
{
    if n == 0 {
        0
    } else {
        bits(buf, p, (n - 1) as nat) + p2((n - 1) as nat) * (bit_at(buf, p + n - 1) as nat)
    }
}

/// Reading `n` bits at bit position `pos`: the value and the next position,
/// or `None` where the stream ends first.
pub open spec fn read_bits(buf: Seq<u8>, pos: int, n: nat) -> Option<(nat, int)> {
    if n == 0 {
        Some((0, pos))
    } else if pos + n > 8 * buf.len() {
        None
    } else {
        Some((bits(buf, pos, n), pos + n))
    }
}

/// Starting the block at byte offset `bo`: the bit position of its data and
/// the offset of the next block, or `None` where the buffer ends first.
pub open spec fn next_block(buf: Seq<u8>, bo: int) -> Option<(int, int)> {
    if 0 <= bo && bo + 3 <= buf.len() && bo + u16_le(buf, bo) + 2 <= usize::MAX {
        Some(((bo + 2) * 8, bo + u16_le(buf, bo) + 2))
    } else {
        None
    }
}

pub proof fn lemma_bits_bound(buf: Seq<u8>, p: int, n: nat)
    requires
        0 <= p,
        p + n <= 8 * buf.len(),
    ensures
        bits(buf, p, n) < p2(n),
    decreases n,
{
    if n > 0 {
        lemma_bits_bound(buf, p, (n - 1) as nat);
        let b = buf[(p + n - 1) / 8];
        let s = ((p + n - 1) % 8) as u8;
        assert((b >> s) & 1u8 <= 1u8) by (bit_vector);
        let bt = bit_at(buf, p + n - 1);
        assert(bt == (b >> s) & 1u8);
        assert(p2(n) == 2 * p2((n - 1) as nat));
        if bt == 0 {
            assert(p2((n - 1) as nat) * (bt as nat) == 0);
        } else {
            assert(bt == 1);
            assert(p2((n - 1) as nat) * (bt as nat) == p2((n - 1) as nat));
        }
    }
}

/// The escape value of the 1-6 bit method for 8-bit samples (a zero width
/// shifts past the word, which leaves zero).
pub open spec fn escape_8(width: u8) -> u16 {
    if width == 0 { 0 } else { 1u16 << ((width - 1) as u8) }
}

/// The escape value of the 1-6 bit method for 16-bit samples (a zero width
/// shifts into the sign bit of a 32-bit word).
pub open spec fn escape_16(width: u8) -> u32 {
    if width == 0 { 0x8000_0000 } else { 1u32 << ((width - 1) as u8) }
}

/// A value of `width` bits widened to a signed 8-bit sample.
pub open spec fn widen_8(value: u16, width: u8) -> i8 {
    if width < 8 {
        ((value << ((8 - width) as u8)) as i8) >> ((8 - width) as i8)
    } else {
        value as i8
    }
}

/// A value of `width` bits widened to a signed 16-bit sample.
pub open spec fn widen_16(value: u32, width: u8) -> i16 {
    if width == 0 {
        0
    } else if width < 16 {
        ((value << ((16 - width) as u8)) as i16) >> ((16 - width) as i16)
    } else {
        value as i16
    }
}

/// The new bit width that a width-change value `val` selects.
pub open spec fn new_width(val: u8, width: u8) -> u8 {
    if val < width { val } else { (val + 1) as u8 }
}

/// Decoding the rest of one 8-bit block: the bit position after it, the
/// output, and whether an invalid bit width ended the whole sample; `None`
/// where the stream ends first.
pub open spec fn block_8(
    buf: Seq<u8>,
    pos: int,
    blklen: int,
    blkpos: int,
    width: u8,
    d1: i8,
    d2: i8,
    out: Seq<u8>,
    it215: bool,
) -> Option<(int, Seq<u8>, bool)>
    decreases 8 * buf.len() - pos + blklen - blkpos,
{
    if pos < 0 || pos > 8 * buf.len() || blkpos >= blklen {
        Some((pos, out, false))
    } else if width > 9 {
        Some((pos, out, true))
    } else {
        match read_bits(buf, pos, width as nat) {
            None => None,
            Some((v, pos1)) => {
                let value = v as u16;
                if width < 7 && value == escape_8(width) {
                    match read_bits(buf, pos1, 3) {
                        None => None,
                        Some((v3, pos2)) => block_8(
                            buf, pos2, blklen, blkpos, new_width((v3 + 1) as u8, width), d1, d2, out, it215,
                        ),
                    }
                } else if 7 <= width < 9 && value > (0xffu16 >> ((9 - width) as u8)) - 4
                    && value <= (0xffu16 >> ((9 - width) as u8)) - 4 + 8 {
                    block_8(
                        buf, pos1, blklen, blkpos,
                        new_width((value - ((0xffu16 >> ((9 - width) as u8)) - 4)) as u8, width),
                        d1, d2, out, it215,
                    )
                } else if width == 9 && value >= 256 {
                    block_8(buf, pos1, blklen, blkpos, ((value + 1) % 256) as u8, d1, d2, out, it215)
                } else {
                    let n1 = d1.wrapping_add(widen_8(value, width));
                    let n2 = d2.wrapping_add(n1);
                    block_8(
                        buf, pos1, blklen, blkpos + 1, width, n1, n2,
                        out.push(if it215 { n2 as u8 } else { n1 as u8 }), it215,
                    )
                }
            },
        }
    }
}

/// A `w`-bit value read as a two's-complement number: values from
/// `2^(w-1)` on stand for the negative numbers down to `-2^(w-1)`.
pub open spec fn twos_complement(v: nat, w: nat) -> int {
    if v < p2((w - 1) as nat) { v as int } else { v - p2(w) }
}

/// Whether a `w`-bit value (width 1 to 8) in 8-bit compressed data changes
/// the width rather than carrying a sample: below width 7 the single value
/// `2^(w-1)`, at widths 7 and 8 the eight values from `2^(w-1) - 4`.
pub open spec fn width_change_8(v: nat, w: nat) -> bool {
    if w < 7 { v == p2((w - 1) as nat) } else { p2((w - 1) as nat) - 4 <= v <= p2((w - 1) as nat) + 3 }
}

/// Whether a `w`-bit value (width 1 to 16) in 16-bit compressed data changes
/// the width: below width 7 the single value `2^(w-1)`, from width 7 on the
/// sixteen values from `2^(w-1) - 8`.
pub open spec fn width_change_16(v: nat, w: nat) -> bool {
    if w < 7 { v == p2((w - 1) as nat) } else { p2((w - 1) as nat) - 8 <= v <= p2((w - 1) as nat) + 7 }
}

proof fn lemma_shifts_8(v: u16)
    by (bit_vector)
    ensures
        v < 2 ==> ((v << 7u8) as i8) >> 7i8 == (if v < 1 { v as i8 } else { (v - 2) as i8 }),
        v < 4 ==> ((v << 6u8) as i8) >> 6i8 == (if v < 2 { v as i8 } else { (v - 4) as i8 }),
        v < 8 ==> ((v << 5u8) as i8) >> 5i8 == (if v < 4 { v as i8 } else { (v - 8) as i8 }),
        v < 16 ==> ((v << 4u8) as i8) >> 4i8 == (if v < 8 { v as i8 } else { (v - 16) as i8 }),
        v < 32 ==> ((v << 3u8) as i8) >> 3i8 == (if v < 16 { v as i8 } else { (v - 32) as i8 }),
        v < 64 ==> ((v << 2u8) as i8) >> 2i8 == (if v < 32 { v as i8 } else { (v - 64) as i8 }),
        v < 128 ==> ((v << 1u8) as i8) >> 1i8 == (if v < 64 { v as i8 } else { (v - 128) as i8 }),
        v < 256 ==> v as i8 == (if v < 128 { v as i8 } else { (v - 256) as i8 }),
        1u16 << 0u8 == 1, 1u16 << 1u8 == 2, 1u16 << 2u8 == 4, 1u16 << 3u8 == 8, 1u16 << 4u8 == 16, 1u16 << 5u8 == 32,
        0xffu16 >> 2u8 == 63, 0xffu16 >> 1u8 == 127,
{
}

/// What a width of 1 to 8 bits means in 8-bit compressed data, in plain
/// numbers.
proof fn lemma_width_facts_8(v: nat, w: u8)
    requires
        1 <= w <= 8,
        v < p2(w as nat),
    ensures
        widen_8(v as u16, w) == twos_complement(v, w as nat) as i8,
        w < 7 ==> escape_8(w) as int == p2((w - 1) as nat),
        7 <= w ==> (0xffu16 >> ((9 - w) as u8)) as int == p2((w - 1) as nat) - 1,
        p2(w as nat) <= 256,
{
    reveal_with_fuel(p2, 10);
    lemma_shifts_8(v as u16);
    if w == 1 {
    } else if w == 2 {
    } else if w == 3 {
    } else if w == 4 {
    } else if w == 5 {
    } else if w == 6 {
    } else if w == 7 {
    } else {
    }
}

/// Reading `n` bits where the stream holds them gives their value, below
/// `2^n`, and the position after them.
proof fn lemma_read_bits_within(buf: Seq<u8>, pos: int, n: nat)
    requires
        0 <= pos,
        pos + n <= 8 * buf.len(),
    ensures
        read_bits(buf, pos, n) == Some((bits(buf, pos, n), pos + n)),
        bits(buf, pos, n) < p2(n),
{
    if n > 0 {
        lemma_bits_bound(buf, pos, n);
    }
}

/// Decoding `len` more 8-bit samples from the block at byte offset `bo`,
/// then `more` samples of a second channel from the blocks that follow.
pub open spec fn decompress_8(buf: Seq<u8>, bo: int, len: int, more: int, out: Seq<u8>, it215: bool) -> Option<Seq<u8>>
    decreases more, len,
{
    if len <= 0 {
        if more > 0 {
            decompress_8(buf, bo, more, 0, out, it215)
        } else {
            Some(out)
        }
    } else {
        match next_block(buf, bo) {
            None => None,
            Some((pos, bo1)) => {
                let blklen = if len < 0x8000 { len } else { 0x8000 };
                match block_8(buf, pos, blklen, 0, 9, 0, 0, out, it215) {
                    None => None,
                    Some((_, out2, stopped)) => if stopped {
                        Some(out2)
                    } else {
                        decompress_8(buf, bo1, len - blklen, more, out2, it215)
                    },
                }
            },
        }
    }
}

/// The rest of an 8-bit decompression once the block in progress has
/// produced `res`.
pub open spec fn finish_8(buf: Seq<u8>, bo1: int, rest: int, more: int, res: Option<(int, Seq<u8>, bool)>, it215: bool) -> Option<Seq<u8>> {
    match res {
        None => None,
        Some((_, out2, stopped)) => if stopped {
            Some(out2)
        } else {
            decompress_8(buf, bo1, rest, more, out2, it215)
        },
    }
}

/// The rest of a 16-bit decompression once the block in progress has
/// produced `res`.
pub open spec fn finish_16(buf: Seq<u8>, bo1: int, rest: int, more: int, res: Option<(int, Seq<u8>, bool)>, it215: bool) -> Option<Seq<u8>> {
    match res {
        None => None,
        Some((_, out2, stopped)) => if stopped {
            Some(out2)
        } else {
            decompress_16(buf, bo1, rest, more, out2, it215)
        },
    }
}

/// Little-endian bytes of a 16-bit sample.
pub open spec fn le_bytes_i16(v: i16) -> Seq<u8> {
    seq![(v as u16 % 256) as u8, (v as u16 / 256) as u8]
}

/// Decoding the rest of one 16-bit block (see [`block_8`]).
pub open spec fn block_16(
    buf: Seq<u8>,
    pos: int,
    blklen: int,
    blkpos: int,
    width: u8,
    d1: i16,
    d2: i16,
    out: Seq<u8>,
    it215: bool,
) -> Option<(int, Seq<u8>, bool)>
    decreases 8 * buf.len() - pos + blklen - blkpos,
{
    if pos < 0 || pos > 8 * buf.len() || blkpos >= blklen {
        Some((pos, out, false))
    } else if width > 17 {
        Some((pos, out, true))
    } else {
        match read_bits(buf, pos, width as nat) {
            None => None,
            Some((v, pos1)) => {
                let value = v as u32;
                if width < 7 && value == escape_16(width) {
                    match read_bits(buf, pos1, 4) {
                        None => None,
                        Some((v4, pos2)) => block_16(
                            buf, pos2, blklen, blkpos, new_width((v4 + 1) as u8, width), d1, d2, out, it215,
                        ),
                    }
                } else if 7 <= width < 17 && value > (0xffffu32 >> ((17 - width) as u8)) - 8
                    && value <= (0xffffu32 >> ((17 - width) as u8)) - 8 + 16 {
                    block_16(
                        buf, pos1, blklen, blkpos,
                        new_width((value - ((0xffffu32 >> ((17 - width) as u8)) - 8)) as u8, width),
                        d1, d2, out, it215,
                    )
                } else if width == 17 && value >= 0x10000 {
                    block_16(buf, pos1, blklen, blkpos, ((value + 1) % 256) as u8, d1, d2, out, it215)
                } else {
                    let n1 = d1.wrapping_add(widen_16(value, width));
                    let n2 = d2.wrapping_add(n1);
                    block_16(
                        buf, pos1, blklen, blkpos + 1, width, n1, n2,
                        out + le_bytes_i16(if it215 { n2 } else { n1 }), it215,
                    )
                }
            },
        }
    }
}

/// Decoding `len` more 16-bit samples from the block at byte offset `bo`,
/// then `more` samples of a second channel from the blocks that follow.
pub open spec fn decompress_16(buf: Seq<u8>, bo: int, len: int, more: int, out: Seq<u8>, it215: bool) -> Option<Seq<u8>>
    decreases more, len,
{
    if len <= 0 {
        if more > 0 {
            decompress_16(buf, bo, more, 0, out, it215)
        } else {
            Some(out)
        }
    } else {
        match next_block(buf, bo) {
            None => None,
            Some((pos, bo1)) => {
                let blklen = if len < 0x4000 { len } else { 0x4000 };
                match block_16(buf, pos, blklen, 0, 17, 0, 0, out, it215) {
                    None => None,
                    Some((_, out2, stopped)) => if stopped {
                        Some(out2)
                    } else {
                        decompress_16(buf, bo1, len - blklen, more, out2, it215)
                    },
                }
            },
        }
    }
}

/// The error of compressed data that ends before the sample does: the
/// bad-sample error of a sample at the start of the data, whose fields the
/// public functions fill in.
fn stream_ended() -> (e: Error)
    ensures
        e is BadSample,
{
    Error::BadSample { raw_index: 0, pointer: 0, length: 0 }
}

/// Little-endian `u16` of `buf` at `offset`, or an error where the buffer ends first.
fn le_u16(buf: &[u8], offset: usize) -> (r: Result<u16, Error>)
    ensures
        r matches Err(e) ==> e is BadSample,
        r matches Ok(v) ==> in_bounds(buf@, offset as int, 2) && v == u16_le(buf@, offset as int),
        r is Err ==> !in_bounds(buf@, offset as int, 2),
{
    match read_u16_le(buf, offset) {
        Some(v) => Ok(v),
        None => Err(stream_ended()),
    }
}

/// Byte of `buf` at `offset`, or an error where the buffer ends first.
fn get_byte(buf: &[u8], offset: usize) -> (r: Result<u8, Error>)
    ensures
        r matches Err(e) ==> e is BadSample,
        r matches Ok(v) ==> offset < buf@.len() && v == buf@[offset as int],
        r is Err ==> offset >= buf@.len(),
{
    if offset < buf.len() {
        Ok(buf[offset])
    } else {
        Err(stream_ended())
    }
}

/// Reader of the bit stream of compressed blocks.
struct BitReader<'a> {
    /// Byte offset of the next block
    block_offset: usize,
    /// Bits left in the current byte
    bitnum: u8,
    /// Index of the current byte
    blk_index: usize,
    buf: &'a [u8],
}

impl<'a> BitReader<'a> {
    spec fn wf(&self) -> bool {
        &&& self.bitnum <= 8
        &&& (self.blk_index < self.buf@.len() || (self.bitnum == 0 && self.blk_index == 0))
    }

    /// Position of the next bit in the stream.
    spec fn pos(&self) -> int {
        self.blk_index * 8 + (8 - self.bitnum)
    }

    fn new(buf: &'a [u8]) -> (r: Self)
        ensures
            r.wf(),
            r.buf@ == buf@,
            r.block_offset == 0,
    {
        BitReader { bitnum: 0, buf, blk_index: 0, block_offset: 0 }
    }

    fn read_next_block(&mut self) -> (r: Result<(), Error>)
        requires
            old(self).wf(),
        ensures
            r matches Err(e) ==> e is BadSample,
            final(self).buf@ == old(self).buf@,
            r is Ok <==> next_block(old(self).buf@, old(self).block_offset as int) is Some,
            r is Ok ==> final(self).wf() && next_block(old(self).buf@, old(self).block_offset as int)
                == Some((final(self).pos(), final(self).block_offset as int)),
    {
        let len = self.buf.len();
        let block_size = le_u16(self.buf, self.block_offset)?;
        if self.block_offset >= usize::MAX - 2 {
            return Err(stream_ended());
        }
        let blk_index = 2 + self.block_offset;
        let _first = get_byte(self.buf, blk_index)?;
        if usize::MAX - 2 - self.block_offset < block_size as usize {
            return Err(stream_ended());
        }
        self.blk_index = blk_index;
        self.bitnum = 8;
        self.block_offset = self.block_offset + block_size as usize + 2;
        Ok(())
    }

    fn read_bits_u32(&mut self, n: u8) -> (r: Result<u32, Error>)
        requires
            old(self).wf(),
            n <= 17,
        ensures
            r matches Err(e) ==> e is BadSample,
            final(self).buf@ == old(self).buf@,
            final(self).block_offset == old(self).block_offset,
            r is Ok <==> read_bits(old(self).buf@, old(self).pos(), n as nat) is Some,
            r matches Ok(v) ==> final(self).wf() && read_bits(old(self).buf@, old(self).pos(), n as nat)
                == Some((v as nat, final(self).pos())),
    {
        if n == 0 {
            return Ok(0);
        }
        let ghost p0 = self.pos();
        let len = self.buf.len();
        let mut value: u32 = 0;
        let mut mult: u32 = 1;
        let mut k: u8 = 0;
        while k < n
            invariant
                self.wf(),
                self.buf@ == old(self).buf@,
                self.block_offset == old(self).block_offset,
                p0 == old(self).pos(),
                0 < n <= 17,
                k <= n,
                self.pos() == p0 + k,
                k > 0 ==> p0 + k <= 8 * self.buf@.len(),
                len == self.buf@.len(),
                mult == p2(k as nat),
                value == bits(self.buf@, p0, k as nat),
                value < mult,
                mult <= 131072,
            decreases n - k,
        {
            if self.bitnum == 0 {
                if self.blk_index + 1 >= len {
                    proof {
                        assert(p0 + n > 8 * self.buf@.len());
                    }
                    return Err(stream_ended());
                }
                self.blk_index = self.blk_index + 1;
                self.bitnum = 8;
            }
            let byte = self.buf[self.blk_index];
            let shift: u8 = 8 - self.bitnum;
            let bit: u8 = (byte >> shift) & 1u8;
            proof {
                let p = p0 + k;
                assert(p / 8 == self.blk_index as int);
                assert(p % 8 == shift as int);
                assert(bit == bit_at(self.buf@, p));
                assert(bit <= 1) by (bit_vector)
                    requires bit == (byte >> shift) & 1u8;
                reveal_with_fuel(p2, 2);
            }
            proof {
                let bt = bit_at(self.buf@, p0 + k);
                if bt == 0 {
                    assert(p2(k as nat) * (bt as nat) == 0);
                } else {
                    assert(p2(k as nat) * (bt as nat) == p2(k as nat));
                }
                assert(bits(self.buf@, p0, (k + 1) as nat) == bits(self.buf@, p0, k as nat) + p2(k as nat) * (bt as nat));
            }
            if bit == 1 {
                value = value + mult;
            }
            mult = mult * 2;
            self.bitnum = self.bitnum - 1;
            k = k + 1;
            proof {
                reveal_with_fuel(p2, 19);
            }
        }
        Ok(value)
    }

    fn read_bits_u16(&mut self, n: u8) -> (r: Result<u16, Error>)
        requires
            old(self).wf(),
            n <= 16,
        ensures
            r matches Err(e) ==> e is BadSample,
            final(self).buf@ == old(self).buf@,
            final(self).block_offset == old(self).block_offset,
            r is Ok <==> read_bits(old(self).buf@, old(self).pos(), n as nat) is Some,
            r matches Ok(v) ==> final(self).wf() && read_bits(old(self).buf@, old(self).pos(), n as nat)
                == Some((v as nat, final(self).pos())),
    {
        let v = self.read_bits_u32(n)?;
        proof {
            if n > 0 {
                lemma_bits_bound(old(self).buf@, old(self).pos(), n as nat);
            }
            reveal_with_fuel(p2, 17);
            lemma_p2_mono(n as nat, 16);
        }
        Ok(v as u16)
    }
}

proof fn lemma_p2_mono(a: nat, b: nat)
    requires
        a <= b,
    ensures
        p2(a) <= p2(b),
    decreases b,
{
    if a < b {
        lemma_p2_mono(a, (b - 1) as nat);
    }
}

/// Decompress 8-bit Impulse Tracker sample data: `len` samples of one
/// channel, or of each of two channels, one after the other, for a stereo
/// sample. An invalid bit width ends the sample early with what was decoded
/// so far.
#[verifier::rlimit(60)]
fn unpack_8(buf: &[u8], len: u32, it215: bool, stereo: bool) -> (r: Result<Vec<u8>, Error>)
    ensures
        r matches Err(e) ==> e is BadSample,
        r matches Ok(v) ==> decompress_8(buf@, 0, len as int, if stereo { len as int } else { 0 }, seq![], it215) == Some(v@),
        r is Err ==> decompress_8(buf@, 0, len as int, if stereo { len as int } else { 0 }, seq![], it215) is None,
{
    let ghost len0 = len as int;
    let ghost more0: int = if stereo { len as int } else { 0 };
    let mut remaining = len;
    let mut more: u32 = if stereo { len } else { 0 };
    let mut dest_buf: Vec<u8> = Vec::new();
    let mut bitreader = BitReader::new(buf);
    while remaining != 0 || more != 0
        invariant
            bitreader.wf(),
            bitreader.buf@ == buf@,
            len0 == len as int,
            more0 == (if stereo { len as int } else { 0int }),
            decompress_8(buf@, 0, len0, more0, seq![], it215) == decompress_8(
                buf@, bitreader.block_offset as int, remaining as int, more as int, dest_buf@, it215,
            ),
        decreases remaining + more,
    {
        if remaining == 0 {
            remaining = more;
            more = 0;
        }
        let ghost bo0 = bitreader.block_offset as int;
        let ghost out0 = dest_buf@;
        match bitreader.read_next_block() {
            Ok(()) => {},
            Err(e) => {
                assert(decompress_8(buf@, bo0, remaining as int, more as int, out0, it215) is None);
                assert(decompress_8(buf@, 0, len0, more0, seq![], it215) is None);
                return Err(e);
            },
        }
        let blklen: u16 = if remaining < 0x8000 { remaining as u16 } else { 0x8000 };
        let mut blkpos: u16 = 0;
        let mut width: u8 = 9;
        let mut d1: i8 = 0;
        let mut d2: i8 = 0;
        let ghost pos0 = bitreader.pos();
        proof {
            assert(decompress_8(buf@, bo0, remaining as int, more as int, out0, it215) == finish_8(
                buf@, bitreader.block_offset as int, remaining - blklen, more as int,
                block_8(buf@, pos0, blklen as int, 0, 9, 0, 0, out0, it215), it215,
            ));
        }
        while blkpos < blklen
            invariant
                bitreader.wf(),
                bitreader.buf@ == buf@,
                len0 == len as int,
                more0 == (if stereo { len as int } else { 0int }),
                bitreader.block_offset == next_block(buf@, bo0).unwrap().1,
                next_block(buf@, bo0) == Some((pos0, bitreader.block_offset as int)),
                0 <= bitreader.pos() <= 8 * buf@.len(),
                0 <= pos0 <= 8 * buf@.len(),
                blkpos <= blklen,
                blklen == (if remaining < 0x8000 { remaining as int } else { 0x8000 }),
                remaining != 0,
                decompress_8(buf@, 0, len0, more0, seq![], it215) == finish_8(
                    buf@, bitreader.block_offset as int, remaining - blklen, more as int,
                    block_8(buf@, bitreader.pos(), blklen as int, blkpos as int, width, d1, d2, dest_buf@, it215),
                    it215,
                ),
            decreases 8 * buf@.len() - bitreader.pos() + blklen - blkpos,
        {
            let ghost p = bitreader.pos();
            let ghost w = width;
            let ghost out = dest_buf@;
            if width > 9 {
                assert(block_8(buf@, p, blklen as int, blkpos as int, width, d1, d2, out, it215)
                    == Some((p, out, true)));
                return Ok(dest_buf);
            }
            let mut value = match bitreader.read_bits_u16(width) {
                Ok(v) => v,
                Err(e) => {
                    assert(block_8(buf@, p, blklen as int, blkpos as int, width, d1, d2, out, it215) is None);
                    return Err(e);
                },
            };
            let ghost p1 = bitreader.pos();
            proof {
                if width > 0 {
                    lemma_bits_bound(buf@, p, width as nat);
                    lemma_p2_mono(width as nat, 9);
                    reveal_with_fuel(p2, 10);
                }
            }
            if width < 7 {
                let esc: u16 = if width == 0 { 0 } else { 1u16 << (width - 1) };
                if value == esc {
                    let v3 = match bitreader.read_bits_u16(3) {
                        Ok(v) => v,
                        Err(e) => {
                            assert(value == escape_8(width));
                            assert(block_8(buf@, p, blklen as int, blkpos as int, width, d1, d2, out, it215) is None);
                            return Err(e);
                        },
                    };
                    proof {
                        lemma_bits_bound(buf@, p1, 3);
                        reveal_with_fuel(p2, 4);
                    }
                    value = v3 + 1;
                    let val = value as u8;
                    width = if val < width { val } else { val + 1 };
                    continue;
                }
            } else if width < 9 {
                let shift: u8 = 9 - width;
                assert(1 <= shift <= 2 ==> (0xffu16 >> shift) >= 4) by (bit_vector);
                let border: u16 = (0xffu16 >> shift) - 4;
                if value > border && value <= border + 8 {
                    value = value - border;
                    let val = value as u8;
                    width = if val < width { val } else { val + 1 };
                    continue;
                }
            } else {
                assert(value < 512 ==> (((value & 0x100u16) >> 8u16 == 1u16) == (value >= 256))) by (bit_vector);
                if (value & 0x100) >> 8 == 1 {
                    assert((((value + 1) as u16) & 0xffu16) as u8 == ((value + 1) % 256) as u8) by (bit_vector)
                        requires value < 512;
                    width = ((value + 1) & 0xff) as u8;
                    continue;
                }
            }
            let sample_value: i8 = if width < 8 {
                let shift: u8 = 8 - width;
                ((value << shift) as i8) >> (shift as i8)
            } else {
                value as i8
            };
            d1 = d1.wrapping_add(sample_value);
            d2 = d2.wrapping_add(d1);
            dest_buf.push(if it215 { d2 as u8 } else { d1 as u8 });
            blkpos += 1;
        }
        proof {
            assert(block_8(buf@, bitreader.pos(), blklen as int, blkpos as int, width, d1, d2, dest_buf@, it215)
                == Some((bitreader.pos(), dest_buf@, false)));
        }
        remaining -= blklen as u32;
    }
    Ok(dest_buf)
}


/// Decompress 16-bit Impulse Tracker sample data: `len` samples of one
/// channel, or of each of two channels, one after the other, for a stereo
/// sample. An invalid bit width ends the sample early with what was decoded
/// so far.
#[verifier::rlimit(60)]
fn unpack_16(buf: &[u8], len: u32, it215: bool, stereo: bool) -> (r: Result<Vec<u8>, Error>)
    ensures
        r matches Err(e) ==> e is BadSample,
        r matches Ok(v) ==> decompress_16(buf@, 0, len as int, if stereo { len as int } else { 0 }, seq![], it215) == Some(v@),
        r is Err ==> decompress_16(buf@, 0, len as int, if stereo { len as int } else { 0 }, seq![], it215) is None,
{
    let ghost len0 = len as int;
    let ghost more0: int = if stereo { len as int } else { 0 };
    let mut remaining = len;
    let mut more: u32 = if stereo { len } else { 0 };
    let mut dest_buf: Vec<u8> = Vec::new();
    let mut bitreader = BitReader::new(buf);
    while remaining != 0 || more != 0
        invariant
            bitreader.wf(),
            bitreader.buf@ == buf@,
            len0 == len as int,
            more0 == (if stereo { len as int } else { 0int }),
            decompress_16(buf@, 0, len0, more0, seq![], it215) == decompress_16(
                buf@, bitreader.block_offset as int, remaining as int, more as int, dest_buf@, it215,
            ),
        decreases remaining + more,
    {
        if remaining == 0 {
            remaining = more;
            more = 0;
        }
        let ghost bo0 = bitreader.block_offset as int;
        let ghost out0 = dest_buf@;
        match bitreader.read_next_block() {
            Ok(()) => {},
            Err(e) => {
                assert(decompress_16(buf@, bo0, remaining as int, more as int, out0, it215) is None);
                assert(decompress_16(buf@, 0, len0, more0, seq![], it215) is None);
                return Err(e);
            },
        }
        let blklen: u16 = if remaining < 0x4000 { remaining as u16 } else { 0x4000 };
        let mut blkpos: u16 = 0;
        let mut width: u8 = 17;
        let mut d1: i16 = 0;
        let mut d2: i16 = 0;
        let ghost pos0 = bitreader.pos();
        proof {
            assert(decompress_16(buf@, bo0, remaining as int, more as int, out0, it215) == finish_16(
                buf@, bitreader.block_offset as int, remaining - blklen, more as int,
                block_16(buf@, pos0, blklen as int, 0, 17, 0, 0, out0, it215), it215,
            ));
        }
        while blkpos < blklen
            invariant
                bitreader.wf(),
                bitreader.buf@ == buf@,
                len0 == len as int,
                more0 == (if stereo { len as int } else { 0int }),
                bitreader.block_offset == next_block(buf@, bo0).unwrap().1,
                next_block(buf@, bo0) == Some((pos0, bitreader.block_offset as int)),
                0 <= bitreader.pos() <= 8 * buf@.len(),
                0 <= pos0 <= 8 * buf@.len(),
                blkpos <= blklen,
                blklen == (if remaining < 0x4000 { remaining as int } else { 0x4000 }),
                remaining != 0,
                decompress_16(buf@, 0, len0, more0, seq![], it215) == finish_16(
                    buf@, bitreader.block_offset as int, remaining - blklen, more as int,
                    block_16(buf@, bitreader.pos(), blklen as int, blkpos as int, width, d1, d2, dest_buf@, it215),
                    it215,
                ),
            decreases 8 * buf@.len() - bitreader.pos() + blklen - blkpos,
        {
            let ghost p = bitreader.pos();
            let ghost w = width;
            let ghost out = dest_buf@;
            if width > 17 {
                assert(block_16(buf@, p, blklen as int, blkpos as int, width, d1, d2, out, it215)
                    == Some((p, out, true)));
                return Ok(dest_buf);
            }
            let mut value = match bitreader.read_bits_u32(width) {
                Ok(v) => v,
                Err(e) => {
                    assert(block_16(buf@, p, blklen as int, blkpos as int, width, d1, d2, out, it215) is None);
                    return Err(e);
                },
            };
            let ghost p1 = bitreader.pos();
            proof {
                if width > 0 {
                    lemma_bits_bound(buf@, p, width as nat);
                    lemma_p2_mono(width as nat, 17);
                    reveal_with_fuel(p2, 18);
                }
            }
            if width < 7 {
                let esc: u32 = if width == 0 { 0x8000_0000 } else { 1u32 << (width - 1) };
                if value == esc {
                    let v4 = match bitreader.read_bits_u32(4) {
                        Ok(v) => v,
                        Err(e) => {
                            assert(value == escape_16(width));
                            assert(block_16(buf@, p, blklen as int, blkpos as int, width, d1, d2, out, it215) is None);
                            return Err(e);
                        },
                    };
                    proof {
                        lemma_bits_bound(buf@, p1, 4);
                        reveal_with_fuel(p2, 5);
                    }
                    value = v4 + 1;
                    let val = value as u8;
                    width = if val < width { val } else { val + 1 };
                    continue;
                }
            } else if width < 17 {
                let shift: u8 = 17 - width;
                assert(1 <= shift <= 10 ==> (0xffffu32 >> shift) >= 8) by (bit_vector);
                let border: u32 = (0xffffu32 >> shift) - 8;
                if value > border && value <= border + 16 {
                    value = value - border;
                    let val = value as u8;
                    width = if val < width { val } else { val + 1 };
                    continue;
                }
            } else {
                assert(value < 131072 ==> (((value & 0x10000u32) >> 16u32 == 1u32) == (value >= 0x10000))) by (bit_vector);
                if (value & 0x10000) >> 16 == 1 {
                    assert((((value + 1) as u32) & 0xffu32) as u8 == ((value + 1) % 256) as u8) by (bit_vector)
                        requires value < 131072;
                    width = ((value + 1) & 0xff) as u8;
                    continue;
                }
            }
            let sample_value: i16 = if width == 0 {
                0
            } else if width < 16 {
                let shift: u8 = 16 - width;
                ((value << shift) as i16) >> (shift as i16)
            } else {
                value as i16
            };
            d1 = d1.wrapping_add(sample_value);
            d2 = d2.wrapping_add(d1);
            let out_value: u16 = if it215 { d2 as u16 } else { d1 as u16 };
            dest_buf.push((out_value % 256) as u8);
            dest_buf.push((out_value / 256) as u8);
            proof {
                assert(dest_buf@ =~= out + le_bytes_i16(if it215 { d2 } else { d1 }));
            }
            blkpos += 1;
        }
        proof {
            assert(block_16(buf@, bitreader.pos(), blklen as int, blkpos as int, width, d1, d2, dest_buf@, it215)
                == Some((bitreader.pos(), dest_buf@, false)));
        }
        remaining -= blklen as u32;
    }
    Ok(dest_buf)
}

/// The error of compressed data of `len` samples that ends before the
/// sample does, where the sample is not known: a bad sample of that length
/// at the start of the data.
pub open spec fn truncated(len: u32) -> Error {
    Error::BadSample { raw_index: 0, pointer: 0, length: len }
}

/// Decompress an 8-bit Impulse Tracker sample of `len` samples.
pub fn decompress_8_bit(buf: &[u8], len: u32, it215: bool) -> (r: Result<Vec<u8>, Error>)
    ensures
        r matches Ok(v) ==> decompress_8(buf@, 0, len as int, 0, seq![], it215) == Some(v@),
        r is Err <==> decompress_8(buf@, 0, len as int, 0, seq![], it215) is None,
        r matches Err(e) ==> e == truncated(len),
        len == 0 ==> (r matches Ok(v) && v@.len() == 0),
        len > 0 && buf@.len() < 3 ==> r == Err::<Vec<u8>, Error>(truncated(len)),
{
    match unpack_8(buf, len, it215, false) {
        Ok(v) => Ok(v),
        Err(_) => Err(Error::BadSample { raw_index: 0, pointer: 0, length: len }),
    }
}

/// Decompress a 16-bit Impulse Tracker sample of `len` samples.
pub fn decompress_16_bit(buf: &[u8], len: u32, it215: bool) -> (r: Result<Vec<u8>, Error>)
    ensures
        r matches Ok(v) ==> decompress_16(buf@, 0, len as int, 0, seq![], it215) == Some(v@),
        r is Err <==> decompress_16(buf@, 0, len as int, 0, seq![], it215) is None,
        r matches Err(e) ==> e == truncated(len),
        len == 0 ==> (r matches Ok(v) && v@.len() == 0),
        len > 0 && buf@.len() < 3 ==> r == Err::<Vec<u8>, Error>(truncated(len)),
{
    match unpack_16(buf, len, it215, false) {
        Ok(v) => Ok(v),
        Err(_) => Err(Error::BadSample { raw_index: 0, pointer: 0, length: len }),
    }
}

/// The samples that decompressing `len` frames of `buf` gives, for 8-bit or
/// 16-bit data, mono or stereo, IT 2.14 or IT 2.15 (`None` where the data
/// ends first).
pub open spec fn it21n_decompressed(is_8_bit: bool, buf: Seq<u8>, len: u32, it215: bool, stereo: bool) -> Option<Seq<u8>> {
    let more: int = if stereo { len as int } else { 0 };
    if is_8_bit {
        decompress_8(buf, 0, len as int, more, seq![], it215)
    } else {
        decompress_16(buf, 0, len as int, more, seq![], it215)
    }
}

/// Decompress Impulse Tracker sample data of `len` frames with the bit depth
/// of the sample; the two channels of a stereo sample are compressed one
/// after the other.
pub fn decompress_it21n(smp: &Sample, buf: &[u8], len: u32, it215: bool, stereo: bool) -> (r: Result<Vec<u8>, Error>)
    ensures
        r matches Ok(v) ==> it21n_decompressed(depth_is_8_bit(smp.depth), buf@, len, it215, stereo) == Some(v@),
        r is Err <==> it21n_decompressed(depth_is_8_bit(smp.depth), buf@, len, it215, stereo) is None,
        r matches Err(e) ==> e == bad_sample_of(*smp),
{
    let r = if smp.is_8_bit() {
        unpack_8(buf, len, it215, stereo)
    } else {
        unpack_16(buf, len, it215, stereo)
    };
    match r {
        Ok(v) => Ok(v),
        Err(_) => Err(Error::bad_sample(smp)),
    }
}

/// Decompressing 8-bit data adds up the samples' two's-complement values:
/// in a block whose stream starts with the 9-bit value `0x100 + w - 1`,
/// which selects the width `w` (1 to 8), and goes on with two `w`-bit
/// values that carry samples, those values count as `w`-bit
/// two's-complement numbers `a` and `b` (with width 4, bits `1110` are -2).
/// IT 2.14 data gives the running sums `a`, `a + b`; IT 2.15 data sums once
/// more and gives `a`, `2a + b` (all wrapping at 8 bits).
#[verifier::rlimit(40)]
pub proof fn law_it_8_bit_values(buf: Seq<u8>, w: u8, it215: bool)
    requires
        1 <= w <= 8,
        25 + 2 * w <= 8 * buf.len(),
        bits(buf, 16, 9) == 0x100 + w - 1,
        !width_change_8(bits(buf, 25, w as nat), w as nat),
        !width_change_8(bits(buf, 25 + w, w as nat), w as nat),
    ensures
        ({
            let a = twos_complement(bits(buf, 25, w as nat), w as nat) as i8;
            let b = twos_complement(bits(buf, 25 + w, w as nat), w as nat) as i8;
            decompress_8(buf, 0, 2, 0, seq![], it215) == Some(if it215 {
                seq![a as u8, a.wrapping_add(a.wrapping_add(b)) as u8]
            } else {
                seq![a as u8, a.wrapping_add(b) as u8]
            })
        }),
{
    let v0 = bits(buf, 16, 9);
    let v1 = bits(buf, 25, w as nat);
    let v2 = bits(buf, 25 + w, w as nat);
    lemma_read_bits_within(buf, 16, 9);
    lemma_read_bits_within(buf, 25, w as nat);
    lemma_read_bits_within(buf, 25 + w, w as nat);
    lemma_width_facts_8(v1, w);
    lemma_width_facts_8(v2, w);
    let a = twos_complement(v1, w as nat) as i8;
    let b = twos_complement(v2, w as nat) as i8;
    assert(((v0 as u16 + 1) % 256) as u8 == w);
    let bo1 = u16_le(buf, 0) + 2;
    assert(next_block(buf, 0) == Some((16int, bo1 as int)));
    let n1 = 0i8.wrapping_add(a);
    let m1 = 0i8.wrapping_add(n1);
    assert(n1 == a && m1 == a);
    let out1: Seq<u8> = seq![if it215 { m1 as u8 } else { n1 as u8 }];
    let n2 = n1.wrapping_add(b);
    let m2 = m1.wrapping_add(n2);
    let out2 = out1.push(if it215 { m2 as u8 } else { n2 as u8 });
    assert(block_8(buf, 25 + 2 * w, 2, 2, w, n2, m2, out2, it215) == Some((25 + 2 * w, out2, false)));
    assert(block_8(buf, 25 + w, 2, 1, w, n1, m1, out1, it215) == block_8(buf, 25 + 2 * w, 2, 2, w, n2, m2, out2, it215));
    assert(block_8(buf, 25, 2, 0, w, 0, 0, seq![], it215) == block_8(buf, 25 + w, 2, 1, w, n1, m1, out1, it215)) by {
        assert(seq![].push(if it215 { m1 as u8 } else { n1 as u8 }) =~= out1);
    }
    assert(block_8(buf, 16, 2, 0, 9, 0, 0, seq![], it215) == block_8(buf, 25, 2, 0, w, 0, 0, seq![], it215));
    assert(decompress_8(buf, bo1 as int, 0, 0, out2, it215) == Some(out2));
    assert(out2 =~= (if it215 {
        seq![a as u8, a.wrapping_add(a.wrapping_add(b)) as u8]
    } else {
        seq![a as u8, a.wrapping_add(b) as u8]
    }));
}

proof fn lemma_shifts_16(v: u32)
    by (bit_vector)
    ensures
        v < 2 ==> ((v << 15u8) as i16) >> 15i16 == (if v < 1 { v as i16 } else { (v - 2) as i16 }),
        v < 4 ==> ((v << 14u8) as i16) >> 14i16 == (if v < 2 { v as i16 } else { (v - 4) as i16 }),
        v < 8 ==> ((v << 13u8) as i16) >> 13i16 == (if v < 4 { v as i16 } else { (v - 8) as i16 }),
        v < 16 ==> ((v << 12u8) as i16) >> 12i16 == (if v < 8 { v as i16 } else { (v - 16) as i16 }),
        v < 32 ==> ((v << 11u8) as i16) >> 11i16 == (if v < 16 { v as i16 } else { (v - 32) as i16 }),
        v < 64 ==> ((v << 10u8) as i16) >> 10i16 == (if v < 32 { v as i16 } else { (v - 64) as i16 }),
        v < 128 ==> ((v << 9u8) as i16) >> 9i16 == (if v < 64 { v as i16 } else { (v - 128) as i16 }),
        v < 256 ==> ((v << 8u8) as i16) >> 8i16 == (if v < 128 { v as i16 } else { (v - 256) as i16 }),
        v < 512 ==> ((v << 7u8) as i16) >> 7i16 == (if v < 256 { v as i16 } else { (v - 512) as i16 }),
        v < 1024 ==> ((v << 6u8) as i16) >> 6i16 == (if v < 512 { v as i16 } else { (v - 1024) as i16 }),
        v < 2048 ==> ((v << 5u8) as i16) >> 5i16 == (if v < 1024 { v as i16 } else { (v - 2048) as i16 }),
        v < 4096 ==> ((v << 4u8) as i16) >> 4i16 == (if v < 2048 { v as i16 } else { (v - 4096) as i16 }),
        v < 8192 ==> ((v << 3u8) as i16) >> 3i16 == (if v < 4096 { v as i16 } else { (v - 8192) as i16 }),
        v < 16384 ==> ((v << 2u8) as i16) >> 2i16 == (if v < 8192 { v as i16 } else { (v - 16384) as i16 }),
        v < 32768 ==> ((v << 1u8) as i16) >> 1i16 == (if v < 16384 { v as i16 } else { (v - 32768) as i16 }),
        v < 65536 ==> v as i16 == (if v < 32768 { v as i16 } else { (v - 65536) as i16 }),
        1u32 << 0u8 == 1, 1u32 << 1u8 == 2, 1u32 << 2u8 == 4, 1u32 << 3u8 == 8, 1u32 << 4u8 == 16, 1u32 << 5u8 == 32,
        0xffffu32 >> 1u8 == 32767, 0xffffu32 >> 2u8 == 16383, 0xffffu32 >> 3u8 == 8191, 0xffffu32 >> 4u8 == 4095, 0xffffu32 >> 5u8 == 2047, 0xffffu32 >> 6u8 == 1023, 0xffffu32 >> 7u8 == 511, 0xffffu32 >> 8u8 == 255, 0xffffu32 >> 9u8 == 127, 0xffffu32 >> 10u8 == 63,
{
}

/// What a width of 1 to 16 bits means in 16-bit compressed data, in plain
/// numbers.
proof fn lemma_width_facts_16(v: nat, w: u8)
    requires
        1 <= w <= 16,
        v < p2(w as nat),
    ensures
        widen_16(v as u32, w) == twos_complement(v, w as nat) as i16,
        w < 7 ==> escape_16(w) as int == p2((w - 1) as nat),
        7 <= w ==> (0xffffu32 >> ((17 - w) as u8)) as int == p2((w - 1) as nat) - 1,
        p2(w as nat) <= 65536,
{
    reveal_with_fuel(p2, 18);
    lemma_shifts_16(v as u32);
    if w == 1 {
    } else if w == 2 {
    } else if w == 3 {
    } else if w == 4 {
    } else if w == 5 {
    } else if w == 6 {
    } else if w == 7 {
    } else if w == 8 {
    } else if w == 9 {
    } else if w == 10 {
    } else if w == 11 {
    } else if w == 12 {
    } else if w == 13 {
    } else if w == 14 {
    } else if w == 15 {
    } else {
    }
}

/// Decompressing 16-bit data adds up the samples' two's-complement values:
/// in a block whose stream starts with the 17-bit value `0x10000 + w - 1`,
/// which selects the width `w` (1 to 16), and goes on with two `w`-bit
/// values that carry samples, those values count as `w`-bit
/// two's-complement numbers `a` and `b`. IT 2.14 data gives the running sums
/// `a`, `a + b`; IT 2.15 data sums once more and gives `a`, `2a + b` (all
/// wrapping at 16 bits), each as two little-endian bytes.
#[verifier::rlimit(40)]
pub proof fn law_it_16_bit_values(buf: Seq<u8>, w: u8, it215: bool)
    requires
        1 <= w <= 16,
        33 + 2 * w <= 8 * buf.len(),
        bits(buf, 16, 17) == 0x10000 + w - 1,
        !width_change_16(bits(buf, 33, w as nat), w as nat),
        !width_change_16(bits(buf, 33 + w, w as nat), w as nat),
    ensures
        ({
            let a = twos_complement(bits(buf, 33, w as nat), w as nat) as i16;
            let b = twos_complement(bits(buf, 33 + w, w as nat), w as nat) as i16;
            let c = if it215 { a.wrapping_add(a.wrapping_add(b)) } else { a.wrapping_add(b) };
            decompress_16(buf, 0, 2, 0, seq![], it215) == Some(seq![
                (a as u16 % 256) as u8, (a as u16 / 256) as u8, (c as u16 % 256) as u8, (c as u16 / 256) as u8,
            ])
        }),
{
    let v0 = bits(buf, 16, 17);
    let v1 = bits(buf, 33, w as nat);
    let v2 = bits(buf, 33 + w, w as nat);
    lemma_read_bits_within(buf, 16, 17);
    lemma_read_bits_within(buf, 33, w as nat);
    lemma_read_bits_within(buf, 33 + w, w as nat);
    lemma_width_facts_16(v1, w);
    lemma_width_facts_16(v2, w);
    let a = twos_complement(v1, w as nat) as i16;
    let b = twos_complement(v2, w as nat) as i16;
    assert(((v0 as u32 + 1) % 256) as u8 == w);
    let bo1 = u16_le(buf, 0) + 2;
    assert(next_block(buf, 0) == Some((16int, bo1 as int)));
    let n1 = 0i16.wrapping_add(a);
    let m1 = 0i16.wrapping_add(n1);
    assert(n1 == a && m1 == a);
    let out1: Seq<u8> = le_bytes_i16(if it215 { m1 } else { n1 });
    let n2 = n1.wrapping_add(b);
    let m2 = m1.wrapping_add(n2);
    let out2 = out1 + le_bytes_i16(if it215 { m2 } else { n2 });
    assert(block_16(buf, 33 + 2 * w, 2, 2, w, n2, m2, out2, it215) == Some((33 + 2 * w, out2, false)));
    assert(block_16(buf, 33 + w, 2, 1, w, n1, m1, out1, it215) == block_16(buf, 33 + 2 * w, 2, 2, w, n2, m2, out2, it215));
    assert(block_16(buf, 33, 2, 0, w, 0, 0, seq![], it215) == block_16(buf, 33 + w, 2, 1, w, n1, m1, out1, it215)) by {
        assert(seq![] + le_bytes_i16(if it215 { m1 } else { n1 }) =~= out1);
    }
    assert(block_16(buf, 16, 2, 0, 17, 0, 0, seq![], it215) == block_16(buf, 33, 2, 0, w, 0, 0, seq![], it215));
    assert(decompress_16(buf, bo1 as int, 0, 0, out2, it215) == Some(out2));
    let c = if it215 { a.wrapping_add(a.wrapping_add(b)) } else { a.wrapping_add(b) };
    assert(out2 =~= seq![
        (a as u16 % 256) as u8, (a as u16 / 256) as u8, (c as u16 % 256) as u8, (c as u16 / 256) as u8,
    ]);
}

/// How 8-bit compressed data changes its width below width 7: after
/// the escape value `2^(w-1)`, the next 3 bits `x` select the width
/// `x + 1`, or `x + 2` where that would not differ from `w`; the value that
/// follows is read with the new width as a two's-complement number.
#[verifier::rlimit(40)]
pub proof fn law_it_8_bit_escape(buf: Seq<u8>, w: u8, it215: bool)
    requires
        1 <= w <= 6,
        bits(buf, 16, 9) == 0x100 + w - 1,
        25 + w + 3 <= 8 * buf.len(),
        bits(buf, 25, w as nat) == p2((w - 1) as nat),
        ({
            let x = bits(buf, 25 + w, 3);
            let w2 = if x + 1 < w { x + 1 } else { x + 2 };
            &&& w2 <= 8
            &&& 25 + w + 3 + w2 <= 8 * buf.len()
            &&& !width_change_8(bits(buf, 25 + w + 3, w2), w2)
        }),
    ensures
        ({
            let x = bits(buf, 25 + w, 3);
            let w2 = if x + 1 < w { x + 1 } else { x + 2 };
            let a = twos_complement(bits(buf, 25 + w + 3, w2), w2) as i8;
            decompress_8(buf, 0, 1, 0, seq![], it215) == Some(seq![a as u8])
        }),
{
    let x = bits(buf, 25 + w, 3);
    let w2: u8 = (if x + 1 < w { x + 1 } else { x + 2 }) as u8;
    let p0 = 25 + w + 3;
    let v = bits(buf, p0, w2 as nat);
    lemma_read_bits_within(buf, 16, 9);
    lemma_read_bits_within(buf, 25, w as nat);
    lemma_read_bits_within(buf, 25 + w, 3);
    lemma_read_bits_within(buf, p0, w2 as nat);
    lemma_width_facts_8(p2((w - 1) as nat), w);
    lemma_width_facts_8(v, w2);
    reveal_with_fuel(p2, 5);
    assert(new_width((x + 1) as u8, w) == w2);
    let a = twos_complement(v, w2 as nat) as i8;
    let bo1 = u16_le(buf, 0) + 2;
    assert(next_block(buf, 0) == Some((16int, bo1 as int)));
    let n1 = 0i8.wrapping_add(a);
    let m1 = 0i8.wrapping_add(n1);
    assert(n1 == a && m1 == a);
    assert(block_8(buf, p0, 1, 0, w2, 0, 0, seq![], it215) == block_8(buf, p0 + w2, 1, 1, w2, n1, m1, seq![a as u8], it215));
    assert(block_8(buf, 25, 1, 0, w, 0, 0, seq![], it215) == block_8(buf, p0, 1, 0, w2, 0, 0, seq![], it215));
    assert(block_8(buf, 16, 1, 0, 9, 0, 0, seq![], it215) == block_8(buf, 25, 1, 0, w, 0, 0, seq![], it215));
    assert(decompress_8(buf, bo1 as int, 0, 0, seq![a as u8], it215) == Some(seq![a as u8]));
}

/// How 8-bit compressed data changes its width at widths 7 and up:
/// the 8 values `2^(w-1) - 4` to `2^(w-1) + 3` select the widths 1 to
/// 8, skipping `w` (the value's distance `d` from `2^(w-1) - 5` gives
/// width `d`, or `d + 1` from `w` on); the value that follows is read with
/// the new width as a two's-complement number.
#[verifier::rlimit(40)]
pub proof fn law_it_8_bit_range(buf: Seq<u8>, w: u8, it215: bool)
    requires
        7 <= w <= 8,
        bits(buf, 16, 9) == 0x100 + w - 1,
        25 + w <= 8 * buf.len(),
        width_change_8(bits(buf, 25, w as nat), w as nat),
        ({
            let d = bits(buf, 25, w as nat) - p2((w - 1) as nat) + 5;
            let w2 = if d < w { d } else { d + 1 };
            &&& w2 <= 8
            &&& 25 + w + w2 <= 8 * buf.len()
            &&& !width_change_8(bits(buf, 25 + w, w2 as nat), w2 as nat)
        }),
    ensures
        ({
            let d = bits(buf, 25, w as nat) - p2((w - 1) as nat) + 5;
            let w2 = if d < w { d } else { d + 1 };
            let a = twos_complement(bits(buf, 25 + w, w2 as nat), w2 as nat) as i8;
            decompress_8(buf, 0, 1, 0, seq![], it215) == Some(seq![a as u8])
        }),
{
    let u = bits(buf, 25, w as nat);
    let d = u - p2((w - 1) as nat) + 5;
    let w2: u8 = (if d < w { d } else { d + 1 }) as u8;
    let p0 = 25 + w;
    let v = bits(buf, p0, w2 as nat);
    lemma_read_bits_within(buf, 16, 9);
    lemma_read_bits_within(buf, 25, w as nat);
    lemma_read_bits_within(buf, p0, w2 as nat);
    lemma_width_facts_8(u, w);
    lemma_width_facts_8(v, w2);
    let a = twos_complement(v, w2 as nat) as i8;
    let bo1 = u16_le(buf, 0) + 2;
    assert(next_block(buf, 0) == Some((16int, bo1 as int)));
    let n1 = 0i8.wrapping_add(a);
    let m1 = 0i8.wrapping_add(n1);
    assert(n1 == a && m1 == a);
    assert(block_8(buf, p0, 1, 0, w2, 0, 0, seq![], it215) == block_8(buf, p0 + w2, 1, 1, w2, n1, m1, seq![a as u8], it215));
    assert(block_8(buf, 25, 1, 0, w, 0, 0, seq![], it215) == block_8(buf, p0, 1, 0, w2, 0, 0, seq![], it215));
    assert(block_8(buf, 16, 1, 0, 9, 0, 0, seq![], it215) == block_8(buf, 25, 1, 0, w, 0, 0, seq![], it215));
    assert(decompress_8(buf, bo1 as int, 0, 0, seq![a as u8], it215) == Some(seq![a as u8]));
}

/// How 16-bit compressed data changes its width below width 7: after
/// the escape value `2^(w-1)`, the next 4 bits `x` select the width
/// `x + 1`, or `x + 2` where that would not differ from `w`; the value that
/// follows is read with the new width as a two's-complement number.
#[verifier::rlimit(40)]
pub proof fn law_it_16_bit_escape(buf: Seq<u8>, w: u8, it215: bool)
    requires
        1 <= w <= 6,
        bits(buf, 16, 17) == 0x10000 + w - 1,
        33 + w + 4 <= 8 * buf.len(),
        bits(buf, 33, w as nat) == p2((w - 1) as nat),
        ({
            let x = bits(buf, 33 + w, 4);
            let w2 = if x + 1 < w { x + 1 } else { x + 2 };
            &&& w2 <= 16
            &&& 33 + w + 4 + w2 <= 8 * buf.len()
            &&& !width_change_16(bits(buf, 33 + w + 4, w2), w2)
        }),
    ensures
        ({
            let x = bits(buf, 33 + w, 4);
            let w2 = if x + 1 < w { x + 1 } else { x + 2 };
            let a = twos_complement(bits(buf, 33 + w + 4, w2), w2) as i16;
            decompress_16(buf, 0, 1, 0, seq![], it215) == Some(seq![(a as u16 % 256) as u8, (a as u16 / 256) as u8])
        }),
{
    let x = bits(buf, 33 + w, 4);
    let w2: u8 = (if x + 1 < w { x + 1 } else { x + 2 }) as u8;
    let p0 = 33 + w + 4;
    let v = bits(buf, p0, w2 as nat);
    lemma_read_bits_within(buf, 16, 17);
    lemma_read_bits_within(buf, 33, w as nat);
    lemma_read_bits_within(buf, 33 + w, 4);
    lemma_read_bits_within(buf, p0, w2 as nat);
    lemma_width_facts_16(p2((w - 1) as nat), w);
    lemma_width_facts_16(v, w2);
    reveal_with_fuel(p2, 5);
    assert(new_width((x + 1) as u8, w) == w2);
    let a = twos_complement(v, w2 as nat) as i16;
    let bo1 = u16_le(buf, 0) + 2;
    assert(next_block(buf, 0) == Some((16int, bo1 as int)));
    let n1 = 0i16.wrapping_add(a);
    let m1 = 0i16.wrapping_add(n1);
    assert(n1 == a && m1 == a);
    assert(block_16(buf, p0, 1, 0, w2, 0, 0, seq![], it215) == block_16(buf, p0 + w2, 1, 1, w2, n1, m1, seq![(a as u16 % 256) as u8, (a as u16 / 256) as u8], it215));
    assert(block_16(buf, 33, 1, 0, w, 0, 0, seq![], it215) == block_16(buf, p0, 1, 0, w2, 0, 0, seq![], it215));
    assert(block_16(buf, 16, 1, 0, 17, 0, 0, seq![], it215) == block_16(buf, 33, 1, 0, w, 0, 0, seq![], it215));
    assert(decompress_16(buf, bo1 as int, 0, 0, seq![(a as u16 % 256) as u8, (a as u16 / 256) as u8], it215) == Some(seq![(a as u16 % 256) as u8, (a as u16 / 256) as u8]));
}

/// How 16-bit compressed data changes its width at widths 7 and up:
/// the 16 values `2^(w-1) - 8` to `2^(w-1) + 7` select the widths 1 to
/// 16, skipping `w` (the value's distance `d` from `2^(w-1) - 9` gives
/// width `d`, or `d + 1` from `w` on); the value that follows is read with
/// the new width as a two's-complement number.
#[verifier::rlimit(40)]
pub proof fn law_it_16_bit_range(buf: Seq<u8>, w: u8, it215: bool)
    requires
        7 <= w <= 16,
        bits(buf, 16, 17) == 0x10000 + w - 1,
        33 + w <= 8 * buf.len(),
        width_change_16(bits(buf, 33, w as nat), w as nat),
        ({
            let d = bits(buf, 33, w as nat) - p2((w - 1) as nat) + 9;
            let w2 = if d < w { d } else { d + 1 };
            &&& w2 <= 16
            &&& 33 + w + w2 <= 8 * buf.len()
            &&& !width_change_16(bits(buf, 33 + w, w2 as nat), w2 as nat)
        }),
    ensures
        ({
            let d = bits(buf, 33, w as nat) - p2((w - 1) as nat) + 9;
            let w2 = if d < w { d } else { d + 1 };
            let a = twos_complement(bits(buf, 33 + w, w2 as nat), w2 as nat) as i16;
            decompress_16(buf, 0, 1, 0, seq![], it215) == Some(seq![(a as u16 % 256) as u8, (a as u16 / 256) as u8])
        }),
{
    let u = bits(buf, 33, w as nat);
    let d = u - p2((w - 1) as nat) + 9;
    let w2: u8 = (if d < w { d } else { d + 1 }) as u8;
    let p0 = 33 + w;
    let v = bits(buf, p0, w2 as nat);
    lemma_read_bits_within(buf, 16, 17);
    lemma_read_bits_within(buf, 33, w as nat);
    lemma_read_bits_within(buf, p0, w2 as nat);
    lemma_width_facts_16(u, w);
    lemma_width_facts_16(v, w2);
    let a = twos_complement(v, w2 as nat) as i16;
    let bo1 = u16_le(buf, 0) + 2;
    assert(next_block(buf, 0) == Some((16int, bo1 as int)));
    let n1 = 0i16.wrapping_add(a);
    let m1 = 0i16.wrapping_add(n1);
    assert(n1 == a && m1 == a);
    assert(block_16(buf, p0, 1, 0, w2, 0, 0, seq![], it215) == block_16(buf, p0 + w2, 1, 1, w2, n1, m1, seq![(a as u16 % 256) as u8, (a as u16 / 256) as u8], it215));
    assert(block_16(buf, 33, 1, 0, w, 0, 0, seq![], it215) == block_16(buf, p0, 1, 0, w2, 0, 0, seq![], it215));
    assert(block_16(buf, 16, 1, 0, 17, 0, 0, seq![], it215) == block_16(buf, 33, 1, 0, w, 0, 0, seq![], it215));
    assert(decompress_16(buf, bo1 as int, 0, 0, seq![(a as u16 % 256) as u8, (a as u16 / 256) as u8], it215) == Some(seq![(a as u16 % 256) as u8, (a as u16 / 256) as u8]));
}

} // verus!
