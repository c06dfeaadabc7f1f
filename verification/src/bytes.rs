//! Reading little- and big-endian integers at fixed offsets of a byte buffer.

use vstd::prelude::*;
use crate::error::{Error, Fail, fail_of, unexpected_eof};

verus! {

/// Whether `len` bytes starting at `off` lie inside `s`.
pub open spec fn in_bounds(s: Seq<u8>, off: int, len: int) -> bool {
    0 <= off && 0 <= len && off + len <= s.len()
}

pub open spec fn u16_le(s: Seq<u8>, i: int) -> u16 {
    (s[i] + 256 * s[i + 1]) as u16
}

pub open spec fn u16_be(s: Seq<u8>, i: int) -> u16 {
    (256 * s[i] + s[i + 1]) as u16
}

pub open spec fn u24_le(s: Seq<u8>, i: int) -> u32 {
    (s[i] + 256 * s[i + 1] + 65536 * s[i + 2]) as u32
}

pub open spec fn u32_le(s: Seq<u8>, i: int) -> u32 {
    (s[i] + 256 * s[i + 1] + 65536 * s[i + 2] + 16777216 * s[i + 3]) as u32
}

pub open spec fn u32_be(s: Seq<u8>, i: int) -> u32 {
    (16777216 * s[i] + 65536 * s[i + 1] + 256 * s[i + 2] + s[i + 3]) as u32
}

/// `u8` at `off`, if the buffer holds it.
pub fn read_u8(data: &[u8], off: usize) -> (r: Option<u8>)
    ensures
        r == (if in_bounds(data@, off as int, 1) { Some(data@[off as int]) } else { None }),
{
    if off < data.len() {
        Some(data[off])
    } else {
        None
    }
}

/// Little-endian `u16` at `off`, if the buffer holds it.
pub fn read_u16_le(data: &[u8], off: usize) -> (r: Option<u16>)
    ensures
        r == (if in_bounds(data@, off as int, 2) { Some(u16_le(data@, off as int)) } else { None }),
{
    if off < data.len() && data.len() - off >= 2 {
        Some(data[off] as u16 + 256 * (data[off + 1] as u16))
    } else {
        None
    }
}

/// Big-endian `u16` at `off`, if the buffer holds it.
pub fn read_u16_be(data: &[u8], off: usize) -> (r: Option<u16>)
    ensures
        r == (if in_bounds(data@, off as int, 2) { Some(u16_be(data@, off as int)) } else { None }),
{
    if off < data.len() && data.len() - off >= 2 {
        Some(256 * (data[off] as u16) + data[off + 1] as u16)
    } else {
        None
    }
}

/// Little-endian 24-bit integer at `off`, if the buffer holds it.
pub fn read_u24_le(data: &[u8], off: usize) -> (r: Option<u32>)
    ensures
        r == (if in_bounds(data@, off as int, 3) { Some(u24_le(data@, off as int)) } else { None }),
{
    if off < data.len() && data.len() - off >= 3 {
        Some(data[off] as u32 + 256 * (data[off + 1] as u32) + 65536 * (data[off + 2] as u32))
    } else {
        None
    }
}

/// Little-endian `u32` at `off`, if the buffer holds it.
pub fn read_u32_le(data: &[u8], off: usize) -> (r: Option<u32>)
    ensures
        r == (if in_bounds(data@, off as int, 4) { Some(u32_le(data@, off as int)) } else { None }),
{
    if off < data.len() && data.len() - off >= 4 {
        Some(
            data[off] as u32 + 256 * (data[off + 1] as u32) + 65536 * (data[off + 2] as u32)
                + 16777216 * (data[off + 3] as u32),
        )
    } else {
        None
    }
}

/// Big-endian `u32` at `off`, if the buffer holds it.
pub fn read_u32_be(data: &[u8], off: usize) -> (r: Option<u32>)
    ensures
        r == (if in_bounds(data@, off as int, 4) { Some(u32_be(data@, off as int)) } else { None }),
{
    if off < data.len() && data.len() - off >= 4 {
        Some(
            16777216 * (data[off] as u32) + 65536 * (data[off + 1] as u32) + 256 * (data[off
                + 2] as u32) + data[off + 3] as u32,
        )
    } else {
        None
    }
}

/// Whether `magic` occurs in `s` at offset `off`.
pub open spec fn has_magic(s: Seq<u8>, off: int, magic: Seq<u8>) -> bool {
    in_bounds(s, off, magic.len() as int) && s.subrange(off, off + magic.len()) == magic
}

/// Whether the bytes of `magic` stand in `data` at `off`.
pub fn magic_at(data: &[u8], off: usize, magic: &[u8]) -> (r: bool)
    ensures
        r == has_magic(data@, off as int, magic@),
{
    if off > data.len() || data.len() - off < magic.len() {
        return false;
    }
    let mut i: usize = 0;
    while i < magic.len()
        invariant
            i <= magic.len(),
            off + magic.len() <= data.len(),
            forall|j: int| 0 <= j < i ==> data@[off + j] == magic@[j],
        decreases magic.len() - i,
    {
        if data[off + i] != magic[i] {
            assert(data@.subrange(off as int, off + magic.len())[i as int] != magic@[i as int]);
            return false;
        }
        i += 1;
    }
    assert(data@.subrange(off as int, off + magic.len()) =~= magic@);
    true
}

/// Copy of `len` bytes starting at `off`, if the buffer holds them.
pub fn copy_range(data: &[u8], off: usize, len: usize) -> (r: Option<Vec<u8>>)
    ensures
        r matches Some(v) ==> in_bounds(data@, off as int, len as int) && v@ == data@.subrange(off as int, off + len),
        r is None ==> !in_bounds(data@, off as int, len as int),
{
    if off > data.len() || data.len() - off < len {
        return None;
    }
    let mut v: Vec<u8> = Vec::with_capacity(len);
    let mut i: usize = 0;
    while i < len
        invariant
            i <= len,
            off + len <= data.len(),
            v@ == data@.subrange(off as int, off + i),
        decreases len - i,
    {
        v.push(data[off + i]);
        i += 1;
        assert(v@ =~= data@.subrange(off as int, off + i));
    }
    Some(v)
}

/// An owned copy of the bytes.
pub fn to_owned_bytes(data: &[u8]) -> (r: Vec<u8>)
    ensures
        r@ == data@,
{
    let v = copy_range(data, 0, data.len()).unwrap();
    assert(v@ =~= data@);
    v
}

/// Whether `len` bytes at `base + rel` lie inside `s`.
pub open spec fn fits(s: Seq<u8>, base: int, rel: int, len: int) -> bool {
    in_bounds(s, base + rel, len)
}

/// Offset `base + rel` where `n` bytes there lie inside the buffer.
fn offset_of(data: &[u8], base: usize, rel: usize, n: usize) -> (r: Option<usize>)
    ensures
        r matches Some(o) ==> o == base + rel && fits(data@, base as int, rel as int, n as int),
        r is None ==> !fits(data@, base as int, rel as int, n as int),
{
    let len = data.len();
    if base <= len && rel <= len - base && n <= len - base - rel {
        Some(base + rel)
    } else {
        None
    }
}

/// Byte at `base + rel`; an input/output error where the data ends first.
pub fn get_u8(data: &[u8], base: usize, rel: usize) -> (r: Result<u8, Error>)
    ensures
        r is Ok <==> fits(data@, base as int, rel as int, 1),
        r matches Ok(v) ==> v == data@[base + rel],
        r matches Err(e) ==> fail_of(e) == Fail::Io,
{
    match offset_of(data, base, rel, 1) {
        Some(o) => Ok(data[o]),
        None => Err(unexpected_eof()),
    }
}

/// Little-endian `u16` at `base + rel`; an input/output error where the data ends first.
pub fn get_u16_le(data: &[u8], base: usize, rel: usize) -> (r: Result<u16, Error>)
    ensures
        r is Ok <==> fits(data@, base as int, rel as int, 2),
        r matches Ok(v) ==> v == u16_le(data@, base + rel),
        r matches Err(e) ==> fail_of(e) == Fail::Io,
{
    match offset_of(data, base, rel, 2) {
        Some(o) => Ok(read_u16_le(data, o).unwrap()),
        None => Err(unexpected_eof()),
    }
}

/// Big-endian `u16` at `base + rel`; an input/output error where the data ends first.
pub fn get_u16_be(data: &[u8], base: usize, rel: usize) -> (r: Result<u16, Error>)
    ensures
        r is Ok <==> fits(data@, base as int, rel as int, 2),
        r matches Ok(v) ==> v == u16_be(data@, base + rel),
        r matches Err(e) ==> fail_of(e) == Fail::Io,
{
    match offset_of(data, base, rel, 2) {
        Some(o) => Ok(read_u16_be(data, o).unwrap()),
        None => Err(unexpected_eof()),
    }
}

/// Little-endian 24-bit integer at `base + rel`; an input/output error where the data ends first.
pub fn get_u24_le(data: &[u8], base: usize, rel: usize) -> (r: Result<u32, Error>)
    ensures
        r is Ok <==> fits(data@, base as int, rel as int, 3),
        r matches Ok(v) ==> v == u24_le(data@, base + rel),
        r matches Err(e) ==> fail_of(e) == Fail::Io,
{
    match offset_of(data, base, rel, 3) {
        Some(o) => Ok(read_u24_le(data, o).unwrap()),
        None => Err(unexpected_eof()),
    }
}

/// Little-endian `u32` at `base + rel`; an input/output error where the data ends first.
pub fn get_u32_le(data: &[u8], base: usize, rel: usize) -> (r: Result<u32, Error>)
    ensures
        r is Ok <==> fits(data@, base as int, rel as int, 4),
        r matches Ok(v) ==> v == u32_le(data@, base + rel),
        r matches Err(e) ==> fail_of(e) == Fail::Io,
{
    match offset_of(data, base, rel, 4) {
        Some(o) => Ok(read_u32_le(data, o).unwrap()),
        None => Err(unexpected_eof()),
    }
}

/// Big-endian `u32` at `base + rel`; an input/output error where the data ends first.
pub fn get_u32_be(data: &[u8], base: usize, rel: usize) -> (r: Result<u32, Error>)
    ensures
        r is Ok <==> fits(data@, base as int, rel as int, 4),
        r matches Ok(v) ==> v == u32_be(data@, base + rel),
        r matches Err(e) ==> fail_of(e) == Fail::Io,
{
    match offset_of(data, base, rel, 4) {
        Some(o) => Ok(read_u32_be(data, o).unwrap()),
        None => Err(unexpected_eof()),
    }
}

/// The `n` bytes at `base + rel`; an input/output error where the data ends first.
pub fn get_bytes(data: &[u8], base: usize, rel: usize, n: usize) -> (r: Result<&[u8], Error>)
    ensures
        r is Ok <==> fits(data@, base as int, rel as int, n as int),
        r matches Ok(v) ==> v@ == data@.subrange(base + rel, base + rel + n),
        r matches Err(e) ==> fail_of(e) == Fail::Io,
{
    let len = data.len();
    match offset_of(data, base, rel, n) {
        Some(o) => Ok(slice_range(data, o, o + n)),
        None => Err(unexpected_eof()),
    }
}

/// The subslice `data[start..end]`.
pub fn slice_range(data: &[u8], start: usize, end: usize) -> (r: &[u8])
    requires
        start <= end <= data@.len(),
    ensures
        r@ == data@.subrange(start as int, end as int),
{
    &data[start..end]
}

/// Whether `magic` stands at `base + rel`: an input/output error where the
/// data ends before the magic's length.
pub fn is_magic(data: &[u8], base: usize, rel: usize, magic: &[u8]) -> (r: Result<bool, Error>)
    ensures
        r is Ok <==> fits(data@, base as int, rel as int, magic@.len() as int),
        r matches Ok(b) ==> b == has_magic(data@, base + rel, magic@),
        r matches Err(e) ==> fail_of(e) == Fail::Io,
{
    match offset_of(data, base, rel, magic.len()) {
        Some(o) => Ok(magic_at(data, o, magic)),
        None => Err(unexpected_eof()),
    }
}

} // verus!
