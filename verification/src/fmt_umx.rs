//! Unreal packages (UMX) that carry a tracker module.
//!
//! A package starts with a header that locates its name table and its
//! export table. A package with music names "Music" in its name table; the
//! first export then gives, as compact indices, where the serialised object
//! lies, and the tracker module follows the object's header.

use vstd::prelude::*;
use crate::bytes::{get_u32_le, has_magic, magic_at, slice_range, to_owned_bytes, u32_le};
use crate::error::{Error, Fail, fail_of, unexpected_eof};
use crate::loader::{Format, identify_module, load_format, umx_loads_as};
use crate::module::GenericTracker;
use crate::text::{decoded_name, read_str, str_chars};

verus! {

pub open spec fn magic_upkg() -> Seq<u8> {
    seq![0xC1u8, 0x83, 0x2A, 0x9E]
}

/// A position set past the end of the data is taken as the end: nothing is
/// left to read there.
pub open spec fn seek(s: Seq<u8>, p: int) -> int {
    if p <= s.len() { p } else { s.len() as int }
}

/// The value of a compact index from its first byte (which holds the sign)
/// and its magnitude bits.
pub open spec fn ci_signed(b0: u8, v: int) -> i32 {
    let w = (v as u32) as i32;
    if b0 >= 128 {
        if w == i32::MIN { w } else { (-w) as i32 }
    } else {
        w
    }
}

/// The compact index at `off` and the position after it, or `None` where the
/// data ends first. The first byte holds the sign (bit 7), a continuation
/// flag (bit 6) and six value bits; the next three bytes hold seven value
/// bits and a continuation flag (bit 7) each; a fifth byte holds five value
/// bits.
pub open spec fn compact_index(s: Seq<u8>, off: int) -> Option<(i32, int)> {
    if !(0 <= off < s.len()) {
        None
    } else {
        let b0 = s[off];
        let v0 = (b0 % 64) as int;
        if b0 % 128 < 64 {
            Some((ci_signed(b0, v0), off + 1))
        } else if off + 1 >= s.len() {
            None
        } else {
            let b1 = s[off + 1];
            let v1 = v0 + (b1 % 128) * 64;
            if b1 < 128 {
                Some((ci_signed(b0, v1), off + 2))
            } else if off + 2 >= s.len() {
                None
            } else {
                let b2 = s[off + 2];
                let v2 = v1 + (b2 % 128) * 8192;
                if b2 < 128 {
                    Some((ci_signed(b0, v2), off + 3))
                } else if off + 3 >= s.len() {
                    None
                } else {
                    let b3 = s[off + 3];
                    let v3 = v2 + (b3 % 128) * 1048576;
                    if b3 < 128 {
                        Some((ci_signed(b0, v3), off + 4))
                    } else if off + 4 >= s.len() {
                        None
                    } else {
                        let b4 = s[off + 4];
                        Some((ci_signed(b0, v3 + (b4 % 32) * 134217728), off + 5))
                    }
                }
            }
        }
    }
}

/// The bytes that write `v` as a compact index: the sign in bit 7 of the
/// first byte, then the magnitude six bits first and seven bits for each
/// further byte, least significant first, every byte but the last marking
/// that another follows (bit 6 of the first byte, bit 7 of the others).
pub open spec fn compact_encoded(v: int) -> Seq<u8> {
    let m = if v < 0 { -v } else { v };
    let sign: int = if v < 0 { 128 } else { 0 };
    let first = (sign + (if m < 64 { 0int } else { 64 }) + m % 64) as u8;
    if m < 64 {
        seq![first]
    } else if m < 8192 {
        seq![first, (m / 64) as u8]
    } else if m < 1048576 {
        seq![first, (128 + (m / 64) % 128) as u8, (m / 8192) as u8]
    } else if m < 134217728 {
        seq![first, (128 + (m / 64) % 128) as u8, (128 + (m / 8192) % 128) as u8, (m / 1048576) as u8]
    } else {
        seq![
            first,
            (128 + (m / 64) % 128) as u8,
            (128 + (m / 8192) % 128) as u8,
            (128 + (m / 1048576) % 128) as u8,
            (m / 134217728) as u8,
        ]
    }
}

proof fn lemma_compact_digits(m: int)
    requires
        0 <= m < 0x8000_0000,
    ensures
        m == m % 64 + ((m / 64) % 128) * 64 + ((m / 8192) % 128) * 8192 + ((m / 1048576) % 128) * 1048576
            + (m / 134217728) * 134217728,
        m / 134217728 < 16,
        m < 8192 ==> m == m % 64 + (m / 64) * 64 && m / 64 < 128,
        m < 1048576 ==> m == m % 64 + ((m / 64) % 128) * 64 + (m / 8192) * 8192 && m / 8192 < 128,
        m < 134217728 ==> m == m % 64 + ((m / 64) % 128) * 64 + ((m / 8192) % 128) * 8192 + (m / 1048576) * 1048576
            && m / 1048576 < 128,
{
    assert(m == m % 64 + ((m / 64) % 128) * 64 + ((m / 8192) % 128) * 8192 + ((m / 1048576) % 128) * 1048576
        + (m / 134217728) * 134217728) by (nonlinear_arith)
        requires 0 <= m;
    assert(m / 134217728 < 16) by (nonlinear_arith)
        requires 0 <= m < 0x8000_0000;
    assert(m < 8192 ==> m == m % 64 + (m / 64) * 64 && m / 64 < 128) by (nonlinear_arith)
        requires 0 <= m;
    assert(m < 1048576 ==> m == m % 64 + ((m / 64) % 128) * 64 + (m / 8192) * 8192 && m / 8192 < 128) by (nonlinear_arith)
        requires 0 <= m;
    assert(m < 134217728 ==> m == m % 64 + ((m / 64) % 128) * 64 + ((m / 8192) % 128) * 8192 + (m / 1048576) * 1048576
        && m / 1048576 < 128) by (nonlinear_arith)
        requires 0 <= m;
}

/// Reading a compact index gives back what writing it gave, for every
/// value but the most negative, whatever follows it; the position after it
/// is the end of its bytes.
#[verifier::spinoff_prover]
#[verifier::rlimit(40)]
pub proof fn law_compact_index_round_trip(v: i32, rest: Seq<u8>)
    requires
        v != i32::MIN,
    ensures
        compact_index(compact_encoded(v as int) + rest, 0) == Some((v, compact_encoded(v as int).len() as int)),
{
    let m: int = if v < 0 { -v } else { v as int };
    let e = compact_encoded(v as int);
    let s = e + rest;
    lemma_compact_digits(m);
    lemma_compact_sign(v, m);
    lemma_compact_first(v, m);
    let b0 = e[0];
    let k = e.len() as int;
    assert(forall|i: int| 0 <= i < k ==> s[i] == e[i]);
    assert(s.len() >= k);
    lemma_compact_read(s, b0, m, k);
}

/// The first byte of a written compact index.
proof fn lemma_compact_first(v: i32, m: int)
    requires
        v != i32::MIN,
        m == (if v < 0 { -v } else { v as int }),
    ensures
        ({
            let b0 = compact_encoded(v as int)[0];
            &&& b0 % 64 == m % 64
            &&& (b0 % 128 < 64 <==> m < 64)
            &&& (b0 >= 128 <==> v < 0)
        }),
{
}

/// Reading the bytes of a magnitude `m` written with `k` bytes after the
/// first byte `b0`.
#[verifier::rlimit(40)]
proof fn lemma_compact_read(s: Seq<u8>, b0: u8, m: int, k: int)
    requires
        0 <= m < 0x8000_0000,
        s.len() >= k,
        s[0] == b0,
        b0 % 64 == m % 64,
        b0 % 128 < 64 <==> m < 64,
        k == (if m < 64 { 1int } else if m < 8192 { 2 } else if m < 1048576 { 3 } else if m < 134217728 { 4 } else { 5 }),
        k >= 2 ==> s[1] == (if m < 8192 { m / 64 } else { 128 + (m / 64) % 128 }),
        k >= 3 ==> s[2] == (if m < 1048576 { m / 8192 } else { 128 + (m / 8192) % 128 }),
        k >= 4 ==> s[3] == (if m < 134217728 { m / 1048576 } else { 128 + (m / 1048576) % 128 }),
        k >= 5 ==> s[4] == m / 134217728,
    ensures
        compact_index(s, 0) == Some((ci_signed(b0, m), k)),
{
    lemma_compact_digits(m);
}

proof fn lemma_compact_sign(v: i32, m: int)
    requires
        v != i32::MIN,
        m == (if v < 0 { -v } else { v as int }),
    ensures
        forall|b0: u8| (b0 >= 128 <==> v < 0) ==> #[trigger] ci_signed(b0, m) == v,
{
    assert((m as u32) as i32 == m);
}

/// Read a compact index (a variable-length signed integer of Unreal
/// packages) at `off`: its value and the position after it.
pub fn read_compact_index(data: &[u8], off: usize) -> (r: Result<(i32, usize), Error>)
    ensures
        match r {
            Ok((v, next)) => compact_index(data@, off as int) == Some((v, next as int)) && next <= data@.len(),
            Err(e) => compact_index(data@, off as int) is None && fail_of(e) == Fail::Io,
        },
{
    let len = data.len();
    if off >= len {
        return Err(unexpected_eof());
    }
    let b0 = data[off];
    let mut v: u32 = (b0 % 64) as u32;
    let mut next: usize = off + 1;
    if b0 % 128 >= 64 {
        if next >= len {
            return Err(unexpected_eof());
        }
        let b1 = data[next];
        v = v + (b1 % 128) as u32 * 64;
        next = next + 1;
        if b1 >= 128 {
            if next >= len {
                return Err(unexpected_eof());
            }
            let b2 = data[next];
            v = v + (b2 % 128) as u32 * 8192;
            next = next + 1;
            if b2 >= 128 {
                if next >= len {
                    return Err(unexpected_eof());
                }
                let b3 = data[next];
                v = v + (b3 % 128) as u32 * 1048576;
                next = next + 1;
                if b3 >= 128 {
                    if next >= len {
                        return Err(unexpected_eof());
                    }
                    let b4 = data[next];
                    v = v + (b4 % 32) as u32 * 134217728;
                    next = next + 1;
                }
            }
        }
    }
    let w = v as i32;
    let out: i32 = if b0 >= 128 {
        if w == i32::MIN { w } else { -w }
    } else {
        w
    };
    Ok((out, next))
}

/// Where the position `p` moves to after skipping `n` bytes.
fn skip(data: &[u8], p: usize, n: usize) -> (r: usize)
    requires
        p <= data@.len(),
    ensures
        r == seek(data@, p + n),
{
    if n <= data.len() - p { p + n } else { data.len() }
}

/// Where the position `p` of the data moves to when it is set.
fn seek_to(data: &[u8], p: u64) -> (r: usize)
    ensures
        r == seek(data@, p as int),
{
    if p <= data.len() as u64 { p as usize } else { data.len() }
}

/// Length of a name of an old package (before version 64): the bytes up to
/// and including a NUL, at most ten; `None` where the data ends first.
pub open spec fn scan_nul(s: Seq<u8>, pos: int, j: nat) -> Option<nat>
    decreases 10 - j,
{
    if j >= 10 {
        Some(10)
    } else if !(0 <= pos + j < s.len()) {
        None
    } else if s[pos + j] == 0 || j + 1 >= 10 {
        Some(j + 1)
    } else {
        scan_nul(s, pos, j + 1)
    }
}

/// Where the name table entry at `pos` has its name bytes: their start and
/// end, which is also the position after the name.
pub open spec fn name_entry(s: Seq<u8>, version: u32, pos: int) -> Option<(int, int)> {
    if version < 64 {
        match scan_nul(s, pos, 0) {
            Some(k) => Some((pos, pos + k)),
            None => None,
        }
    } else if 0 <= pos < s.len() && pos + 1 + s[pos] <= s.len() {
        Some((pos + 1, pos + 1 + s[pos]))
    } else {
        None
    }
}

fn read_name_entry(data: &[u8], version: u32, pos: usize) -> (r: Result<(usize, usize), Error>)
    requires
        pos <= data@.len(),
    ensures
        match r {
            Ok((a, b)) => name_entry(data@, version, pos as int) == Some((a as int, b as int)) && a <= b <= data@.len(),
            Err(e) => name_entry(data@, version, pos as int) is None && fail_of(e) == Fail::Io,
        },
{
    let len = data.len();
    if version < 64 {
        let mut j: usize = 0;
        while j < 10
            invariant
                pos <= len,
                len == data@.len(),
                version < 64,
                j < 10,
                scan_nul(data@, pos as int, 0) == scan_nul(data@, pos as int, j as nat),
            decreases 10 - j,
        {
            if j >= len - pos {
                return Err(unexpected_eof());
            }
            if data[pos + j] == 0 || j + 1 >= 10 {
                return Ok((pos, pos + j + 1));
            }
            j += 1;
        }
        Err(unexpected_eof())
    } else {
        if pos >= len {
            return Err(unexpected_eof());
        }
        let l = data[pos] as usize;
        if l > len - pos - 1 {
            return Err(unexpected_eof());
        }
        Ok((pos + 1, pos + 1 + l))
    }
}

/// Whether a name reads "Music".
fn is_music(bytes: &[u8]) -> (r: bool)
    ensures
        r == (decoded_name(bytes@) == "Music"@),
{
    let name = read_str(bytes);
    let c = str_chars(name.as_str());
    proof {
        reveal_strlit("Music");
    }
    let r = c.len() == 5 && c[0] == 'M' && c[1] == 'u' && c[2] == 's' && c[3] == 'i' && c[4] == 'c';
    if r {
        assert(c@ =~= "Music"@);
    }
    r
}

/// Whether one of the `count` entries of the name table from `pos` reads
/// "Music"; each entry is followed by 4 bytes of flags.
pub open spec fn find_music(s: Seq<u8>, version: u32, pos: int, count: nat) -> Result<bool, Fail>
    decreases count,
{
    if count == 0 {
        Ok(false)
    } else {
        match name_entry(s, version, pos) {
            None => Err(Fail::Io),
            Some((a, b)) => if decoded_name(s.subrange(a, b)) == "Music"@ {
                Ok(true)
            } else {
                find_music(s, version, seek(s, b + 4), (count - 1) as nat)
            },
        }
    }
}

fn search_music(data: &[u8], version: u32, start: usize, count: u32) -> (r: Result<bool, Error>)
    requires
        start <= data@.len(),
    ensures
        match r {
            Ok(b) => find_music(data@, version, start as int, count as nat) == Ok::<bool, Fail>(b),
            Err(e) => find_music(data@, version, start as int, count as nat) == Err::<bool, Fail>(fail_of(e)),
        },
{
    let mut pos = start;
    let mut i: u32 = 0;
    while i < count
        invariant
            pos <= data@.len(),
            i <= count,
            find_music(data@, version, start as int, count as nat) == find_music(data@, version, pos as int, (count - i) as nat),
        decreases count - i,
    {
        let (a, b) = read_name_entry(data, version, pos)?;
        if is_music(slice_range(data, a, b)) {
            return Ok(true);
        }
        pos = skip(data, b, 4);
        i += 1;
    }
    Ok(false)
}

/// Where the tracker module starts, from the export table at `e`: the class,
/// super and group fields, the object's name and flags, its serial size
/// (which must not be zero) and offset; at that offset the object's name
/// index, for versions after 61 four more bytes, and two sizes.
pub open spec fn umx_export(s: Seq<u8>, version: u32, e: int) -> Result<int, Fail> {
    match compact_index(s, e) {
        None => Err(Fail::Io),
        Some((_, p1)) => match compact_index(s, p1) {
            None => Err(Fail::Io),
            Some((_, p2)) => match compact_index(s, seek(s, p2 + 4)) {
                None => Err(Fail::Io),
                Some((_, p3)) => match compact_index(s, seek(s, p3 + 4)) {
                    None => Err(Fail::Io),
                    Some((size, p4)) => if size == 0 {
                        Err(Fail::Invalid("UMX doesn't contain anything"@))
                    } else {
                        match compact_index(s, p4) {
                            None => Err(Fail::Io),
                            Some((offset, _)) => match compact_index(s, seek(s, (offset as u64) as int)) {
                                None => Err(Fail::Io),
                                Some((_, q1)) => {
                                    let q2 = if version > 61 { seek(s, q1 + 4) } else { q1 };
                                    match compact_index(s, q2) {
                                        None => Err(Fail::Io),
                                        Some((_, q3)) => match compact_index(s, q3) {
                                            None => Err(Fail::Io),
                                            Some((_, q4)) => Ok(q4),
                                        },
                                    }
                                },
                            },
                        }
                    },
                },
            },
        },
    }
}

/// Where the tracker module inside an Unreal package starts, or why the
/// package holds none that can be read.
pub open spec fn umx_locate(s: Seq<u8>) -> Result<int, Fail> {
    if s.len() < 4 {
        Err(Fail::Io)
    } else if !has_magic(s, 0, magic_upkg()) {
        Err(Fail::Invalid("Not a valid Unreal package"@))
    } else if s.len() < 8 {
        Err(Fail::Io)
    } else if u32_le(s, 4) < 61 {
        Err(Fail::Unsupported("UMX versions under 61 are not supported"@))
    } else if s.len() < 28 {
        Err(Fail::Io)
    } else {
        let version = u32_le(s, 4);
        match find_music(s, version, seek(s, u32_le(s, 16) as int), u32_le(s, 12) as nat) {
            Err(f) => Err(f),
            Ok(false) => Err(Fail::Invalid("Unreal Package does not contain any music"@)),
            Ok(true) => umx_export(s, version, seek(s, u32_le(s, 24) as int)),
        }
    }
}

fn read_export(data: &[u8], version: u32, e: usize) -> (r: Result<usize, Error>)
    requires
        e <= data@.len(),
    ensures
        match r {
            Ok(p) => umx_export(data@, version, e as int) == Ok::<int, Fail>(p as int) && p <= data@.len(),
            Err(err) => umx_export(data@, version, e as int) == Err::<int, Fail>(fail_of(err)),
        },
{
    let (_, p1) = read_compact_index(data, e)?;
    let (_, p2) = read_compact_index(data, p1)?;
    let (_, p3) = read_compact_index(data, skip(data, p2, 4))?;
    let (size, p4) = read_compact_index(data, skip(data, p3, 4))?;
    if size == 0 {
        return Err(Error::invalid("UMX doesn't contain anything"));
    }
    let (offset, _) = read_compact_index(data, p4)?;
    let (_, q1) = read_compact_index(data, seek_to(data, offset as u64))?;
    let q2 = if version > 61 { skip(data, q1, 4) } else { q1 };
    let (_, q3) = read_compact_index(data, q2)?;
    let (_, q4) = read_compact_index(data, q3)?;
    Ok(q4)
}

/// Find where the tracker module inside an Unreal package starts.
pub fn locate_module(data: &[u8]) -> (r: Result<usize, Error>)
    ensures
        match r {
            Ok(p) => umx_locate(data@) == Ok::<int, Fail>(p as int) && p <= data@.len(),
            Err(e) => umx_locate(data@) == Err::<int, Fail>(fail_of(e)),
        },
{
    let len = data.len();
    if len < 4 {
        return Err(unexpected_eof());
    }
    let upkg: [u8; 4] = [0xC1, 0x83, 0x2A, 0x9E];
    assert(upkg@ == magic_upkg());
    if !magic_at(data, 0, &upkg) {
        return Err(Error::invalid("Not a valid Unreal package"));
    }
    let version = get_u32_le(data, 0, 4)?;
    if version < 61 {
        return Err(Error::unsupported("UMX versions under 61 are not supported"));
    }
    if len < 28 {
        return Err(unexpected_eof());
    }
    let name_count = get_u32_le(data, 0, 12)?;
    let name_offset = get_u32_le(data, 0, 16)?;
    let export_offset = get_u32_le(data, 0, 24)?;
    let found = search_music(data, version, seek_to(data, name_offset as u64), name_count)?;
    if !found {
        return Err(Error::invalid("Unreal Package does not contain any music"));
    }
    let p = read_export(data, version, seek_to(data, export_offset as u64))?;
    Ok(p)
}

/// Load the tracker module inside an Unreal package; `rate_of` gives the
/// sample rate of an Extended Module sample from its finetune and relative
/// note.
pub fn parse_<F: Fn(i8, i8) -> u32>(data: Vec<u8>, rate_of: &F) -> (r: Result<GenericTracker, Error>)
    requires
        forall|a: i8, b: i8| call_requires(*rate_of, (a, b)),
    ensures
        umx_loads_as(data@, r, *rate_of),
{
    let start = locate_module(data.as_slice())?;
    let inner = to_owned_bytes(slice_range(data.as_slice(), start, data.len()));
    assert(inner@ =~= data@.skip(start as int));
    let fmt = identify_module(inner.as_slice())?;
    match fmt {
        Format::UMX => Err(Error::invalid("Nested Unreal music containers are invalid")),
        _ => load_format(fmt, inner, rate_of),
    }
}

/// Unreal package holding a tracker module
pub struct UMX;

impl UMX {
    /// Load the tracker module inside an Unreal package.
    pub fn load<F: Fn(i8, i8) -> u32>(data: Vec<u8>, rate_of: &F) -> (r: Result<GenericTracker, Error>)
        requires
            forall|a: i8, b: i8| call_requires(*rate_of, (a, b)),
        ensures
            umx_loads_as(data@, r, *rate_of),
    {
        parse_(data, rate_of)
    }

    /// Whether the first bytes of a file mark an Unreal package.
    pub fn matches_format(buf: &[u8]) -> (r: bool)
        ensures
            r == has_magic(buf@, 0, magic_upkg()),
    {
        let upkg: [u8; 4] = [0xC1, 0x83, 0x2A, 0x9E];
        assert(upkg@ == magic_upkg());
        magic_at(buf, 0, &upkg)
    }
}

} // verus!
