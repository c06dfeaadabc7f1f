//! Amiga ProTracker modules.

use vstd::prelude::*;
use crate::bytes::{copy_range, get_bytes, get_u16_be, has_magic, magic_at, read_u32_be, slice_range, u16_be, u32_be};
use crate::error::{Error, Fail, fail_of, unexpected_eof};
use crate::module::{GenericTracker, Info, decoded_pcm, loaded_as, sample_slice, views};
use crate::sample::{Channel, Depth, Loop, LoopType, PcmType, Sample, SampleView, sample_end};
use crate::text::{decoded_name, read_str};

verus! {

/// Sample rates by finetune (ProTracker's C-2 tuning table).
pub open spec fn finetune_rate(i: int) -> u32 {
    if i == 0 { 8363 } else if i == 1 { 8413 } else if i == 2 { 8463 } else if i == 3 { 8529 }
    else if i == 4 { 8581 } else if i == 5 { 8651 } else if i == 6 { 8723 } else if i == 7 { 8757 }
    else if i == 8 { 7895 } else if i == 9 { 7941 } else if i == 10 { 7985 } else if i == 11 { 8046 }
    else if i == 12 { 8107 } else if i == 13 { 8169 } else if i == 14 { 8232 } else { 8280 }
}

fn finetune(i: u8) -> (r: u32)
    requires
        i < 16,
    ensures
        r == finetune_rate(i as int),
{
    let table: [u32; 16] = [8363, 8413, 8463, 8529, 8581, 8651, 8723, 8757, 7895, 7941, 7985, 8046, 8107, 8169, 8232, 8280];
    table[i as usize]
}

/// The number of channels that a 4-byte signature names beyond the fixed
/// list: `FLTn`, `TDZn`, `nCHN`, `nnCH`.
pub open spec fn advanced_channels(m: Seq<u8>) -> Option<u8> {
    if m[0] == 0x46 && m[1] == 0x4c && m[2] == 0x54 && 0x34 <= m[3] <= 0x39 {
        Some((m[3] - 0x30) as u8)
    } else if m[0] == 0x54 && m[1] == 0x44 && m[2] == 0x5a && 0x34 <= m[3] <= 0x39 {
        Some((m[3] - 0x30) as u8)
    } else if m[1] == 0x43 && m[2] == 0x48 && m[3] == 0x4e && 0x32 <= m[0] <= 0x39 {
        Some((m[0] - 0x30) as u8)
    } else if m[0] == 0x31 && m[2] == 0x43 && m[3] == 0x48 && 0x30 <= m[1] <= 0x39 {
        Some((m[1] - 0x30 + 10) as u8)
    } else if m[0] == 0x32 && m[2] == 0x43 && m[3] == 0x48 && 0x30 <= m[1] <= 0x39 {
        Some((m[1] - 0x30 + 20) as u8)
    } else if m[0] == 0x33 && m[2] == 0x43 && m[3] == 0x48 && 0x30 <= m[1] <= 0x32 {
        Some((m[1] - 0x30 + 30) as u8)
    } else {
        None
    }
}

pub open spec fn sig(m: Seq<u8>, a: u8, b: u8, c: u8, d: u8) -> bool {
    m[0] == a && m[1] == b && m[2] == c && m[3] == d
}

/// Channels and number of sample headers that a module's 4-byte signature
/// gives: known signatures give their channel count and 31 samples; an
/// unknown one marks an old 15-sample, 4-channel module.
pub open spec fn mod_info(m: Seq<u8>) -> (u8, u8) {
    if sig(m, 0x4d, 0x2e, 0x4b, 0x2e) || sig(m, 0x4d, 0x21, 0x4b, 0x21) || sig(m, 0x4d, 0x26, 0x4b, 0x21)
        || sig(m, 0x4e, 0x2e, 0x54, 0x2e) {
        (4, 31)
    } else if sig(m, 0x43, 0x44, 0x36, 0x31) {
        (6, 31)
    } else if sig(m, 0x43, 0x44, 0x38, 0x31) || sig(m, 0x4f, 0x4b, 0x54, 0x41) {
        (8, 31)
    } else if sig(m, 0x31, 0x36, 0x43, 0x4e) {
        (16, 31)
    } else if sig(m, 0x33, 0x32, 0x43, 0x4e) {
        (32, 31)
    } else {
        match advanced_channels(m) {
            Some(c) => (c, 31),
            None => (4, 15),
        }
    }
}

/// Channel count and number of sample headers of a module
pub struct MODInfo {
    pub channels: u8,
    pub samples: u8,
}

fn is_sig(m: &[u8; 4], a: u8, b: u8, c: u8, d: u8) -> (r: bool)
    ensures
        r == sig(m@, a, b, c, d),
{
    m[0] == a && m[1] == b && m[2] == c && m[3] == d
}

fn advanced(m: &[u8; 4]) -> (r: Option<u8>)
    ensures
        r == advanced_channels(m@),
{
    if m[0] == 0x46 && m[1] == 0x4c && m[2] == 0x54 && 0x34 <= m[3] && m[3] <= 0x39 {
        Some(m[3] - 0x30)
    } else if m[0] == 0x54 && m[1] == 0x44 && m[2] == 0x5a && 0x34 <= m[3] && m[3] <= 0x39 {
        Some(m[3] - 0x30)
    } else if m[1] == 0x43 && m[2] == 0x48 && m[3] == 0x4e && 0x32 <= m[0] && m[0] <= 0x39 {
        Some(m[0] - 0x30)
    } else if m[0] == 0x31 && m[2] == 0x43 && m[3] == 0x48 && 0x30 <= m[1] && m[1] <= 0x39 {
        Some(m[1] - 0x30 + 10)
    } else if m[0] == 0x32 && m[2] == 0x43 && m[3] == 0x48 && 0x30 <= m[1] && m[1] <= 0x39 {
        Some(m[1] - 0x30 + 20)
    } else if m[0] == 0x33 && m[2] == 0x43 && m[3] == 0x48 && 0x30 <= m[1] && m[1] <= 0x32 {
        Some(m[1] - 0x30 + 30)
    } else {
        None
    }
}

impl MODInfo {
    /// Channels and sample count from the signature at offset 1080.
    pub fn generate(magic: [u8; 4]) -> (r: Self)
        ensures
            (r.channels, r.samples) == mod_info(magic@),
    {
        let mut samples: u8 = 31;
        let channels: u8 = if is_sig(&magic, 0x4d, 0x2e, 0x4b, 0x2e) || is_sig(&magic, 0x4d, 0x21, 0x4b, 0x21)
            || is_sig(&magic, 0x4d, 0x26, 0x4b, 0x21) || is_sig(&magic, 0x4e, 0x2e, 0x54, 0x2e) {
            4
        } else if is_sig(&magic, 0x43, 0x44, 0x36, 0x31) {
            6
        } else if is_sig(&magic, 0x43, 0x44, 0x38, 0x31) || is_sig(&magic, 0x4f, 0x4b, 0x54, 0x41) {
            8
        } else if is_sig(&magic, 0x31, 0x36, 0x43, 0x4e) {
            16
        } else if is_sig(&magic, 0x33, 0x32, 0x43, 0x4e) {
            32
        } else {
            match advanced(&magic) {
                Some(channels) => channels,
                None => {
                    samples = 15;
                    4
                },
            }
        };
        MODInfo { channels, samples }
    }
}

/// Rating of a sample header by its invalid fields: a volume above 64, a
/// finetune above 15, a loop start past twice the loop end.
pub open spec fn invalid_score(volume: u8, finetune: u8, loop_start: u32, loop_end: u32) -> int {
    (if volume > 64 { 1int } else { 0 }) + (if finetune > 15 { 1int } else { 0 }) + (if loop_start > loop_end * 2 { 1int } else { 0 })
}

/// Compute a rating of a sample header by counting its invalid fields, so
/// that garbage files can be rejected.
pub fn get_invalid_score(volume: u8, finetune: u8, loop_start: u32, loop_end: u32) -> (r: u8)
    requires
        loop_end <= 0x7fff_ffff,
    ensures
        r == invalid_score(volume, finetune, loop_start, loop_end),
{
    (volume > 64) as u8 + (finetune > 15) as u8 + (loop_start > loop_end * 2) as u8
}

/// The largest pattern number below 128 (zero if none).
pub open spec fn max_pattern(f: Seq<u8>, n: nat) -> u8
    decreases n,
{
    if n == 0 {
        0
    } else {
        let m = max_pattern(f, (n - 1) as nat);
        if f[n - 1] > m && f[n - 1] < 128 { f[n - 1] } else { m }
    }
}

/// The largest entry of the pattern order table that is below 128.
pub fn max(f: &[u8]) -> (r: u8)
    ensures
        r == max_pattern(f@, f@.len()),
        r < 128,
{
    let mut max: u8 = 0;
    let mut i: usize = 0;
    while i < f.len()
        invariant
            i <= f@.len(),
            max == max_pattern(f@, i as nat),
            max < 128,
        decreases f@.len() - i,
    {
        if f[i] > max && f[i] < 128 {
            max = f[i];
        }
        i += 1;
    }
    max
}

pub open spec fn magic_form() -> Seq<u8> {
    seq![0x46u8, 0x4f, 0x52, 0x4d]
}

pub open spec fn magic_pp20() -> Seq<u8> {
    seq![0x50u8, 0x50, 0x32, 0x30]
}

pub open spec fn magic_modl() -> Seq<u8> {
    seq![0x4du8, 0x4f, 0x44, 0x4c]
}

pub open spec fn magic_ptdt() -> Seq<u8> {
    seq![0x50u8, 0x54, 0x44, 0x54]
}

/// The module data among the chunks of a ProTracker 3.6 project from `p`
/// on. A chunk is a 4-byte id, its size as a big-endian `u32` and that many
/// bytes, padded to an even length. The module is the data of the first
/// `PTDT` chunk, cut where the file ends first.
pub open spec fn pt36_chunk(data: Seq<u8>, p: int) -> Option<Seq<u8>>
    decreases data.len() - p,
{
    if p < 0 || p + 8 > data.len() {
        None
    } else {
        let size = u32_be(data, p + 4) as int;
        if has_magic(data, p, magic_ptdt()) {
            Some(data.subrange(p + 8, if p + 8 + size <= data.len() { p + 8 + size } else { data.len() as int }))
        } else {
            let next = p + 8 + size + size % 2;
            if next <= data.len() { pt36_chunk(data, next) } else { None }
        }
    }
}

/// The ProTracker module that a file holds: the file itself, or the module
/// inside a ProTracker 3.6 project (an IFF `FORM` of type `MODL`). Other IFF
/// files are refused.
pub open spec fn mod_container(data: Seq<u8>) -> Result<Seq<u8>, Fail> {
    if data.len() < 4 {
        Err(Fail::Io)
    } else if !has_magic(data, 0, magic_form()) {
        Ok(data)
    } else if !has_magic(data, 8, magic_modl()) {
        Err(Fail::Unsupported("IFF MOD files are not yet supported"@))
    } else {
        match pt36_chunk(data, 12) {
            Some(m) => Ok(m),
            None => Err(Fail::Invalid("ProTracker 3.6 project holds no module"@)),
        }
    }
}

/// The module data of a ProTracker 3.6 project.
fn pt36_module(data: &[u8]) -> (r: Option<Vec<u8>>)
    ensures
        r matches Some(v) ==> pt36_chunk(data@, 12) == Some(v@),
        r is None ==> pt36_chunk(data@, 12) is None,
{
    let ptdt: [u8; 4] = [0x50, 0x54, 0x44, 0x54];
    assert(ptdt@ == magic_ptdt());
    let mut p: usize = 12;
    loop
        invariant
            pt36_chunk(data@, 12) == pt36_chunk(data@, p as int),
            ptdt@ == magic_ptdt(),
        decreases data@.len() - p,
    {
        if p > data.len() || data.len() - p < 8 {
            return None;
        }
        let size = read_u32_be(data, p + 4).unwrap();
        assert(size == u32_be(data@, p + 4));
        if magic_at(data, p, &ptdt) {
            let avail = data.len() - (p + 8);
            let n: usize = if (size as u64) <= (avail as u64) { size as usize } else { avail };
            let v = copy_range(data, p + 8, n).unwrap();
            return Some(v);
        }
        let next: u128 = p as u128 + 8 + size as u128 + (size % 2) as u128;
        if next > data.len() as u128 {
            return None;
        }
        p = next as usize;
    }
}

/// The ProTracker module that a file holds: `None` where it is the file
/// itself, the module's data where the file is a ProTracker 3.6 project; an
/// error for data too short to tell, or for another IFF file.
pub fn check_iff(data: &[u8]) -> (r: Result<Option<Vec<u8>>, Error>)
    ensures
        match r {
            Ok(None) => mod_container(data@) == Ok::<Seq<u8>, Fail>(data@) && !has_magic(data@, 0, magic_form()),
            Ok(Some(v)) => mod_container(data@) == Ok::<Seq<u8>, Fail>(v@),
            Err(e) => mod_container(data@) == Err::<Seq<u8>, Fail>(fail_of(e)),
        },
{
    if data.len() < 4 {
        return Err(unexpected_eof());
    }
    let form: [u8; 4] = [0x46, 0x4f, 0x52, 0x4d];
    assert(form@ == magic_form());
    if !magic_at(data, 0, &form) {
        return Ok(None);
    }
    let modl: [u8; 4] = [0x4d, 0x4f, 0x44, 0x4c];
    assert(modl@ == magic_modl());
    if !magic_at(data, 8, &modl) {
        return Err(Error::unsupported("IFF MOD files are not yet supported"));
    }
    match pt36_module(data) {
        Some(v) => Ok(Some(v)),
        None => Err(Error::invalid("ProTracker 3.6 project holds no module")),
    }
}

/// Reject XPK (PowerPacker) compressed modules.
pub fn check_xpk(data: &[u8]) -> (r: Result<(), Error>)
    ensures
        match r {
            Ok(()) => data@.len() >= 4 && !has_magic(data@, 0, magic_pp20()),
            Err(e) => fail_of(e) == (if data@.len() < 4 { Fail::Io } else { Fail::Unsupported("XPK compressed MOD files are not supported"@) })
                && (data@.len() < 4 || has_magic(data@, 0, magic_pp20())),
        },
{
    if data.len() < 4 {
        return Err(unexpected_eof());
    }
    let pp20: [u8; 4] = [0x50, 0x50, 0x32, 0x30];
    assert(pp20@ == magic_pp20());
    if magic_at(data, 0, &pp20) {
        return Err(Error::unsupported("XPK compressed MOD files are not supported"));
    }
    Ok(())
}


/// Loop points of a sample: loop starts stored in bytes rather than words
/// are halved where that keeps the loop inside the sample.
pub open spec fn mod_loop(length: u32, ls: u32, ll: u32) -> Loop {
    let le = ls + ll;
    if ll > 2 && le > length && ls / 2 <= length {
        let s2 = ls / 2;
        Loop { start: s2 as u32, stop: (s2 + ll) as u32, kind: if s2 == s2 + ll { LoopType::Off } else { LoopType::Forward } }
    } else {
        Loop { start: ls, stop: le as u32, kind: if ls == le { LoopType::Off } else { LoopType::Forward } }
    }
}

/// The sample of the header at `h`, with raw index `index` and its data at `pointer`.
pub open spec fn mod_header(data: Seq<u8>, h: int, index: int, pointer: u32) -> SampleView {
    let length = (u16_be(data, h + 22) * 2) as u32;
    SampleView {
        filename: None,
        name: decoded_name(data.subrange(h, h + 22)),
        length,
        rate: (finetune_rate((data[h + 24] & 15u8) as int) * 2) as u32,
        pointer,
        depth: Depth::I8,
        channel: Channel::Mono,
        index_raw: index as u16,
        pcm_type: PcmType::PCM,
        looping: mod_loop(length, (u16_be(data, h + 26) * 2) as u32, (u16_be(data, h + 28) * 2) as u32),
    }
}

/// The invalid-field rating of the header at `h`.
pub open spec fn mod_score(data: Seq<u8>, h: int) -> int {
    let ls = (u16_be(data, h + 26) * 2) as u32;
    let le = (u16_be(data, h + 26) * 2 + u16_be(data, h + 28) * 2) as u32;
    invalid_score(data[h + 25], data[h + 24], ls, le)
}

/// The first `k` sample headers: the samples kept (non-empty ones whose data
/// lies inside the module; their data follows each other from `base`), the
/// accumulated rating, and the position after their data; or a failure once
/// the rating passes 40.
pub open spec fn mod_samples(data: Seq<u8>, k: nat, base: int) -> Result<(Seq<SampleView>, int, int), Fail>
    decreases k,
{
    if k == 0 {
        Ok((Seq::empty(), 0, base))
    } else {
        match mod_samples(data, (k - 1) as nat, base) {
            Err(f) => Err(f),
            Ok((acc, score, p)) => {
                let h = 20 + 30 * (k - 1);
                let score2 = score + mod_score(data, h);
                if score2 > 40 {
                    Err(Fail::Invalid("Not a valid MOD file, contains too much invalid samples"@))
                } else {
                    let length = u16_be(data, h + 22) * 2;
                    if length == 0 {
                        Ok((acc, score2, p))
                    } else {
                        let v = mod_header(data, h, k - 1, (p % 0x1_0000_0000) as u32);
                        Ok((if p + length <= data.len() { acc.push(v) } else { acc }, score2, p + length))
                    }
                }
            },
        }
    }
}

proof fn lemma_mod_samples_err(data: Seq<u8>, k: nat, n: nat, base: int)
    requires
        k <= n,
        mod_samples(data, k, base) is Err,
    ensures
        mod_samples(data, n, base) == mod_samples(data, k, base),
    decreases n - k,
{
    if k < n {
        lemma_mod_samples_err(data, k, (n - 1) as nat, base);
    }
}

/// Offset of the sample data: after the headers, the song length and reset
/// bytes, the 128-entry order table, the 4-byte signature and the patterns.
pub open spec fn mod_base(data: Seq<u8>, n: int, channels: int) -> int {
    let orders = 20 + 30 * n + 2;
    orders + 128 + 4 + (max_pattern(data.subrange(orders, orders + 128), 128) + 1) * channels * 256
}

/// The samples of a ProTracker module, or why it cannot be loaded.
pub open spec fn mod_parse(data: Seq<u8>) -> Result<Seq<SampleView>, Fail> {
    if data.len() < 4 {
        Err(Fail::Io)
    } else if has_magic(data, 0, magic_pp20()) {
        Err(Fail::Unsupported("XPK compressed MOD files are not supported"@))
    } else if data.len() < 1084 {
        Err(Fail::Io)
    } else {
        let (channels, n) = mod_info(data.subrange(1080, 1084));
        match mod_samples(data, n as nat, mod_base(data, n as int, channels as int)) {
            Err(f) => Err(f),
            Ok((s, _, _)) => Ok(s),
        }
    }
}

/// Loading a ProTracker module, taken out of its ProTracker 3.6 project
/// where it is in one.
pub open spec fn mod_load(data: Seq<u8>) -> Result<Seq<SampleView>, Fail> {
    match mod_container(data) {
        Err(f) => Err(f),
        Ok(m) => mod_parse(m),
    }
}

/// Title of a ProTracker module.
pub open spec fn mod_title(data: Seq<u8>) -> Seq<char> {
    decoded_name(data.subrange(0, 20))
}

/// Decode the sample header at `h`.
fn read_header(data: &[u8], h: usize, index: usize, pointer: u32) -> (r: (Sample, u8, u32))
    requires
        h + 30 <= data@.len(),
        index < 31,
    ensures
        r.0@ == mod_header(data@, h as int, index as int, pointer),
        r.1 == mod_score(data@, h as int),
        r.2 == u16_be(data@, h + 22) * 2,
{
    let _len = data.len();
    let name = read_str(get_bytes(data, h, 0, 22).unwrap());
    let length = get_u16_be(data, h, 22).unwrap() as u32 * 2;
    let finetune_byte = data[h + 24];
    let volume = data[h + 25];
    let loop_start = get_u16_be(data, h, 26).unwrap() as u32 * 2;
    let loop_len = get_u16_be(data, h, 28).unwrap() as u32 * 2;
    let loop_end = loop_start + loop_len;
    let score = get_invalid_score(volume, finetune_byte, loop_start, loop_end);
    let (ls, le) = if loop_len > 2 && loop_end > length && loop_start / 2 <= length {
        (loop_start / 2, loop_start / 2 + loop_len)
    } else {
        (loop_start, loop_end)
    };
    let kind = if ls == le { LoopType::Off } else { LoopType::Forward };
    let ft = finetune_byte & 15;
    assert(ft < 16) by (bit_vector) requires ft == finetune_byte & 15u8;
    let smp = Sample {
        filename: None,
        name,
        length,
        rate: finetune(ft) * 2,
        pointer,
        depth: Depth::I8,
        channel: Channel::Mono,
        index_raw: index as u16,
        pcm_type: PcmType::PCM,
        looping: Loop { start: ls, stop: le, kind },
    };
    (smp, score, length)
}

/// Load a ProTracker module (after the IFF check).
#[verifier::rlimit(60)]
pub fn parse_(data: Vec<u8>) -> (r: Result<GenericTracker, Error>)
    ensures
        match r {
            Ok(m) => mod_parse(data@) matches Ok(s) && views(m.samples@) == s && m.inner@ == data@
                && m.info.name@ == mod_title(data@) && m.info.format@ == "Amiga ProTracker"@
                && m.info.comments@ == Seq::<char>::empty() && m.info.source is None,
            Err(e) => mod_parse(data@) == Err::<Seq<SampleView>, Fail>(fail_of(e)),
        },
{
    match check_xpk(data.as_slice()) {
        Ok(()) => {},
        Err(e) => {
            return Err(e);
        },
    }
    let len = data.len();
    if len < 1084 {
        return Err(unexpected_eof());
    }
    let title = read_str(slice_range(data.as_slice(), 0, 20));
    let magic: [u8; 4] = [data[1080], data[1081], data[1082], data[1083]];
    assert(magic@ =~= data@.subrange(1080, 1084));
    let info = MODInfo::generate(magic);
    let n = info.samples as usize;
    let orders: usize = 20 + 30 * n + 2;
    let highest = max(slice_range(data.as_slice(), orders, orders + 128)) as u64 + 1;
    let ch = info.channels as u64;
    assert(highest * ch * 256 <= 128 * 255 * 256) by (nonlinear_arith)
        requires highest <= 128, ch <= 255;
    let base: u64 = orders as u64 + 128 + 4 + highest * ch * 256;
    assert(base == mod_base(data@, n as int, info.channels as int)) by (nonlinear_arith)
        requires base == orders + 128 + 4 + highest * ch * 256,
            ch == info.channels,
            highest == max_pattern(data@.subrange(orders as int, orders + 128), 128) + 1,
            orders == 20 + 30 * n + 2;
    let ghost channels = info.channels;
    let mut samples: Vec<Sample> = Vec::new();
    let mut score: u8 = 0;
    let mut p: u64 = base;
    let mut k: usize = 0;
    assert(views(samples@) =~= Seq::<SampleView>::empty());
    while k < n
        invariant
            len == data@.len(),
            len >= 1084,
            !has_magic(data@, 0, magic_pp20()),
            n <= 31,
            k <= n,
            (channels, n as u8) == mod_info(data@.subrange(1080, 1084)),
            base == mod_base(data@, n as int, channels as int),
            base <= 0x90_0000,
            p <= base + k * 131070,
            score <= 40,
            mod_samples(data@, k as nat, base as int) == Ok::<(Seq<SampleView>, int, int), Fail>((views(samples@), score as int, p as int)),
        decreases n - k,
    {
        let h = 20 + 30 * k;
        let (smp, s, length) = read_header(data.as_slice(), h, k, p as u32);
        score = score + s;
        if score > 40 {
            let e = Error::invalid("Not a valid MOD file, contains too much invalid samples");
            proof {
                lemma_mod_samples_err(data@, (k + 1) as nat, n as nat, base as int);
            }
            return Err(e);
        }
        if length != 0 {
            assert(smp@ == mod_header(data@, h as int, k as int, (p % 0x1_0000_0000) as u32));
            if p + length as u64 <= len as u64 {
                let ghost prev = samples@;
                let ghost v = smp@;
                samples.push(smp);
                assert(views(samples@) =~= views(prev).push(v));
            }
            p = p + length as u64;
        }
        k += 1;
    }
    let info = Info { name: title, format: "Amiga ProTracker".to_owned(), comments: String::new(), source: None };
    Ok(GenericTracker { info, inner: data, samples })
}

/// Load a ProTracker module, or the module of a ProTracker 3.6 project.
pub fn load(data: Vec<u8>) -> (r: Result<GenericTracker, Error>)
    ensures
        match r {
            Ok(m) => mod_container(data@) matches Ok(inner) && mod_parse(inner) matches Ok(s)
                && views(m.samples@) == s && m.inner@ == inner
                && m.info.name@ == mod_title(inner) && m.info.format@ == "Amiga ProTracker"@
                && m.info.comments@ == Seq::<char>::empty() && m.info.source is None,
            Err(e) => mod_load(data@) == Err::<Seq<SampleView>, Fail>(fail_of(e)),
        },
{
    match check_iff(data.as_slice()) {
        Ok(None) => parse_(data),
        Ok(Some(inner)) => parse_(inner),
        Err(e) => Err(e),
    }
}

/// Amiga ProTracker module
pub struct MOD;

impl MOD {
    /// Load a ProTracker module, or the module of a ProTracker 3.6 project.
    pub fn load(data: Vec<u8>) -> (r: Result<GenericTracker, Error>)
        ensures
            match r {
                Ok(m) => mod_container(data@) matches Ok(inner) && mod_parse(inner) matches Ok(s)
                    && views(m.samples@) == s && m.inner@ == inner
                    && m.info.name@ == mod_title(inner) && m.info.format@ == "Amiga ProTracker"@
                    && m.info.comments@ == Seq::<char>::empty() && m.info.source is None,
                Err(e) => mod_load(data@) == Err::<Seq<SampleView>, Fail>(fail_of(e)),
            },
    {
        load(data)
    }

    /// ProTracker modules carry no signature that every one of them has:
    /// any data may be one.
    pub fn matches_format(buf: &[u8]) -> (r: bool)
        ensures
            r,
    {
        true
    }
}

proof fn lemma_max_pattern_bound(f: Seq<u8>, n: nat)
    ensures
        max_pattern(f, n) < 128,
    decreases n,
{
    if n > 0 {
        lemma_max_pattern_bound(f, (n - 1) as nat);
    }
}

proof fn lemma_mod_samples_inside(data: Seq<u8>, k: nat, base: int)
    requires
        0 <= base < 0x1000000,
        k <= 31,
    ensures
        mod_samples(data, k, base) matches Ok((acc, _, p)) ==> {
            &&& base <= p <= base + k * 131070
            &&& forall|i: int| 0 <= i < acc.len() ==> sample_slice(data, (#[trigger] acc[i]).pointer, acc[i].length) is Some
                && acc[i].pcm_type == PcmType::PCM
        },
    decreases k,
{
    if k > 0 {
        lemma_mod_samples_inside(data, (k - 1) as nat, base);
        if mod_samples(data, k, base) is Ok {
            let (acc, score, p) = mod_samples(data, (k - 1) as nat, base)->Ok_0;
            let h = 20 + 30 * (k - 1);
            let length = u16_be(data, h + 22) * 2;
            if length != 0 && p + length <= data.len() {
                let v = mod_header(data, h, k - 1, (p % 0x1_0000_0000) as u32);
                assert(p % 0x1_0000_0000 == p);
                assert(v.pointer == p && v.length == length);
                assert(sample_end(v.pointer, v.length) == p + length);
                let acc2 = mod_samples(data, k, base)->Ok_0.0;
                assert(acc2 == acc.push(v));
                assert forall|i: int| 0 <= i < acc2.len() implies sample_slice(data, (#[trigger] acc2[i]).pointer, acc2[i].length) is Some
                    && acc2[i].pcm_type == PcmType::PCM by {
                    if i < acc.len() {
                        assert(acc2[i] == acc[i]);
                    }
                }
            }
        }
    }
}

/// Every sample that loading a ProTracker module gives can be extracted:
/// its data lies inside the module (the file itself, or the module data of
/// a ProTracker 3.6 project).
pub proof fn law_mod_samples_decodable(data: Seq<u8>, m: GenericTracker)
    requires
        mod_parse(data) matches Ok(s) && loaded_as(m, data, s, mod_title(data), "Amiga ProTracker"@),
    ensures
        forall|i: int| 0 <= i < m.samples@.len() ==> decoded_pcm(m.inner@, #[trigger] m.samples@[i]) is Some,
{
    let s = mod_parse(data)->Ok_0;
    let (channels, n) = mod_info(data.subrange(1080, 1084));
    let orders = 20 + 30 * n + 2;
    let base = mod_base(data, n as int, channels as int);
    let mx = max_pattern(data.subrange(orders, orders + 128), 128);
    lemma_max_pattern_bound(data.subrange(orders, orders + 128), 128);
    assert((mx + 1) * channels * 256 <= 128 * 255 * 256) by (nonlinear_arith)
        requires mx < 128, channels <= 255;
    assert(n <= 31);
    lemma_mod_samples_inside(data, n as nat, base);
    assert forall|i: int| 0 <= i < m.samples@.len() implies decoded_pcm(m.inner@, #[trigger] m.samples@[i]) is Some by {
        assert(views(m.samples@)[i] == m.samples@[i]@);
        assert(sample_slice(data, s[i].pointer, s[i].length) is Some);
    }
}

/// Bytes of sample data that the first `k` sample headers announce: twice
/// each header's length in words.
pub open spec fn mod_lengths_before(data: Seq<u8>, k: nat) -> int
    decreases k,
{
    if k == 0 { 0 } else { mod_lengths_before(data, (k - 1) as nat) + 2 * u16_be(data, 20 + 30 * (k - 1) + 22) }
}

/// What the module's bytes say of a loaded ProTracker sample: it is one of
/// the headers that the signature at 1080 announces; its length is twice the
/// header's word count; its data starts after the headers, the song length
/// and restart bytes, the 128-entry order table, the signature and the
/// patterns (the highest pattern number below 128 in the order table, plus
/// one, times the signature's channel count times 256 bytes), plus the data
/// of the headers before it. It is signed 8-bit mono PCM at twice the rate
/// that the low four bits of its finetune byte select. Its loop runs for
/// twice the loop's word count from twice the start's word count, a start
/// that puts a loop of more than two bytes past the sample's end being
/// taken as counted in bytes (halved) where that lies inside the sample; a
/// loop of no length is off.
pub open spec fn mod_header_describes(data: Seq<u8>, v: SampleView) -> bool {
    let (channels, n) = mod_info(data.subrange(1080, 1084));
    let orders = 20 + 30 * n + 2;
    let highest = max_pattern(data.subrange(orders, orders + 128), 128);
    let start = orders + 128 + 4 + (highest + 1) * channels * 256;
    &&& v.index_raw < n
    &&& v.length == 2 * u16_be(data, 20 + 30 * v.index_raw + 22)
    &&& v.pointer == start + mod_lengths_before(data, v.index_raw as nat)
    &&& v.rate == 2 * finetune_rate((data[20 + 30 * v.index_raw + 24] & 15u8) as int)
    &&& v.depth == Depth::I8
    &&& v.channel == Channel::Mono
    &&& v.pcm_type == PcmType::PCM
    &&& ({
        let ls = 2 * u16_be(data, 20 + 30 * v.index_raw + 26);
        let ll = 2 * u16_be(data, 20 + 30 * v.index_raw + 28);
        let start = if ll > 2 && ls + ll > v.length && ls / 2 <= v.length { ls / 2 } else { ls };
        &&& v.looping.start == start
        &&& v.looping.stop == start + ll
        &&& (v.looping.kind == LoopType::Off) == (ll == 0)
    })
}

proof fn lemma_mod_samples_placed(data: Seq<u8>, k: nat, base: int)
    requires
        0 <= base < 0x1000000,
        k <= 31,
    ensures
        mod_samples(data, k, base) matches Ok((acc, _, p)) ==> {
            &&& p == base + mod_lengths_before(data, k)
            &&& forall|i: int| 0 <= i < acc.len() ==> {
                &&& (#[trigger] acc[i]).index_raw < k
                &&& acc[i].length == 2 * u16_be(data, 20 + 30 * acc[i].index_raw + 22)
                &&& acc[i].pointer == base + mod_lengths_before(data, acc[i].index_raw as nat)
                &&& acc[i].rate == 2 * finetune_rate((data[20 + 30 * acc[i].index_raw + 24] & 15u8) as int)
                &&& acc[i].depth == Depth::I8 && acc[i].channel == Channel::Mono && acc[i].pcm_type == PcmType::PCM
                &&& acc[i] == mod_header(data, 20 + 30 * acc[i].index_raw, acc[i].index_raw as int, acc[i].pointer)
            }
        },
    decreases k,
{
    if k > 0 {
        lemma_mod_samples_placed(data, (k - 1) as nat, base);
        lemma_lengths_before_bound(data, (k - 1) as nat);
        if mod_samples(data, k, base) is Ok {
            let (acc, score, p) = mod_samples(data, (k - 1) as nat, base)->Ok_0;
            let h = 20 + 30 * (k - 1);
            let length = u16_be(data, h + 22) * 2;
            let acc2 = mod_samples(data, k, base)->Ok_0.0;
            if length != 0 && p + length <= data.len() {
                let v = mod_header(data, h, k - 1, (p % 0x1_0000_0000) as u32);
                assert(p % 0x1_0000_0000 == p);
                assert(acc2 == acc.push(v));
                assert forall|i: int| 0 <= i < acc2.len() implies {
                    &&& (#[trigger] acc2[i]).index_raw < k
                    &&& acc2[i].length == 2 * u16_be(data, 20 + 30 * acc2[i].index_raw + 22)
                    &&& acc2[i].pointer == base + mod_lengths_before(data, acc2[i].index_raw as nat)
                    &&& acc2[i].rate == 2 * finetune_rate((data[20 + 30 * acc2[i].index_raw + 24] & 15u8) as int)
                    &&& acc2[i].depth == Depth::I8 && acc2[i].channel == Channel::Mono && acc2[i].pcm_type == PcmType::PCM
                    &&& acc2[i] == mod_header(data, 20 + 30 * acc2[i].index_raw, acc2[i].index_raw as int, acc2[i].pointer)
                } by {
                    if i < acc.len() {
                        assert(acc2[i] == acc[i]);
                    }
                }
            } else {
                assert(acc2 == acc);
            }
        }
    }
}

proof fn lemma_lengths_before_bound(data: Seq<u8>, k: nat)
    ensures
        0 <= mod_lengths_before(data, k) <= k * 131070,
    decreases k,
{
    if k > 0 {
        lemma_lengths_before_bound(data, (k - 1) as nat);
    }
}

/// Every sample that loading a ProTracker module gives is what the module's
/// bytes say: one of the headers that the signature announces, with twice its
/// word count as length, and its data after the patterns that the order table
/// and the signature's channel count take, and after the data of the headers
/// before it.
pub proof fn law_mod_sample_placement(data: Seq<u8>, m: GenericTracker)
    requires
        mod_parse(data) matches Ok(s) && loaded_as(m, data, s, mod_title(data), "Amiga ProTracker"@),
    ensures
        forall|i: int| 0 <= i < m.samples@.len() ==> mod_header_describes(data, #[trigger] m.samples@[i]@),
{
    let s = mod_parse(data)->Ok_0;
    let (channels, n) = mod_info(data.subrange(1080, 1084));
    let orders = 20 + 30 * n + 2;
    let base = mod_base(data, n as int, channels as int);
    let mx = max_pattern(data.subrange(orders, orders + 128), 128);
    lemma_max_pattern_bound(data.subrange(orders, orders + 128), 128);
    assert((mx + 1) * channels * 256 <= 128 * 255 * 256) by (nonlinear_arith)
        requires mx < 128, channels <= 255;
    assert(n <= 31);
    lemma_mod_samples_placed(data, n as nat, base);
    assert forall|i: int| 0 <= i < m.samples@.len() implies mod_header_describes(data, #[trigger] m.samples@[i]@) by {
        assert(views(m.samples@)[i] == m.samples@[i]@);
        assert(s[i] == m.samples@[i]@);
        let v = s[i];
        let ls = 2 * u16_be(data, 20 + 30 * v.index_raw + 26);
        let ll = 2 * u16_be(data, 20 + 30 * v.index_raw + 28);
        let start = if ll > 2 && ls + ll > v.length && ls / 2 <= v.length { ls / 2 } else { ls };
        assert(v.looping.start == start);
        assert(v.looping.stop == start + ll);
    }
}

/// The channel count and number of sample headers that a signature gives:
/// `M.K.`, `M!K!`, `M&K!` and `N.T.` four channels, `CD61` six, `CD81`
/// and `OKTA` eight, `16CN` sixteen, `32CN` thirty-two; `FLTn` and `TDZn`
/// (n from 4 to 9) and `nCHN` (n from 2 to 9) n channels; `1nCH`, `2nCH`
/// and `30CH` to `32CH` that many; all of these with 31 sample headers. Any
/// other signature marks an old module of 15 headers and four channels.
pub proof fn law_mod_signature(m: Seq<u8>)
    requires
        m.len() == 4,
    ensures
        m =~= seq![0x4du8, 0x2e, 0x4b, 0x2e] || m =~= seq![0x4du8, 0x21, 0x4b, 0x21] || m =~= seq![0x4du8, 0x26, 0x4b, 0x21]
            || m =~= seq![0x4eu8, 0x2e, 0x54, 0x2e] ==> mod_info(m) == (4u8, 31u8),
        m =~= seq![0x43u8, 0x44, 0x36, 0x31] ==> mod_info(m) == (6u8, 31u8),
        m =~= seq![0x43u8, 0x44, 0x38, 0x31] || m =~= seq![0x4fu8, 0x4b, 0x54, 0x41] ==> mod_info(m) == (8u8, 31u8),
        m =~= seq![0x31u8, 0x36, 0x43, 0x4e] ==> mod_info(m) == (16u8, 31u8),
        m =~= seq![0x33u8, 0x32, 0x43, 0x4e] ==> mod_info(m) == (32u8, 31u8),
        (m.subrange(0, 3) =~= seq![0x46u8, 0x4c, 0x54] || m.subrange(0, 3) =~= seq![0x54u8, 0x44, 0x5a])
            && 0x34 <= m[3] <= 0x39 ==> mod_info(m) == ((m[3] - 0x30) as u8, 31u8),
        m.subrange(1, 4) =~= seq![0x43u8, 0x48, 0x4e] && 0x32 <= m[0] <= 0x39 ==> mod_info(m) == ((m[0] - 0x30) as u8, 31u8),
        m.subrange(2, 4) =~= seq![0x43u8, 0x48] && 0x31 <= m[0] <= 0x32 && 0x30 <= m[1] <= 0x39
            ==> mod_info(m) == ((10 * (m[0] - 0x30) + m[1] - 0x30) as u8, 31u8),
        m.subrange(2, 4) =~= seq![0x43u8, 0x48] && m[0] == 0x33 && 0x30 <= m[1] <= 0x32
            ==> mod_info(m) == ((30 + m[1] - 0x30) as u8, 31u8),
        mod_info(m).1 == 15 ==> mod_info(m).0 == 4,
        mod_info(m).1 == 15 || mod_info(m).1 == 31,
{
    if m.subrange(0, 3) =~= seq![0x46u8, 0x4c, 0x54] || m.subrange(0, 3) =~= seq![0x54u8, 0x44, 0x5a] {
        assert(m[0] == m.subrange(0, 3)[0] && m[1] == m.subrange(0, 3)[1] && m[2] == m.subrange(0, 3)[2]);
    }
    if m.subrange(1, 4) =~= seq![0x43u8, 0x48, 0x4e] {
        assert(m[1] == m.subrange(1, 4)[0] && m[2] == m.subrange(1, 4)[1] && m[3] == m.subrange(1, 4)[2]);
    }
    if m.subrange(2, 4) =~= seq![0x43u8, 0x48] {
        assert(m[2] == m.subrange(2, 4)[0] && m[3] == m.subrange(2, 4)[1]);
    }
}

/// The highest pattern number of an order table: every entry below 128 is
/// at most it, and it is one of them (or zero where there is none).
pub proof fn law_max_pattern(f: Seq<u8>, n: nat)
    requires
        n <= f.len(),
    ensures
        forall|j: int| 0 <= j < n && f[j] < 128 ==> f[j] <= max_pattern(f, n),
        max_pattern(f, n) == 0 || exists|j: int| 0 <= j < n && f[j] == max_pattern(f, n),
        max_pattern(f, n) < 128,
    decreases n,
{
    lemma_max_pattern_bound(f, n);
    if n > 0 {
        law_max_pattern(f, (n - 1) as nat);
        let mp = max_pattern(f, (n - 1) as nat);
        if !(f[n - 1] > mp && f[n - 1] < 128) && mp != 0 {
            let j = choose|j: int| 0 <= j < n - 1 && f[j] == mp;
            assert(0 <= j < n && f[j] == max_pattern(f, n));
        }
    }
}

} // verus!
