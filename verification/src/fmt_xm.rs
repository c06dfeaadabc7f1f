//! Fasttracker 2 Extended Modules.
//!
//! The sample rate of an Extended Module sample follows from its relative
//! note and finetune through a floating-point formula; the loader takes it
//! as a function of those two values.

use vstd::prelude::*;
use crate::bytes::{get_bytes, get_u16_le, get_u32_le, get_u8, has_magic, magic_at, slice_range, u16_le, u32_le};
use crate::error::{Error, Fail, fail_of, unexpected_eof};
use crate::module::{GenericTracker, Info};
use crate::sample::{Channel, Depth, Loop, LoopType, PcmType, Sample, SampleView, depth_is_8_bit};
use crate::text::{decoded_name, read_str};
use crate::dsp::{delta_decode_u16, delta_decode_u8, delta_decoded};

verus! {

pub open spec fn magic_extended_module() -> Seq<u8> {
    seq![0x45u8, 0x78, 0x74, 0x65, 0x6e, 0x64, 0x65, 0x64, 0x20, 0x4d, 0x6f, 0x64, 0x75, 0x6c, 0x65, 0x3a, 0x20]
}

pub open spec fn magic_mod_plugin_packed() -> Seq<u8> {
    seq![
        0x4du8, 0x4f, 0x44, 0x20, 0x50, 0x6c, 0x75, 0x67, 0x69, 0x6e, 0x20, 0x70, 0x61, 0x63, 0x6b, 0x65, 0x64,
        0x20, 0x20, 0x20,
    ]
}

fn magic_em() -> (r: [u8; 17])
    ensures
        r@ == magic_extended_module(),
{
    let r: [u8; 17] = [0x45, 0x78, 0x74, 0x65, 0x6e, 0x64, 0x65, 0x64, 0x20, 0x4d, 0x6f, 0x64, 0x75, 0x6c, 0x65, 0x3a, 0x20];
    assert(r@ =~= magic_extended_module());
    r
}

fn magic_mpp() -> (r: [u8; 20])
    ensures
        r@ == magic_mod_plugin_packed(),
{
    let r: [u8; 20] = [
        0x4d, 0x4f, 0x44, 0x20, 0x50, 0x6c, 0x75, 0x67, 0x69, 0x6e, 0x20, 0x70, 0x61, 0x63, 0x6b, 0x65, 0x64, 0x20,
        0x20, 0x20,
    ];
    assert(r@ =~= magic_mod_plugin_packed());
    r
}

/// Whether the first bytes of a file mark an Extended Module.
pub fn matches_format(buf: &[u8]) -> (r: bool)
    ensures
        r == (has_magic(buf@, 0, magic_extended_module()) || has_magic(buf@, 0, magic_mod_plugin_packed())),
{
    magic_at(buf, 0, &magic_em()) || magic_at(buf, 0, &magic_mpp())
}

/// A sample of an Extended Module with the tuning that its rate follows
/// from; the rate in `view` is left zero.
pub struct XmSample {
    pub view: SampleView,
    pub finetune: i8,
    pub note: i8,
}

/// The sample header at `q`, of an instrument named `filename`, with raw
/// index `index`.
pub open spec fn xm_sample(data: Seq<u8>, q: int, index: int, filename: Seq<char>) -> XmSample {
    XmSample {
        view: SampleView {
            filename: Some(filename),
            name: decoded_name(data.subrange(q + 18, q + 40)),
            length: u32_le(data, q),
            rate: 0,
            pointer: 0,
            depth: if data[q + 14] & 16u8 == 0 { Depth::I8 } else { Depth::I16 },
            channel: Channel::Mono,
            index_raw: (index % 0x10000) as u16,
            pcm_type: PcmType::DELTA,
            looping: Loop { start: u32_le(data, q + 4), stop: 0, kind: LoopType::Off },
        },
        finetune: data[q + 13] as i8,
        note: data[q + 16] as i8,
    }
}

/// Skipping `n` more patterns from `pos`: the position after them, or `None`
/// where the data ends first.
pub open spec fn xm_patterns(data: Seq<u8>, pos: int, n: nat) -> Option<int>
    decreases n,
{
    if n == 0 {
        Some(pos)
    } else if pos + 9 > data.len() {
        None
    } else {
        xm_patterns(data, pos + 9 + u16_le(data, pos + 7), (n - 1) as nat)
    }
}

/// The non-empty samples among headers `j..sn` of an instrument whose
/// headers start at `sp`, appended to `acc`, each with its data pointer: the
/// data follows the headers, one sample after the other, from position `p`.
/// `total` samples precede the instrument. `None` where a position passes
/// `u64::MAX`.
pub open spec fn xm_headers(
    data: Seq<u8>,
    sp: int,
    j: nat,
    sn: nat,
    total: int,
    filename: Seq<char>,
    p: int,
    acc: Seq<XmSample>,
) -> Option<(Seq<XmSample>, int)>
    decreases sn - j,
{
    if j >= sn {
        Some((acc, p))
    } else {
        let q = sp + 40 * j;
        let length = u32_le(data, q);
        if length == 0 {
            xm_headers(data, sp, j + 1, sn, total, filename, p, acc)
        } else if p + length > u64::MAX {
            None
        } else {
            let s = xm_sample(data, q, total + acc.len(), filename);
            let placed = XmSample { view: SampleView { pointer: (p % 0x1_0000_0000) as u32, ..s.view }, ..s };
            xm_headers(data, sp, j + 1, sn, total, filename, p + length, acc.push(placed))
        }
    }
}

/// Header size of an instrument: 263 where the field is zero or larger.
pub open spec fn xm_ins_size(raw: u32) -> int {
    if raw == 0 || raw > 263 { 263 } else { raw as int }
}

/// The instrument at `off`: its samples with their data pointers, and the
/// position after its sample data.
pub open spec fn xm_instrument(data: Seq<u8>, off: int, total: int) -> Result<(Seq<XmSample>, int), Fail> {
    if off + 29 > data.len() {
        Err(Fail::Io)
    } else {
        let sn = u16_le(data, off + 27);
        let sp = off + xm_ins_size(u32_le(data, off));
        if sn > 0 && sp + 40 * sn > data.len() {
            Err(Fail::Io)
        } else {
            let filename = decoded_name(data.subrange(off + 4, off + 26));
            match xm_headers(data, sp, 0, sn as nat, total, filename, sp + 40 * sn, Seq::empty()) {
                None => Err(Fail::Io),
                Some((placed, next)) => Ok((placed, next)),
            }
        }
    }
}

/// The samples of `n` more instruments from `pos`, appended to `acc`.
pub open spec fn xm_instruments(data: Seq<u8>, pos: int, n: nat, acc: Seq<XmSample>) -> Result<Seq<XmSample>, Fail>
    decreases n,
{
    if n == 0 {
        Ok(acc)
    } else {
        match xm_instrument(data, pos, acc.len() as int) {
            Err(f) => Err(f),
            Ok((placed, next)) => xm_instruments(data, next, (n - 1) as nat, acc + placed),
        }
    }
}

/// The samples of an Extended Module, or why it cannot be loaded.
pub open spec fn xm_parse(data: Seq<u8>) -> Result<Seq<XmSample>, Fail> {
    if data.len() < 20 {
        Err(Fail::Io)
    } else if has_magic(data, 0, magic_mod_plugin_packed()) {
        Err(Fail::Unsupported("Extened Module uses 'MOD Plugin packed'"@))
    } else if !has_magic(data, 0, magic_extended_module()) {
        Err(Fail::Invalid("Not a valid Extended Module"@))
    } else if data.len() < 38 {
        Err(Fail::Io)
    } else if data[37] != 0x1a {
        Err(Fail::Invalid("Not a valid Extended Module"@))
    } else if data.len() < 60 {
        Err(Fail::Io)
    } else if u16_le(data, 58) < 0x0104 {
        Err(Fail::Unsupported("Extended Module is below version 0104"@))
    } else if data.len() < 74 {
        Err(Fail::Io)
    } else if u16_le(data, 70) > 256 {
        Err(Fail::Invalid("Extended Module has more than 256 patterns"@))
    } else if u16_le(data, 72) > 128 {
        Err(Fail::Invalid("Extended Module has more than 128 instruments"@))
    } else {
        match xm_patterns(data, 60 + u32_le(data, 60), u16_le(data, 70) as nat) {
            None => Err(Fail::Io),
            Some(p) => xm_instruments(data, p, u16_le(data, 72) as nat, Seq::empty()),
        }
    }
}

/// Title of an Extended Module.
pub open spec fn xm_title(data: Seq<u8>) -> Seq<char> {
    decoded_name(data.subrange(17, 37))
}

/// A sample view with its rate set.
pub open spec fn with_rate(v: SampleView, rate: u32) -> SampleView {
    SampleView { rate, ..v }
}

/// Whether the loaded samples are the specified ones, each with the rate
/// that `rate_of` gives for its tuning.
pub open spec fn xm_samples_match<F: Fn(i8, i8) -> u32>(samples: Seq<Sample>, spec: Seq<XmSample>, rate_of: F) -> bool {
    &&& samples.len() == spec.len()
    &&& forall|i: int| 0 <= i < spec.len() ==> {
        &&& #[trigger] samples[i]@ == with_rate(spec[i].view, samples[i].rate)
        &&& call_ensures(rate_of, (spec[i].finetune, spec[i].note), samples[i].rate)
    }
}


/// Skip `n` patterns from `pos`.
fn skip_patterns(data: &[u8], start: u128, n: u16) -> (r: Result<u128, Error>)
    requires
        start <= u64::MAX,
    ensures
        match r {
            Ok(p) => xm_patterns(data@, start as int, n as nat) == Some(p as int) && p <= u64::MAX + 0x20000,
            Err(e) => xm_patterns(data@, start as int, n as nat) is None && fail_of(e) == Fail::Io,
        },
{
    let len = data.len();
    let mut pos = start;
    let mut k: u16 = 0;
    while k < n
        invariant
            k <= n,
            len == data@.len(),
            pos <= u64::MAX + 0x20000,
            xm_patterns(data@, start as int, n as nat) == xm_patterns(data@, pos as int, (n - k) as nat),
        decreases n - k,
    {
        if pos > len as u128 || (len as u128) - pos < 9 {
            return Err(unexpected_eof());
        }
        let size = get_u16_le(data, pos as usize, 7).unwrap();
        pos = pos + 9 + size as u128;
        k += 1;
    }
    Ok(pos)
}


/// Read the instrument at `off`, of which `count` samples precede it.
#[verifier::rlimit(60)]
fn read_instrument<F: Fn(i8, i8) -> u32>(data: &[u8], off: u128, count: usize, rate_of: &F) -> (r: Result<(Vec<Sample>, u128), Error>)
    requires
        forall|a: i8, b: i8| call_requires(*rate_of, (a, b)),
    ensures
        match r {
            Ok((v, next)) => xm_instrument(data@, off as int, count as int) matches Ok((placed, n2)) && n2 == next
                && xm_samples_match(v@, placed, *rate_of) && next <= u64::MAX + 0x20000,
            Err(e) => xm_instrument(data@, off as int, count as int) == Err::<(Seq<XmSample>, int), Fail>(fail_of(e)),
        },
{
    let len = data.len();
    if off > len as u128 || (len as u128) - off < 29 {
        return Err(unexpected_eof());
    }
    let o = off as usize;
    let raw_hs = get_u32_le(data, o, 0).unwrap();
    let filename = read_str(get_bytes(data, o, 4, 22).unwrap());
    let sn = get_u16_le(data, o, 27).unwrap();
    let hs: u32 = if raw_hs == 0 || raw_hs > 263 { 263 } else { raw_hs };
    let sp: u128 = off + hs as u128;
    let end: u128 = sp + 40 * sn as u128;
    if sn > 0 && end > len as u128 {
        return Err(unexpected_eof());
    }
    let ghost fname = filename@;
    let ghost whole = match xm_headers(data@, sp as int, 0, sn as nat, count as int, fname, end as int, Seq::empty()) {
        None => Err::<(Seq<XmSample>, int), Fail>(Fail::Io),
        Some((placed, next)) => Ok((placed, next)),
    };
    assert(xm_instrument(data@, off as int, count as int) == whole);
    let mut out: Vec<Sample> = Vec::new();
    let ghost mut acc: Seq<XmSample> = Seq::empty();
    let mut p: u128 = end;
    let mut j: u16 = 0;
    while j < sn
        invariant
            forall|a: i8, b: i8| call_requires(*rate_of, (a, b)),
            len == data@.len(),
            j <= sn,
            sn > 0 ==> end <= len,
            end == sp + 40 * sn,
            sn > 0 ==> p <= u64::MAX,
            p <= u64::MAX + 0x20000,
            filename@ == fname,
            xm_instrument(data@, off as int, count as int) == whole,
            whole == match xm_headers(data@, sp as int, 0, sn as nat, count as int, fname, end as int, Seq::empty()) {
                None => Err::<(Seq<XmSample>, int), Fail>(Fail::Io),
                Some((placed, next)) => Ok((placed, next)),
            },
            xm_headers(data@, sp as int, 0, sn as nat, count as int, fname, end as int, Seq::empty())
                == xm_headers(data@, sp as int, j as nat, sn as nat, count as int, fname, p as int, acc),
            xm_samples_match(out@, acc, *rate_of),
        decreases sn - j,
    {
        let q = (sp + 40 * j as u128) as usize;
        let length = get_u32_le(data, q, 0).unwrap();
        if length != 0 {
            if p + length as u128 > u64::MAX as u128 {
                assert(xm_headers(data@, sp as int, j as nat, sn as nat, count as int, fname, p as int, acc) is None);
                return Err(unexpected_eof());
            }
            let loop_start = get_u32_le(data, q, 4).unwrap();
            let finetune = get_u8(data, q, 13).unwrap() as i8;
            let flag = get_u8(data, q, 14).unwrap();
            let note = get_u8(data, q, 16).unwrap() as i8;
            let name = read_str(get_bytes(data, q, 18, 22).unwrap());
            let rate = rate_of(finetune, note);
            let depth = Depth::new(flag & 16 == 0, true, true);
            let smp = Sample {
                filename: Some(filename.clone()),
                name,
                length,
                rate,
                pointer: (p % 0x1_0000_0000) as u32,
                depth,
                channel: Channel::Mono,
                index_raw: ((count as u128 + out.len() as u128) % 0x10000) as u16,
                pcm_type: PcmType::DELTA,
                looping: Loop { start: loop_start, stop: 0, kind: LoopType::Off },
            };
            proof {
                let xs = xm_sample(data@, q as int, count + acc.len(), fname);
                let placed = XmSample { view: SampleView { pointer: (p % 0x1_0000_0000) as u32, ..xs.view }, ..xs };
                assert(smp@ == with_rate(placed.view, rate));
                assert(placed.finetune == finetune && placed.note == note);
                acc = acc.push(placed);
            }
            out.push(smp);
            p = p + length as u128;
            assert(xm_samples_match(out@, acc, *rate_of));
        }
        j += 1;
    }
    Ok((out, p))
}

/// Load an Extended Module; `rate_of` gives the sample rate of a sample
/// from its finetune and relative note.
#[verifier::rlimit(60)]
pub fn parse_<F: Fn(i8, i8) -> u32>(data: Vec<u8>, rate_of: &F) -> (r: Result<GenericTracker, Error>)
    requires
        forall|a: i8, b: i8| call_requires(*rate_of, (a, b)),
    ensures
        match r {
            Ok(m) => xm_parse(data@) matches Ok(s) && xm_samples_match(m.samples@, s, *rate_of) && m.inner@ == data@
                && m.info.name@ == xm_title(data@) && m.info.format@ == "Extended Module"@
                && m.info.comments@ == Seq::<char>::empty() && m.info.source is None,
            Err(e) => xm_parse(data@) == Err::<Seq<XmSample>, Fail>(fail_of(e)),
        },
{
    let len = data.len();
    if len < 20 {
        return Err(unexpected_eof());
    }
    if magic_at(data.as_slice(), 0, &magic_mpp()) {
        return Err(Error::unsupported("Extened Module uses 'MOD Plugin packed'"));
    }
    if !magic_at(data.as_slice(), 0, &magic_em()) {
        return Err(Error::invalid("Not a valid Extended Module"));
    }
    if len < 38 {
        return Err(unexpected_eof());
    }
    if data[37] != 0x1a {
        return Err(Error::invalid("Not a valid Extended Module"));
    }
    if len < 60 {
        return Err(unexpected_eof());
    }
    if get_u16_le(data.as_slice(), 58, 0).unwrap() < 0x0104 {
        return Err(Error::unsupported("Extended Module is below version 0104"));
    }
    if len < 74 {
        return Err(unexpected_eof());
    }
    let header_size = get_u32_le(data.as_slice(), 60, 0).unwrap();
    let patnum = get_u16_le(data.as_slice(), 70, 0).unwrap();
    let insnum = get_u16_le(data.as_slice(), 72, 0).unwrap();
    if patnum > 256 {
        return Err(Error::invalid("Extended Module has more than 256 patterns"));
    }
    if insnum > 128 {
        return Err(Error::invalid("Extended Module has more than 128 instruments"));
    }
    let title = read_str(slice_range(data.as_slice(), 17, 37));
    let mut pos = match skip_patterns(data.as_slice(), 60 + header_size as u128, patnum) {
        Ok(p) => p,
        Err(e) => {
            return Err(e);
        },
    };
    let ghost mut acc: Seq<XmSample> = Seq::empty();
    let mut samples: Vec<Sample> = Vec::new();
    let mut k: u16 = 0;
    while k < insnum
        invariant
            forall|a: i8, b: i8| call_requires(*rate_of, (a, b)),
            k <= insnum,
            pos <= u64::MAX + 0x20000,
            xm_parse(data@) == xm_instruments(data@, pos as int, (insnum - k) as nat, acc),
            xm_samples_match(samples@, acc, *rate_of),
        decreases insnum - k,
    {
        let (mut v, next) = match read_instrument(data.as_slice(), pos, samples.len(), rate_of) {
            Ok(x) => x,
            Err(e) => {
                return Err(e);
            },
        };
        let ghost placed = xm_instrument(data@, pos as int, acc.len() as int)->Ok_0.0;
        let ghost prev = samples@;
        let ghost vv = v@;
        samples.append(&mut v);
        proof {
            assert forall|i: int| 0 <= i < (acc + placed).len() implies {
                &&& #[trigger] samples@[i]@ == with_rate((acc + placed)[i].view, samples@[i].rate)
                &&& call_ensures(*rate_of, ((acc + placed)[i].finetune, (acc + placed)[i].note), samples@[i].rate)
            } by {
                if i >= acc.len() {
                    let t = i - acc.len();
                    assert(samples@[i] == vv[t]);
                }
            }
            acc = acc + placed;
        }
        pos = next;
        k += 1;
    }
    let info = Info { name: title, format: "Extended Module".to_owned(), comments: String::new(), source: None };
    Ok(GenericTracker { info, inner: data, samples })
}

/// Fasttracker 2 Extended Module
pub struct XM;

impl XM {
    /// Load an Extended Module; `rate_of` gives the sample rate of a sample
    /// from its finetune and relative note.
    pub fn load<F: Fn(i8, i8) -> u32>(data: Vec<u8>, rate_of: &F) -> (r: Result<GenericTracker, Error>)
        requires
            forall|a: i8, b: i8| call_requires(*rate_of, (a, b)),
        ensures
            match r {
                Ok(m) => xm_parse(data@) matches Ok(s) && xm_samples_match(m.samples@, s, *rate_of) && m.inner@ == data@
                    && m.info.name@ == xm_title(data@) && m.info.format@ == "Extended Module"@
                    && m.info.comments@ == Seq::<char>::empty() && m.info.source is None,
                Err(e) => xm_parse(data@) == Err::<Seq<XmSample>, Fail>(fail_of(e)),
            },
    {
        parse_(data, rate_of)
    }

    /// Whether the first bytes of a file mark an Extended Module.
    pub fn matches_format(buf: &[u8]) -> (r: bool)
        ensures
            r == (has_magic(buf@, 0, magic_extended_module()) || has_magic(buf@, 0, magic_mod_plugin_packed())),
    {
        matches_format(buf)
    }
}

/// The delta decoder for a sample's bit depth: Extended Module samples are
/// stored as delta values.
pub fn delta_decode(smp: &Sample) -> (f: impl Fn(Vec<u8>) -> Vec<u8>)
    ensures
        forall|pcm: Vec<u8>| #[trigger] f.requires((pcm,)),
        forall|pcm: Vec<u8>, r: Vec<u8>| f.ensures((pcm,), r) ==> r@ == delta_decoded(depth_is_8_bit(smp.depth), pcm@),
{
    let is_8_bit = smp.is_8_bit();
    move |pcm: Vec<u8>| -> (r: Vec<u8>)
        ensures
            r@ == delta_decoded(is_8_bit, pcm@),
        {
            if is_8_bit {
                delta_decode_u8(pcm)
            } else {
                delta_decode_u16(pcm)
            }
        }
}

/// Bytes of sample data that the first `j` sample headers of an instrument,
/// from `sp` on, announce.
pub open spec fn xm_lengths_before(data: Seq<u8>, sp: int, j: nat) -> int
    decreases j,
{
    if j == 0 { 0 } else { xm_lengths_before(data, sp, (j - 1) as nat) + u32_le(data, sp + 40 * (j - 1)) }
}

/// What sample header `j` of an instrument whose `sn` 40-byte headers start
/// at `sp` says of a sample: its length in bytes (the header's first word),
/// its loop start (the second), its depth (16-bit exactly where bit 4 of the
/// type byte at 14 is set), one channel, delta-coded data; and its data
/// starts after all the instrument's headers and the data of the headers
/// before it (as a 32-bit offset).
pub open spec fn xm_header_at(data: Seq<u8>, sp: int, sn: int, j: int, v: SampleView) -> bool {
    let q = sp + 40 * j;
    &&& v.length == u32_le(data, q)
    &&& v.looping.start == u32_le(data, q + 4)
    &&& v.depth == (if data[q + 14] & 16u8 != 0 { Depth::I16 } else { Depth::I8 })
    &&& v.channel == Channel::Mono
    &&& v.pcm_type == PcmType::DELTA
    &&& v.pointer as int == (sp + 40 * sn + xm_lengths_before(data, sp, j as nat)) % 0x1_0000_0000
}

/// Whether a sample is what one of the sample headers inside the module's
/// bytes says.
pub open spec fn xm_header_describes(data: Seq<u8>, v: SampleView) -> bool {
    exists|sp: int, sn: int, j: int|
        0 <= sp && 0 <= j < sn && sp + 40 * sn <= data.len() && #[trigger] xm_header_at(data, sp, sn, j, v)
}

proof fn lemma_xm_patterns_forward(data: Seq<u8>, pos: int, n: nat)
    ensures
        xm_patterns(data, pos, n) matches Some(r) ==> r >= pos,
    decreases n,
{
    if n > 0 && pos + 9 <= data.len() {
        lemma_xm_patterns_forward(data, pos + 9 + u16_le(data, pos + 7), (n - 1) as nat);
    }
}

proof fn lemma_xm_headers_described(
    data: Seq<u8>,
    sp: int,
    j: nat,
    sn: nat,
    total: int,
    filename: Seq<char>,
    p: int,
    acc: Seq<XmSample>,
)
    requires
        sp >= 0,
        sn == 0 || sp + 40 * sn <= data.len(),
        p == sp + 40 * sn + xm_lengths_before(data, sp, j),
        forall|i: int| 0 <= i < acc.len() ==> xm_header_describes(data, (#[trigger] acc[i]).view),
    ensures
        xm_headers(data, sp, j, sn, total, filename, p, acc) matches Some((r, p2)) ==> {
            &&& p2 >= p
            &&& forall|i: int| 0 <= i < r.len() ==> xm_header_describes(data, (#[trigger] r[i]).view)
        },
    decreases sn - j,
{
    if j < sn {
        let q = sp + 40 * j;
        let length = u32_le(data, q);
        if length == 0 {
            lemma_xm_headers_described(data, sp, j + 1, sn, total, filename, p, acc);
        } else if p + length <= u64::MAX {
            let s = xm_sample(data, q, total + acc.len(), filename);
            let placed = XmSample { view: SampleView { pointer: (p % 0x1_0000_0000) as u32, ..s.view }, ..s };
            assert(xm_header_at(data, sp, sn as int, j as int, placed.view));
            let acc2 = acc.push(placed);
            assert forall|i: int| 0 <= i < acc2.len() implies xm_header_describes(data, (#[trigger] acc2[i]).view) by {
                if i < acc.len() {
                    assert(acc2[i] == acc[i]);
                } else {
                    assert(acc2[i] == placed);
                }
            }
            lemma_xm_headers_described(data, sp, j + 1, sn, total, filename, p + length, acc2);
        }
    }
}

proof fn lemma_xm_instruments_described(data: Seq<u8>, pos: int, n: nat, acc: Seq<XmSample>)
    requires
        pos >= 0,
        forall|i: int| 0 <= i < acc.len() ==> xm_header_describes(data, (#[trigger] acc[i]).view),
    ensures
        xm_instruments(data, pos, n, acc) matches Ok(r) ==> forall|i: int| 0 <= i < r.len()
            ==> xm_header_describes(data, (#[trigger] r[i]).view),
    decreases n,
{
    if n > 0 && xm_instrument(data, pos, acc.len() as int) is Ok {
        let off = pos;
        let sn = u16_le(data, off + 27);
        let sp = off + xm_ins_size(u32_le(data, off));
        let filename = decoded_name(data.subrange(off + 4, off + 26));
        lemma_xm_headers_described(data, sp, 0, sn as nat, acc.len() as int, filename, sp + 40 * sn, Seq::empty());
        let (placed, next) = xm_instrument(data, pos, acc.len() as int)->Ok_0;
        let acc2 = acc + placed;
        assert forall|i: int| 0 <= i < acc2.len() implies xm_header_describes(data, (#[trigger] acc2[i]).view) by {
            if i < acc.len() {
                assert(acc2[i] == acc[i]);
            } else {
                assert(acc2[i] == placed[i - acc.len()]);
            }
        }
        lemma_xm_instruments_described(data, next, (n - 1) as nat, acc2);
    }
}

/// Every sample that loading an Extended Module gives is what one of the
/// sample headers in its bytes says: its length, its loop start, 16-bit
/// exactly where bit 4 of the header's type byte is set (8-bit otherwise),
/// one channel, delta-coded data, placed after its instrument's headers and
/// the data of the headers before it.
pub proof fn law_xm_sample_headers<F: Fn(i8, i8) -> u32>(data: Seq<u8>, m: GenericTracker, rate_of: F)
    requires
        xm_parse(data) matches Ok(s) && xm_samples_match(m.samples@, s, rate_of),
    ensures
        forall|i: int| 0 <= i < m.samples@.len() ==> xm_header_describes(data, (#[trigger] m.samples@[i])@),
{
    let s = xm_parse(data)->Ok_0;
    let start = 60 + u32_le(data, 60);
    lemma_xm_patterns_forward(data, start, u16_le(data, 70) as nat);
    let p = xm_patterns(data, start, u16_le(data, 70) as nat)->Some_0;
    lemma_xm_instruments_described(data, p, u16_le(data, 72) as nat, Seq::empty());
    assert forall|i: int| 0 <= i < m.samples@.len() implies xm_header_describes(data, (#[trigger] m.samples@[i])@) by {
        assert(xm_header_describes(data, s[i].view));
        let (sp, sn, j) = choose|sp: int, sn: int, j: int|
            0 <= sp && 0 <= j < sn && sp + 40 * sn <= data.len() && #[trigger] xm_header_at(data, sp, sn, j, s[i].view);
        assert(m.samples@[i]@ == with_rate(s[i].view, m.samples@[i].rate));
        assert(xm_header_at(data, sp, sn, j, m.samples@[i]@));
    }
}

} // verus!
