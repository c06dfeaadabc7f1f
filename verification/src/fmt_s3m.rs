//! Scream Tracker 3 modules.

use vstd::prelude::*;
use crate::bytes::{get_bytes, get_u16_le, get_u24_le, get_u32_le, get_u8, has_magic, in_bounds, is_magic, magic_at, slice_range, u16_le, u24_le, u32_le};
use crate::error::{Error, Fail, fail_of, unexpected_eof};
use crate::module::{GenericTracker, Info, collect_samples, decoded_pcm, lemma_collect_all, lemma_collect_err, loaded_as, sample_slice, views};
use crate::sample::{Channel, Depth, Loop, LoopType, PcmType, Sample, SampleView, channel_count, depth_bytes};
use crate::text::{decoded_name, read_str};

verus! {

pub open spec fn magic_scrm() -> Seq<u8> {
    seq![0x53u8, 0x43, 0x52, 0x4d]
}

pub open spec fn magic_scrs() -> Seq<u8> {
    seq![0x53u8, 0x43, 0x52, 0x53]
}

pub open spec fn s3m_depth(flags: u8, signed: bool) -> Depth {
    if flags & 4u8 == 0 {
        if signed { Depth::I8 } else { Depth::U8 }
    } else {
        if signed { Depth::I16 } else { Depth::U16 }
    }
}

pub open spec fn s3m_channel(flags: u8) -> Channel {
    if flags & 2u8 != 0 { Channel::Stereo { interleaved: false } } else { Channel::Mono }
}

/// Sample rate field: the low 16 bits, with rates of 0 and 1 read as 1024.
pub open spec fn s3m_rate(raw: u32) -> u32 {
    if raw % 0x10000 <= 1 { 1024 } else { (raw % 0x10000) as u32 }
}

/// The sample described by the instrument at `p`, the `index`-th instrument.
pub open spec fn s3m_sample_header(data: Seq<u8>, p: int, index: int, signed: bool) -> SampleView {
    let flags = data[p + 0x1f];
    let depth = s3m_depth(flags, signed);
    let channel = s3m_channel(flags);
    SampleView {
        filename: Some(decoded_name(data.subrange(p + 1, p + 13))),
        name: decoded_name(data.subrange(p + 0x30, p + 0x4c)),
        length: ((u32_le(data, p + 0x10) % 0x10000) * channel_count(channel) * depth_bytes(depth)) as u32,
        rate: s3m_rate(u32_le(data, p + 0x20)),
        pointer: u24_le(data, p + 0x0d),
        depth,
        channel,
        index_raw: (index % 0x10000) as u16,
        pcm_type: PcmType::PCM,
        looping: Loop {
            start: u32_le(data, p + 0x14),
            stop: u32_le(data, p + 0x18),
            kind: if flags & 1u8 != 0 { LoopType::Forward } else { LoopType::Off },
        },
    }
}

/// What the instrument at `p` yields: a PCM sample, nothing (another kind of
/// instrument, an empty sample, or data past the end), or a failure.
pub open spec fn s3m_sample(data: Seq<u8>, p: int, index: int, signed: bool) -> Result<Option<SampleView>, Fail> {
    if !in_bounds(data, p, 1) {
        Err(Fail::Io)
    } else if data[p] != 1 {
        Ok(None)
    } else if !in_bounds(data, p, 0x14) {
        Err(Fail::Io)
    } else if u32_le(data, p + 0x10) % 0x10000 == 0 {
        Ok(None)
    } else if !in_bounds(data, p, 0x50) {
        Err(Fail::Io)
    } else if !has_magic(data, p + 0x4c, magic_scrs()) {
        Err(Fail::Invalid("Not a valid Scream Tracker module"@))
    } else {
        let s = s3m_sample_header(data, p, index, signed);
        if s.pointer + s.length > data.len() {
            Ok(None)
        } else {
            Ok(Some(s))
        }
    }
}

/// Offset of the table of instrument pointers (16-bit arithmetic, wrapping).
pub open spec fn s3m_table(data: Seq<u8>) -> int {
    (0x60 + u16_le(data, 0x20)) % 0x10000
}

/// Instrument `k`'s header offset: its paragraph pointer times 16.
pub open spec fn s3m_ptr(data: Seq<u8>, k: int) -> int {
    u16_le(data, s3m_table(data) + 2 * k) * 16
}

pub open spec fn s3m_signed(data: Seq<u8>) -> bool {
    u16_le(data, 0x2a) == 1
}

pub open spec fn s3m_header_fn(data: Seq<u8>) -> spec_fn(int) -> Result<Option<SampleView>, Fail> {
    |k: int| s3m_sample(data, s3m_ptr(data, k), k, s3m_signed(data))
}

/// The samples of a Scream Tracker 3 module, or why it cannot be loaded.
pub open spec fn s3m_parse(data: Seq<u8>) -> Result<Seq<SampleView>, Fail> {
    if data.len() < 30 {
        Err(Fail::Io)
    } else if data[29] != 0x10 {
        Err(Fail::Invalid("Not a valid Scream Tracker module"@))
    } else if data.len() < 0x30 {
        Err(Fail::Io)
    } else if !has_magic(data, 0x2c, magic_scrm()) {
        Err(Fail::Invalid("Not a valid Scream Tracker module"@))
    } else if u16_le(data, 0x22) > 0 && s3m_table(data) + 2 * u16_le(data, 0x22) > data.len() {
        Err(Fail::Io)
    } else {
        collect_samples(s3m_header_fn(data), u16_le(data, 0x22) as nat)
    }
}

/// Title of a Scream Tracker 3 module.
pub open spec fn s3m_title(data: Seq<u8>) -> Seq<char> {
    decoded_name(data.subrange(0, 28))
}

/// Whether the first bytes of a file mark a Scream Tracker 3 module.
pub fn matches_format(buf: &[u8]) -> (r: bool)
    ensures
        r == has_magic(buf@, 0x2c, magic_scrm()),
{
    let scrm: [u8; 4] = [0x53, 0x43, 0x52, 0x4d];
    assert(scrm@ == magic_scrm());
    magic_at(buf, 0x2c, &scrm)
}

proof fn lemma_low16(x: u32)
    ensures
        x & 0xffff == x % 0x10000,
{
    assert(x & 0xffff == x % 0x10000) by (bit_vector);
}

/// Decode the whole instrument header at `p`.
fn read_header(data: &[u8], p: usize, index: usize, signed: bool) -> (r: Sample)
    requires
        in_bounds(data@, p as int, 0x50),
    ensures
        r@ == s3m_sample_header(data@, p as int, index as int, signed),
{
    let filename = read_str(get_bytes(data, p, 1, 12).unwrap());
    let pointer = get_u24_le(data, p, 0x0d).unwrap();
    let length_field = get_u32_le(data, p, 0x10).unwrap();
    proof { lemma_low16(length_field); }
    let raw_length = length_field & 0xffff;
    let loop_start = get_u32_le(data, p, 0x14).unwrap();
    let loop_stop = get_u32_le(data, p, 0x18).unwrap();
    let flags = get_u8(data, p, 0x1f).unwrap();
    let rate_field = get_u32_le(data, p, 0x20).unwrap();
    proof { lemma_low16(rate_field); }
    let raw_rate = rate_field & 0xffff;
    let rate = if raw_rate <= 1 { 1024 } else { raw_rate };
    let name = read_str(get_bytes(data, p, 0x30, 28).unwrap());
    let depth = Depth::new(flags & 4 == 0, signed, signed);
    let channel = Channel::new(flags & 2 != 0, false);
    let c = channel.channels() as u32;
    let b = depth.bytes() as u32;
    assert(raw_length * c <= 131070 && raw_length * c * b <= 262140) by (nonlinear_arith)
        requires raw_length <= 65535, 1 <= c <= 2, 1 <= b <= 2;
    let length = raw_length * c * b;
    let kind = if flags & 1 != 0 { LoopType::Forward } else { LoopType::Off };
    Sample {
        filename: Some(filename),
        name,
        length,
        rate,
        pointer,
        depth,
        channel,
        index_raw: (index % 0x10000) as u16,
        pcm_type: PcmType::PCM,
        looping: Loop { start: loop_start, stop: loop_stop, kind },
    }
}

/// Read the instrument whose header is at `p`.
fn build_sample(data: &[u8], p: usize, index: usize, signed: bool) -> (r: Result<Option<Sample>, Error>)
    ensures
        match r {
            Ok(None) => s3m_sample(data@, p as int, index as int, signed) == Ok::<Option<SampleView>, Fail>(None),
            Ok(Some(s)) => s3m_sample(data@, p as int, index as int, signed) == Ok::<Option<SampleView>, Fail>(Some(s@)),
            Err(e) => s3m_sample(data@, p as int, index as int, signed) == Err::<Option<SampleView>, Fail>(fail_of(e)),
        },
{
    if get_u8(data, p, 0)? != 1 {
        return Ok(None);
    }
    let length_field = get_u32_le(data, p, 0x10)?;
    proof { lemma_low16(length_field); }
    let raw_length = length_field & 0xffff;
    if raw_length == 0 {
        return Ok(None);
    }
    let scrs: [u8; 4] = [0x53, 0x43, 0x52, 0x53];
    assert(scrs@ == magic_scrs());
    let _last = get_u32_le(data, p, 0x4c)?;
    if !is_magic(data, p, 0x4c, &scrs)? {
        return Err(Error::invalid("Not a valid Scream Tracker module"));
    }
    let smp = read_header(data, p, index, signed);
    if smp.pointer as u64 + smp.length as u64 > data.len() as u64 {
        return Ok(None);
    }
    Ok(Some(smp))
}

/// Load a Scream Tracker 3 module.
#[verifier::rlimit(40)]
pub fn parse_(data: Vec<u8>) -> (r: Result<GenericTracker, Error>)
    ensures
        match r {
            Ok(m) => s3m_parse(data@) matches Ok(s) && loaded_as(m, data@, s, s3m_title(data@), "Scream Tracker"@),
            Err(e) => s3m_parse(data@) == Err::<Seq<SampleView>, Fail>(fail_of(e)),
        },
{
    if data.len() < 30 {
        return Err(unexpected_eof());
    }
    if data[29] != 0x10 {
        return Err(Error::invalid("Not a valid Scream Tracker module"));
    }
    if data.len() < 0x30 {
        return Err(unexpected_eof());
    }
    if !matches_format(data.as_slice()) {
        return Err(Error::invalid("Not a valid Scream Tracker module"));
    }
    let title = read_str(slice_range(data.as_slice(), 0, 28));
    let ord_count = get_u16_le(data.as_slice(), 0x20, 0).unwrap();
    let ins_count = get_u16_le(data.as_slice(), 0x22, 0).unwrap();
    let signed = get_u16_le(data.as_slice(), 0x2a, 0).unwrap() == 1;
    let table: usize = ((0x60u32 + ord_count as u32) % 0x10000) as usize;
    assert(table == s3m_table(data@));
    let ghost f = s3m_header_fn(data@);
    let mut ptrs: Vec<u32> = Vec::new();
    let mut k: usize = 0;
    while k < ins_count as usize
        invariant
            k <= ins_count,
            ins_count == u16_le(data@, 0x22),
            table == s3m_table(data@),
            signed == s3m_signed(data@),
            s3m_parse(data@) == (if ins_count > 0 && table + 2 * ins_count > data@.len() {
                Err::<Seq<SampleView>, Fail>(Fail::Io)
            } else {
                collect_samples(f, ins_count as nat)
            }),
            f == s3m_header_fn(data@),
            k > 0 ==> table + 2 * k <= data@.len(),
            ptrs@.len() == k,
            forall|j: int| 0 <= j < k ==> ptrs@[j] == s3m_ptr(data@, j),
        decreases ins_count - k,
    {
        let ptr = match get_u16_le(data.as_slice(), table, 2 * k) {
            Ok(v) => v,
            Err(e) => {
                assert(table + 2 * ins_count > data@.len());
                return Err(e);
            },
        };
        ptrs.push((ptr as u32) << 4u32);
        assert(((ptr as u32) << 4u32) == ptr * 16) by (bit_vector);
        k += 1;
    }
    let mut samples: Vec<Sample> = Vec::new();
    let mut i: usize = 0;
    assert(views(samples@) =~= Seq::<SampleView>::empty());
    while i < ptrs.len()
        invariant
            ptrs@.len() == ins_count,
            ins_count == u16_le(data@, 0x22),
            signed == s3m_signed(data@),
            f == s3m_header_fn(data@),
            s3m_parse(data@) == collect_samples(f, ins_count as nat),
            i <= ptrs@.len(),
            forall|j: int| 0 <= j < ins_count ==> ptrs@[j] == s3m_ptr(data@, j),
            collect_samples(f, i as nat) == Ok::<Seq<SampleView>, Fail>(views(samples@)),
        decreases ptrs@.len() - i,
    {
        let ghost prev = samples@;
        assert(f(i as int) == s3m_sample(data@, ptrs@[i as int] as int, i as int, signed));
        match build_sample(data.as_slice(), ptrs[i] as usize, i, signed) {
            Ok(Some(smp)) => {
                let ghost v = smp@;
                samples.push(smp);
                assert(views(samples@) =~= views(prev).push(v));
            },
            Ok(None) => {},
            Err(e) => {
                proof {
                    lemma_collect_err(f, (i + 1) as nat, ins_count as nat);
                }
                return Err(e);
            },
        }
        i += 1;
    }
    let info = Info { name: title, format: "Scream Tracker".to_owned(), comments: String::new(), source: None };
    Ok(GenericTracker { info, inner: data, samples })
}

/// Scream Tracker 3 module
pub struct S3M;

impl S3M {
    /// Load a Scream Tracker 3 module.
    pub fn load(data: Vec<u8>) -> (r: Result<GenericTracker, Error>)
        ensures
            match r {
                Ok(m) => s3m_parse(data@) matches Ok(s) && loaded_as(m, data@, s, s3m_title(data@), "Scream Tracker"@),
                Err(e) => s3m_parse(data@) == Err::<Seq<SampleView>, Fail>(fail_of(e)),
            },
    {
        parse_(data)
    }

    /// Whether the first bytes of a file mark a Scream Tracker 3 module.
    pub fn matches_format(buf: &[u8]) -> (r: bool)
        ensures
            r == has_magic(buf@, 0x2c, magic_scrm()),
    {
        matches_format(buf)
    }
}

proof fn lemma_s3m_sample_inside(data: Seq<u8>, k: int)
    requires
        s3m_header_fn(data)(k) is Ok,
        s3m_header_fn(data)(k)->Ok_0 is Some,
    ensures
        ({
            let v = s3m_header_fn(data)(k)->Ok_0->Some_0;
            sample_slice(data, v.pointer, v.length) is Some && v.pcm_type == PcmType::PCM
        }),
{
    let q = s3m_ptr(data, k);
    let v = s3m_header_fn(data)(k)->Ok_0->Some_0;
    assert(v == s3m_sample_header(data, q, k, s3m_signed(data)));
    let depth = s3m_depth(data[q + 0x1f], s3m_signed(data));
    let channel = s3m_channel(data[q + 0x1f]);
    let x = u32_le(data, q + 0x10) % 0x10000;
    assert(x * channel_count(channel) * depth_bytes(depth) <= 0xffff * 2 * 2) by (nonlinear_arith)
        requires x <= 0xffff, channel_count(channel) <= 2, depth_bytes(depth) <= 2;
    assert(v.pointer < 0x1000000);
}

/// Every sample that loading a Scream Tracker 3 module gives can be
/// extracted: its data lies inside the module.
pub proof fn law_s3m_samples_decodable(data: Seq<u8>, m: GenericTracker)
    requires
        s3m_parse(data) matches Ok(s) && loaded_as(m, data, s, s3m_title(data), "Scream Tracker"@),
    ensures
        forall|i: int| 0 <= i < m.samples@.len() ==> decoded_pcm(m.inner@, #[trigger] m.samples@[i]) is Some,
{
    let s = s3m_parse(data)->Ok_0;
    let f = s3m_header_fn(data);
    let n = u16_le(data, 0x22) as nat;
    let p = |v: SampleView| sample_slice(data, v.pointer, v.length) is Some && v.pcm_type == PcmType::PCM;
    assert forall|k: int| 0 <= k < n implies match #[trigger] f(k) {
        Ok(Some(v)) => p(v),
        _ => true,
    } by {
        if f(k) is Ok && f(k)->Ok_0 is Some {
            lemma_s3m_sample_inside(data, k);
        }
    }
    lemma_collect_all(f, n, p);
    assert forall|i: int| 0 <= i < m.samples@.len() implies decoded_pcm(m.inner@, #[trigger] m.samples@[i]) is Some by {
        assert(views(m.samples@)[i] == m.samples@[i]@);
        assert(p(s[i]));
    }
}

/// What the instrument header of a loaded Scream Tracker 3 sample says of
/// it, read from the module's bytes: the header that the sample's index
/// selects in the table of paragraph pointers (after the orders), whose
/// flags give the depth (bit 2: 16-bit) and the channels (bit 1: stereo),
/// with the sign from the module's sample-format word (1: signed, any other
/// value: unsigned); the length in bytes is the low 16 bits of the frame
/// count times the channels and the bytes of a value; the data offset is the
/// 24-bit pointer; the rate is the low 16 bits of its field (0 and 1 read as
/// 1024); the loop is forward where flag bit 0 is set.
pub open spec fn s3m_header_describes(data: Seq<u8>, v: SampleView) -> bool {
    let q = 16 * u16_le(data, (0x60 + u16_le(data, 0x20)) % 0x10000 + 2 * v.index_raw);
    let flags = data[q + 0x1f];
    let wide = flags & 4u8 != 0;
    let stereo = flags & 2u8 != 0;
    let signed = u16_le(data, 0x2a) == 1;
    &&& v.depth == (if wide {
        if signed { Depth::I16 } else { Depth::U16 }
    } else {
        if signed { Depth::I8 } else { Depth::U8 }
    })
    &&& (v.channel is Stereo) == stereo
    &&& v.length as int == (u32_le(data, q + 0x10) % 0x10000) as int * (if stereo { 2int } else { 1 }) * (if wide { 2int } else { 1 })
    &&& v.pointer == u24_le(data, q + 0x0d)
    &&& v.rate == (if u32_le(data, q + 0x20) % 0x10000 <= 1 { 1024 } else { u32_le(data, q + 0x20) % 0x10000 })
    &&& v.looping.start == u32_le(data, q + 0x14)
    &&& v.looping.stop == u32_le(data, q + 0x18)
    &&& v.looping.kind == (if flags & 1u8 != 0 { LoopType::Forward } else { LoopType::Off })
    &&& v.pcm_type == PcmType::PCM
}

/// Every sample that loading a Scream Tracker 3 module gives is what its
/// instrument header says: depth, sign, channels, length in bytes, data
/// offset, rate and loop.
pub proof fn law_s3m_sample_headers(data: Seq<u8>, m: GenericTracker)
    requires
        s3m_parse(data) matches Ok(s) && loaded_as(m, data, s, s3m_title(data), "Scream Tracker"@),
    ensures
        forall|i: int| 0 <= i < m.samples@.len() ==> s3m_header_describes(data, #[trigger] m.samples@[i]@),
{
    let s = s3m_parse(data)->Ok_0;
    let f = s3m_header_fn(data);
    let n = u16_le(data, 0x22) as nat;
    let p = |v: SampleView| s3m_header_describes(data, v);
    assert forall|k: int| 0 <= k < n implies match #[trigger] f(k) {
        Ok(Some(v)) => p(v),
        _ => true,
    } by {
        if f(k) is Ok && f(k)->Ok_0 is Some {
            let q = s3m_ptr(data, k);
            let v = f(k)->Ok_0->Some_0;
            assert(v == s3m_sample_header(data, q, k, s3m_signed(data)));
            assert(v.index_raw == k);
            let flags = data[q + 0x1f];
            let db: int = if flags & 4u8 != 0 { 2 } else { 1 };
            let cc: int = if flags & 2u8 != 0 { 2 } else { 1 };
            assert(depth_bytes(v.depth) == db);
            assert(channel_count(v.channel) == cc);
            let x = (u32_le(data, q + 0x10) % 0x10000) as int;
            assert(x * cc * db <= 0xffff * 2 * 2) by (nonlinear_arith)
                requires x <= 0xffff, cc <= 2, db <= 2, 0 <= x, 0 <= cc, 0 <= db;
            assert(x * cc * db >= 0) by (nonlinear_arith)
                requires 0 <= x, 0 <= cc, 0 <= db;
        }
    }
    lemma_collect_all(f, n, p);
    assert forall|i: int| 0 <= i < m.samples@.len() implies s3m_header_describes(data, #[trigger] m.samples@[i]@) by {
        assert(views(m.samples@)[i] == m.samples@[i]@);
        assert(p(s[i]));
    }
}

} // verus!
