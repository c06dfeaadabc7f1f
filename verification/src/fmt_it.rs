//! Impulse Tracker modules.

use vstd::prelude::*;
use crate::bytes::{get_bytes, get_u16_le, get_u32_le, get_u8, has_magic, in_bounds, is_magic, magic_at, slice_range, u16_le, u32_le};
use crate::error::{Error, Fail, fail_of, unexpected_eof};
use crate::module::{GenericTracker, Info, data_in_module, loaded_as, sample_slice, views};
use crate::sample::{
    Channel, Depth, Loop, LoopType, PcmType, Sample, SampleView, channel_count, depth_bytes, depth_is_8_bit, depth_is_signed, frames_of, sample_end,
};
use crate::text::{decoded_name, read_str};
use crate::export::{its_encoded, its_flags};

verus! {

pub open spec fn magic_impm() -> Seq<u8> {
    seq![0x49u8, 0x4d, 0x50, 0x4d]
}

pub open spec fn magic_imps() -> Seq<u8> {
    seq![0x49u8, 0x4d, 0x50, 0x53]
}

pub open spec fn magic_ziRCONia() -> Seq<u8> {
    seq![0x7au8, 0x69, 0x52, 0x43, 0x4f, 0x4e, 0x69, 0x61]
}

/// Loop kind from the sample flags (ping-pong sustain, ping-pong, loop,
/// sustain, in that order of precedence).
pub open spec fn it_loop_kind(flags: u8) -> LoopType {
    if flags & 0x80u8 != 0 {
        LoopType::PingPong
    } else if flags & 0x40u8 != 0 {
        LoopType::PingPong
    } else if flags & 0x10u8 != 0 {
        LoopType::Forward
    } else if flags & 0x20u8 != 0 {
        LoopType::Backward
    } else {
        LoopType::Off
    }
}

pub open spec fn it_depth(flags: u8, cvt: u8) -> Depth {
    let signed = cvt & 1u8 != 0;
    if flags & 2u8 == 0 {
        if signed { Depth::I8 } else { Depth::U8 }
    } else {
        if signed { Depth::I16 } else { Depth::U16 }
    }
}

pub open spec fn it_channel(flags: u8) -> Channel {
    if flags & 4u8 != 0 { Channel::Stereo { interleaved: false } } else { Channel::Mono }
}

/// The sample described by the header at `p`, the `index`-th header of the module.
pub open spec fn it_sample_header(data: Seq<u8>, p: int, index: int, compat: u16) -> SampleView {
    let flags = data[p + 0x12];
    let cvt = data[p + 0x2e];
    let depth = it_depth(flags, cvt);
    let channel = it_channel(flags);
    let frames = u32_le(data, p + 0x30);
    SampleView {
        filename: Some(decoded_name(data.subrange(p + 4, p + 16))),
        name: decoded_name(data.subrange(p + 0x14, p + 0x2e)),
        length: ((frames * depth_bytes(depth) * channel_count(channel)) % 0x1_0000_0000) as u32,
        rate: u32_le(data, p + 0x3c),
        pointer: u32_le(data, p + 0x48),
        depth,
        channel,
        index_raw: (index % 0x10000) as u16,
        pcm_type: it_pcm_type(flags, compat),
        looping: Loop { start: u32_le(data, p + 0x34), stop: u32_le(data, p + 0x38), kind: it_loop_kind(flags) },
    }
}

/// What the header at `p` yields: a sample, nothing (an empty sample, or one
/// whose data lies past the end of the module), or a failure.
pub open spec fn it_sample(data: Seq<u8>, p: int, index: int, compat: u16) -> Result<Option<SampleView>, Fail> {
    if !in_bounds(data, p, 4) {
        Err(Fail::Io)
    } else if !has_magic(data, p, magic_imps()) {
        Err(Fail::Invalid("Not a valid Impulse Tracker sample"@))
    } else if !in_bounds(data, p + 0x30, 4) {
        Err(Fail::Io)
    } else if u32_le(data, p + 0x30) == 0 {
        Ok(None)
    } else if !in_bounds(data, p, 0x4c) {
        Err(Fail::Io)
    } else {
        let s = it_sample_header(data, p, index, compat);
        if sample_end(s.pointer, s.length) > data.len() {
            Ok(None)
        } else {
            Ok(Some(s))
        }
    }
}

/// Offset of the table of sample header pointers (16-bit arithmetic, wrapping).
pub open spec fn it_table(data: Seq<u8>) -> int {
    (0xc0 + u16_le(data, 0x20) + 4 * u16_le(data, 0x22)) % 0x10000
}

/// The samples of the first `n` headers listed in the table at `table`.
pub open spec fn it_samples(data: Seq<u8>, n: nat, table: int, compat: u16) -> Result<Seq<SampleView>, Fail>
    decreases n,
{
    if n == 0 {
        Ok(Seq::empty())
    } else {
        match it_samples(data, (n - 1) as nat, table, compat) {
            Err(f) => Err(f),
            Ok(prev) => match it_sample(data, u32_le(data, table + 4 * (n - 1)) as int, n - 1, compat) {
                Err(f) => Err(f),
                Ok(None) => Ok(prev),
                Ok(Some(s)) => Ok(prev.push(s)),
            },
        }
    }
}

/// The samples of an Impulse Tracker module, or why it cannot be loaded.
pub open spec fn it_parse(data: Seq<u8>) -> Result<Seq<SampleView>, Fail> {
    if data.len() < 8 {
        Err(Fail::Io)
    } else if has_magic(data, 0, magic_ziRCONia()) {
        Err(Fail::Unsupported("Impulse Tracker Module uses 'ziRCON' sample compression"@))
    } else if !has_magic(data, 0, magic_impm()) {
        Err(Fail::Invalid("Not a valid Impulse Tracker module"@))
    } else if data.len() < 0x2c {
        Err(Fail::Io)
    } else if u16_le(data, 0x24) > 0 && it_table(data) + 4 * u16_le(data, 0x24) > data.len() {
        Err(Fail::Io)
    } else {
        it_samples(data, u16_le(data, 0x24) as nat, it_table(data), u16_le(data, 0x2a))
    }
}

/// Once the samples of some headers fail, the samples of all headers do.
pub proof fn lemma_it_samples_err(data: Seq<u8>, n: nat, m: nat, table: int, compat: u16)
    requires
        n <= m,
        it_samples(data, n, table, compat) is Err,
    ensures
        it_samples(data, m, table, compat) == it_samples(data, n, table, compat),
    decreases m - n,
{
    if n < m {
        lemma_it_samples_err(data, n, (m - 1) as nat, table, compat);
    }
}

/// Title of an Impulse Tracker module.
pub open spec fn it_title(data: Seq<u8>) -> Seq<char> {
    decoded_name(data.subrange(4, 30))
}

proof fn lemma_wrapping_length(frames: u32, d: int, c: int)
    requires
        1 <= d <= 2,
        1 <= c <= 2,
    ensures
        ((frames * d) % 0x1_0000_0000 * c) % 0x1_0000_0000 == (frames * d * c) % 0x1_0000_0000,
{
    assert(((frames * d) % 0x1_0000_0000 * c) % 0x1_0000_0000 == (frames * d * c) % 0x1_0000_0000) by (nonlinear_arith)
        requires 1 <= d <= 2, 1 <= c <= 2;
}

pub open spec fn it_pcm_type(flags: u8, compat: u16) -> PcmType {
    if flags & 8u8 != 0 {
        if compat == 0x0215 { PcmType::IT215 } else { PcmType::IT214 }
    } else {
        PcmType::PCM
    }
}

fn loop_kind_of(flags: u8) -> (r: LoopType)
    ensures
        r == it_loop_kind(flags),
{
    if flags & 0x80 != 0 {
        LoopType::PingPong
    } else if flags & 0x40 != 0 {
        LoopType::PingPong
    } else if flags & 0x10 != 0 {
        LoopType::Forward
    } else if flags & 0x20 != 0 {
        LoopType::Backward
    } else {
        LoopType::Off
    }
}

/// Decode the whole sample header at `p`.
fn read_header(data: &[u8], p: usize, index: usize, compat: u16) -> (r: Sample)
    requires
        in_bounds(data@, p as int, 0x4c),
    ensures
        r@ == it_sample_header(data@, p as int, index as int, compat),
{
    let frames = get_u32_le(data, p, 0x30).unwrap();
    let filename = read_str(get_bytes(data, p, 4, 12).unwrap());
    let flags = get_u8(data, p, 0x12).unwrap();
    let name = read_str(get_bytes(data, p, 0x14, 26).unwrap());
    let cvt = get_u8(data, p, 0x2e).unwrap();
    let loop_start = get_u32_le(data, p, 0x34).unwrap();
    let loop_end = get_u32_le(data, p, 0x38).unwrap();
    let rate = get_u32_le(data, p, 0x3c).unwrap();
    let pointer = get_u32_le(data, p, 0x48).unwrap();
    let signed = cvt & 1 != 0;
    let depth = Depth::new(flags & 2 == 0, signed, signed);
    let channel = Channel::new(flags & 4 != 0, false);
    let length: u32 = frames.wrapping_mul(depth.bytes() as u32).wrapping_mul(channel.channels() as u32);
    proof {
        lemma_wrapping_length(frames, depth_bytes(depth) as int, channel_count(channel) as int);
    }
    let pcm_type = if flags & 8 != 0 {
        if compat == 0x0215 { PcmType::IT215 } else { PcmType::IT214 }
    } else {
        PcmType::PCM
    };
    Sample {
        filename: Some(filename),
        name,
        length,
        rate,
        pointer,
        depth,
        channel,
        index_raw: (index % 0x10000) as u16,
        pcm_type,
        looping: Loop { start: loop_start, stop: loop_end, kind: loop_kind_of(flags) },
    }
}

/// Read the sample whose header is at `p`.
fn build_sample(data: &[u8], p: usize, index: usize, compat: u16) -> (r: Result<Option<Sample>, Error>)
    ensures
        match r {
            Ok(None) => it_sample(data@, p as int, index as int, compat) == Ok::<Option<SampleView>, Fail>(None),
            Ok(Some(s)) => it_sample(data@, p as int, index as int, compat) == Ok::<Option<SampleView>, Fail>(Some(s@)),
            Err(e) => it_sample(data@, p as int, index as int, compat) == Err::<Option<SampleView>, Fail>(fail_of(e)),
        },
{
    let imps: [u8; 4] = [0x49, 0x4d, 0x50, 0x53];
    assert(imps@ == magic_imps());
    if !is_magic(data, p, 0, &imps)? {
        return Err(Error::invalid("Not a valid Impulse Tracker sample"));
    }
    let frames = get_u32_le(data, p, 0x30)?;
    if frames == 0 {
        return Ok(None);
    }
    let _last = get_u32_le(data, p, 0x48)?;
    let smp = read_header(data, p, index, compat);
    if smp.pointer.wrapping_add(smp.length) as usize > data.len() {
        return Ok(None);
    }
    Ok(Some(smp))
}


/// Load an Impulse Tracker module.
#[verifier::rlimit(40)]
pub fn parse_(data: Vec<u8>) -> (r: Result<GenericTracker, Error>)
    ensures
        match r {
            Ok(m) => it_parse(data@) matches Ok(s) && loaded_as(m, data@, s, it_title(data@), "Impulse Tracker"@),
            Err(e) => it_parse(data@) == Err::<Seq<SampleView>, Fail>(fail_of(e)),
        },
{
    if data.len() < 8 {
        return Err(unexpected_eof());
    }
    let zirconia: [u8; 8] = [0x7a, 0x69, 0x52, 0x43, 0x4f, 0x4e, 0x69, 0x61];
    assert(zirconia@ == magic_ziRCONia());
    if magic_at(data.as_slice(), 0, &zirconia) {
        return Err(Error::unsupported("Impulse Tracker Module uses 'ziRCON' sample compression"));
    }
    let impm: [u8; 4] = [0x49, 0x4d, 0x50, 0x4d];
    assert(impm@ == magic_impm());
    if !magic_at(data.as_slice(), 0, &impm) {
        return Err(Error::invalid("Not a valid Impulse Tracker module"));
    }
    if data.len() < 0x2c {
        return Err(unexpected_eof());
    }
    let title = read_str(slice_range(data.as_slice(), 4, 30));
    let ord_num = get_u16_le(data.as_slice(), 0x20, 0).unwrap();
    let ins_num = get_u16_le(data.as_slice(), 0x22, 0).unwrap();
    let smp_num = get_u16_le(data.as_slice(), 0x24, 0).unwrap();
    let compat_ver = get_u16_le(data.as_slice(), 0x2a, 0).unwrap();
    let table: usize = ((0xc0u32 + ord_num as u32 + 4 * ins_num as u32) % 0x10000) as usize;
    assert(table == it_table(data@));
    assert(it_parse(data@) == (if smp_num > 0 && table + 4 * smp_num > data@.len() {
        Err::<Seq<SampleView>, Fail>(Fail::Io)
    } else {
        it_samples(data@, smp_num as nat, table as int, compat_ver)
    }));
    let mut ptrs: Vec<u32> = Vec::new();
    let mut k: usize = 0;
    while k < smp_num as usize
        invariant
            k <= smp_num,
            smp_num == u16_le(data@, 0x24),
            compat_ver == u16_le(data@, 0x2a),
            table == it_table(data@),
            it_parse(data@) == (if smp_num > 0 && table + 4 * smp_num > data@.len() {
                Err::<Seq<SampleView>, Fail>(Fail::Io)
            } else {
                it_samples(data@, smp_num as nat, table as int, compat_ver)
            }),
            k > 0 ==> table + 4 * k <= data@.len(),
            ptrs@.len() == k,
            forall|j: int| 0 <= j < k ==> ptrs@[j] == u32_le(data@, table + 4 * j),
        decreases smp_num - k,
    {
        let ptr = match get_u32_le(data.as_slice(), table, 4 * k) {
            Ok(v) => v,
            Err(e) => {
                assert(table + 4 * smp_num > data@.len());
                return Err(e);
            },
        };
        ptrs.push(ptr);
        k += 1;
    }
    let mut samples: Vec<Sample> = Vec::new();
    let mut i: usize = 0;
    assert(views(samples@) =~= Seq::<SampleView>::empty());
    while i < ptrs.len()
        invariant
            ptrs@.len() == smp_num,
            smp_num == u16_le(data@, 0x24),
            compat_ver == u16_le(data@, 0x2a),
            table == it_table(data@),
            it_parse(data@) == it_samples(data@, smp_num as nat, table as int, compat_ver),
            i <= ptrs@.len(),
            forall|j: int| 0 <= j < smp_num ==> ptrs@[j] == u32_le(data@, table + 4 * j),
            it_samples(data@, i as nat, table as int, compat_ver) == Ok::<Seq<SampleView>, Fail>(views(samples@)),
        decreases ptrs@.len() - i,
    {
        let ghost prev = samples@;
        match build_sample(data.as_slice(), ptrs[i] as usize, i, compat_ver) {
            Ok(Some(smp)) => {
                let ghost v = smp@;
                samples.push(smp);
                assert(views(samples@) =~= views(prev).push(v));
            },
            Ok(None) => {},
            Err(e) => {
                proof {
                    lemma_it_samples_err(data@, (i + 1) as nat, smp_num as nat, table as int, compat_ver);
                }
                return Err(e);
            },
        }
        i += 1;
    }
    let info = Info { name: title, format: "Impulse Tracker".to_owned(), comments: String::new(), source: None };
    Ok(GenericTracker { info, inner: data, samples })
}

/// Whether the first bytes of a file mark an Impulse Tracker module.
pub fn matches_format(buf: &[u8]) -> (r: bool)
    ensures
        r == (has_magic(buf@, 0, magic_impm()) || has_magic(buf@, 0, magic_ziRCONia())),
{
    let impm: [u8; 4] = [0x49, 0x4d, 0x50, 0x4d];
    let zirconia: [u8; 8] = [0x7a, 0x69, 0x52, 0x43, 0x4f, 0x4e, 0x69, 0x61];
    assert(impm@ == magic_impm());
    assert(zirconia@ == magic_ziRCONia());
    magic_at(buf, 0, &impm) || magic_at(buf, 0, &zirconia)
}

/// Impulse Tracker module
pub struct IT;

impl IT {
    /// Load an Impulse Tracker module.
    pub fn load(data: Vec<u8>) -> (r: Result<GenericTracker, Error>)
        ensures
            match r {
                Ok(m) => it_parse(data@) matches Ok(s) && loaded_as(m, data@, s, it_title(data@), "Impulse Tracker"@),
                Err(e) => it_parse(data@) == Err::<Seq<SampleView>, Fail>(fail_of(e)),
            },
    {
        parse_(data)
    }

    /// Whether the first bytes of a file mark an Impulse Tracker module.
    pub fn matches_format(buf: &[u8]) -> (r: bool)
        ensures
            r == (has_magic(buf@, 0, magic_impm()) || has_magic(buf@, 0, magic_ziRCONia())),
    {
        matches_format(buf)
    }
}

proof fn lemma_it_samples_inside(data: Seq<u8>, n: nat, table: int, compat: u16)
    ensures
        it_samples(data, n, table, compat) matches Ok(s) ==> forall|i: int| 0 <= i < s.len()
            && (#[trigger] s[i]).pointer + s[i].length < 0x1_0000_0000 ==> sample_slice(data, s[i].pointer, s[i].length) is Some,
    decreases n,
{
    if n > 0 {
        lemma_it_samples_inside(data, (n - 1) as nat, table, compat);
    }
}

/// Every sample that loading an Impulse Tracker module gives, whose end
/// does not pass the 32-bit range, has its data inside the module: all of it,
/// or (for compressed data) its start.
pub proof fn law_it_samples_in_module(data: Seq<u8>, m: GenericTracker)
    requires
        it_parse(data) matches Ok(s) && loaded_as(m, data, s, it_title(data), "Impulse Tracker"@),
    ensures
        forall|i: int| 0 <= i < m.samples@.len() && (#[trigger] m.samples@[i]).pointer + m.samples@[i].length < 0x1_0000_0000
            ==> data_in_module(m.inner@, m.samples@[i]),
{
    let s = it_parse(data)->Ok_0;
    lemma_it_samples_inside(data, u16_le(data, 0x24) as nat, it_table(data), u16_le(data, 0x2a));
    assert forall|i: int| 0 <= i < m.samples@.len() && (#[trigger] m.samples@[i]).pointer + m.samples@[i].length < 0x1_0000_0000
        implies data_in_module(m.inner@, m.samples@[i]) by {
        assert(views(m.samples@)[i] == m.samples@[i]@);
        assert(sample_slice(data, s[i].pointer, s[i].length) is Some);
    }
}

/// What the header of a loaded Impulse Tracker sample says of it, read
/// from the module's bytes: the header that the sample's index selects in the
/// table of header offsets (after the orders and the instrument offsets),
/// whose flags give the depth (bit 1: 16-bit), the channels (bit 2:
/// stereo), compression (bit 3; IT 2.15 compression where the module's
/// compatible version is 0x0215) and the loop (bits 6 and 7: ping-pong, else
/// bit 4: forward, else bit 5: backward), whose conversion byte gives the
/// sign (bit 0: signed), and whose frame count gives the length in bytes,
/// times the bytes of a value and the channels.
pub open spec fn it_header_describes(data: Seq<u8>, v: SampleView) -> bool {
    let table = (0xc0 + u16_le(data, 0x20) + 4 * u16_le(data, 0x22)) % 0x10000;
    let p = u32_le(data, table + 4 * v.index_raw) as int;
    let flags = data[p + 0x12];
    let wide = flags & 2u8 != 0;
    let stereo = flags & 4u8 != 0;
    let signed = data[p + 0x2e] & 1u8 != 0;
    &&& v.depth == (if wide {
        if signed { Depth::I16 } else { Depth::U16 }
    } else {
        if signed { Depth::I8 } else { Depth::U8 }
    })
    &&& (v.channel is Stereo) == stereo
    &&& v.length as int == (u32_le(data, p + 0x30) as int * (if wide { 2int } else { 1 }) * (if stereo { 2int } else { 1 }))
        % 0x1_0000_0000
    &&& v.pointer == u32_le(data, p + 0x48)
    &&& v.rate == u32_le(data, p + 0x3c)
    &&& v.pcm_type == (if flags & 8u8 == 0 {
        PcmType::PCM
    } else if u16_le(data, 0x2a) == 0x0215 {
        PcmType::IT215
    } else {
        PcmType::IT214
    })
    &&& v.looping.start == u32_le(data, p + 0x34)
    &&& v.looping.stop == u32_le(data, p + 0x38)
    &&& v.looping.kind == (if flags & 0xc0u8 != 0 {
        LoopType::PingPong
    } else if flags & 0x10u8 != 0 {
        LoopType::Forward
    } else if flags & 0x20u8 != 0 {
        LoopType::Backward
    } else {
        LoopType::Off
    })
}

#[verifier::spinoff_prover]
#[verifier::rlimit(60)]
proof fn lemma_it_samples_headers(data: Seq<u8>, n: nat, table: int, compat: u16)
    requires
        n <= 0xffff,
    ensures
        it_samples(data, n, table, compat) matches Ok(s) ==> forall|i: int| 0 <= i < s.len() ==> {
            &&& (#[trigger] s[i]).index_raw < n
            &&& s[i] == it_sample_header(data, u32_le(data, table + 4 * s[i].index_raw) as int, s[i].index_raw as int, compat)
        },
    decreases n,
{
    if n > 0 {
        lemma_it_samples_headers(data, (n - 1) as nat, table, compat);
        let k = n - 1;
        if it_samples(data, n, table, compat) is Ok {
            let prev = it_samples(data, (n - 1) as nat, table, compat)->Ok_0;
            let s = it_samples(data, n, table, compat)->Ok_0;
            let r = it_sample(data, u32_le(data, table + 4 * k) as int, k, compat);
            if r->Ok_0 is Some {
                let v = r->Ok_0->Some_0;
                assert(v == it_sample_header(data, u32_le(data, table + 4 * k) as int, k, compat));
                assert(v.index_raw == k);
                assert forall|i: int| 0 <= i < s.len() implies {
                    &&& (#[trigger] s[i]).index_raw < n
                    &&& s[i] == it_sample_header(data, u32_le(data, table + 4 * s[i].index_raw) as int, s[i].index_raw as int, compat)
                } by {
                    if i < prev.len() {
                        assert(s[i] == prev[i]);
                    }
                }
            }
        }
    }
}

proof fn lemma_header_describes(data: Seq<u8>, p: int, k: int)
    requires
        0 <= k < 0x10000,
        p == u32_le(data, it_table(data) + 4 * k) as int,
    ensures
        it_header_describes(data, it_sample_header(data, p, k, u16_le(data, 0x2a))),
{
    let v = it_sample_header(data, p, k, u16_le(data, 0x2a));
    assert(v.index_raw == k);
    let flags = data[p + 0x12];
    let db: int = if flags & 2u8 != 0 { 2 } else { 1 };
    let cc: int = if flags & 4u8 != 0 { 2 } else { 1 };
    assert(depth_bytes(v.depth) == db);
    assert(channel_count(v.channel) == cc);
    assert((flags & 0x80u8 != 0 || flags & 0x40u8 != 0) == (flags & 0xc0u8 != 0)) by (bit_vector);
}

/// Every sample that loading an Impulse Tracker module gives is what its
/// header says: depth, channels, sign, length in bytes (frames times bytes
/// per value times channels), data offset, rate, compression and loop.
#[verifier::spinoff_prover]
#[verifier::rlimit(80)]
pub proof fn law_it_sample_headers(data: Seq<u8>, m: GenericTracker)
    requires
        it_parse(data) matches Ok(s) && loaded_as(m, data, s, it_title(data), "Impulse Tracker"@),
    ensures
        forall|i: int| 0 <= i < m.samples@.len() ==> it_header_describes(data, #[trigger] m.samples@[i]@),
{
    let s = it_parse(data)->Ok_0;
    let table = it_table(data);
    let compat = u16_le(data, 0x2a);
    lemma_it_samples_headers(data, u16_le(data, 0x24) as nat, table, compat);
    assert forall|i: int| 0 <= i < m.samples@.len() implies it_header_describes(data, #[trigger] m.samples@[i]@) by {
        assert(views(m.samples@)[i] == m.samples@[i]@);
        let v = s[i];
        lemma_header_describes(data, u32_le(data, table + 4 * v.index_raw) as int, v.index_raw as int);
    }
}

proof fn lemma_le32_read(x: u32)
    ensures
        x % 256 + 256 * ((x / 256) % 256) + 65536 * ((x / 65536) % 256) + 16777216 * (x / 16777216) == x,
{
    assert(x % 256 + 256 * ((x / 256) % 256) + 65536 * ((x / 65536) % 256) + 16777216 * (x / 16777216) == x)
        by (nonlinear_arith);
}

proof fn lemma_its_flag_bits(a: u8, b: u8, c: u8, d: u8)
    by (bit_vector)
    requires
        a == 0 || a == 2,
        b == 0 || b == 4,
        c == 0 || c == 16,
        d == 0 || d == 32 || d == 64,
        c == 0 ==> d == 0,
    ensures
        (1 + a + b + c + d) as u8 & 2u8 != 0 <==> a == 2,
        (1 + a + b + c + d) as u8 & 4u8 != 0 <==> b == 4,
        (1 + a + b + c + d) as u8 & 8u8 == 0,
        ((1 + a + b + c + d) as u8 & 0x80u8 == 0 && (1 + a + b + c + d) as u8 & 0x40u8 == 0
            && (1 + a + b + c + d) as u8 & 0x10u8 == 0 && (1 + a + b + c + d) as u8 & 0x20u8 == 0) <==> c == 0,
{
}

/// Writing a sample as an Impulse Tracker sample file and reading the file's
/// header back as the Impulse Tracker loader does gives the sample back: its
/// depth, whether it is stereo, its rate and loop points, whether it loops,
/// plain PCM data at offset 0x50 (where the data was written), and its
/// length in whole frames.
#[verifier::spinoff_prover]
#[verifier::rlimit(60)]
pub proof fn law_its_read_back(smp: Sample, raw: Seq<u8>, index: int, compat: u16)
    ensures
        ({
            let f = its_encoded(smp, raw);
            let v = it_sample_header(f, 0, index, compat);
            let per_frame = depth_bytes(smp.depth) * channel_count(smp.channel);
            &&& has_magic(f, 0, magic_imps())
            &&& v.depth == smp.depth
            &&& (v.channel is Stereo) == (smp.channel is Stereo)
            &&& v.rate == smp.rate
            &&& v.pointer == 0x50
            &&& v.looping.start == smp.looping.start
            &&& v.looping.stop == smp.looping.stop
            &&& (v.looping.kind == LoopType::Off) == (smp.looping.kind == LoopType::Off)
            &&& v.pcm_type == PcmType::PCM
            &&& v.length as int == (smp.length as int / per_frame) * per_frame
            &&& f.subrange(0x50, f.len() as int) == raw
        }),
{
    let f = its_encoded(smp, raw);
    let v = it_sample_header(f, 0, index, compat);
    let frames = frames_of(smp.length, smp.depth, smp.channel);
    let a: u8 = if depth_is_8_bit(smp.depth) { 0 } else { 2 };
    let b: u8 = if smp.channel is Stereo { 4 } else { 0 };
    let c: u8 = if smp.looping.kind == LoopType::Off { 0 } else { 16 };
    let d: u8 = match smp.looping.kind {
        LoopType::Backward => 32,
        LoopType::PingPong => 64,
        _ => 0,
    };
    assert(its_flags(smp) == (1 + a + b + c + d) as u8);
    lemma_its_flag_bits(a, b, c, d);
    assert(f.subrange(0, 4) =~= magic_imps());
    assert(f[0x12] == its_flags(smp));
    assert(f[0x2e] == (if depth_is_signed(smp.depth) { 1u8 } else { 0u8 }));
    lemma_le32_read(frames);
    lemma_le32_read(smp.looping.start);
    lemma_le32_read(smp.looping.stop);
    lemma_le32_read(smp.rate);
    lemma_le32_read(0x50);
    assert(u32_le(f, 0x30) == frames);
    assert(u32_le(f, 0x34) == smp.looping.start);
    assert(u32_le(f, 0x38) == smp.looping.stop);
    assert(u32_le(f, 0x3c) == smp.rate);
    assert(u32_le(f, 0x48) == 0x50);
    let per_frame = depth_bytes(smp.depth) * channel_count(smp.channel);
    assert(1 <= per_frame <= 4);
    assert((smp.length as int / per_frame) * per_frame < 0x1_0000_0000) by (nonlinear_arith)
        requires 1 <= per_frame <= 4, 0 <= smp.length < 0x1_0000_0000;
    assert(depth_bytes(v.depth) * channel_count(v.channel) == per_frame);
    assert(f.subrange(0x50, f.len() as int) =~= raw);
    assert((1u8 & 1u8) != 0u8 && (0u8 & 1u8) == 0u8) by (bit_vector);
    assert(v.depth == smp.depth);
    assert((v.channel is Stereo) == (smp.channel is Stereo));
    assert(frames as int == smp.length as int / per_frame);
    assert(frames * per_frame < 0x1_0000_0000);
    assert(v.length as int == (smp.length as int / per_frame) * per_frame);
    assert((v.looping.kind == LoopType::Off) == (smp.looping.kind == LoopType::Off));
}

} // verus!
