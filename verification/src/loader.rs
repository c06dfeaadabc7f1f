//! Recognising the format of a module from its first bytes and loading it.

use vstd::prelude::*;
use crate::bytes::has_magic;
use crate::error::{Error, Fail, fail_of};
use crate::fmt_it::{IT, it_parse, it_title, magic_impm, magic_ziRCONia};
use crate::fmt_mod::{MOD, mod_container, mod_load, mod_parse, mod_title};
use crate::fmt_s3m::{S3M, magic_scrm, s3m_parse, s3m_title};
use crate::fmt_umx::{UMX, magic_upkg, umx_locate};
use crate::fmt_xm::{XM, magic_extended_module, magic_mod_plugin_packed, xm_parse, xm_samples_match, xm_title};
use crate::module::{GenericTracker, loaded_as};

verus! {

/// The formats that modules are loaded from.
#[derive(Debug, Copy, Clone, PartialEq, Eq, Structural)]
pub enum Format {
    IT,
    XM,
    S3M,
    MOD,
    UMX,
}

/// The name of a format as it is shown.
pub open spec fn format_name(f: Format) -> Seq<char> {
    match f {
        Format::IT => "Impulse Tracker"@,
        Format::XM => "Fasttracker 2 Extended Module"@,
        Format::S3M => "Scream Tracker 3"@,
        Format::MOD => "Amiga ProTracker"@,
        Format::UMX => "Unreal Music Container"@,
    }
}

impl Format {
    /// The name of the format as it is shown.
    pub fn to_string(&self) -> (r: String)
        ensures
            r@ == format_name(*self),
    {
        match self {
            Format::IT => "Impulse Tracker".to_owned(),
            Format::XM => "Fasttracker 2 Extended Module".to_owned(),
            Format::S3M => "Scream Tracker 3".to_owned(),
            Format::MOD => "Amiga ProTracker".to_owned(),
            Format::UMX => "Unreal Music Container".to_owned(),
        }
    }
}

/// The first 64 bytes of the data, padded with zeros where it is shorter.
pub open spec fn head(data: Seq<u8>) -> Seq<u8> {
    Seq::new(64, |i: int| if i < data.len() { data[i] } else { 0u8 })
}

/// The format that the first bytes of a module mark, tried in this order:
/// Impulse Tracker, Extended Module, Scream Tracker 3, Unreal package; any
/// other data is taken as a ProTracker module.
pub open spec fn format_of(buf: Seq<u8>) -> Format {
    if has_magic(buf, 0, magic_impm()) || has_magic(buf, 0, magic_ziRCONia()) {
        Format::IT
    } else if has_magic(buf, 0, magic_extended_module()) || has_magic(buf, 0, magic_mod_plugin_packed()) {
        Format::XM
    } else if has_magic(buf, 0x2c, magic_scrm()) {
        Format::S3M
    } else if has_magic(buf, 0, magic_upkg()) {
        Format::UMX
    } else {
        Format::MOD
    }
}

/// Whether `m` is what loading `data` as a module of format `fmt` (other
/// than an Unreal package) gives.
pub open spec fn loaded_by<F: Fn(i8, i8) -> u32>(fmt: Format, data: Seq<u8>, m: GenericTracker, rate_of: F) -> bool {
    match fmt {
        Format::IT => it_parse(data) matches Ok(s) && loaded_as(m, data, s, it_title(data), "Impulse Tracker"@),
        Format::XM => xm_parse(data) matches Ok(s) && xm_samples_match(m.samples@, s, rate_of) && m.inner@ == data
            && m.info.name@ == xm_title(data) && m.info.format@ == "Extended Module"@
            && m.info.comments@ == Seq::<char>::empty() && m.info.source is None,
        Format::S3M => s3m_parse(data) matches Ok(s) && loaded_as(m, data, s, s3m_title(data), "Scream Tracker"@),
        Format::MOD => mod_container(data) matches Ok(inner) && mod_parse(inner) matches Ok(s)
            && loaded_as(m, inner, s, mod_title(inner), "Amiga ProTracker"@),
        Format::UMX => false,
    }
}

/// Whether loading `data` as a module of format `fmt` (other than an Unreal
/// package) fails with `f`.
pub open spec fn failed_by(fmt: Format, data: Seq<u8>, f: Fail) -> bool {
    match fmt {
        Format::IT => it_parse(data) == Err::<Seq<crate::sample::SampleView>, Fail>(f),
        Format::XM => xm_parse(data) matches Err(g) && g == f,
        Format::S3M => s3m_parse(data) == Err::<Seq<crate::sample::SampleView>, Fail>(f),
        Format::MOD => mod_load(data) == Err::<Seq<crate::sample::SampleView>, Fail>(f),
        Format::UMX => false,
    }
}

/// Whether `r` is the outcome of loading `data` as a module of format `fmt`
/// (other than an Unreal package).
pub open spec fn loads_as<F: Fn(i8, i8) -> u32>(fmt: Format, data: Seq<u8>, r: Result<GenericTracker, Error>, rate_of: F) -> bool {
    match r {
        Ok(m) => loaded_by(fmt, data, m, rate_of),
        Err(e) => failed_by(fmt, data, fail_of(e)),
    }
}

/// Whether `r` is the outcome of loading the module inside the Unreal
/// package `data`: the module that starts where the package places it,
/// recognised by its first bytes; a package inside a package is refused.
pub open spec fn umx_loads_as<F: Fn(i8, i8) -> u32>(data: Seq<u8>, r: Result<GenericTracker, Error>, rate_of: F) -> bool {
    match umx_locate(data) {
        Err(f) => r matches Err(e) && fail_of(e) == f,
        Ok(start) => {
            let inner = data.skip(start);
            let fmt = format_of(head(inner));
            if fmt == Format::UMX {
                r matches Err(e) && fail_of(e) == Fail::Invalid("Nested Unreal music containers are invalid"@)
            } else {
                loads_as(fmt, inner, r, rate_of)
            }
        },
    }
}

/// Whether `r` is the outcome of loading `data` as a module of the format
/// that its first bytes mark.
pub open spec fn module_loads_as<F: Fn(i8, i8) -> u32>(data: Seq<u8>, r: Result<GenericTracker, Error>, rate_of: F) -> bool {
    if format_of(head(data)) == Format::UMX {
        umx_loads_as(data, r, rate_of)
    } else {
        loads_as(format_of(head(data)), data, r, rate_of)
    }
}

/// The module inside an Unreal package loads as the bytes where the package
/// places it load on their own, unless they are a package themselves.
pub proof fn law_umx_inner_module<F: Fn(i8, i8) -> u32>(data: Seq<u8>, r: Result<GenericTracker, Error>, rate_of: F)
    requires
        umx_locate(data) is Ok,
        format_of(head(data.skip(umx_locate(data)->Ok_0))) != Format::UMX,
    ensures
        umx_loads_as(data, r, rate_of) == module_loads_as(data.skip(umx_locate(data)->Ok_0), r, rate_of),
{
}

/// The first 64 bytes of the data, padded with zeros.
fn head_bytes(data: &[u8]) -> (r: Vec<u8>)
    ensures
        r@ == head(data@),
{
    let mut v: Vec<u8> = Vec::with_capacity(64);
    let mut i: usize = 0;
    while i < 64
        invariant
            i <= 64,
            v@ =~= head(data@).take(i as int),
        decreases 64 - i,
    {
        v.push(if i < data.len() { data[i] } else { 0 });
        i += 1;
        assert(v@ =~= head(data@).take(i as int));
    }
    assert(v@ =~= head(data@));
    v
}

/// Recognise the format of a module from its first 64 bytes.
pub fn identify_module(data: &[u8]) -> (r: Result<Format, Error>)
    ensures
        r == Ok::<Format, Error>(format_of(head(data@))),
{
    let bytes = head_bytes(data);
    let buf = bytes.as_slice();
    if IT::matches_format(buf) {
        Ok(Format::IT)
    } else if XM::matches_format(buf) {
        Ok(Format::XM)
    } else if S3M::matches_format(buf) {
        Ok(Format::S3M)
    } else if UMX::matches_format(buf) {
        Ok(Format::UMX)
    } else if MOD::matches_format(buf) {
        Ok(Format::MOD)
    } else {
        Err(Error::NoFormatFound)
    }
}

/// Load a module of a format other than an Unreal package.
pub fn load_format<F: Fn(i8, i8) -> u32>(fmt: Format, data: Vec<u8>, rate_of: &F) -> (r: Result<GenericTracker, Error>)
    requires
        fmt != Format::UMX,
        forall|a: i8, b: i8| call_requires(*rate_of, (a, b)),
    ensures
        loads_as(fmt, data@, r, *rate_of),
{
    match fmt {
        Format::IT => IT::load(data),
        Format::XM => XM::load(data, rate_of),
        Format::S3M => S3M::load(data),
        Format::MOD => MOD::load(data),
        Format::UMX => Err(Error::NoFormatFound),
    }
}

/// Load a module, of the format that its first bytes mark; `rate_of` gives
/// the sample rate of an Extended Module sample from its finetune and
/// relative note.
pub fn load_module<F: Fn(i8, i8) -> u32>(data: Vec<u8>, rate_of: &F) -> (r: Result<GenericTracker, Error>)
    requires
        forall|a: i8, b: i8| call_requires(*rate_of, (a, b)),
    ensures
        module_loads_as(data@, r, *rate_of),
{
    let fmt = identify_module(data.as_slice())?;
    match fmt {
        Format::UMX => UMX::load(data, rate_of),
        _ => load_format(fmt, data, rate_of),
    }
}

} // verus!
