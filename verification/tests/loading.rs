use xmodits_lib::error::Error;
use xmodits_lib::fmt_it::IT;
use xmodits_lib::fmt_mod::{check_iff, get_invalid_score, max, MODInfo, MOD};
use xmodits_lib::fmt_s3m::S3M;
use xmodits_lib::fmt_umx::{locate_module, read_compact_index, UMX};
use xmodits_lib::fmt_xm::XM;
use xmodits_lib::loader::{identify_module, load_module, Format};
use xmodits_lib::sample::{Channel, Depth, LoopType, PcmType};

fn rate_of(_finetune: i8, _note: i8) -> u32 {
    8363
}

/// A ProTracker module with the signature `sig`, whose first sample holds `data`.
fn mod_file(sig: &[u8; 4], data: &[u8]) -> Vec<u8> {
    let mut v = vec![0u8; 1084];
    v[0..4].copy_from_slice(b"Song");
    v[20..24].copy_from_slice(b"Kick");
    let words = (data.len() / 2) as u16;
    v[42..44].copy_from_slice(&words.to_be_bytes());
    v[45] = 64;
    v[48..50].copy_from_slice(&1u16.to_be_bytes());
    v[950] = 1;
    v[1080..1084].copy_from_slice(sig);
    v.extend(vec![0u8; 1024]);
    v.extend_from_slice(data);
    v
}

/// A Scream Tracker 3 module with one signed 8-bit sample holding `data`.
fn s3m_file(data: &[u8]) -> Vec<u8> {
    let mut v = vec![0u8; 0xC0];
    v[0..4].copy_from_slice(b"Tune");
    v[29] = 0x10;
    v[0x22] = 1;
    v[0x2a] = 1;
    v[0x2c..0x30].copy_from_slice(b"SCRM");
    v[0x60] = 7;
    let p = 0x70;
    v[p] = 1;
    v[p + 1..p + 9].copy_from_slice(b"kick.raw");
    v[p + 0x0d] = 0xC0;
    v[p + 0x10..p + 0x14].copy_from_slice(&(data.len() as u32).to_le_bytes());
    v[p + 0x20..p + 0x24].copy_from_slice(&8363u32.to_le_bytes());
    v[p + 0x30..p + 0x34].copy_from_slice(b"Kick");
    v[p + 0x4c..p + 0x50].copy_from_slice(b"SCRS");
    v.extend_from_slice(data);
    v
}

/// An Unreal package (version 68) that holds `inner`.
fn umx_file(inner: &[u8]) -> Vec<u8> {
    let mut v = vec![0u8; 107];
    v[0..4].copy_from_slice(&[0xC1, 0x83, 0x2A, 0x9E]);
    v[4] = 68;
    v[12] = 2;
    v[16] = 28;
    v[24] = 60;
    v[28..34].copy_from_slice(&[5, b'N', b'o', b'n', b'e', 0]);
    v[38..45].copy_from_slice(&[6, b'M', b'u', b's', b'i', b'c', 0]);
    // export: class, super, group, name, flags, serial size, serial offset
    v[60] = 0;
    v[61] = 0;
    v[66] = 0;
    v[71] = 5;
    v[72..74].copy_from_slice(&[0x64, 0x01]);
    // object at 100: name index, 4 bytes, size, inner size
    v.extend_from_slice(inner);
    v
}

#[test]
fn mod_loads_its_sample() {
    let m = MOD::load(mod_file(b"M.K.", &[1, 2, 3, 4])).unwrap();
    assert_eq!(m.info.name, "Song");
    assert_eq!(m.info.format, "Amiga ProTracker");
    assert_eq!(m.samples.len(), 1);
    let s = &m.samples[0];
    assert_eq!(s.name, "Kick");
    assert_eq!(s.length, 4);
    assert_eq!(s.pointer, 2108);
    assert_eq!(s.rate, 16726);
    assert_eq!(s.looping.start, 0);
    assert_eq!(s.looping.stop, 2);
    assert_eq!(s.looping.kind, LoopType::Forward);
    assert_eq!(m.pcm(s).unwrap(), vec![1, 2, 3, 4]);
}

/// A ProTracker 3.6 project: an IFF `FORM` of type `MODL` with a version
/// chunk of odd length (padded) and the module in a `PTDT` chunk.
fn pt36_file(module: &[u8]) -> Vec<u8> {
    let mut body = Vec::new();
    body.extend_from_slice(b"MODL");
    body.extend_from_slice(b"VERS");
    body.extend_from_slice(&3u32.to_be_bytes());
    body.extend_from_slice(b"3.6\0");
    body.extend_from_slice(b"PTDT");
    body.extend_from_slice(&(module.len() as u32).to_be_bytes());
    body.extend_from_slice(module);
    let mut v = Vec::new();
    v.extend_from_slice(b"FORM");
    v.extend_from_slice(&(body.len() as u32).to_be_bytes());
    v.extend_from_slice(&body);
    v
}

#[test]
fn mod_loads_protracker_36_project() {
    let module = mod_file(b"M.K.", &[1, 2, 3, 4]);
    let m = MOD::load(pt36_file(&module)).unwrap();
    assert_eq!(m.info.name, "Song");
    assert_eq!(m.samples.len(), 1);
    assert_eq!(m.samples[0].pointer, 2108);
    assert_eq!(m.pcm(&m.samples[0]).unwrap(), vec![1, 2, 3, 4]);
    assert_eq!(m.inner, module);
    let m = load_module(pt36_file(&module), &rate_of).unwrap();
    assert_eq!(m.info.format, "Amiga ProTracker");
    assert_eq!(m.pcm(&m.samples[0]).unwrap(), vec![1, 2, 3, 4]);
    assert_eq!(check_iff(&pt36_file(&module)).unwrap(), Some(module.clone()));
    assert_eq!(check_iff(&module).unwrap(), None);
    // a module data chunk that runs past the end of the file is cut there
    let mut cut = pt36_file(&module);
    cut.truncate(cut.len() - 1);
    assert_eq!(check_iff(&cut).unwrap(), Some(module[..module.len() - 1].to_vec()));
    let mut empty = pt36_file(&module);
    empty[24..28].copy_from_slice(b"INFO");
    assert!(matches!(MOD::load(empty), Err(Error::InvalidModule(m)) if m == "ProTracker 3.6 project holds no module"));
}

#[test]
fn mod_refuses_other_containers() {
    let mut pp = mod_file(b"M.K.", &[1, 2]);
    pp[0..4].copy_from_slice(b"PP20");
    assert!(matches!(MOD::load(pp), Err(Error::UnsupportedModule(m)) if m == "XPK compressed MOD files are not supported"));
    // an IFF file of another type than a ProTracker 3.6 project
    let mut form = mod_file(b"M.K.", &[1, 2]);
    form[0..4].copy_from_slice(b"FORM");
    form[8..12].copy_from_slice(b"8SVX");
    assert!(matches!(MOD::load(form), Err(Error::UnsupportedModule(m)) if m == "IFF MOD files are not yet supported"));
    assert!(matches!(MOD::load(vec![0u8; 100]), Err(Error::Io(_))));
    assert!(matches!(MOD::load(vec![0u8; 2]), Err(Error::Io(_))));
}

#[test]
fn mod_refuses_garbage() {
    let mut v = mod_file(b"M.K.", &[]);
    for k in 0..31 {
        v[20 + 30 * k + 24] = 0x10;
        v[20 + 30 * k + 25] = 65;
    }
    assert!(matches!(MOD::load(v), Err(Error::InvalidModule(m)) if m == "Not a valid MOD file, contains too much invalid samples"));
}

#[test]
fn mod_info_from_signatures() {
    let i = MODInfo::generate(*b"M.K.");
    assert_eq!((i.channels, i.samples), (4, 31));
    let i = MODInfo::generate(*b"CD81");
    assert_eq!((i.channels, i.samples), (8, 31));
    let i = MODInfo::generate(*b"12CH");
    assert_eq!((i.channels, i.samples), (12, 31));
    let i = MODInfo::generate(*b"6CHN");
    assert_eq!((i.channels, i.samples), (6, 31));
    let i = MODInfo::generate(*b"FLT8");
    assert_eq!((i.channels, i.samples), (8, 31));
    let i = MODInfo::generate(*b"\0\0\0\0");
    assert_eq!((i.channels, i.samples), (4, 15));
}

#[test]
fn mod_helpers() {
    assert_eq!(get_invalid_score(65, 16, 10, 4), 3);
    assert_eq!(get_invalid_score(64, 15, 8, 4), 0);
    assert_eq!(max(&[3, 200, 127, 5]), 127);
    assert_eq!(max(&[]), 0);
}

#[test]
fn s3m_loads_its_sample() {
    let m = S3M::load(s3m_file(&[9, 8, 7, 6])).unwrap();
    assert_eq!(m.info.name, "Tune");
    assert_eq!(m.info.format, "Scream Tracker");
    assert_eq!(m.samples.len(), 1);
    let s = &m.samples[0];
    assert_eq!(s.name, "Kick");
    assert_eq!(s.filename.as_deref(), Some("kick.raw"));
    assert_eq!(s.pointer, 0xC0);
    assert_eq!(s.length, 4);
    assert_eq!(s.rate, 8363);
    assert_eq!(s.depth, Depth::I8);
    assert_eq!(s.channel, Channel::Mono);
    assert_eq!(m.pcm(s).unwrap(), vec![9, 8, 7, 6]);
}

#[test]
fn s3m_refuses_invalid() {
    let mut v = s3m_file(&[1]);
    v[29] = 0;
    assert!(matches!(S3M::load(v), Err(Error::InvalidModule(m)) if m == "Not a valid Scream Tracker module"));
    assert!(matches!(S3M::load(vec![0u8; 10]), Err(Error::Io(_))));
}

#[test]
fn it_refuses_invalid() {
    assert!(matches!(IT::load(b"ziRCONia and more".to_vec()), Err(Error::UnsupportedModule(_))));
    assert!(matches!(IT::load(vec![0u8; 300]), Err(Error::InvalidModule(m)) if m == "Not a valid Impulse Tracker module"));
    assert!(matches!(IT::load(vec![0u8; 3]), Err(Error::Io(_))));
    assert!(IT::matches_format(b"IMPM...."));
    assert!(!IT::matches_format(b"IMP"));
}

#[test]
fn xm_empty_module() {
    let mut v = vec![0u8; 80];
    v[0..17].copy_from_slice(b"Extended Module: ");
    v[17..22].copy_from_slice(b"Tunes");
    v[37] = 0x1a;
    v[58] = 0x04;
    v[59] = 0x01;
    v[60] = 14;
    let m = XM::load(v.clone(), &rate_of).unwrap();
    assert_eq!(m.info.name, "Tunes");
    assert_eq!(m.info.format, "Extended Module");
    assert!(m.samples.is_empty());
    v[58] = 0x03;
    assert!(matches!(XM::load(v.clone(), &rate_of), Err(Error::UnsupportedModule(m)) if m == "Extended Module is below version 0104"));
    v[58] = 0x04;
    v[37] = 0;
    assert!(matches!(XM::load(v, &rate_of), Err(Error::InvalidModule(m)) if m == "Not a valid Extended Module"));
}

#[test]
fn umx_holds_a_module() {
    let inner = mod_file(b"M.K.", &[5, 6]);
    let package = umx_file(&inner);
    assert_eq!(locate_module(&package).unwrap(), 107);
    assert_eq!(identify_module(&package).unwrap(), Format::UMX);
    let m = UMX::load(package.clone(), &rate_of).unwrap();
    assert_eq!(m.info.format, "Amiga ProTracker");
    assert_eq!(m.inner, inner);
    assert_eq!(m.samples.len(), 1);
    assert_eq!(m.pcm(&m.samples[0]).unwrap(), vec![5, 6]);
    let m2 = load_module(package, &rate_of).unwrap();
    assert_eq!(m2.samples.len(), 1);
}

#[test]
fn umx_refusals() {
    let inner = mod_file(b"M.K.", &[5, 6]);
    let mut p = umx_file(&inner);
    p[4] = 60;
    assert!(matches!(UMX::load(p, &rate_of), Err(Error::UnsupportedModule(m)) if m == "UMX versions under 61 are not supported"));
    let mut p = umx_file(&inner);
    p[39] = b'N';
    assert!(matches!(UMX::load(p, &rate_of), Err(Error::InvalidModule(m)) if m == "Unreal Package does not contain any music"));
    let mut p = umx_file(&inner);
    p[71] = 0;
    assert!(matches!(UMX::load(p, &rate_of), Err(Error::InvalidModule(m)) if m == "UMX doesn't contain anything"));
    let nested = umx_file(&umx_file(&inner));
    assert!(matches!(UMX::load(nested, &rate_of), Err(Error::InvalidModule(m)) if m == "Nested Unreal music containers are invalid"));
    assert!(matches!(UMX::load(vec![1, 2, 3, 4, 5], &rate_of), Err(Error::InvalidModule(m)) if m == "Not a valid Unreal package"));
    assert!(matches!(UMX::load(vec![0xC1, 0x83], &rate_of), Err(Error::Io(_))));
}

#[test]
fn compact_index_sign_and_end() {
    assert_eq!(read_compact_index(&[0x81], 0).unwrap(), (-1, 1));
    assert_eq!(read_compact_index(&[0, 0x0a], 1).unwrap(), (10, 2));
    assert!(matches!(read_compact_index(&[0x40], 0), Err(Error::Io(_))));
    assert!(matches!(read_compact_index(&[], 0), Err(Error::Io(_))));
}

#[test]
fn identify_formats() {
    assert_eq!(identify_module(b"IMPM").unwrap(), Format::IT);
    assert_eq!(identify_module(b"Extended Module: x").unwrap(), Format::XM);
    assert_eq!(identify_module(&[0xC1, 0x83, 0x2A, 0x9E]).unwrap(), Format::UMX);
    assert_eq!(identify_module(b"anything else").unwrap(), Format::MOD);
    assert_eq!(identify_module(&[]).unwrap(), Format::MOD);
}

#[test]
fn load_module_dispatches() {
    let m = load_module(s3m_file(&[1, 2]), &rate_of).unwrap();
    assert_eq!(m.info.format, "Scream Tracker");
    let m = load_module(mod_file(b"M.K.", &[1, 2]), &rate_of).unwrap();
    assert_eq!(m.info.format, "Amiga ProTracker");
    assert_eq!(m.samples[0].pcm_type, PcmType::PCM);
}

#[test]
fn umx_old_name_table() {
    let inner = mod_file(b"M.K.", &[5, 6]);
    let mut v = umx_file(&inner);
    v[4] = 62;
    for b in v[28..60].iter_mut() {
        *b = 0;
    }
    v[28..33].copy_from_slice(b"None\0");
    v[37..43].copy_from_slice(b"Music\0");
    assert_eq!(locate_module(&v).unwrap(), 107);
    let m = UMX::load(v, &rate_of).unwrap();
    assert_eq!(m.samples.len(), 1);
}

#[test]
fn format_names() {
    assert_eq!(Format::IT.to_string(), "Impulse Tracker");
    assert_eq!(Format::XM.to_string(), "Fasttracker 2 Extended Module");
    assert_eq!(Format::UMX.to_string(), "Unreal Music Container");
}

#[test]
fn module_source() {
    let mut m = MOD::load(mod_file(b"M.K.", &[1, 2])).unwrap();
    assert_eq!(m.source(), None);
    m.set_source("music/song.mod".to_string());
    assert_eq!(m.source(), Some("music/song.mod"));
    assert_eq!(m.samples.len(), 1);
}

/// An Impulse Tracker module with one sample header of the given flags,
/// whose data is `data`.
fn it_file(flags: u8, frames: u32, data: &[u8]) -> Vec<u8> {
    let mut v = vec![0u8; 0x120];
    v[0..4].copy_from_slice(b"IMPM");
    v[4..8].copy_from_slice(b"Song");
    v[0x24] = 1;
    v[0x2a..0x2c].copy_from_slice(&0x0214u16.to_le_bytes());
    v[0xc0..0xc4].copy_from_slice(&0xd0u32.to_le_bytes());
    let p = 0xd0;
    v[p..p + 4].copy_from_slice(b"IMPS");
    v[p + 4..p + 12].copy_from_slice(b"kick.its");
    v[p + 0x12] = flags;
    v[p + 0x14..p + 0x18].copy_from_slice(b"Kick");
    v[p + 0x2e] = 1;
    v[p + 0x30..p + 0x34].copy_from_slice(&frames.to_le_bytes());
    v[p + 0x38..p + 0x3c].copy_from_slice(&frames.to_le_bytes());
    v[p + 0x3c..p + 0x40].copy_from_slice(&8363u32.to_le_bytes());
    v[p + 0x48..p + 0x4c].copy_from_slice(&0x120u32.to_le_bytes());
    v.extend_from_slice(data);
    v
}

#[test]
fn it_loads_its_sample() {
    let m = IT::load(it_file(0x11, 4, &[4, 3, 2, 1])).unwrap();
    assert_eq!(m.info.name, "Song");
    assert_eq!(m.info.format, "Impulse Tracker");
    assert_eq!(m.samples.len(), 1);
    let s = &m.samples[0];
    assert_eq!(s.name, "Kick");
    assert_eq!(s.filename.as_deref(), Some("kick.its"));
    assert_eq!(s.length, 4);
    assert_eq!(s.rate, 8363);
    assert_eq!(s.pointer, 0x120);
    assert_eq!(s.depth, Depth::I8);
    assert_eq!(s.pcm_type, PcmType::PCM);
    assert_eq!(s.looping.kind, LoopType::Forward);
    assert_eq!(s.looping.stop, 4);
    assert_eq!(m.pcm(s).unwrap(), vec![4, 3, 2, 1]);
}

#[test]
fn it_compressed_sample() {
    let m = IT::load(it_file(0x09, 2, &[0x03, 0x00, 0x05, 0x06, 0x00])).unwrap();
    let s = &m.samples[0];
    assert_eq!(s.pcm_type, PcmType::IT214);
    assert_eq!(m.pcm(s).unwrap(), vec![5, 8]);
}

#[test]
fn it_sample_past_the_end_is_left_out() {
    let m = IT::load(it_file(0x01, 100, &[1, 2])).unwrap();
    assert!(m.samples.is_empty());
}

#[test]
fn xm_loads_an_instrument() {
    let mut v = vec![0u8; 74];
    v[0..17].copy_from_slice(b"Extended Module: ");
    v[17..21].copy_from_slice(b"Tune");
    v[37] = 0x1a;
    v[58] = 0x04;
    v[59] = 0x01;
    v[60] = 14;
    v[72] = 1;
    // instrument header: size, name, type, sample count
    let mut ins = vec![0u8; 29];
    ins[0] = 29;
    ins[4..8].copy_from_slice(b"Lead");
    ins[27] = 1;
    v.extend_from_slice(&ins);
    // sample header
    let mut smp = vec![0u8; 40];
    smp[0] = 4;
    smp[18..21].copy_from_slice(b"Saw");
    v.extend_from_slice(&smp);
    v.extend_from_slice(&[1, 1, 1, 1]);
    let m = XM::load(v, &rate_of).unwrap();
    assert_eq!(m.info.name, "Tune");
    assert_eq!(m.samples.len(), 1);
    let s = &m.samples[0];
    assert_eq!(s.name, "Saw");
    assert_eq!(s.filename.as_deref(), Some("Lead"));
    assert_eq!(s.rate, 8363);
    assert_eq!(s.pointer, 143);
    assert_eq!(s.pcm_type, PcmType::DELTA);
    assert_eq!(m.pcm(s).unwrap(), vec![1, 2, 3, 4]);
}
