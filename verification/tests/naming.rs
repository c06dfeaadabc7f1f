use xmodits_lib::error::{does_not_exist, no_filename, not_empty, too_large, Error};
use xmodits_lib::export::AudioFormat;
use xmodits_lib::info::Info;
use xmodits_lib::module::{GenericTracker, Info as ModuleInfo};
use xmodits_lib::name::{build_context, create_folder_name, folder_name_of, source_name, source_name_of, Context, SampleNamer};
use xmodits_lib::sample::Sample;
use xmodits_lib::text::{to_str_os, zero_pad};

fn named(name: &str) -> Sample {
    Sample { name: name.to_string(), index_raw: 4, ..Default::default() }
}

#[test]
fn default_namer() {
    let namer = SampleNamer::default();
    let ctx = Context::new(5, "wav", 5);
    assert_eq!(namer.file_name(&named("kick.wav"), &ctx, 0), "01 - kick.wav");
    assert_eq!(namer.file_name(&named("a.b.c"), &ctx, 9), "10 - a_b_c.wav");
    assert_eq!(namer.file_name(&named(""), &ctx, 2), "03.wav");
    let f = namer.to_func();
    assert_eq!(f(&named("snare"), &ctx, 1), "02 - snare.wav");
}

#[test]
fn namer_options() {
    let ctx = Context::new(5, ".wav.", 150);
    let upper = SampleNamer { upper: true, ..Default::default() };
    assert_eq!(upper.file_name(&named("kick.wav"), &ctx, 0), "01 - KICK.wav");
    let lower = SampleNamer { lower: true, ..Default::default() };
    assert_eq!(lower.file_name(&named("KICK.WAV"), &ctx, 0), "01 - kick.wav");
    let raw = SampleNamer { index_raw: true, ..Default::default() };
    assert_eq!(raw.file_name(&named("kick"), &ctx, 0), "005 - kick.wav");
    let only = SampleNamer { index_only: true, index_padding: 0, ..Default::default() };
    assert_eq!(only.file_name(&named("kick"), &ctx, 6), "7.wav");
    let mut s = named("name");
    s.filename = Some("file.raw".to_string());
    let by_name = SampleNamer { prefer_filename: false, ..Default::default() };
    assert_eq!(by_name.file_name(&s, &ctx, 0), "01 - name.wav");
    assert_eq!(SampleNamer::default().file_name(&s, &ctx, 0), "01 - file_raw.wav");
    let odd = named("a/b:c");
    assert_eq!(SampleNamer::default().file_name(&odd, &ctx, 0), "01 - a_b_c.wav");
}

#[test]
fn namer_prefix() {
    let namer = SampleNamer { prefix_source: true, ..Default::default() };
    let ctx = Context { total: 2, extension: "wav", highest: 2, source_path: None };
    assert_eq!(namer.file_name(&named("kick"), &ctx, 0), "01 - kick.wav");
    assert_eq!(namer.file_name_with_prefix(&named("kick"), &ctx, 0, Some("song_it")), "song_it - 01 - kick.wav");
    let ctx = Context { total: 2, extension: "wav", highest: 2, source_path: Some("music/song.it") };
    assert_eq!(namer.file_name(&named("kick"), &ctx, 0), "song_it - 01 - kick.wav");
}

#[test]
fn source_names() {
    assert_eq!(source_name(Some("a/b/song.mod"), false), Some("song".to_string()));
    assert_eq!(source_name(Some("a/b/song.mod"), true), Some("song_mod".to_string()));
    assert_eq!(source_name(None, true), None);
    assert_eq!(source_name_of(".hidden", false), Some("".to_string()));
    assert_eq!(source_name_of("", false), None);
    assert_eq!(folder_name_of("a.b.it"), "a_b_it");
    assert_eq!(create_folder_name("dir/test_module.it"), Some("test_module_it".to_string()));
    assert_eq!(create_folder_name("/"), None);
}

#[test]
fn context_of_a_module() {
    let samples = vec![
        Sample { index_raw: 3, ..Default::default() },
        Sample { index_raw: 9, ..Default::default() },
        Sample { index_raw: 1, ..Default::default() },
    ];
    let mut info = ModuleInfo::default();
    info.source = Some("x/y.it".to_string());
    let m = GenericTracker { info, inner: vec![], samples };
    let ctx = build_context(&m, &AudioFormat::ITS);
    assert_eq!(ctx.total, 3);
    assert_eq!(ctx.highest, 10);
    assert_eq!(ctx.extension, "its");
    assert_eq!(ctx.source_path, Some("x/y.it"));
}

#[test]
fn module_info() {
    let samples = vec![
        Sample { length: 1500, ..Default::default() },
        Sample { length: 600, ..Default::default() },
    ];
    let info = ModuleInfo { name: "Song".to_string(), format: "Scream Tracker".to_string(), ..Default::default() };
    let m = GenericTracker { info, inner: vec![], samples };
    let i = Info::new(&m);
    assert_eq!(i.name, "Song");
    assert_eq!(i.format, "Scream Tracker");
    assert_eq!(i.total_samples, 2);
    assert_eq!(i.total_sample_size, 2);
    assert_eq!(m.len(), 2);
    assert!(!m.is_empty());
    assert_eq!(m.source(), None);
    assert_eq!(m.raw(), &[] as &[u8]);
}

#[test]
fn error_messages() {
    assert!(matches!(too_large(48 * 1024 * 1024), Error::Io(m) if m == "File is larger than 48 MB"));
    assert!(matches!(does_not_exist("out"), Error::Io(m) if m == "Directory 'out' does not exist"));
    assert!(matches!(not_empty("out"), Error::Io(m) if m == "'out' is not empty"));
    assert!(matches!(no_filename(), Error::Io(m) if m == "Could not obtain file name"));
}

#[test]
fn text_helpers() {
    assert_eq!(to_str_os("a\\b/c:d*e?f\"g<h>i|j"), "a_b_c_d_e_f_g_h_i_j");
    assert_eq!(zero_pad(7, 3).into_iter().collect::<String>(), "007");
    assert_eq!(zero_pad(12345, 2).into_iter().collect::<String>(), "12345");
    assert_eq!(zero_pad(0, 0).into_iter().collect::<String>(), "0");
}

#[test]
fn single_component_paths() {
    assert_eq!(create_folder_name("song.it"), Some("song_it".to_string()));
    assert_eq!(source_name(Some("song.mod"), false), Some("song".to_string()));
    assert_eq!(source_name(Some("song.mod"), true), Some("song_mod".to_string()));
}

#[test]
fn padding_falls_back_to_digits_of_total() {
    let namer = SampleNamer { index_only: true, index_padding: 1, ..Default::default() };
    let ctx = Context { total: 150, extension: "wav", highest: 150, source_path: None };
    assert_eq!(namer.file_name(&Sample::default(), &ctx, 4), "005.wav");
    let wide = SampleNamer { index_only: true, index_padding: 0, ..Default::default() };
    let big = Context { total: 123_456, extension: "wav", highest: 1, source_path: None };
    assert_eq!(wide.file_name(&Sample::default(), &big, 0), "000001.wav");
    assert_eq!((wide.to_func())(&Sample::default(), &ctx, 149), "150.wav");
}

#[test]
fn names_from_the_last_component() {
    assert_eq!(create_folder_name("mods/a.b.xm"), Some("a_b_xm".to_string()));
    assert_eq!(create_folder_name("./mod_test.it/"), Some("mod_test_it".to_string()));
    assert_eq!(create_folder_name("/srv/music//song.s3m//"), Some("song_s3m".to_string()));
    assert_eq!(create_folder_name("/"), None);
    assert_eq!(create_folder_name(""), None);
    assert_eq!(create_folder_name("mods/.."), None);
    assert_eq!(source_name(Some("music/song.mod"), true), Some("song_mod".to_string()));
    assert_eq!(source_name(Some("music/song.mod"), false), Some("song".to_string()));
    assert_eq!(source_name(Some("/"), false), None);
    assert_eq!(source_name(Some("music/../"), true), None);
}
