use xmodits_lib::fmt_umx::read_compact_index;
use xmodits_lib::loader::{identify_module, Format};
use xmodits_lib::name::create_folder_name;

#[test]
fn test1() {
    let path = "./mod_test.it/";
    let name = create_folder_name(path);
    println!("{:?}", name);
    assert_eq!(name, Some("mod_test_it".to_string()));
}

#[test]
fn test_compact_index() {
    let tests: Vec<(i32, &[u8])> = vec![
        (1, &[0x01]),
        (500, &[0x74, 0x07]),
        (1000, &[0x68, 0x0f]),
        (10, &[0x0a]),
        (100, &[0x64, 0x01]),
        (10_000_000, &[0x40, 0xDA, 0xC4, 0x09]),
        (1_000_000_000, &[0x40, 0xA8, 0xD6, 0xB9, 0x07]),
    ];

    for (number, compact) in tests {
        let (expanded, _) = read_compact_index(compact, 0).expect("Compact index");
        assert_eq!(expanded, number);
    }
}

#[test]
fn drain() {
    let mut a = vec![1, 2, 3, 4];
    let a: Vec<u8> = a.drain(1..(1 + 2)).collect();
    println!("{:?}", a);
}

#[test]
fn loader_a() {
    let mut buf = vec![0u8; 0x2c];
    buf.extend_from_slice(b"SCRM");

    let head: &[u8] = &buf;
    let format = identify_module(head);
    println!("{:?}", format);
    assert!(matches!(format, Ok(Format::S3M)));
}

#[test]
fn mod_a() {
    let buf = vec![0];
    println!("{:?}", buf);
}
