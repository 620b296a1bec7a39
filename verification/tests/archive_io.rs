use std::io::Cursor;
use std::io::Write;

use modkit::Action;
use modkit::ExtractError;
use modkit::archive_len;
use modkit::entry_extract_actions;
use modkit::extract_actions;
use modkit::open_archive;
use modkit::read_archive;
use modkit::read_entry;

fn build_zip(files: &[(&str, &[u8])], dirs: &[&str]) -> Vec<u8> {
    let mut w = zip::ZipWriter::new(Cursor::new(Vec::new()));
    let opts = zip::write::SimpleFileOptions::default();
    for (name, data) in files {
        w.start_file(*name, opts).unwrap();
        w.write_all(data).unwrap();
    }
    for dir in dirs {
        w.add_directory(*dir, opts).unwrap();
    }
    w.finish().unwrap().into_inner()
}

#[test]
fn read_archive_round_trips_entries() {
    let bytes = build_zip(&[("BepInEx/core/foo.dll", b"hello world!")], &["BepInEx/config"]);
    let entries = read_archive(&bytes).unwrap();
    assert_eq!(entries.len(), 2);
    assert_eq!(entries[0].name, "BepInEx/core/foo.dll");
    assert_eq!(entries[0].mangled, "BepInEx/core/foo.dll");
    assert_eq!(entries[0].data, b"hello world!".to_vec());
    assert_eq!(entries[1].name, "BepInEx/config/");
    assert_eq!(entries[1].mangled, "BepInEx/config");
    assert_eq!(entries[1].data, Vec::<u8>::new());
}

#[test]
fn extraction_scenario_places_file_and_directory() {
    let bytes = build_zip(&[("BepInEx/core/foo.dll", b"twelve bytes")], &["BepInEx/config"]);
    let entries = read_archive(&bytes).unwrap();
    let plan = extract_actions("dest", &entries, false, "");
    assert_eq!(
        plan,
        vec![
            Action::MkDirAll("dest/BepInEx/core".to_string()),
            Action::WriteFile("dest/BepInEx/core/foo.dll".to_string(), b"twelve bytes".to_vec()),
            Action::MkDirAll("dest/BepInEx/config".to_string()),
        ]
    );
}

#[test]
fn empty_archive_has_no_entries() {
    let bytes = build_zip(&[], &[]);
    let entries = read_archive(&bytes).unwrap();
    assert_eq!(entries, vec![]);
}

#[test]
fn zero_byte_file_entry() {
    let bytes = build_zip(&[("empty.bin", b"")], &[]);
    let entries = read_archive(&bytes).unwrap();
    assert_eq!(entries.len(), 1);
    assert_eq!(entries[0].data, Vec::<u8>::new());
}

#[test]
fn invalid_container_is_an_open_error() {
    let bytes: Vec<u8> = vec![0, 1, 2, 3, 4, 5, 6, 7];
    let err = read_archive(&bytes).unwrap_err();
    assert!(matches!(err, ExtractError::ArchiveOpen(_)));
}

#[test]
fn entry_by_entry_reading() {
    let bytes = build_zip(&[("a.txt", b"one"), ("b.txt", b"two")], &[]);
    let mut archive = open_archive(&bytes).unwrap();
    assert_eq!(archive_len(&archive), 2);
    let e0 = read_entry(&mut archive, 0).unwrap();
    assert_eq!(e0.name, "a.txt");
    assert_eq!(e0.data, b"one".to_vec());
    let e1 = read_entry(&mut archive, 1).unwrap();
    assert_eq!(e1.name, "b.txt");
    assert_eq!(e1.data, b"two".to_vec());
    let plan = entry_extract_actions("d", &e1);
    assert_eq!(
        plan,
        vec![
            Action::MkDirAll("d".to_string()),
            Action::WriteFile("d/b.txt".to_string(), b"two".to_vec()),
        ]
    );
}

#[test]
fn open_archive_rejects_invalid_container() {
    let bytes: Vec<u8> = vec![9; 16];
    let err = open_archive(&bytes).unwrap_err();
    assert!(matches!(err, ExtractError::ArchiveOpen(_)));
}

#[test]
fn first_unreadable_entry_is_identified() {
    let mut bytes = build_zip(&[("a.txt", b"a"), ("b.txt", b"b")], &[]);
    // Break the second local file header; the central directory at the end
    // stays intact, so the first entry still reads.
    let sig = [0x50u8, 0x4b, 0x03, 0x04];
    let mut hits = Vec::new();
    for i in 0..bytes.len() - 3 {
        if bytes[i..i + 4] == sig {
            hits.push(i);
        }
    }
    assert!(hits.len() >= 2);
    for d in 0..4 {
        bytes[hits[1] + d] = 0xff;
    }
    let err = read_archive(&bytes).unwrap_err();
    assert!(matches!(err, ExtractError::Entry(1, _)));
}

#[test]
fn corrupt_entry_is_an_entry_error() {
    let mut bytes = build_zip(&[("a.txt", b"payload")], &[]);
    // Break the first local file header; the central directory at the end
    // stays intact, so the container still opens.
    bytes[0] = 0xff;
    bytes[1] = 0xff;
    bytes[2] = 0xff;
    bytes[3] = 0xff;
    let err = read_archive(&bytes).unwrap_err();
    assert!(matches!(err, ExtractError::Entry(0, _)));
}

#[test]
fn traversal_components_are_sanitized() {
    let bytes = build_zip(&[("sub/../evil.txt", b"x"), ("/abs.txt", b"y")], &[]);
    let entries = read_archive(&bytes).unwrap();
    assert_eq!(entries[0].mangled, "sub/evil.txt");
    assert_eq!(entries[1].mangled, "abs.txt");
    let plan = extract_actions("dest", &entries, false, "");
    assert_eq!(
        plan,
        vec![
            Action::MkDirAll("dest/sub".to_string()),
            Action::WriteFile("dest/sub/evil.txt".to_string(), b"x".to_vec()),
            Action::MkDirAll("dest".to_string()),
            Action::WriteFile("dest/abs.txt".to_string(), b"y".to_vec()),
        ]
    );
}

#[test]
fn deeply_nested_entry() {
    let bytes = build_zip(&[("a/b/c/d/e/f.txt", b"deep")], &[]);
    let entries = read_archive(&bytes).unwrap();
    let plan = extract_actions("root", &entries, false, "");
    assert_eq!(
        plan,
        vec![
            Action::MkDirAll("root/a/b/c/d/e".to_string()),
            Action::WriteFile("root/a/b/c/d/e/f.txt".to_string(), b"deep".to_vec()),
        ]
    );
}
