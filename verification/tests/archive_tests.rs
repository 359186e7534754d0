use std::io::Read;

use resumable_transfer::archive::{
    base_name_of, build_archive, entry_name_of, first_unnamed, ArchiveError, Probe, SourceFile,
};

fn file(path: &str, contents: &[u8]) -> SourceFile {
    SourceFile { path: path.to_string(), probe: Probe::File(contents.to_vec()) }
}

fn missing(path: &str) -> SourceFile {
    SourceFile { path: path.to_string(), probe: Probe::Missing }
}

fn directory(path: &str) -> SourceFile {
    SourceFile { path: path.to_string(), probe: Probe::Directory }
}

fn unpack(bytes: &[u8]) -> Vec<(String, u32, Vec<u8>)> {
    let mut archive = tar::Archive::new(flate2::read::GzDecoder::new(bytes));
    let mut found = Vec::new();
    for entry in archive.entries().unwrap() {
        let mut entry = entry.unwrap();
        let name = entry.path().unwrap().to_str().unwrap().to_string();
        let mode = entry.header().mode().unwrap();
        let mut contents = Vec::new();
        entry.read_to_end(&mut contents).unwrap();
        found.push((name, mode, contents));
    }
    found
}

#[test]
fn base_name_is_the_last_component() {
    assert_eq!(base_name_of("fileA.txt"), Some("fileA.txt".to_string()));
    assert_eq!(base_name_of("tmp/foo.txt"), Some("foo.txt".to_string()));
    assert_eq!(base_name_of("/usr/bin/tool"), Some("tool".to_string()));
    assert_eq!(base_name_of("a/b/c"), Some("c".to_string()));
    assert_eq!(base_name_of("./a"), Some("a".to_string()));
    assert_eq!(base_name_of("a/../b"), Some("b".to_string()));
    assert_eq!(base_name_of(".hidden"), Some(".hidden".to_string()));
    assert_eq!(base_name_of("..."), Some("...".to_string()));
    assert_eq!(base_name_of("dir/..name"), Some("..name".to_string()));
}

#[test]
fn base_name_looks_past_trailing_separators_and_dots() {
    assert_eq!(base_name_of("/usr/bin/"), Some("bin".to_string()));
    assert_eq!(base_name_of("foo.txt/."), Some("foo.txt".to_string()));
    assert_eq!(base_name_of("foo.txt/.//"), Some("foo.txt".to_string()));
    assert_eq!(base_name_of("a//b//"), Some("b".to_string()));
    assert_eq!(base_name_of("a/././."), Some("a".to_string()));
}

#[test]
fn some_paths_have_no_base_name() {
    assert_eq!(base_name_of(""), None);
    assert_eq!(base_name_of("/"), None);
    assert_eq!(base_name_of("//"), None);
    assert_eq!(base_name_of("."), None);
    assert_eq!(base_name_of("./"), None);
    assert_eq!(base_name_of(".."), None);
    assert_eq!(base_name_of("foo.txt/.."), None);
    assert_eq!(base_name_of("a/../"), None);
    assert_eq!(base_name_of("a/.././"), None);
}

#[test]
fn base_name_agrees_with_the_platform_on_unix_paths() {
    for path in [
        "", "/", ".", "..", "a", "a/", "a/b", "a/b/", "a/.", "a/..", "./a", "../a", "a//b", "/a",
        "a/./b", "a/b/.", "a/b/..", "a/b/../", ".a", "a.", "..a", "a..", "a/...", "/./", "/../",
        "\u{e9}t\u{e9}/na\u{ef}ve.txt",
    ] {
        let expected = std::path::Path::new(path)
            .file_name()
            .map(|name| name.to_str().unwrap().to_string());
        assert_eq!(base_name_of(path), expected, "{:?}", path);
    }
}

#[test]
fn archive_round_trips_through_a_standard_reader() {
    let sources = vec![
        file("data/A", b"alpha"),
        file("/srv/files/B", b"bravo bravo"),
        file("C", b""),
    ];
    let archive = build_archive(&sources).unwrap();
    assert_eq!(
        unpack(&archive.bytes),
        vec![
            ("A".to_string(), 0o644, b"alpha".to_vec()),
            ("B".to_string(), 0o644, b"bravo bravo".to_vec()),
            ("C".to_string(), 0o644, Vec::new()),
        ]
    );
    assert!(archive.skipped.is_empty());
}

#[test]
fn archive_keeps_the_order_of_the_sources() {
    let sources = vec![file("z", b"last letter"), file("a", b"first letter"), file("m", b"mid")];
    let archive = build_archive(&sources).unwrap();
    let names: Vec<String> = unpack(&archive.bytes).into_iter().map(|e| e.0).collect();
    assert_eq!(names, vec!["z", "a", "m"]);
}

#[test]
fn archive_of_nothing_is_an_empty_archive() {
    let archive = build_archive(&Vec::new()).unwrap();
    assert!(!archive.bytes.is_empty());
    assert!(unpack(&archive.bytes).is_empty());
    assert!(archive.skipped.is_empty());
}

#[test]
fn archive_is_a_gzip_stream() {
    let archive = build_archive(&vec![file("fileA.txt", b"hello")]).unwrap();
    assert_eq!(&archive.bytes[..3], &[0x1f, 0x8b, 8]);
}

#[test]
fn missing_sources_and_directories_are_skipped() {
    let sources = vec![
        missing("gone.txt"),
        file("kept.txt", b"kept"),
        directory("some/dir"),
        file("also/kept.txt", b"also kept"),
        missing(""),
    ];
    let archive = build_archive(&sources).unwrap();
    assert_eq!(archive.skipped, vec![0, 2, 4]);
    assert_eq!(
        unpack(&archive.bytes),
        vec![
            ("kept.txt".to_string(), 0o644, b"kept".to_vec()),
            ("kept.txt".to_string(), 0o644, b"also kept".to_vec()),
        ]
    );
}

#[test]
fn skipped_sources_leave_no_trace_in_the_stream() {
    let with_gaps =
        vec![missing("gone.txt"), file("kept.txt", b"kept"), directory("dir"), missing("..")];
    let without = vec![file("kept.txt", b"kept")];
    assert_eq!(build_archive(&with_gaps).unwrap().bytes, build_archive(&without).unwrap().bytes);
}

#[test]
fn file_without_a_base_name_fails_the_build() {
    let sources = vec![file("ok.txt", b"ok"), missing(".."), file("dir/..", b"x"), file("/", b"y")];
    assert!(matches!(build_archive(&sources), Err(ArchiveError::InvalidSource { index: 2 })));
    assert_eq!(first_unnamed(&sources), Some(2));
}

#[test]
fn first_unnamed_finds_only_regular_files() {
    assert_eq!(first_unnamed(&Vec::new()), None);
    assert_eq!(first_unnamed(&vec![missing(""), directory("/"), missing("..")]), None);
    assert_eq!(first_unnamed(&vec![file("a", b""), file("b/c", b"")]), None);
    assert_eq!(first_unnamed(&vec![file("", b"")]), Some(0));
}

#[test]
fn entry_name_is_the_base_name_without_nul() {
    assert_eq!(entry_name_of("dir/fileA.txt"), Some("fileA.txt".to_string()));
    assert_eq!(entry_name_of("dir\0/fileA.txt"), Some("fileA.txt".to_string()));
    assert_eq!(entry_name_of("a/b/"), Some("b".to_string()));
    assert_eq!(entry_name_of("bad\0name"), None);
    assert_eq!(entry_name_of("dir/\0"), None);
    assert_eq!(entry_name_of("dir/name\0"), None);
    assert_eq!(entry_name_of("dir/.."), None);
    assert_eq!(entry_name_of(""), None);
    // The base name itself is still there.
    assert_eq!(base_name_of("bad\0name"), Some("bad\0name".to_string()));
}

#[test]
fn first_invalid_source_is_the_one_reported() {
    let sources = vec![file("bad\0name", b"x"), file("..", b"y")];
    assert!(matches!(build_archive(&sources), Err(ArchiveError::InvalidSource { index: 0 })));
    let sources = vec![file("..", b"y"), file("bad\0name", b"x")];
    assert!(matches!(build_archive(&sources), Err(ArchiveError::InvalidSource { index: 0 })));
}

#[test]
fn name_with_a_nul_is_an_invalid_source() {
    let sources = vec![file("ok.txt", b"ok"), file("bad\0name", b"x")];
    assert!(matches!(build_archive(&sources), Err(ArchiveError::InvalidSource { index: 1 })));
    assert_eq!(first_unnamed(&sources), Some(1));
}

#[test]
fn nul_far_back_in_a_long_name_is_an_invalid_source() {
    let path = format!("{}\0tail", "n".repeat(200));
    let sources = vec![file(&path, b"x")];
    assert!(matches!(build_archive(&sources), Err(ArchiveError::InvalidSource { index: 0 })));
}

#[test]
fn every_nameable_file_is_archived() {
    // Names of every length around the header's limit, and of odd content.
    let mut sources = Vec::new();
    for len in [1usize, 2, 99, 100, 101, 155, 255, 256, 1000] {
        sources.push(file(&"x".repeat(len), b"data"));
    }
    for name in ["...", "..a", "a..", " ", "-", "~", "a\\b", "\u{e9}t\u{e9}", "\u{1F600}", "a\tb", "\n"] {
        sources.push(file(name, name.as_bytes()));
    }
    let archive = build_archive(&sources).unwrap();
    let found = unpack(&archive.bytes);
    assert_eq!(found.len(), sources.len());
    for (entry, source) in found.iter().zip(&sources) {
        assert_eq!(entry.0, source.path);
    }
}

#[test]
fn long_names_are_stored_whole() {
    let name = "n".repeat(300);
    let path = format!("some/dir/{}", name);
    let archive = build_archive(&vec![file(&path, b"long")]).unwrap();
    assert_eq!(unpack(&archive.bytes), vec![(name, 0o644, b"long".to_vec())]);
}

#[test]
fn contents_of_any_size_come_back_unchanged() {
    let mut big = Vec::new();
    for i in 0..200_000u32 {
        big.push((i.wrapping_mul(2654435761) >> 13) as u8);
    }
    let archive =
        build_archive(&vec![file("one", &big[..511]), file("two", &big[..512]), file("big", &big)])
            .unwrap();
    let found = unpack(&archive.bytes);
    assert_eq!(found.len(), 3);
    assert_eq!(found[0].2, &big[..511]);
    assert_eq!(found[1].2, &big[..512]);
    assert_eq!(found[2].2, big);
}

#[test]
fn same_sources_give_the_same_bytes() {
    let sources = vec![file("fileA.txt", b"hello"), missing("x"), file("fileB.txt", b"goodbye")];
    let first = build_archive(&sources).unwrap();
    let second = build_archive(&sources).unwrap();
    assert_eq!(first.bytes, second.bytes);
    assert_eq!(first.skipped, second.skipped);
}

#[test]
fn different_contents_give_different_bytes() {
    let one = build_archive(&vec![file("f", b"hello")]).unwrap();
    let other = build_archive(&vec![file("f", b"help!")]).unwrap();
    let renamed = build_archive(&vec![file("g", b"hello")]).unwrap();
    assert_ne!(one.bytes, other.bytes);
    assert_ne!(one.bytes, renamed.bytes);
}
