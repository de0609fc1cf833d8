use raw_lite_core::discovery::{order_discovered, visit_action, FileKind, Visit};
use raw_lite_core::order::compare_paths;
use raw_lite_core::{is_supported_raw, ConversionOptions};
use std::path::Path;

#[test]
fn recognizes_raw_extensions_case_insensitively() {
    for name in [
        "photo.CR2",
        "photo.arw",
        "photo.Nef",
        "photo.dng",
        "photo.RAF",
    ] {
        assert!(is_supported_raw(name), "expected {name} to be supported");
    }
    for name in ["photo.jpg", "photo.png", "photo", ".dng"] {
        assert!(!is_supported_raw(name), "expected {name} to be ignored");
    }
}

#[test]
fn validates_conversion_options() {
    assert!(ConversionOptions::new(2000, 75).is_ok());
    assert!(ConversionOptions::new(0, 75).is_err());
    assert!(ConversionOptions::new(2000, 0).is_err());
    assert!(ConversionOptions::new(2000, 101).is_err());
}

#[test]
fn options_keep_the_accepted_values_and_name_the_refusal() {
    let options = ConversionOptions::new(2000, 75).unwrap();
    assert_eq!(options.max_dimension(), 2000);
    assert_eq!(options.quality(), 75);
    let edge = ConversionOptions::new(1, 100).unwrap();
    assert_eq!((edge.max_dimension(), edge.quality()), (1, 100));
    assert_eq!(
        ConversionOptions::new(0, 0).unwrap_err().message(),
        "max dimension must be greater than zero"
    );
    assert_eq!(
        ConversionOptions::new(5, 101).unwrap_err().message(),
        "JPEG quality must be between 1 and 100"
    );
}

/// What the standard library's path handling says of RAW support.
fn std_is_supported_raw(path: &str) -> bool {
    const RAW: &[&str] = &[
        "3fr", "arw", "cr2", "cr3", "dcr", "dng", "erf", "fff", "iiq", "kdc", "mef", "mos", "mrw",
        "nef", "nrw", "orf", "pef", "raf", "raw", "rw2", "rwl", "sr2", "srf", "srw", "x3f",
    ];
    Path::new(path)
        .extension()
        .and_then(|e| e.to_str())
        .is_some_and(|e| RAW.contains(&e.to_ascii_lowercase().as_str()))
}

const SAMPLE_PATHS: &[&str] = &[
    "",
    "/",
    ".",
    "..",
    "./",
    "./a",
    "a/.",
    "a/..",
    ".dng",
    "..dng",
    "a..dng",
    "photo.",
    "photo.dng/",
    "photo.dng/.",
    "dir/photo.NEF",
    "dir//photo.Nef",
    "/abs/path/to/IMG_0001.CR3",
    "/abs/./IMG.cr2",
    "name.tar.dng",
    "no_extension",
    "dir.dng/file",
    "ünïcödé.ARW",
    "x.DnG",
    "X3F.x3f",
    "a/b/c.rw2",
    ".hidden/.dng",
    "..//..",
    "a/./b/../c.raw",
];

#[test]
fn raw_recognition_agrees_with_std_paths() {
    for path in SAMPLE_PATHS {
        assert_eq!(is_supported_raw(path), std_is_supported_raw(path), "for {path:?}");
    }
}

#[test]
fn visit_rules_follow_links_to_files_only() {
    // A dangling link is passed over; a broken top-level path fails.
    assert_eq!(visit_action("broken.dng", None, true), Visit::Skip);
    assert_eq!(visit_action("missing.dng", None, false), Visit::Fail);
    // A link to a directory is not entered; a real directory is.
    assert_eq!(visit_action("linked-directory", Some(FileKind::Directory), true), Visit::Skip);
    assert_eq!(visit_action("nested", Some(FileKind::Directory), false), Visit::Descend);
    // Files, linked or not, are collected when they are RAW files.
    assert_eq!(visit_action("photo.dng", Some(FileKind::File), true), Visit::Collect);
    assert_eq!(visit_action("b.NEF", Some(FileKind::File), false), Visit::Collect);
    assert_eq!(visit_action("ignore.jpg", Some(FileKind::File), false), Visit::Skip);
    assert_eq!(visit_action("fifo.dng", Some(FileKind::Other), false), Visit::Skip);
}

/// The standard library's order: file name, then the path.
fn std_order(files: &[&str]) -> Vec<String> {
    let mut paths: Vec<&Path> = files.iter().map(|f| Path::new(*f)).collect();
    paths.sort_by(|left, right| {
        left.file_name()
            .cmp(&right.file_name())
            .then_with(|| left.cmp(right))
    });
    paths.dedup();
    paths.iter().map(|p| p.to_str().unwrap().to_owned()).collect()
}

#[test]
fn lists_discovered_files_by_name_then_path_without_repeats() {
    let files = vec![
        "/tmp/root/b.NEF".to_owned(),
        "/tmp/root/nested/a.dng".to_owned(),
        "/tmp/root/b.NEF".to_owned(),
    ];
    assert_eq!(
        order_discovered(files),
        vec!["/tmp/root/nested/a.dng".to_owned(), "/tmp/root/b.NEF".to_owned()]
    );
}

#[test]
fn listing_order_agrees_with_std_paths() {
    let samples: Vec<&str> = SAMPLE_PATHS.to_vec();
    let mut files: Vec<&str> = samples.clone();
    files.extend(samples.iter().rev());
    files.extend([
        "/a/b", "/a-c", "/a/b/", "/a//b", "/z/photo.dng", "/a/photo.dng", "/a/b/photo.dng",
        "rel/photo.dng", "/A/photo.dng", "/a/Photo.dng",
    ]);
    let listed = order_discovered(files.iter().map(|s| s.to_string()).collect());
    assert_eq!(listed, std_order(&files));
}

#[test]
fn comparison_is_zero_only_for_the_same_path() {
    assert_eq!(compare_paths("/a/b", "/a//b/"), 0);
    assert_eq!(compare_paths("/a/./b", "/a/b"), 0);
    assert!(compare_paths("/x/a/b.dng", "/x/a-c/b.dng") < 0);
    assert!(compare_paths("/z/a.dng", "/a/b.dng") < 0);
    assert!(compare_paths("/a/b.dng", "/z/a.dng") > 0);
}

#[test]
fn listing_does_not_depend_on_discovery_order() {
    let files = [
        "/photos/2024/IMG_0002.CR3",
        "/photos/2023/IMG_0002.CR3",
        "/photos/a.dng",
        "/photos/b/a.dng",
        "/other/Z.NEF",
    ];
    let forward = order_discovered(files.iter().map(|s| s.to_string()).collect());
    let backward = order_discovered(files.iter().rev().map(|s| s.to_string()).collect());
    let mut twice: Vec<String> = files.iter().map(|s| s.to_string()).collect();
    twice.extend(files.iter().rev().map(|s| s.to_string()));
    assert_eq!(forward, backward);
    assert_eq!(order_discovered(twice), forward);
    assert_eq!(
        forward,
        vec![
            "/photos/2023/IMG_0002.CR3",
            "/photos/2024/IMG_0002.CR3",
            "/other/Z.NEF",
            "/photos/a.dng",
            "/photos/b/a.dng",
        ]
    );
}

#[test]
fn io_errors_keep_their_message() {
    let error = raw_lite_core::Error::from(std::io::Error::new(
        std::io::ErrorKind::PermissionDenied,
        "permission denied for /photos",
    ));
    assert!(matches!(error, raw_lite_core::Error::Io(_)));
    assert_eq!(error.message(), "permission denied for /photos");
}
