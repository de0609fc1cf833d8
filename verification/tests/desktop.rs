use raw_lite_core::batch::BatchRun;
use raw_lite_core::desktop::{
    decoder_candidates, decoder_filename, decoder_override, default_decoder, filename, join,
    progress_payload, require_found, summary_payload,
};
use std::path::Path;

#[test]
fn decoder_file_names_follow_the_platform() {
    assert_eq!(decoder_filename("dcraw_emu", false), "dcraw_emu");
    assert_eq!(decoder_filename("dcraw_emu", true), "dcraw_emu.exe");
    assert_eq!(default_decoder(false), "dcraw_emu");
    assert_eq!(default_decoder(true), "dcraw_emu.exe");
}

#[test]
fn empty_override_counts_as_none() {
    assert_eq!(decoder_override(Some("/custom/dcraw".to_owned())), Some("/custom/dcraw".to_owned()));
    assert_eq!(decoder_override(Some(String::new())), None);
    assert_eq!(decoder_override(None), None);
}

#[test]
fn decoder_is_looked_for_beside_the_app_then_along_the_path() {
    let dirs = vec!["/usr/bin".to_owned(), "/opt/bin/".to_owned()];
    assert_eq!(
        decoder_candidates(Some("/app"), &dirs, false),
        vec![
            "/app/dcraw_emu",
            "/app/dcraw",
            "/usr/bin/dcraw_emu",
            "/usr/bin/dcraw",
            "/opt/bin/dcraw_emu",
            "/opt/bin/dcraw",
        ]
    );
    assert_eq!(decoder_candidates(None, &vec![], true), Vec::<String>::new());
}

#[test]
fn join_agrees_with_std_paths() {
    for (dir, name) in [("/a", "b"), ("/a/", "b"), ("", "b"), ("/a", "/b"), ("a//", "b.exe"), ("/", "x")] {
        let expected = Path::new(dir).join(name);
        assert_eq!(join(dir, name), expected.to_str().unwrap(), "for {dir:?} {name:?}");
    }
}

#[test]
fn shown_names_are_file_names() {
    for path in ["/tmp/photo.dng", "photo.dng", "/", "..", "a/b/", "", "a/."] {
        let expected = Path::new(path)
            .file_name()
            .unwrap_or(Path::new(path).as_os_str())
            .to_string_lossy()
            .into_owned();
        assert_eq!(filename(path), expected, "for {path:?}");
    }
}

#[test]
fn reports_show_file_names() {
    let mut run = BatchRun::start(vec!["/in/a.dng".to_owned(), "/in/b.nef".to_owned()], true).unwrap();
    let first = run.record(Ok("/out/a.jpg".to_owned()));
    let second = run.record(Err("decoder rejected file".to_owned()));
    let shown = progress_payload(&first);
    assert_eq!((shown.processed, shown.total, shown.filename.as_str(), shown.succeeded), (1, 2, "a.dng", true));
    assert_eq!(progress_payload(&second).filename, "b.nef");
    let summary = run.finish();
    let payload = summary_payload(&summary, Some("no file manager".to_owned()));
    assert_eq!(payload.succeeded, 1);
    assert_eq!(payload.failed.len(), 1);
    assert_eq!(payload.failed[0].filename, "b.nef");
    assert_eq!(payload.failed[0].reason, "decoder rejected file");
    assert_eq!(payload.folder_open_error.as_deref(), Some("no file manager"));
}

#[test]
fn an_empty_discovery_is_refused() {
    assert_eq!(require_found(0), Err("No supported RAW files were found.".to_owned()));
    assert_eq!(require_found(3), Ok(()));
}
