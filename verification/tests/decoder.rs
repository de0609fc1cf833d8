use raw_lite_core::decoder::{DECODER_POLL_NANOS, DECODER_TIMEOUT_NANOS};
use raw_lite_core::{decoder_args, decoder_outcome, failure_reason, is_dcraw_emu, wait_step, WaitStep};
use std::path::Path;

#[test]
fn selects_dcraw_emu_args_for_dcraw_emu_variants() {
    for name in [
        "dcraw_emu",
        "dcraw_emu-aarch64-apple-darwin",
        "dcraw_emu-x86_64-pc-windows-msvc.exe",
        "DCRAW_EMU",
    ] {
        assert_eq!(
            decoder_args(name),
            &["-w", "-q", "3", "-H", "2", "-o", "1", "-Z", "-"],
            "expected dcraw_emu args for {name}"
        );
    }
}

#[test]
fn selects_classic_dcraw_args_otherwise() {
    for name in ["dcraw", "dcraw.exe", "some-other-decoder"] {
        assert_eq!(
            decoder_args(name),
            &["-c", "-w", "-q", "3", "-H", "2", "-o", "1"],
            "expected classic dcraw args for {name}"
        );
    }
}

#[test]
fn dcraw_emu_is_recognized_by_the_stem_of_its_file_name() {
    assert!(is_dcraw_emu("/opt/bin/dcraw_emu"));
    assert!(is_dcraw_emu("bin/Dcraw_Emu.exe"));
    assert!(!is_dcraw_emu("/opt/dcraw_emu/dcraw"));
    assert!(!is_dcraw_emu("dcraw_em"));
    assert!(!is_dcraw_emu(""));
    for name in ["dcraw_emu", "x/dcraw_emu.tar.gz", ".dcraw_emu", "dcraw_emu.", "a/..", "DCRAW_EMUX"] {
        let expected = Path::new(name)
            .file_stem()
            .and_then(|s| s.to_str())
            .is_some_and(|s| s.to_ascii_lowercase().starts_with("dcraw_emu"));
        assert_eq!(is_dcraw_emu(name), expected, "for {name:?}");
    }
}

#[test]
fn reports_first_line_of_decoder_error() {
    assert_eq!(
        failure_reason("unsupported RAW\nmore detail\n", "exit status: 2"),
        "unsupported RAW"
    );
    assert_eq!(failure_reason("  \t\n first\r\nsecond", "exit status: 1"), "first");
    assert_eq!(failure_reason("only line \u{3000}", "exit status: 1"), "only line");
    assert_eq!(failure_reason("a\rb", "exit status: 1"), "a\rb");
}

#[test]
fn silent_decoder_failure_reports_its_exit_status() {
    assert_eq!(failure_reason("", "exit status: 2"), "decoder exited with exit status: 2");
    assert_eq!(failure_reason(" \n\r\t", "signal: 9 (SIGKILL)"), "decoder exited with signal: 9 (SIGKILL)");
}

#[test]
fn failure_reason_agrees_with_trim_and_lines() {
    for stderr in ["x\ny", "\n\nx", "x\r\n", " \u{a0}y\u{2028}", "\u{85}z\u{85}", "", "ab\r\r\ncd"] {
        let trimmed = stderr.trim();
        let expected = if trimmed.is_empty() {
            "decoder exited with s".to_owned()
        } else {
            trimmed.lines().next().unwrap_or(trimmed).to_owned()
        };
        assert_eq!(failure_reason(stderr, "s"), expected, "for {stderr:?}");
    }
}

#[test]
fn successful_run_yields_its_output() {
    assert_eq!(decoder_outcome(true, vec![1, 2, 3], "warning", "exit status: 0"), Ok(vec![1, 2, 3]));
    assert_eq!(
        decoder_outcome(false, vec![1], "broken file\n", "exit status: 1"),
        Err("broken file".to_owned())
    );
}

#[test]
fn waiting_polls_until_exit_or_timeout() {
    assert_eq!(wait_step(true, 0, DECODER_TIMEOUT_NANOS), WaitStep::Finished);
    assert_eq!(wait_step(true, u128::MAX, 1), WaitStep::Finished);
    assert_eq!(wait_step(false, DECODER_TIMEOUT_NANOS, DECODER_TIMEOUT_NANOS), WaitStep::TimedOut);
    assert_eq!(wait_step(false, 0, DECODER_TIMEOUT_NANOS), WaitStep::Sleep(DECODER_POLL_NANOS));
    // A 25 ms timeout: sleep a full interval, then only what is left.
    assert_eq!(wait_step(false, 0, 25_000_000), WaitStep::Sleep(10_000_000));
    assert_eq!(wait_step(false, 20_000_000, 25_000_000), WaitStep::Sleep(5_000_000));
    assert_eq!(wait_step(false, 25_000_001, 25_000_000), WaitStep::TimedOut);
}
