//! The external RAW decoder: which command line it gets, how long it may
//! run, and what a failed run is reported as.
use vstd::prelude::*;
use vstd::string::*;

use crate::path::{
    ascii_lower_seq, chars_of, file_stem, has_prefix, lower_range, starts_with, stem_range,
};

verus! {

/// How long the decoder may run on one file, in nanoseconds (60 s).
pub const DECODER_TIMEOUT_NANOS: u128 = 60_000_000_000;

/// How long to sleep between two checks on a running decoder, in
/// nanoseconds (10 ms).
pub const DECODER_POLL_NANOS: u128 = 10_000_000;

/// The decoder is LibRaw's `dcraw_emu`: the stem of its file name starts,
/// ignoring ASCII case, with `dcraw_emu`. Its options differ from classic
/// `dcraw`: `-c` sets a threshold there, and output goes to stdout with
/// `-Z -`.
pub open spec fn is_dcraw_emu_path(decoder: Seq<char>) -> bool {
    match file_stem(decoder) {
        Some(stem) => starts_with(ascii_lower_seq(stem), "dcraw_emu"@),
        None => false,
    }
}

/// Arguments for `dcraw_emu`: white balance from the camera, AHD
/// interpolation, highlight blending, sRGB output, PPM on stdout.
pub open spec fn dcraw_emu_args() -> Seq<Seq<char>> {
    seq!["-w"@, "-q"@, "3"@, "-H"@, "2"@, "-o"@, "1"@, "-Z"@, "-"@]
}

/// The same settings for classic `dcraw`, where `-c` selects stdout.
pub open spec fn dcraw_args() -> Seq<Seq<char>> {
    seq!["-c"@, "-w"@, "-q"@, "3"@, "-H"@, "2"@, "-o"@, "1"@]
}

/// The arguments the decoder at `decoder` gets before the input file.
pub open spec fn args_for(decoder: Seq<char>) -> Seq<Seq<char>> {
    if is_dcraw_emu_path(decoder) {
        dcraw_emu_args()
    } else {
        dcraw_args()
    }
}

/// The views of a list of string slices.
pub open spec fn str_views(list: Seq<&str>) -> Seq<Seq<char>> {
    list.map_values(|s: &str| s@)
}

/// Whether the decoder at `decoder` is `dcraw_emu`; see `is_dcraw_emu_path`.
pub fn is_dcraw_emu(decoder: &str) -> (emu: bool)
    ensures
        emu == is_dcraw_emu_path(decoder@),
{
    let chars = chars_of(decoder);
    match stem_range(&chars) {
        None => false,
        Some((s, e)) => {
            let lowered = lower_range(&chars, s, e);
            let prefix = chars_of("dcraw_emu");
            has_prefix(&lowered, &prefix)
        },
    }
}

/// The arguments to pass to the decoder at `decoder`, before the input file.
pub fn decoder_args(decoder: &str) -> (args: Vec<&'static str>)
    ensures
        str_views(args@) == args_for(decoder@),
{
    if is_dcraw_emu(decoder) {
        let args = vec!["-w", "-q", "3", "-H", "2", "-o", "1", "-Z", "-"];
        assert(str_views(args@) =~= dcraw_emu_args());
        args
    } else {
        let args = vec!["-c", "-w", "-q", "3", "-H", "2", "-o", "1"];
        assert(str_views(args@) =~= dcraw_args());
        args
    }
}

/// Which arguments the decoder gets depends on the stem of its file name
/// alone: two decoder paths with the same file stem get the same arguments,
/// whatever directories (and dots in them) lead to the file.
pub proof fn lemma_args_follow_stem(p: Seq<char>, q: Seq<char>)
    requires
        file_stem(p) == file_stem(q),
    ensures
        is_dcraw_emu_path(p) == is_dcraw_emu_path(q),
        args_for(p) == args_for(q),
{
}

/// The arguments, written out: a decoder whose file stem starts, ignoring
/// ASCII case, with `dcraw_emu` gets `-w -q 3 -H 2 -o 1 -Z -`; any other
/// decoder gets `-c -w -q 3 -H 2 -o 1`.
pub proof fn lemma_args_written_out(decoder: Seq<char>)
    ensures
        (file_stem(decoder) is Some && file_stem(decoder)->0.len() >= 9 && ascii_lower_seq(
            file_stem(decoder)->0,
        ).subrange(0, 9) == "dcraw_emu"@) ==> args_for(decoder) == seq![
            "-w"@,
            "-q"@,
            "3"@,
            "-H"@,
            "2"@,
            "-o"@,
            "1"@,
            "-Z"@,
            "-"@,
        ],
        !(file_stem(decoder) is Some && file_stem(decoder)->0.len() >= 9 && ascii_lower_seq(
            file_stem(decoder)->0,
        ).subrange(0, 9) == "dcraw_emu"@) ==> args_for(decoder) == seq![
            "-c"@,
            "-w"@,
            "-q"@,
            "3"@,
            "-H"@,
            "2"@,
            "-o"@,
            "1"@,
        ],
{
    reveal_strlit("dcraw_emu");
}

// ---------------------------------------------------------------------------
// Waiting for the decoder
// ---------------------------------------------------------------------------

/// What to do after checking on a running decoder.
#[derive(Clone, Copy, Debug, PartialEq, Eq, Structural)]
pub enum WaitStep {
    /// The decoder has exited: collect its output.
    Finished,
    /// The time allowed is used up: kill the decoder and report a timeout.
    TimedOut,
    /// Sleep this many nanoseconds, then check again.
    Sleep(u128),
}

pub open spec fn wait_rule(exited: bool, elapsed: u128, timeout: u128) -> WaitStep {
    if exited {
        WaitStep::Finished
    } else if elapsed >= timeout {
        WaitStep::TimedOut
    } else if DECODER_POLL_NANOS <= timeout - elapsed {
        WaitStep::Sleep(DECODER_POLL_NANOS)
    } else {
        WaitStep::Sleep((timeout - elapsed) as u128)
    }
}

/// Decides the next step while waiting for the decoder: an exited decoder
/// is finished; one that has run `timeout` nanoseconds or more has timed
/// out; otherwise sleep one poll interval, or less when the timeout is
/// nearer. A sleep is never longer than the time left.
pub fn wait_step(exited: bool, elapsed: u128, timeout: u128) -> (step: WaitStep)
    ensures
        step == wait_rule(exited, elapsed, timeout),
        step matches WaitStep::Sleep(nanos) ==> 0 < nanos <= DECODER_POLL_NANOS && elapsed + nanos
            <= timeout,
        exited <==> step == WaitStep::Finished,
        step == WaitStep::TimedOut <==> (!exited && elapsed >= timeout),
        !exited && elapsed < timeout ==> step == WaitStep::Sleep(
            if timeout - elapsed < 10_000_000 {
                (timeout - elapsed) as u128
            } else {
                10_000_000u128
            },
        ),
{
    if exited {
        WaitStep::Finished
    } else if elapsed >= timeout {
        WaitStep::TimedOut
    } else if DECODER_POLL_NANOS <= timeout - elapsed {
        WaitStep::Sleep(DECODER_POLL_NANOS)
    } else {
        WaitStep::Sleep(timeout - elapsed)
    }
}

// ---------------------------------------------------------------------------
// Reporting a failed run
// ---------------------------------------------------------------------------

/// `char::is_whitespace`: the characters with the Unicode White_Space
/// property.
pub open spec fn is_white(c: char) -> bool {
    ||| c == ' '
    ||| ('\u{9}' <= c && c <= '\u{d}')
    ||| c == '\u{85}'
    ||| c == '\u{a0}'
    ||| c == '\u{1680}'
    ||| ('\u{2000}' <= c && c <= '\u{200a}')
    ||| c == '\u{2028}'
    ||| c == '\u{2029}'
    ||| c == '\u{202f}'
    ||| c == '\u{205f}'
    ||| c == '\u{3000}'
}

/// `s` without its leading white space.
pub open spec fn trim_start(s: Seq<char>) -> Seq<char>
    decreases s.len(),
{
    if s.len() > 0 && is_white(s[0]) {
        trim_start(s.drop_first())
    } else {
        s
    }
}

/// `s` without its trailing white space.
pub open spec fn trim_end(s: Seq<char>) -> Seq<char>
    decreases s.len(),
{
    if s.len() > 0 && is_white(s.last()) {
        trim_end(s.drop_last())
    } else {
        s
    }
}

/// `s` without leading and trailing white space.
pub open spec fn trim(s: Seq<char>) -> Seq<char> {
    trim_end(trim_start(s))
}

/// The position of the first line feed in `s` at or after `i`, or the
/// length of `s`.
pub open spec fn line_end(s: Seq<char>, i: nat) -> nat
    decreases s.len() - i,
{
    if i >= s.len() {
        s.len()
    } else if s[i as int] == '\n' {
        i
    } else {
        line_end(s, i + 1)
    }
}

/// The first line of `s`: up to the first line feed, without a carriage
/// return that precedes it.
pub open spec fn first_line(s: Seq<char>) -> Seq<char> {
    let k = line_end(s, 0);
    if k < s.len() && k > 0 && s[k - 1] == '\r' {
        s.subrange(0, k - 1)
    } else {
        s.subrange(0, k as int)
    }
}

/// What a decoder that exited unsuccessfully is reported as: the first
/// line of what it wrote to stderr, trimmed; when that is empty, the exit
/// status.
pub open spec fn failure_text(stderr: Seq<char>, status: Seq<char>) -> Seq<char> {
    let t = trim(stderr);
    if t.len() == 0 {
        "decoder exited with "@ + status
    } else {
        first_line(t)
    }
}

proof fn lemma_trim_start(s: Seq<char>)
    ensures
        exists|a: int|
            0 <= a <= s.len() && trim_start(s) == s.subrange(a, s.len() as int) && (forall|i: int|
                0 <= i < a ==> is_white(#[trigger] s[i])) && (a < s.len() ==> !is_white(s[a])),
    decreases s.len(),
{
    if s.len() > 0 && is_white(s[0]) {
        let rest = s.drop_first();
        lemma_trim_start(rest);
        let a = choose|a: int|
            0 <= a <= rest.len() && trim_start(rest) == rest.subrange(a, rest.len() as int) && (
            forall|i: int| 0 <= i < a ==> is_white(#[trigger] rest[i])) && (a < rest.len()
                ==> !is_white(rest[a]));
        assert(rest.subrange(a, rest.len() as int) =~= s.subrange(a + 1, s.len() as int));
        assert forall|i: int| 0 <= i < a + 1 implies is_white(#[trigger] s[i]) by {
            if i > 0 {
                assert(s[i] == rest[i - 1]);
            }
        }
        assert(a + 1 < s.len() ==> s[a + 1] == rest[a]);
    } else {
        assert(s.subrange(0, s.len() as int) =~= s);
    }
}

proof fn lemma_trim_end(s: Seq<char>)
    ensures
        exists|b: int|
            0 <= b <= s.len() && trim_end(s) == s.subrange(0, b) && (forall|i: int|
                b <= i < s.len() ==> is_white(#[trigger] s[i])) && (b > 0 ==> !is_white(s[b - 1])),
    decreases s.len(),
{
    if s.len() > 0 && is_white(s.last()) {
        let rest = s.drop_last();
        lemma_trim_end(rest);
        let b = choose|b: int|
            0 <= b <= rest.len() && trim_end(rest) == rest.subrange(0, b) && (forall|i: int|
                b <= i < rest.len() ==> is_white(#[trigger] rest[i])) && (b > 0 ==> !is_white(
                rest[b - 1],
            ));
        assert(rest.subrange(0, b) =~= s.subrange(0, b));
        assert forall|i: int| b <= i < s.len() implies is_white(#[trigger] s[i]) by {
            if i < s.len() - 1 {
                assert(s[i] == rest[i]);
            }
        }
        assert(b > 0 ==> s[b - 1] == rest[b - 1]);
        assert(trim_end(s) == s.subrange(0, b));
    } else {
        assert(s.subrange(0, s.len() as int) =~= s);
        assert(trim_end(s) == s.subrange(0, s.len() as int));
    }
}

/// Trimming removes exactly the white space at both ends: what is left is a
/// contiguous part of the text, everything before and after it is white
/// space, and, when anything is left, it neither starts nor ends with white
/// space.
pub proof fn lemma_trim_removes_outer_white(s: Seq<char>)
    ensures
        exists|a: int, b: int|
            0 <= a <= b <= s.len() && trim(s) == s.subrange(a, b) && (forall|i: int|
                0 <= i < a ==> is_white(#[trigger] s[i])) && (forall|i: int|
                b <= i < s.len() ==> is_white(#[trigger] s[i])) && (a < b ==> !is_white(s[a])
                && !is_white(s[b - 1])),
{
    lemma_trim_start(s);
    let a = choose|a: int|
        0 <= a <= s.len() && trim_start(s) == s.subrange(a, s.len() as int) && (forall|i: int|
            0 <= i < a ==> is_white(#[trigger] s[i])) && (a < s.len() ==> !is_white(s[a]));
    let t = trim_start(s);
    lemma_trim_end(t);
    let b = choose|b: int|
        0 <= b <= t.len() && trim_end(t) == t.subrange(0, b) && (forall|i: int|
            b <= i < t.len() ==> is_white(#[trigger] t[i])) && (b > 0 ==> !is_white(t[b - 1]));
    assert(t.subrange(0, b) =~= s.subrange(a, a + b));
    assert forall|i: int| a + b <= i < s.len() implies is_white(#[trigger] s[i]) by {
        assert(s[i] == t[i - a]);
    }
    if b > 0 {
        assert(s[a] == t[0]);
        assert(s[a + b - 1] == t[b - 1]);
    }
    assert(trim(s) == s.subrange(a, a + b));
}

/// The report of a failed run, read back: when the decoder wrote nothing
/// but white space to stderr, it names the exit status; otherwise it is the
/// start of the trimmed stderr up to its first line break, where a line
/// break is a line feed, or a carriage return and a line feed. The report
/// holds no line feed.
pub proof fn lemma_failure_text_is_first_line(stderr: Seq<char>, status: Seq<char>)
    ensures
        trim(stderr).len() == 0 ==> failure_text(stderr, status) == "decoder exited with "@
            + status,
        trim(stderr).len() > 0 ==> ({
            let t = trim(stderr);
            let r = failure_text(stderr, status);
            &&& r.len() <= t.len()
            &&& t.subrange(0, r.len() as int) == r
            &&& forall|i: int| 0 <= i < r.len() ==> r[i] != '\n'
            &&& r.len() == t.len() || t[r.len() as int] == '\n' || (t[r.len() as int] == '\r'
                && r.len() + 1 < t.len() && t[r.len() + 1int] == '\n')
            &&& (r.len() < t.len() && t[r.len() as int] == '\n' && r.len() > 0) ==> r.last()
                != '\r'
        }),
{
    let t = trim(stderr);
    if t.len() > 0 {
        lemma_line_end(t, 0);
        let k = line_end(t, 0);
        let r = failure_text(stderr, status);
        assert(r == first_line(t));
        if k < t.len() && k > 0 && t[k - 1] == '\r' {
            assert(r =~= t.subrange(0, k - 1));
        } else {
            assert(r =~= t.subrange(0, k as int));
        }
        assert(t.subrange(0, r.len() as int) =~= r);
    }
}

proof fn lemma_line_end(s: Seq<char>, i: nat)
    requires
        i <= s.len(),
    ensures
        i <= line_end(s, i) <= s.len(),
        line_end(s, i) < s.len() ==> s[line_end(s, i) as int] == '\n',
        forall|k: int| i <= k < line_end(s, i) ==> s[k] != '\n',
    decreases s.len() - i,
{
    if i < s.len() && s[i as int] != '\n' {
        lemma_line_end(s, i + 1);
    }
}

fn white(c: char) -> (w: bool)
    ensures
        w == is_white(c),
{
    c == ' ' || ('\u{9}' <= c && c <= '\u{d}') || c == '\u{85}' || c == '\u{a0}' || c
        == '\u{1680}' || ('\u{2000}' <= c && c <= '\u{200a}') || c == '\u{2028}' || c == '\u{2029}'
        || c == '\u{202f}' || c == '\u{205f}' || c == '\u{3000}'
}

/// The range `s..e` of `chars` that is `trim(chars)`.
fn trim_range(chars: &Vec<char>) -> (range: (usize, usize))
    ensures
        range.0 <= range.1 <= chars.len(),
        trim(chars@) == chars@.subrange(range.0 as int, range.1 as int),
{
    let n = chars.len();
    let mut s: usize = 0;
    assert(chars@.subrange(0, n as int) =~= chars@);
    while s < n && white(chars[s])
        invariant
            n == chars.len(),
            s <= n,
            trim_start(chars@) == trim_start(chars@.subrange(s as int, n as int)),
        decreases n - s,
    {
        assert(chars@.subrange(s as int, n as int).drop_first() =~= chars@.subrange(
            s + 1,
            n as int,
        ));
        s = s + 1;
    }
    let ghost started = chars@.subrange(s as int, n as int);
    assert(trim_start(started) == started);
    let mut e: usize = n;
    assert(started.subrange(0, (e - s) as int) =~= started);
    while e > s && white(chars[e - 1])
        invariant
            n == chars.len(),
            s <= e <= n,
            started == chars@.subrange(s as int, n as int),
            trim_end(started) == trim_end(started.subrange(0, (e - s) as int)),
        decreases e,
    {
        assert(started.subrange(0, (e - s) as int).drop_last() =~= started.subrange(
            0,
            (e - 1 - s) as int,
        ));
        e = e - 1;
    }
    assert(started.subrange(0, (e - s) as int) =~= chars@.subrange(s as int, e as int));
    (s, e)
}

/// The report for a decoder that exited unsuccessfully; see `failure_text`.
/// `status` is the rendering of its exit status.
pub fn failure_reason(stderr: &str, status: &str) -> (reason: String)
    ensures
        reason@ == failure_text(stderr@, status@),
{
    let chars = chars_of(stderr);
    let (s, e) = trim_range(&chars);
    let ghost t = chars@.subrange(s as int, e as int);
    if s == e {
        let mut reason = String::from_str("decoder exited with ");
        reason.append(status);
        return reason;
    }
    let mut k = s;
    while k < e && chars[k] != '\n'
        invariant
            s <= k <= e <= chars.len(),
            t == chars@.subrange(s as int, e as int),
            line_end(t, (k - s) as nat) == line_end(t, 0),
        decreases e - k,
    {
        k = k + 1;
    }
    let mut stop = k;
    if k < e && k > s && chars[k - 1] == '\r' {
        stop = k - 1;
    }
    assert(first_line(t) =~= chars@.subrange(s as int, stop as int));
    let line = stderr.substring_char(s, stop);
    line.to_owned()
}

/// The outcome of a finished decoder run: its stdout when it exited
/// successfully, else the report of `failure_reason`.
pub fn decoder_outcome(success: bool, stdout: Vec<u8>, stderr: &str, status: &str) -> (outcome:
    Result<Vec<u8>, String>)
    ensures
        success ==> outcome == Ok::<Vec<u8>, String>(stdout),
        !success ==> (outcome matches Err(reason) && reason@ == failure_text(stderr@, status@)),
{
    if success {
        Ok(stdout)
    } else {
        Err(failure_reason(stderr, status))
    }
}

} // verus!
