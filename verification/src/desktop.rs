//! What the desktop shell needs beyond the conversion itself: where it
//! looks for the decoder, and the reports it shows.
use vstd::prelude::*;
use vstd::string::*;

use crate::batch::{ConversionFailure, ConversionProgress, ConversionSummary};
use crate::path::{
    chars_of, file_name, file_name_range, lemma_file_name_of_joined, lemma_file_name_of_plain,
    plain_name,
};

verus! {

// ---------------------------------------------------------------------------
// Locating the decoder
// ---------------------------------------------------------------------------

/// The executable's file name for a decoder called `base`: with `.exe`
/// appended on Windows.
pub open spec fn decoder_file_name(base: Seq<char>, windows: bool) -> Seq<char> {
    if windows {
        base + ".exe"@
    } else {
        base
    }
}

/// The decoder names looked for, in order of preference.
pub open spec fn decoder_names(windows: bool) -> Seq<Seq<char>> {
    seq![decoder_file_name("dcraw_emu"@, windows), decoder_file_name("dcraw"@, windows)]
}

/// `dir` joined with `name` as `Path::join` does with `/` separators: an
/// absolute `name` replaces `dir`; otherwise a separator is put between the
/// two unless `dir` is empty or already ends with one.
pub open spec fn join_path(dir: Seq<char>, name: Seq<char>) -> Seq<char> {
    if name.len() > 0 && name[0] == '/' {
        name
    } else if dir.len() == 0 || dir.last() == '/' {
        dir + name
    } else {
        dir + "/"@ + name
    }
}

/// The candidates in one directory: each decoder name joined to it.
pub open spec fn candidates_in(dir: Seq<char>, windows: bool) -> Seq<Seq<char>> {
    decoder_names(windows).map_values(|name: Seq<char>| join_path(dir, name))
}

/// The candidates in the directories of a search path, directory by
/// directory.
pub open spec fn candidates_along(dirs: Seq<Seq<char>>, windows: bool) -> Seq<Seq<char>>
    decreases dirs.len(),
{
    if dirs.len() == 0 {
        seq![]
    } else {
        candidates_along(dirs.drop_last(), windows) + candidates_in(dirs.last(), windows)
    }
}

/// Where to look for a decoder, first to last: beside the executable, then
/// along the search path.
pub open spec fn decoder_search(
    exe_dir: Option<Seq<char>>,
    path_dirs: Seq<Seq<char>>,
    windows: bool,
) -> Seq<Seq<char>> {
    let beside = match exe_dir {
        Some(dir) => candidates_in(dir, windows),
        None => seq![],
    };
    beside + candidates_along(path_dirs, windows)
}

/// The executable's file name for a decoder called `base`; see
/// `decoder_file_name`.
pub fn decoder_filename(base: &str, windows: bool) -> (name: String)
    ensures
        name@ == decoder_file_name(base@, windows),
{
    let mut name = base.to_owned();
    if windows {
        name.append(".exe");
    }
    name
}

/// `dir` joined with `name`; see `join_path`.
pub fn join(dir: &str, name: &str) -> (joined: String)
    ensures
        joined@ == join_path(dir@, name@),
{
    let d = chars_of(dir);
    let n = chars_of(name);
    if n.len() > 0 && n[0] == '/' {
        return name.to_owned();
    }
    let mut joined = dir.to_owned();
    if !(d.len() == 0 || d[d.len() - 1] == '/') {
        joined.append("/");
    }
    joined.append(name);
    joined
}

/// The decoder chosen by the environment, when it names one: an empty
/// value counts as none.
pub fn decoder_override(value: Option<String>) -> (chosen: Option<String>)
    ensures
        chosen == match value {
            Some(v) => if v@.len() > 0 {
                Some(v)
            } else {
                None::<String>
            },
            None => None::<String>,
        },
{
    match value {
        Some(v) => {
            if v.as_str().is_empty() {
                None
            } else {
                Some(v)
            }
        },
        None => None,
    }
}

/// The views of a list of strings.
pub open spec fn string_views(list: Seq<String>) -> Seq<Seq<char>> {
    list.map_values(|s: String| s@)
}

fn push_candidates_in(out: &mut Vec<String>, dir: &str, windows: bool)
    ensures
        string_views(final(out)@) == string_views(old(out)@) + candidates_in(dir@, windows),
{
    let emu = decoder_filename("dcraw_emu", windows);
    let classic = decoder_filename("dcraw", windows);
    let ghost before = out@;
    out.push(join(dir, emu.as_str()));
    out.push(join(dir, classic.as_str()));
    assert(string_views(out@) =~= string_views(before) + candidates_in(dir@, windows));
}

/// Where to look for a decoder, first to last; see `decoder_search`. The
/// first candidate that is a file is the decoder; the environment's choice
/// (`decoder_override`) comes before all of them, and `default_decoder`
/// after.
pub fn decoder_candidates(
    exe_dir: Option<&str>,
    path_dirs: &Vec<String>,
    windows: bool,
) -> (candidates: Vec<String>)
    ensures
        string_views(candidates@) == decoder_search(
            match exe_dir {
                Some(d) => Some(d@),
                None => None,
            },
            string_views(path_dirs@),
            windows,
        ),
{
    let mut out: Vec<String> = Vec::new();
    match exe_dir {
        Some(dir) => push_candidates_in(&mut out, dir, windows),
        None => {},
    }
    let ghost beside = string_views(out@);
    assert(beside + candidates_along(string_views(path_dirs@).take(0), windows) =~= beside);
    let mut i: usize = 0;
    while i < path_dirs.len()
        invariant
            0 <= i <= path_dirs@.len(),
            string_views(out@) == beside + candidates_along(
                string_views(path_dirs@).take(i as int),
                windows,
            ),
        decreases path_dirs.len() - i,
    {
        let ghost before = out@;
        push_candidates_in(&mut out, path_dirs[i].as_str(), windows);
        let ghost dirs = string_views(path_dirs@);
        assert(dirs.take(i + 1).drop_last() =~= dirs.take(i as int));
        assert(dirs.take(i + 1).last() == path_dirs@[i as int]@);
        assert(string_views(out@) =~= beside + candidates_along(dirs.take(i + 1), windows));
        i = i + 1;
    }
    assert(string_views(path_dirs@).take(path_dirs@.len() as int) =~= string_views(path_dirs@));
    out
}

/// Along a search path, each directory in turn gives two candidates: the
/// directory joined with `dcraw_emu`, then with `dcraw`, each name with
/// `.exe` appended on Windows.
pub proof fn lemma_candidates_along_written_out(dirs: Seq<Seq<char>>, windows: bool)
    ensures
        candidates_along(dirs, windows).len() == 2 * dirs.len(),
        forall|i: int|
            0 <= i < dirs.len() ==> candidates_along(dirs, windows)[2 * i] == join_path(
                #[trigger] dirs[i],
                if windows {
                    "dcraw_emu"@ + ".exe"@
                } else {
                    "dcraw_emu"@
                },
            ) && candidates_along(dirs, windows)[2 * i + 1] == join_path(
                dirs[i],
                if windows {
                    "dcraw"@ + ".exe"@
                } else {
                    "dcraw"@
                },
            ),
    decreases dirs.len(),
{
    if dirs.len() > 0 {
        lemma_candidates_along_written_out(dirs.drop_last(), windows);
        let before = candidates_along(dirs.drop_last(), windows);
        let n = dirs.len() - 1;
        assert forall|i: int| 0 <= i < dirs.len() implies candidates_along(dirs, windows)[2 * i]
            == join_path(
            #[trigger] dirs[i],
            if windows {
                "dcraw_emu"@ + ".exe"@
            } else {
                "dcraw_emu"@
            },
        ) && candidates_along(dirs, windows)[2 * i + 1] == join_path(
            dirs[i],
            if windows {
                "dcraw"@ + ".exe"@
            } else {
                "dcraw"@
            },
        ) by {
            if i < n {
                assert(dirs.drop_last()[i] == dirs[i]);
            }
        }
    }
}

/// Where the decoder is looked for, written out: with the executable's
/// directory known, first that directory joined with `dcraw_emu`, then with
/// `dcraw`; then, directory by directory along the search path, the same two
/// names. On Windows each name has `.exe` appended, so every candidate's
/// file name ends in `.exe`.
pub proof fn lemma_decoder_search_written_out(
    exe_dir: Option<Seq<char>>,
    dirs: Seq<Seq<char>>,
    windows: bool,
)
    ensures
        decoder_search(exe_dir, dirs, windows).len() == (if exe_dir is Some {
            2int
        } else {
            0int
        }) + 2 * dirs.len(),
        exe_dir matches Some(d) ==> decoder_search(exe_dir, dirs, windows)[0] == join_path(
            d,
            if windows {
                "dcraw_emu"@ + ".exe"@
            } else {
                "dcraw_emu"@
            },
        ) && decoder_search(exe_dir, dirs, windows)[1] == join_path(
            d,
            if windows {
                "dcraw"@ + ".exe"@
            } else {
                "dcraw"@
            },
        ),
        forall|i: int|
            0 <= i < dirs.len() ==> decoder_search(exe_dir, dirs, windows)[(if exe_dir is Some {
                2int
            } else {
                0int
            }) + 2 * i] == join_path(
                #[trigger] dirs[i],
                if windows {
                    "dcraw_emu"@ + ".exe"@
                } else {
                    "dcraw_emu"@
                },
            ) && decoder_search(exe_dir, dirs, windows)[(if exe_dir is Some {
                2int
            } else {
                0int
            }) + 2 * i + 1] == join_path(
                dirs[i],
                if windows {
                    "dcraw"@ + ".exe"@
                } else {
                    "dcraw"@
                },
            ),
{
    lemma_candidates_along_written_out(dirs, windows);
    let along = candidates_along(dirs, windows);
    let search = decoder_search(exe_dir, dirs, windows);
    match exe_dir {
        Some(d) => {
            let beside = candidates_in(d, windows);
            assert(search == beside + along);
            assert(beside.len() == 2);
            assert forall|i: int|
                #![trigger dirs[i]]
                0 <= i < dirs.len() implies search[2 + 2 * i] == along[2 * i] && search[2 + 2 * i
                    + 1] == along[2 * i + 1] by {}
        },
        None => {
            assert(search =~= along);
        },
    }
}

/// Joining a plain name to a directory gives a path whose file name is that
/// name.
pub proof fn lemma_joined_file_name(dir: Seq<char>, name: Seq<char>)
    requires
        plain_name(name),
    ensures
        file_name(join_path(dir, name)) == Some(name),
{
    reveal_strlit("/");
    if name[0] == '/' {
        assert(name.contains('/'));
    }
    if dir.len() == 0 {
        assert(dir + name =~= name);
        lemma_file_name_of_plain(name);
    } else if dir.last() == '/' {
        assert(dir + name =~= dir.drop_last() + seq!['/'] + name);
        lemma_file_name_of_joined(dir.drop_last(), name);
    } else {
        assert(dir + "/"@ + name =~= dir + seq!['/'] + name);
        lemma_file_name_of_joined(dir, name);
    }
}

/// Every candidate for the decoder is a file named `dcraw_emu` or `dcraw`,
/// with `.exe` appended on Windows: `dcraw_emu` at even positions, `dcraw`
/// at odd ones, so in each directory `dcraw_emu` is preferred.
pub proof fn lemma_candidate_file_names(
    exe_dir: Option<Seq<char>>,
    dirs: Seq<Seq<char>>,
    windows: bool,
)
    ensures
        forall|i: int|
            0 <= i < decoder_search(exe_dir, dirs, windows).len() ==> file_name(
                #[trigger] decoder_search(exe_dir, dirs, windows)[i],
            ) == Some(
                if i % 2 == 0 {
                    if windows {
                        "dcraw_emu"@ + ".exe"@
                    } else {
                        "dcraw_emu"@
                    }
                } else {
                    if windows {
                        "dcraw"@ + ".exe"@
                    } else {
                        "dcraw"@
                    }
                },
            ),
{
    reveal_strlit("dcraw_emu");
    reveal_strlit("dcraw");
    reveal_strlit(".exe");
    let emu = if windows {
        "dcraw_emu"@ + ".exe"@
    } else {
        "dcraw_emu"@
    };
    let classic = if windows {
        "dcraw"@ + ".exe"@
    } else {
        "dcraw"@
    };
    assert(plain_name(emu)) by {
        if emu.contains('/') {
            let j = choose|j: int| 0 <= j < emu.len() && emu[j] == '/';
        }
        assert(emu[0] == 'd');
    }
    assert(plain_name(classic)) by {
        if classic.contains('/') {
            let j = choose|j: int| 0 <= j < classic.len() && classic[j] == '/';
        }
        assert(classic[0] == 'd');
    }
    lemma_decoder_search_written_out(exe_dir, dirs, windows);
    let search = decoder_search(exe_dir, dirs, windows);
    let b: int = if exe_dir is Some {
        2
    } else {
        0
    };
    assert forall|i: int| 0 <= i < search.len() implies file_name(#[trigger] search[i]) == Some(
        if i % 2 == 0 {
            emu
        } else {
            classic
        },
    ) by {
        if i < b {
            let d = exe_dir->0;
            if i == 0 {
                lemma_joined_file_name(d, emu);
            } else {
                lemma_joined_file_name(d, classic);
            }
        } else {
            let m = (i - b) / 2;
            assert(0 <= m < dirs.len());
            if (i - b) % 2 == 0 {
                assert(i == b + 2 * m);
                lemma_joined_file_name(dirs[m], emu);
            } else {
                assert(i == b + 2 * m + 1);
                lemma_joined_file_name(dirs[m], classic);
            }
        }
    }
}

/// The decoder used when none is found: `dcraw_emu`, left to the system's
/// search.
pub fn default_decoder(windows: bool) -> (name: String)
    ensures
        name@ == decoder_names(windows)[0],
        name@ == if windows {
            "dcraw_emu"@ + ".exe"@
        } else {
            "dcraw_emu"@
        },
{
    decoder_filename("dcraw_emu", windows)
}

// ---------------------------------------------------------------------------
// Reports shown to the user
// ---------------------------------------------------------------------------

/// What the user is shown of a file: its file name, or the whole path when
/// it has none.
pub open spec fn shown_name(path: Seq<char>) -> Seq<char> {
    match file_name(path) {
        Some(name) => name,
        None => path,
    }
}

/// The name shown for `path`; see `shown_name`.
pub fn filename(path: &str) -> (name: String)
    ensures
        name@ == shown_name(path@),
{
    let chars = chars_of(path);
    match file_name_range(&chars) {
        Some((s, e)) => path.substring_char(s, e).to_owned(),
        None => path.to_owned(),
    }
}

/// A batch needs at least one RAW file: finding none is answered with
/// "No supported RAW files were found.".
pub fn require_found(found: usize) -> (checked: Result<(), String>)
    ensures
        checked is Ok <==> found > 0,
        checked matches Err(message) ==> message@ == "No supported RAW files were found."@,
{
    if found == 0 {
        Err(String::from_str("No supported RAW files were found."))
    } else {
        Ok(())
    }
}

/// Progress as shown to the user.
pub struct ProgressPayload {
    pub processed: usize,
    pub total: usize,
    pub filename: String,
    pub succeeded: bool,
}

/// A failed file as shown to the user.
pub struct FailurePayload {
    pub filename: String,
    pub reason: String,
}

/// The end-of-batch report: how many files were converted, which failed
/// and why, and why the output folder could not be opened, if it could not.
pub struct SummaryPayload {
    pub succeeded: usize,
    pub failed: Vec<FailurePayload>,
    pub folder_open_error: Option<String>,
}

/// A progress report with the file shown by name.
pub fn progress_payload(progress: &ConversionProgress) -> (payload: ProgressPayload)
    ensures
        payload.processed == progress.processed,
        payload.total == progress.total,
        payload.filename@ == shown_name(progress.input@),
        payload.succeeded == progress.succeeded,
{
    ProgressPayload {
        processed: progress.processed,
        total: progress.total,
        filename: filename(progress.input.as_str()),
        succeeded: progress.succeeded,
    }
}

/// A failure with the file shown by name.
pub fn failure_payload(failure: &ConversionFailure) -> (payload: FailurePayload)
    ensures
        payload.filename@ == shown_name(failure.input@),
        payload.reason@ == failure.reason@,
{
    FailurePayload { filename: filename(failure.input.as_str()), reason: failure.reason.clone() }
}

/// The end-of-batch report of a summary: the number of converted files and
/// each failure, in order, shown by name.
pub fn summary_payload(summary: &ConversionSummary, folder_open_error: Option<String>) -> (payload:
    SummaryPayload)
    ensures
        payload.succeeded == summary.converted@.len(),
        payload.failed@.len() == summary.failed@.len(),
        forall|i: int|
            0 <= i < summary.failed@.len() ==> (#[trigger] payload.failed@[i]).filename@
                == shown_name(summary.failed@[i].input@) && payload.failed@[i].reason@
                == summary.failed@[i].reason@,
        payload.folder_open_error == folder_open_error,
{
    let mut failed: Vec<FailurePayload> = Vec::new();
    let mut i: usize = 0;
    while i < summary.failed.len()
        invariant
            0 <= i <= summary.failed@.len(),
            failed@.len() == i,
            forall|k: int|
                0 <= k < i ==> (#[trigger] failed@[k]).filename@ == shown_name(
                    summary.failed@[k].input@,
                ) && failed@[k].reason@ == summary.failed@[k].reason@,
        decreases summary.failed.len() - i,
    {
        failed.push(failure_payload(&summary.failed[i]));
        i = i + 1;
    }
    SummaryPayload { succeeded: summary.converted.len(), failed, folder_open_error }
}

} // verus!
