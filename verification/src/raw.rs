//! Recognition of RAW camera files by their extension.
use vstd::prelude::*;

use crate::path::{ascii_lower_seq, chars_of, extension, extension_range, lower_range, same_chars};

verus! {

/// The extensions, in lower case, of the RAW formats the converter accepts.
pub open spec fn raw_extensions() -> Seq<Seq<char>> {
    seq![
        "3fr"@, "arw"@, "cr2"@, "cr3"@, "dcr"@, "dng"@, "erf"@, "fff"@, "iiq"@, "kdc"@,
        "mef"@, "mos"@, "mrw"@, "nef"@, "nrw"@, "orf"@, "pef"@, "raf"@, "raw"@, "rw2"@,
        "rwl"@, "sr2"@, "srf"@, "srw"@, "x3f"@,
    ]
}

/// The extensions of `raw_extensions`, in executable form.
fn raw_extension_list() -> (list: Vec<&'static str>)
    ensures
        list@.len() == raw_extensions().len(),
        forall|i: int| 0 <= i < list@.len() ==> (#[trigger] list@[i])@ == raw_extensions()[i],
{
    let list = vec![
        "3fr", "arw", "cr2", "cr3", "dcr", "dng", "erf", "fff", "iiq", "kdc", "mef", "mos", "mrw",
        "nef", "nrw", "orf", "pef", "raf", "raw", "rw2", "rwl", "sr2", "srf", "srw", "x3f",
    ];
    assert(list@.len() == raw_extensions().len());
    list
}

/// A path names a RAW file: its file name has an extension that, with ASCII
/// letters lower-cased, is one of `raw_extensions`.
pub open spec fn is_raw_path(path: Seq<char>) -> bool {
    match extension(path) {
        Some(ext) => raw_extensions().contains(ascii_lower_seq(ext)),
        None => false,
    }
}

/// Whether `path` names a RAW file that the converter accepts. The test is on
/// the extension only and ignores the case of ASCII letters.
pub fn is_supported_raw(path: &str) -> (supported: bool)
    ensures
        supported == is_raw_path(path@),
{
    let chars = chars_of(path);
    match extension_range(&chars) {
        None => false,
        Some((s, e)) => {
            let lowered = lower_range(&chars, s, e);
            let list = raw_extension_list();
            assert(is_raw_path(path@) == raw_extensions().contains(lowered@));
            let mut i: usize = 0;
            while i < list.len()
                invariant
                    0 <= i <= list@.len(),
                    is_raw_path(path@) == raw_extensions().contains(lowered@),
                    list@.len() == raw_extensions().len(),
                    forall|k: int| 0 <= k < list@.len() ==> (#[trigger] list@[k])@ == raw_extensions()[k],
                    forall|k: int| 0 <= k < i ==> raw_extensions()[k] != lowered@,
                decreases list.len() - i,
            {
                let candidate = chars_of(list[i]);
                if same_chars(&lowered, &candidate) {
                    assert(raw_extensions()[i as int] == lowered@);
                    assert(raw_extensions().contains(lowered@));
                    return true;
                }
                i = i + 1;
            }
            false
        },
    }
}

/// The lower-case extension `e` is one of the RAW formats', written out.
pub open spec fn listed_raw_extension(e: Seq<char>) -> bool {
    e == "3fr"@ || e == "arw"@ || e == "cr2"@ || e == "cr3"@ || e == "dcr"@ ||
    e == "dng"@ || e == "erf"@ || e == "fff"@ || e == "iiq"@ || e == "kdc"@ ||
    e == "mef"@ || e == "mos"@ || e == "mrw"@ || e == "nef"@ || e == "nrw"@ ||
    e == "orf"@ || e == "pef"@ || e == "raf"@ || e == "raw"@ || e == "rw2"@ ||
    e == "rwl"@ || e == "sr2"@ || e == "srf"@ || e == "srw"@ || e == "x3f"@
}

/// The RAW extensions, one by one: a path is a RAW path exactly when its file
/// name has an extension that, with ASCII letters lower-cased, is one of
/// 3fr, arw, cr2, cr3, dcr, dng, erf, fff, iiq, kdc, mef, mos, mrw, nef, nrw,
/// orf, pef, raf, raw, rw2, rwl, sr2, srf, srw or x3f.
pub proof fn lemma_raw_extensions_listed(path: Seq<char>)
    ensures
        is_raw_path(path) <==> (extension(path) is Some && listed_raw_extension(
            ascii_lower_seq(extension(path)->0),
        )),
{
    let list = raw_extensions();
    assert(list[0] == "3fr"@);
    assert(list[1] == "arw"@);
    assert(list[2] == "cr2"@);
    assert(list[3] == "cr3"@);
    assert(list[4] == "dcr"@);
    assert(list[5] == "dng"@);
    assert(list[6] == "erf"@);
    assert(list[7] == "fff"@);
    assert(list[8] == "iiq"@);
    assert(list[9] == "kdc"@);
    assert(list[10] == "mef"@);
    assert(list[11] == "mos"@);
    assert(list[12] == "mrw"@);
    assert(list[13] == "nef"@);
    assert(list[14] == "nrw"@);
    assert(list[15] == "orf"@);
    assert(list[16] == "pef"@);
    assert(list[17] == "raf"@);
    assert(list[18] == "raw"@);
    assert(list[19] == "rw2"@);
    assert(list[20] == "rwl"@);
    assert(list[21] == "sr2"@);
    assert(list[22] == "srf"@);
    assert(list[23] == "srw"@);
    assert(list[24] == "x3f"@);
    match extension(path) {
        Some(ext) => {
            let e = ascii_lower_seq(ext);
            if listed_raw_extension(e) {
                if e == "3fr"@ {
                    assert(list[0] == e);
                }
                if e == "arw"@ {
                    assert(list[1] == e);
                }
                if e == "cr2"@ {
                    assert(list[2] == e);
                }
                if e == "cr3"@ {
                    assert(list[3] == e);
                }
                if e == "dcr"@ {
                    assert(list[4] == e);
                }
                if e == "dng"@ {
                    assert(list[5] == e);
                }
                if e == "erf"@ {
                    assert(list[6] == e);
                }
                if e == "fff"@ {
                    assert(list[7] == e);
                }
                if e == "iiq"@ {
                    assert(list[8] == e);
                }
                if e == "kdc"@ {
                    assert(list[9] == e);
                }
                if e == "mef"@ {
                    assert(list[10] == e);
                }
                if e == "mos"@ {
                    assert(list[11] == e);
                }
                if e == "mrw"@ {
                    assert(list[12] == e);
                }
                if e == "nef"@ {
                    assert(list[13] == e);
                }
                if e == "nrw"@ {
                    assert(list[14] == e);
                }
                if e == "orf"@ {
                    assert(list[15] == e);
                }
                if e == "pef"@ {
                    assert(list[16] == e);
                }
                if e == "raf"@ {
                    assert(list[17] == e);
                }
                if e == "raw"@ {
                    assert(list[18] == e);
                }
                if e == "rw2"@ {
                    assert(list[19] == e);
                }
                if e == "rwl"@ {
                    assert(list[20] == e);
                }
                if e == "sr2"@ {
                    assert(list[21] == e);
                }
                if e == "srf"@ {
                    assert(list[22] == e);
                }
                if e == "srw"@ {
                    assert(list[23] == e);
                }
                if e == "x3f"@ {
                    assert(list[24] == e);
                }
            }
            if list.contains(e) {
                let k = choose|k: int| 0 <= k < list.len() && list[k] == e;
                assert(0 <= k < 25);
            }
        },
        None => {},
    }
}

/// Two characters that are equal, or the same ASCII letter in upper and
/// lower case.
pub open spec fn same_ignoring_case(a: char, b: char) -> bool {
    ||| a == b
    ||| ('A' <= a <= 'Z' && (b as u32) == (a as u32) + 32)
    ||| ('A' <= b <= 'Z' && (a as u32) == (b as u32) + 32)
}

/// Recognition ignores the case of ASCII letters: two paths whose
/// extensions agree up to that case are both RAW paths or neither is.
pub proof fn lemma_raw_ignores_case(p: Seq<char>, q: Seq<char>)
    requires
        extension(p) is Some,
        extension(q) is Some,
        extension(p)->0.len() == extension(q)->0.len(),
        forall|i: int|
            0 <= i < extension(p)->0.len() ==> same_ignoring_case(
                #[trigger] extension(p)->0[i],
                extension(q)->0[i],
            ),
    ensures
        is_raw_path(p) == is_raw_path(q),
{
    let a = extension(p)->0;
    let b = extension(q)->0;
    assert(ascii_lower_seq(a) =~= ascii_lower_seq(b)) by {
        assert forall|i: int| 0 <= i < a.len() implies ascii_lower_seq(a)[i] == ascii_lower_seq(
            b,
        )[i] by {
            assert(same_ignoring_case(a[i], b[i]));
        }
    }
}

} // verus!
