//! Discovery of RAW files: what to do with each path met while walking the
//! given paths, and the order in which the files found are listed.
use vstd::prelude::*;

use crate::order::{
    compare_paths, lemma_path_order, lemma_path_order_same, lemma_path_order_trans, lemma_same_path,
    path_order,
    same_path,
};
use crate::raw::{is_raw_path, is_supported_raw};

verus! {

/// What a path turned out to be, following symbolic links.
#[derive(Clone, Copy, Debug, PartialEq, Eq, Structural)]
pub enum FileKind {
    File,
    Directory,
    Other,
}

/// What the walk does with a path.
#[derive(Clone, Copy, Debug, PartialEq, Eq, Structural)]
pub enum Visit {
    /// Record the (canonical) path as a discovered RAW file.
    Collect,
    /// List the directory and visit each of its entries.
    Descend,
    /// Pass over the path.
    Skip,
    /// Stop discovery with the error met while reading the path.
    Fail,
}

/// The walk's rule. `kind` is what reading the path's metadata gave (`None`
/// when that failed); `through_link` says that the path is a directory
/// entry that is itself a symbolic link. Links are followed to RAW files
/// only: a link to a directory is not entered, and a dangling link is
/// passed over instead of failing the walk.
pub open spec fn visit_rule(path: Seq<char>, kind: Option<FileKind>, through_link: bool) -> Visit {
    match kind {
        None => if through_link {
            Visit::Skip
        } else {
            Visit::Fail
        },
        Some(FileKind::File) => if is_raw_path(path) {
            Visit::Collect
        } else {
            Visit::Skip
        },
        Some(FileKind::Directory) => if through_link {
            Visit::Skip
        } else {
            Visit::Descend
        },
        Some(FileKind::Other) => Visit::Skip,
    }
}

/// Only RAW files are collected, whether or not they are reached through a
/// link: a path is collected exactly when it is a file (after following
/// links) whose name is a RAW path. Only a directory that is not itself a
/// link is entered, and only a failed read of a path that was given, not
/// found through a link, stops the walk.
pub proof fn lemma_only_raw_files_collected(
    path: Seq<char>,
    kind: Option<FileKind>,
    through_link: bool,
)
    ensures
        visit_rule(path, kind, through_link) == Visit::Collect <==> (kind == Some(FileKind::File)
            && is_raw_path(path)),
        visit_rule(path, kind, through_link) == Visit::Descend <==> (kind == Some(
            FileKind::Directory,
        ) && !through_link),
        visit_rule(path, kind, through_link) == Visit::Fail <==> (kind is None && !through_link),
{
}

/// Decides what the walk does with `path`; see `visit_rule`.
pub fn visit_action(path: &str, kind: Option<FileKind>, through_link: bool) -> (action: Visit)
    ensures
        action == visit_rule(path@, kind, through_link),
        action == Visit::Collect <==> (kind == Some(FileKind::File) && is_raw_path(path@)),
{
    match kind {
        None => if through_link {
            Visit::Skip
        } else {
            Visit::Fail
        },
        Some(FileKind::File) => if is_supported_raw(path) {
            Visit::Collect
        } else {
            Visit::Skip
        },
        Some(FileKind::Directory) => if through_link {
            Visit::Skip
        } else {
            Visit::Descend
        },
        Some(FileKind::Other) => Visit::Skip,
    }
}

/// Each path comes strictly before the next in listing order: the list is
/// sorted and no two entries name the same path.
pub open spec fn strictly_ordered(s: Seq<String>) -> bool {
    forall|i: int, j: int| 0 <= i < j < s.len() ==> path_order(#[trigger] s[i]@, #[trigger] s[j]@) < 0
}

/// No earlier entry of `files` names the same path as entry `i`.
pub open spec fn first_of_its_path(files: Seq<String>, i: int) -> bool {
    forall|k: int| 0 <= k < i ==> !same_path(#[trigger] files[k]@, files[i]@)
}

/// `x` is an entry of `files` that no earlier entry names the same path as.
pub open spec fn first_occurrence(files: Seq<String>, x: String) -> bool {
    exists|i: int| 0 <= i < files.len() && x == #[trigger] files[i] && first_of_its_path(files, i)
}

/// Some entry of `listed` names the path `p`.
#[verifier::opaque]
pub open spec fn path_listed(listed: Seq<String>, p: Seq<char>) -> bool {
    exists|k: int| 0 <= k < listed.len() && same_path(#[trigger] listed[k]@, p)
}

/// `listed` lists `files`: in listing order without repeats, each entry the
/// first occurrence in `files` of its path, and every path of `files`
/// present.
pub open spec fn lists(files: Seq<String>, listed: Seq<String>) -> bool {
    &&& strictly_ordered(listed)
    &&& forall|k: int| 0 <= k < listed.len() ==> first_occurrence(files, #[trigger] listed[k])
    &&& forall|i: int| 0 <= i < files.len() ==> path_listed(listed, #[trigger] files[i]@)
}

proof fn lemma_insert_ordered(out: Seq<String>, lo: int, x: String)
    requires
        strictly_ordered(out),
        0 <= lo <= out.len(),
        forall|k: int| 0 <= k < lo ==> path_order(#[trigger] out[k]@, x@) < 0,
        forall|k: int| lo <= k < out.len() ==> path_order(#[trigger] out[k]@, x@) > 0,
    ensures
        strictly_ordered(out.insert(lo, x)),
{
    let n = out.insert(lo, x);
    assert forall|i: int, j: int| 0 <= i < j < n.len() implies path_order(
        #[trigger] n[i]@,
        #[trigger] n[j]@,
    ) < 0 by {
        if j < lo {
            assert(n[i] == out[i] && n[j] == out[j]);
        } else if j == lo {
            assert(n[i] == out[i] && n[j] == x);
        } else if i < lo {
            assert(n[i] == out[i] && n[j] == out[j - 1]);
            assert(path_order(out[j - 1]@, x@) > 0);
            lemma_path_order(out[j - 1]@, x@);
            lemma_path_order_trans(out[i]@, x@, out[j - 1]@);
        } else if i == lo {
            assert(n[i] == x && n[j] == out[j - 1]);
            assert(path_order(out[j - 1]@, x@) > 0);
            lemma_path_order(out[j - 1]@, x@);
        } else {
            assert(n[i] == out[i - 1] && n[j] == out[j - 1]);
        }
    }
}

/// Lists the discovered files: sorted by file name, then by the whole path
/// compared component by component, keeping of each path only its first
/// occurrence.
pub fn order_discovered(files: Vec<String>) -> (listed: Vec<String>)
    ensures
        lists(files@, listed@),
{
    let mut out: Vec<String> = Vec::new();
    let ghost mut origin: Seq<int> = seq![];
    let n = files.len();
    let mut idx: usize = 0;
    while idx < n
        invariant
            n == files.len(),
            0 <= idx <= n,
            strictly_ordered(out@),
            origin.len() == out@.len(),
            forall|k: int|
                0 <= k < out@.len() ==> 0 <= #[trigger] origin[k] < idx && out@[k] == files@[origin[k]]
                    && first_of_its_path(files@, origin[k]),
            forall|i: int|
                0 <= i < idx ==> exists|k: int|
                    0 <= k < out@.len() && same_path(#[trigger] out@[k]@, #[trigger] files@[i]@),
        decreases n - idx,
    {
        let x = &files[idx];
        let mut lo: usize = 0;
        let mut hi: usize = out.len();
        while lo < hi
            invariant
                0 <= lo <= hi <= out@.len(),
                strictly_ordered(out@),
                forall|k: int| 0 <= k < lo ==> path_order(#[trigger] out@[k]@, x@) < 0,
                forall|k: int| hi <= k < out@.len() ==> path_order(#[trigger] out@[k]@, x@) >= 0,
            decreases hi - lo,
        {
            let mid = lo + (hi - lo) / 2;
            let c = compare_paths(out[mid].as_str(), x.as_str());
            if c < 0 {
                proof {
                    assert forall|k: int| 0 <= k < mid + 1 implies path_order(
                        #[trigger] out@[k]@,
                        x@,
                    ) < 0 by {
                        if k >= lo && k < mid {
                            lemma_path_order_trans(out@[k]@, out@[mid as int]@, x@);
                        }
                    }
                }
                lo = mid + 1;
            } else {
                proof {
                    assert forall|k: int| mid <= k < out@.len() implies path_order(
                        #[trigger] out@[k]@,
                        x@,
                    ) >= 0 by {
                        if k > mid && k < hi {
                            if path_order(out@[k]@, x@) < 0 {
                                lemma_path_order_trans(out@[mid as int]@, out@[k]@, x@);
                            }
                        }
                    }
                }
                hi = mid;
            }
        }
        let found = lo < out.len() && compare_paths(out[lo].as_str(), x.as_str()) == 0;
        if found {
            proof {
                lemma_path_order(out@[lo as int]@, x@);
                assert(same_path(out@[lo as int]@, files@[idx as int]@));
            }
        } else {
            proof {
                // Every entry now comes strictly before or after `x`.
                assert forall|k: int| lo <= k < out@.len() implies path_order(
                    #[trigger] out@[k]@,
                    x@,
                ) > 0 by {
                    if path_order(out@[k]@, x@) == 0 {
                        lemma_path_order(out@[k]@, x@);
                        assert(k != lo);
                        lemma_path_order_same(out@[k]@, x@, out@[lo as int]@);
                        lemma_path_order(out@[lo as int]@, out@[k]@);
                    }
                }
                // No earlier file names the same path as `x`.
                assert forall|i: int| 0 <= i < idx implies !same_path(
                    #[trigger] files@[i]@,
                    files@[idx as int]@,
                ) by {
                    if same_path(files@[i]@, files@[idx as int]@) {
                        let k = choose|k: int|
                            0 <= k < out@.len() && same_path(
                                #[trigger] out@[k]@,
                                #[trigger] files@[i]@,
                            );
                        lemma_path_order(out@[k]@, x@);
                        lemma_path_order_same(files@[i]@, x@, out@[k]@);
                        lemma_path_order(out@[k]@, files@[i]@);
                        lemma_path_order_same(out@[k]@, files@[i]@, x@);
                    }
                }
                lemma_insert_ordered(out@, lo as int, *x);
            }
            let ghost old_out = out@;
            out.insert(lo, x.clone());
            proof {
                origin = origin.insert(lo as int, idx as int);
                assert forall|i: int| 0 <= i < idx implies exists|k: int|
                    0 <= k < out@.len() && same_path(
                        #[trigger] out@[k]@,
                        #[trigger] files@[i]@,
                    ) by {
                    let k = choose|k: int|
                        0 <= k < old_out.len() && same_path(
                            #[trigger] old_out[k]@,
                            #[trigger] files@[i]@,
                        );
                    if k < lo {
                        assert(out@[k] == old_out[k]);
                    } else {
                        assert(out@[k + 1] == old_out[k]);
                    }
                }
                assert(out@[lo as int] == files@[idx as int]);
                lemma_same_path(x@, x@, x@);
                assert(same_path(out@[lo as int]@, files@[idx as int]@));
            }
        }
        idx = idx + 1;
    }
    proof {
        assert forall|k: int| 0 <= k < out@.len() implies first_occurrence(
            files@,
            #[trigger] out@[k],
        ) by {
            assert(out@[k] == files@[origin[k]]);
        }
        assert forall|i: int| 0 <= i < files@.len() implies path_listed(
            out@,
            #[trigger] files@[i]@,
        ) by {
            reveal(path_listed);
            assert(i < idx);
            assert(files@[i]@ == files@[i]@);
        }
    }
    out
}

/// Every entry of `a` names the path of some entry of `b`.
pub open spec fn covered_by(a: Seq<String>, b: Seq<String>) -> bool {
    forall|k: int| 0 <= k < a.len() ==> path_listed(b, #[trigger] a[k]@)
}

/// Entries of `a` and `b` that name the same path are the same text.
pub open spec fn same_representatives(a: Seq<String>, b: Seq<String>) -> bool {
    forall|k: int, j: int|
        0 <= k < a.len() && 0 <= j < b.len() && same_path(#[trigger] a[k]@, #[trigger] b[j]@)
            ==> a[k] == b[j]
}

proof fn lemma_ordered_lists_equal(a: Seq<String>, b: Seq<String>)
    requires
        strictly_ordered(a),
        strictly_ordered(b),
        covered_by(a, b),
        covered_by(b, a),
        same_representatives(a, b),
    ensures
        a == b,
    decreases a.len(),
{
    if a.len() == 0 {
        if b.len() > 0 {
            assert(path_listed(a, b[0]@));
            reveal(path_listed);
        }
        assert(a =~= b);
    } else {
        assert(path_listed(b, a[0]@));
        reveal(path_listed);
        let j = choose|j: int| 0 <= j < b.len() && same_path(#[trigger] b[j]@, a[0]@);
        assert(path_listed(a, b[0]@));
        let i = choose|i: int| 0 <= i < a.len() && same_path(#[trigger] a[i]@, b[0]@);
        if j > 0 {
            // b[0] comes before b[j], the path of a[0]; a[i] names b[0].
            assert(path_order(b[0]@, b[j]@) < 0);
            lemma_path_order_same(b[j]@, a[0]@, b[0]@);
            lemma_path_order_same(a[i]@, b[0]@, a[0]@);
            if i > 0 {
                assert(path_order(a[0]@, a[i]@) < 0);
                lemma_path_order(a[0]@, a[i]@);
            } else {
                lemma_path_order(a[0]@, a[0]@);
            }
        }
        assert(j == 0);
        lemma_path_order(b[0]@, a[0]@);
        assert(same_path(a[0]@, b[0]@));
        assert(a[0] == b[0]);
        let ta = a.drop_first();
        let tb = b.drop_first();
        assert forall|k: int| 0 <= k < ta.len() implies path_listed(tb, #[trigger] ta[k]@) by {
            assert(ta[k] == a[k + 1]);
            assert(path_listed(b, a[k + 1]@));
            reveal(path_listed);
            let m = choose|m: int| 0 <= m < b.len() && same_path(#[trigger] b[m]@, a[k + 1]@);
            if m == 0 {
                assert(path_order(a[0]@, a[k + 1]@) < 0);
                lemma_path_order(b[0]@, a[k + 1]@);
            }
            assert(tb[m - 1] == b[m]);
        }
        assert forall|k: int| 0 <= k < tb.len() implies path_listed(ta, #[trigger] tb[k]@) by {
            assert(tb[k] == b[k + 1]);
            assert(path_listed(a, b[k + 1]@));
            reveal(path_listed);
            let m = choose|m: int| 0 <= m < a.len() && same_path(#[trigger] a[m]@, b[k + 1]@);
            if m == 0 {
                assert(path_order(b[0]@, b[k + 1]@) < 0);
                lemma_path_order(a[0]@, b[k + 1]@);
            }
            assert(ta[m - 1] == a[m]);
        }
        assert forall|k: int, j2: int|
            0 <= k < ta.len() && 0 <= j2 < tb.len() && same_path(
                #[trigger] ta[k]@,
                #[trigger] tb[j2]@,
            ) implies ta[k] == tb[j2] by {
            assert(ta[k] == a[k + 1]);
            assert(tb[j2] == b[j2 + 1]);
        }
        assert forall|x: int, y: int| 0 <= x < y < ta.len() implies path_order(
            #[trigger] ta[x]@,
            #[trigger] ta[y]@,
        ) < 0 by {
            assert(ta[x] == a[x + 1] && ta[y] == a[y + 1]);
        }
        assert forall|x: int, y: int| 0 <= x < y < tb.len() implies path_order(
            #[trigger] tb[x]@,
            #[trigger] tb[y]@,
        ) < 0 by {
            assert(tb[x] == b[x + 1] && tb[y] == b[y + 1]);
        }
        lemma_ordered_lists_equal(ta, tb);
        assert(a =~= b) by {
            assert forall|k: int| 0 <= k < a.len() implies a[k] == b[k] by {
                if k > 0 {
                    assert(a[k] == ta[k - 1]);
                    assert(b[k] == tb[k - 1]);
                }
            }
        }
    }
}

/// The listing of a list of files is determined by the files: any two
/// listings of the same files are equal, so discovery always lists the
/// same files in the same order.
pub proof fn lemma_listing_is_unique(files: Seq<String>, a: Seq<String>, b: Seq<String>)
    requires
        lists(files, a),
        lists(files, b),
    ensures
        a == b,
{
    assert forall|k: int| 0 <= k < a.len() implies path_listed(b, #[trigger] a[k]@) by {
        assert(first_occurrence(files, a[k]));
        let i = choose|i: int|
            0 <= i < files.len() && a[k] == #[trigger] files[i] && first_of_its_path(files, i);
        assert(path_listed(b, files[i]@));
    }
    assert forall|k: int| 0 <= k < b.len() implies path_listed(a, #[trigger] b[k]@) by {
        assert(first_occurrence(files, b[k]));
        let i = choose|i: int|
            0 <= i < files.len() && b[k] == #[trigger] files[i] && first_of_its_path(files, i);
        assert(path_listed(a, files[i]@));
    }
    assert forall|k: int, j: int|
        0 <= k < a.len() && 0 <= j < b.len() && same_path(
            #[trigger] a[k]@,
            #[trigger] b[j]@,
        ) implies a[k] == b[j] by {
        assert(first_occurrence(files, a[k]));
        assert(first_occurrence(files, b[j]));
        let i1 = choose|i: int|
            0 <= i < files.len() && a[k] == #[trigger] files[i] && first_of_its_path(files, i);
        let i2 = choose|i: int|
            0 <= i < files.len() && b[j] == #[trigger] files[i] && first_of_its_path(files, i);
        assert(same_path(files[i1]@, files[i2]@));
        lemma_same_path(files[i1]@, files[i2]@, files[i1]@);
        if i1 < i2 {
            assert(!same_path(files[i1]@, files[i2]@));
        } else if i2 < i1 {
            assert(!same_path(files[i2]@, files[i1]@));
        }
    }
    lemma_ordered_lists_equal(a, b);
}

/// Each path of `files` is spelled one way only (as canonical paths are).
pub open spec fn single_spelling(files: Seq<String>) -> bool {
    forall|i: int, j: int|
        0 <= i < files.len() && 0 <= j < files.len() && same_path(
            #[trigger] files[i]@,
            #[trigger] files[j]@,
        ) ==> files[i] == files[j]
}

/// The order in which files are found does not matter: two lists holding
/// the same files, each path spelled one way, are listed alike.
pub proof fn lemma_listing_ignores_input_order(
    f1: Seq<String>,
    f2: Seq<String>,
    a: Seq<String>,
    b: Seq<String>,
)
    requires
        f1.to_set() == f2.to_set(),
        single_spelling(f1 + f2),
        lists(f1, a),
        lists(f2, b),
    ensures
        a == b,
{
    let all = f1 + f2;
    assert forall|k: int| 0 <= k < a.len() implies path_listed(b, #[trigger] a[k]@) by {
        assert(first_occurrence(f1, a[k]));
        let i = choose|i: int| 0 <= i < f1.len() && a[k] == #[trigger] f1[i] && first_of_its_path(f1, i);
        assert(f1.to_set().contains(f1[i]));
        assert(f2.to_set().contains(f1[i]));
        let i2 = choose|i2: int| 0 <= i2 < f2.len() && f2[i2] == f1[i];
        assert(path_listed(b, f2[i2]@));
    }
    assert forall|k: int| 0 <= k < b.len() implies path_listed(a, #[trigger] b[k]@) by {
        assert(first_occurrence(f2, b[k]));
        let i = choose|i: int| 0 <= i < f2.len() && b[k] == #[trigger] f2[i] && first_of_its_path(f2, i);
        assert(f2.to_set().contains(f2[i]));
        assert(f1.to_set().contains(f2[i]));
        let i1 = choose|i1: int| 0 <= i1 < f1.len() && f1[i1] == f2[i];
        assert(path_listed(a, f1[i1]@));
    }
    assert forall|k: int, j: int|
        0 <= k < a.len() && 0 <= j < b.len() && same_path(
            #[trigger] a[k]@,
            #[trigger] b[j]@,
        ) implies a[k] == b[j] by {
        assert(first_occurrence(f1, a[k]));
        assert(first_occurrence(f2, b[j]));
        let i1 = choose|i: int| 0 <= i < f1.len() && a[k] == #[trigger] f1[i] && first_of_its_path(f1, i);
        let i2 = choose|i: int| 0 <= i < f2.len() && b[j] == #[trigger] f2[i] && first_of_its_path(f2, i);
        assert(all[i1] == f1[i1]);
        assert(all[f1.len() + i2] == f2[i2]);
        assert(same_path(all[i1]@, all[f1.len() + i2]@));
    }
    lemma_ordered_lists_equal(a, b);
}

} // verus!
