//! The order in which discovered files are listed: by file name, then by
//! the whole path compared component by component.
use vstd::prelude::*;

use crate::path::{
    chars_of, components, file_name, name_in_parts, name_of, part_in, part_view, parts_in, parts_view,
    path_parts, Component, Part,
};

verus! {

/// Lexicographic comparison of character sequences by code point: -1, 0 or 1.
/// UTF-8 preserves this order, so it is also the order of the encoded bytes.
pub open spec fn chars_order(a: Seq<char>, b: Seq<char>) -> int
    decreases a.len(),
{
    if a.len() == 0 {
        if b.len() == 0 {
            0
        } else {
            -1
        }
    } else if b.len() == 0 {
        1
    } else if (a[0] as int) < (b[0] as int) {
        -1
    } else if (a[0] as int) > (b[0] as int) {
        1
    } else {
        chars_order(a.drop_first(), b.drop_first())
    }
}

/// Components are ordered by kind first (root, current, parent, normal),
/// then normal components by their text.
pub open spec fn rank(c: Component) -> int {
    match c {
        Component::RootDir => 0,
        Component::CurDir => 1,
        Component::ParentDir => 2,
        Component::Normal(_) => 3,
    }
}

pub open spec fn component_order(x: Component, y: Component) -> int {
    if rank(x) < rank(y) {
        -1
    } else if rank(x) > rank(y) {
        1
    } else {
        match (x, y) {
            (Component::Normal(a), Component::Normal(b)) => chars_order(a, b),
            _ => 0,
        }
    }
}

/// Lexicographic comparison of component lists.
pub open spec fn components_order(a: Seq<Component>, b: Seq<Component>) -> int
    decreases a.len(),
{
    if a.len() == 0 {
        if b.len() == 0 {
            0
        } else {
            -1
        }
    } else if b.len() == 0 {
        1
    } else if component_order(a[0], b[0]) != 0 {
        component_order(a[0], b[0])
    } else {
        components_order(a.drop_first(), b.drop_first())
    }
}

/// File names compare with "no name" first.
pub open spec fn name_order(a: Option<Seq<char>>, b: Option<Seq<char>>) -> int {
    match (a, b) {
        (None, None) => 0,
        (None, Some(_)) => -1,
        (Some(_), None) => 1,
        (Some(x), Some(y)) => chars_order(x, y),
    }
}

/// The listing order on component lists: file name first, then the whole
/// component list.
pub open spec fn key_order(a: Seq<Component>, b: Seq<Component>) -> int {
    let c = name_order(name_of(a), name_of(b));
    if c != 0 {
        c
    } else {
        components_order(a, b)
    }
}

/// The listing order on paths: -1 when `p` comes first, 0 when both name
/// the same path, 1 when `q` comes first.
pub closed spec fn path_order(p: Seq<char>, q: Seq<char>) -> int {
    key_order(components(p), components(q))
}

/// Two texts name the same path: they have the same components.
pub closed spec fn same_path(p: Seq<char>, q: Seq<char>) -> bool {
    components(p) == components(q)
}

// ---------------------------------------------------------------------------
// The comparisons are total orders
// ---------------------------------------------------------------------------

/// Two non-empty sequences with equal heads and equal tails are equal.
proof fn lemma_head_tail<A>(a: Seq<A>, b: Seq<A>)
    requires
        a.len() > 0,
        b.len() > 0,
        a[0] == b[0],
        a.drop_first() == b.drop_first(),
    ensures
        a == b,
{
    assert(a.drop_first().len() == a.len() - 1);
    assert(b.drop_first().len() == b.len() - 1);
    assert(a.len() == b.len());
    assert forall|i: int| 0 <= i < a.len() implies a[i] == b[i] by {
        if i > 0 {
            assert(a[i] == a.drop_first()[i - 1]);
            assert(b[i] == b.drop_first()[i - 1]);
        }
    }
    assert(a =~= b);
}

proof fn lemma_chars_order(a: Seq<char>, b: Seq<char>)
    ensures
        chars_order(a, b) == -chars_order(b, a),
        -1 <= chars_order(a, b) <= 1,
        chars_order(a, b) == 0 <==> a == b,
    decreases a.len(),
{
    if a.len() > 0 && b.len() > 0 && (a[0] as int) == (b[0] as int) {
        lemma_chars_order(a.drop_first(), b.drop_first());
        assert(a[0] == b[0]);
        if a.drop_first() == b.drop_first() {
            lemma_head_tail(a, b);
        }
    }
    if a == b && a.len() > 0 {
        assert(a.drop_first() =~= b.drop_first());
    }
    if a.len() == 0 && b.len() == 0 {
        assert(a =~= b);
    }
}

proof fn lemma_chars_order_trans(a: Seq<char>, b: Seq<char>, c: Seq<char>)
    requires
        chars_order(a, b) < 0,
        chars_order(b, c) < 0,
    ensures
        chars_order(a, c) < 0,
    decreases a.len(),
{
    if a.len() > 0 && b.len() > 0 && c.len() > 0 && (a[0] as int) == (b[0] as int) && (b[0] as int)
        == (c[0] as int) {
        lemma_chars_order_trans(a.drop_first(), b.drop_first(), c.drop_first());
    }
}

proof fn lemma_component_order(x: Component, y: Component)
    ensures
        component_order(x, y) == -component_order(y, x),
        -1 <= component_order(x, y) <= 1,
        component_order(x, y) == 0 <==> x == y,
{
    match (x, y) {
        (Component::Normal(a), Component::Normal(b)) => lemma_chars_order(a, b),
        _ => {},
    }
}

proof fn lemma_component_order_trans(x: Component, y: Component, z: Component)
    requires
        component_order(x, y) < 0,
        component_order(y, z) < 0,
    ensures
        component_order(x, z) < 0,
{
    match (x, y, z) {
        (Component::Normal(a), Component::Normal(b), Component::Normal(c)) => {
            lemma_chars_order_trans(a, b, c);
        },
        _ => {},
    }
}

proof fn lemma_components_order(a: Seq<Component>, b: Seq<Component>)
    ensures
        components_order(a, b) == -components_order(b, a),
        -1 <= components_order(a, b) <= 1,
        components_order(a, b) == 0 <==> a == b,
    decreases a.len(),
{
    if a.len() > 0 && b.len() > 0 {
        lemma_component_order(a[0], b[0]);
        if component_order(a[0], b[0]) == 0 {
            lemma_components_order(a.drop_first(), b.drop_first());
            if a.drop_first() == b.drop_first() {
                lemma_head_tail(a, b);
            }
        }
    }
    if a == b && a.len() > 0 {
        lemma_component_order(a[0], b[0]);
        assert(a.drop_first() =~= b.drop_first());
    }
    if a.len() == 0 && b.len() == 0 {
        assert(a =~= b);
    }
}

proof fn lemma_components_order_trans(a: Seq<Component>, b: Seq<Component>, c: Seq<Component>)
    requires
        components_order(a, b) < 0,
        components_order(b, c) < 0,
    ensures
        components_order(a, c) < 0,
    decreases a.len(),
{
    if a.len() > 0 && b.len() > 0 && c.len() > 0 {
        lemma_component_order(a[0], b[0]);
        lemma_component_order(b[0], c[0]);
        lemma_component_order(a[0], c[0]);
        if component_order(a[0], b[0]) == 0 && component_order(b[0], c[0]) == 0 {
            lemma_components_order_trans(a.drop_first(), b.drop_first(), c.drop_first());
        } else if component_order(a[0], b[0]) < 0 && component_order(b[0], c[0]) < 0 {
            lemma_component_order_trans(a[0], b[0], c[0]);
        }
    }
}

proof fn lemma_name_order(a: Option<Seq<char>>, b: Option<Seq<char>>)
    ensures
        name_order(a, b) == -name_order(b, a),
        -1 <= name_order(a, b) <= 1,
        name_order(a, b) == 0 <==> a == b,
{
    match (a, b) {
        (Some(x), Some(y)) => lemma_chars_order(x, y),
        _ => {},
    }
}

proof fn lemma_name_order_trans(a: Option<Seq<char>>, b: Option<Seq<char>>, c: Option<Seq<char>>)
    requires
        name_order(a, b) < 0,
        name_order(b, c) < 0,
    ensures
        name_order(a, c) < 0,
{
    match (a, b, c) {
        (Some(x), Some(y), Some(z)) => lemma_chars_order_trans(x, y, z),
        _ => {},
    }
}

/// The listing order is antisymmetric, takes the values -1, 0 and 1, and
/// is 0 exactly on two texts naming the same path.
pub proof fn lemma_path_order(p: Seq<char>, q: Seq<char>)
    ensures
        path_order(p, q) == -path_order(q, p),
        -1 <= path_order(p, q) <= 1,
        path_order(p, q) == 0 <==> same_path(p, q),
{
    let a = components(p);
    let b = components(q);
    lemma_name_order(name_of(a), name_of(b));
    lemma_components_order(a, b);
}

/// The listing order is transitive.
pub proof fn lemma_path_order_trans(p: Seq<char>, q: Seq<char>, r: Seq<char>)
    requires
        path_order(p, q) < 0,
        path_order(q, r) < 0,
    ensures
        path_order(p, r) < 0,
{
    let a = components(p);
    let b = components(q);
    let c = components(r);
    lemma_name_order(name_of(a), name_of(b));
    lemma_name_order(name_of(b), name_of(c));
    lemma_name_order(name_of(a), name_of(c));
    lemma_components_order(a, b);
    lemma_components_order(b, c);
    lemma_components_order(a, c);
    let x = name_order(name_of(a), name_of(b));
    let y = name_order(name_of(b), name_of(c));
    if x < 0 && y < 0 {
        lemma_name_order_trans(name_of(a), name_of(b), name_of(c));
    } else if x == 0 && y == 0 {
        lemma_components_order_trans(a, b, c);
    }
}

/// What the listing order and "same path" are: the file names compared
/// first (no name before any name, names by code point), then the component
/// lists; two texts name the same path when their components agree.
pub proof fn lemma_path_order_def(p: Seq<char>, q: Seq<char>)
    ensures
        path_order(p, q) == key_order(components(p), components(q)),
        same_path(p, q) == (components(p) == components(q)),
        name_order(file_name(p), file_name(q)) != 0 ==> path_order(p, q) == name_order(
            file_name(p),
            file_name(q),
        ),
{
}

/// `a` is a proper prefix of `b`, or at the first position where they differ
/// `a` holds the smaller code point.
pub open spec fn lexicographically_before(a: Seq<char>, b: Seq<char>) -> bool {
    ||| (a.len() < b.len() && b.subrange(0, a.len() as int) == a)
    ||| exists|k: int|
        0 <= k < a.len() && k < b.len() && a.subrange(0, k) == b.subrange(0, k) && (
        #[trigger] a[k] as int) < (b[k] as int)
}

proof fn lemma_chars_order_before(a: Seq<char>, b: Seq<char>)
    ensures
        chars_order(a, b) < 0 <==> lexicographically_before(a, b),
    decreases a.len(),
{
    if a.len() == 0 {
        if b.len() > 0 {
            assert(b.subrange(0, 0) =~= a);
        }
    } else if b.len() == 0 {
    } else if (a[0] as int) < (b[0] as int) {
        assert(a.subrange(0, 0) =~= b.subrange(0, 0));
        assert(lexicographically_before(a, b));
    } else if (a[0] as int) > (b[0] as int) {
        if lexicographically_before(a, b) {
            if a.len() < b.len() && b.subrange(0, a.len() as int) == a {
                assert(b.subrange(0, a.len() as int)[0] == b[0]);
            } else {
                let k = choose|k: int|
                    0 <= k < a.len() && k < b.len() && a.subrange(0, k) == b.subrange(0, k) && (
                    #[trigger] a[k] as int) < (b[k] as int);
                if k > 0 {
                    assert(a.subrange(0, k)[0] == b.subrange(0, k)[0]);
                }
            }
        }
    } else {
        let ta = a.drop_first();
        let tb = b.drop_first();
        lemma_chars_order_before(ta, tb);
        assert(a[0] == b[0]);
        if lexicographically_before(ta, tb) {
            if ta.len() < tb.len() && tb.subrange(0, ta.len() as int) == ta {
                assert(b.subrange(0, a.len() as int) =~= a) by {
                    assert forall|i: int| 0 <= i < a.len() implies b.subrange(0, a.len() as int)[i]
                        == a[i] by {
                        if i > 0 {
                            assert(tb.subrange(0, ta.len() as int)[i - 1] == ta[i - 1]);
                        }
                    }
                }
            } else {
                let k = choose|k: int|
                    0 <= k < ta.len() && k < tb.len() && ta.subrange(0, k) == tb.subrange(0, k) && (
                    #[trigger] ta[k] as int) < (tb[k] as int);
                assert(a.subrange(0, k + 1) =~= b.subrange(0, k + 1)) by {
                    assert forall|i: int| 0 <= i < k + 1 implies #[trigger] a.subrange(0, k + 1)[i]
                        == b.subrange(0, k + 1)[i] by {
                        if i > 0 {
                            assert(ta.subrange(0, k)[i - 1] == tb.subrange(0, k)[i - 1]);
                        }
                    }
                }
                assert(a[k + 1] == ta[k]);
                assert(lexicographically_before(a, b));
            }
        }
        if lexicographically_before(a, b) {
            if a.len() < b.len() && b.subrange(0, a.len() as int) == a {
                assert(tb.subrange(0, ta.len() as int) =~= ta) by {
                    assert forall|i: int| 0 <= i < ta.len() implies tb.subrange(0, ta.len() as int)[i]
                        == ta[i] by {
                        assert(b.subrange(0, a.len() as int)[i + 1] == a[i + 1]);
                    }
                }
            } else {
                let k = choose|k: int|
                    0 <= k < a.len() && k < b.len() && a.subrange(0, k) == b.subrange(0, k) && (
                    #[trigger] a[k] as int) < (b[k] as int);
                assert(k > 0);
                assert(ta.subrange(0, k - 1) =~= tb.subrange(0, k - 1)) by {
                    assert forall|i: int| 0 <= i < k - 1 implies #[trigger] ta.subrange(0, k - 1)[i]
                        == tb.subrange(0, k - 1)[i] by {
                        assert(a.subrange(0, k)[i + 1] == b.subrange(0, k)[i + 1]);
                    }
                }
                assert(ta[k - 1] == a[k]);
                assert(lexicographically_before(ta, tb));
            }
        }
    }
}

/// Paths are listed by file name first: a path without a file name comes
/// before one with a file name, and of two different file names the one that
/// is a proper prefix of the other, or has the smaller code point where they
/// first differ, comes first. Equal file names leave the order to the whole
/// paths.
pub proof fn lemma_listed_by_file_name(p: Seq<char>, q: Seq<char>)
    ensures
        file_name(p) is None && file_name(q) is Some ==> path_order(p, q) < 0,
        (file_name(p) is Some && file_name(q) is Some && file_name(p) != file_name(q)) ==> (
        path_order(p, q) < 0 <==> lexicographically_before(file_name(p)->0, file_name(q)->0)),
{
    lemma_path_order_def(p, q);
    lemma_name_order(file_name(p), file_name(q));
    match (file_name(p), file_name(q)) {
        (Some(x), Some(y)) => {
            lemma_chars_order_before(x, y);
        },
        _ => {},
    }
}

/// Naming the same path is an equivalence.
pub proof fn lemma_same_path(p: Seq<char>, q: Seq<char>, r: Seq<char>)
    ensures
        same_path(p, p),
        same_path(p, q) ==> same_path(q, p),
        same_path(p, q) && same_path(q, r) ==> same_path(p, r),
{
}

/// Comparing with a path that names the same path as another gives the
/// same answer.
pub proof fn lemma_path_order_same(p: Seq<char>, q: Seq<char>, r: Seq<char>)
    requires
        same_path(p, q),
    ensures
        path_order(p, r) == path_order(q, r),
        path_order(r, p) == path_order(r, q),
{
}

// ---------------------------------------------------------------------------
// Executable comparison
// ---------------------------------------------------------------------------

/// `chars_order` of the ranges `s1..e1` of `a` and `s2..e2` of `b`.
fn order_ranges(a: &Vec<char>, s1: usize, e1: usize, b: &Vec<char>, s2: usize, e2: usize) -> (r: i8)
    requires
        s1 <= e1 <= a.len(),
        s2 <= e2 <= b.len(),
    ensures
        r == chars_order(a@.subrange(s1 as int, e1 as int), b@.subrange(s2 as int, e2 as int)),
{
    let ghost x = a@.subrange(s1 as int, e1 as int);
    let ghost y = b@.subrange(s2 as int, e2 as int);
    let n1 = e1 - s1;
    let n2 = e2 - s2;
    let mut k: usize = 0;
    assert(x.subrange(0, n1 as int) =~= x);
    assert(y.subrange(0, n2 as int) =~= y);
    loop
        invariant
            s1 <= e1 <= a.len(),
            s2 <= e2 <= b.len(),
            n1 == e1 - s1,
            n2 == e2 - s2,
            x == a@.subrange(s1 as int, e1 as int),
            y == b@.subrange(s2 as int, e2 as int),
            k <= n1,
            k <= n2,
            chars_order(x, y) == chars_order(
                x.subrange(k as int, n1 as int),
                y.subrange(k as int, n2 as int),
            ),
        decreases n1 - k,
    {
        let ghost xs = x.subrange(k as int, n1 as int);
        let ghost ys = y.subrange(k as int, n2 as int);
        if k == n1 {
            if k == n2 {
                return 0;
            }
            return -1;
        }
        if k == n2 {
            return 1;
        }
        let c1 = a[s1 + k];
        let c2 = b[s2 + k];
        assert(xs[0] == c1);
        assert(ys[0] == c2);
        if c1 < c2 {
            return -1;
        }
        if c1 > c2 {
            return 1;
        }
        assert(xs.drop_first() =~= x.subrange(k + 1, n1 as int));
        assert(ys.drop_first() =~= y.subrange(k + 1, n2 as int));
        k = k + 1;
    }
}

/// `component_order` of two located components.
fn order_parts(pa: Part, a: &Vec<char>, pb: Part, b: &Vec<char>) -> (r: i8)
    requires
        part_in(pa, a@),
        part_in(pb, b@),
    ensures
        r == component_order(part_view(pa, a@), part_view(pb, b@)),
{
    let ra: i8 = match pa {
        Part::RootDir => 0,
        Part::CurDir => 1,
        Part::ParentDir => 2,
        Part::Normal(_, _) => 3,
    };
    let rb: i8 = match pb {
        Part::RootDir => 0,
        Part::CurDir => 1,
        Part::ParentDir => 2,
        Part::Normal(_, _) => 3,
    };
    assert(ra == rank(part_view(pa, a@)));
    assert(rb == rank(part_view(pb, b@)));
    if ra < rb {
        return -1;
    }
    if ra > rb {
        return 1;
    }
    match (pa, pb) {
        (Part::Normal(s1, e1), Part::Normal(s2, e2)) => order_ranges(a, s1, e1, b, s2, e2),
        _ => 0,
    }
}

/// Compares two paths in listing order: negative when `first` comes
/// before `second`, zero when both name the same path, positive otherwise.
pub fn compare_paths(first: &str, second: &str) -> (r: i8)
    ensures
        r == path_order(first@, second@),
{
    let a = chars_of(first);
    let b = chars_of(second);
    let pa = path_parts(&a);
    let pb = path_parts(&b);
    let ghost va = parts_view(pa@, a@);
    let ghost vb = parts_view(pb@, b@);
    let na = name_in_parts(&pa, &a);
    let nb = name_in_parts(&pb, &b);
    let by_name: i8 = match (na, nb) {
        (None, None) => 0,
        (None, Some(_)) => -1,
        (Some(_), None) => 1,
        (Some((s1, e1)), Some((s2, e2))) => order_ranges(&a, s1, e1, &b, s2, e2),
    };
    assert(by_name == name_order(name_of(va), name_of(vb)));
    if by_name != 0 {
        return by_name;
    }
    let n1 = pa.len();
    let n2 = pb.len();
    let mut k: usize = 0;
    assert(va.subrange(0, n1 as int) =~= va);
    assert(vb.subrange(0, n2 as int) =~= vb);
    loop
        invariant
            n1 == pa.len(),
            n2 == pb.len(),
            va == parts_view(pa@, a@),
            vb == parts_view(pb@, b@),
            parts_in(pa@, a@),
            parts_in(pb@, b@),
            k <= n1,
            k <= n2,
            path_order(first@, second@) == components_order(
                va.subrange(k as int, n1 as int),
                vb.subrange(k as int, n2 as int),
            ),
        decreases n1 - k,
    {
        let ghost xs = va.subrange(k as int, n1 as int);
        let ghost ys = vb.subrange(k as int, n2 as int);
        if k == n1 {
            if k == n2 {
                return 0;
            }
            return -1;
        }
        if k == n2 {
            return 1;
        }
        assert(part_in(pa@[k as int], a@));
        assert(part_in(pb@[k as int], b@));
        let c = order_parts(pa[k], &a, pb[k], &b);
        assert(xs[0] == part_view(pa@[k as int], a@));
        assert(ys[0] == part_view(pb@[k as int], b@));
        if c != 0 {
            return c;
        }
        assert(xs.drop_first() =~= va.subrange(k + 1, n1 as int));
        assert(ys.drop_first() =~= vb.subrange(k + 1, n2 as int));
        k = k + 1;
    }
}

} // verus!
