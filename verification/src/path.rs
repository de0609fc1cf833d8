//! Paths as text: their components, file name, stem and extension, with the
//! meaning the standard library gives them for `/`-separated paths. Only `/`
//! separates components here and no drive prefix is recognised: callers on
//! Windows hand paths in with `\` written as `/`, which Windows accepts as a
//! separator too.
use vstd::prelude::*;
use vstd::string::*;

verus! {

/// One component of a path.
pub enum Component {
    /// A leading `/`.
    RootDir,
    /// A leading `.` segment.
    CurDir,
    /// A `..` segment.
    ParentDir,
    /// Any other non-empty segment.
    Normal(Seq<char>),
}

/// The end of the segment that starts at `i`: the first `/` at or after
/// `i`, or the end of the text.
pub open spec fn seg_end(p: Seq<char>, i: nat) -> nat
    decreases p.len() - i,
{
    if i >= p.len() {
        p.len()
    } else if p[i as int] == '/' {
        i
    } else {
        seg_end(p, i + 1)
    }
}

pub proof fn lemma_seg_end(p: Seq<char>, i: nat)
    requires
        i <= p.len(),
    ensures
        i <= seg_end(p, i) <= p.len(),
        seg_end(p, i) < p.len() ==> p[seg_end(p, i) as int] == '/',
        forall|k: int| i <= k < seg_end(p, i) ==> p[k] != '/',
    decreases p.len() - i,
{
    if i < p.len() && p[i as int] != '/' {
        lemma_seg_end(p, i + 1);
    }
}

/// What a segment contributes to the components: nothing for an empty or
/// `.` segment, `ParentDir` for `..`, else the segment itself.
pub open spec fn segment_component(seg: Seq<char>) -> Option<Component> {
    if seg.len() == 0 || seg == seq!['.'] {
        None
    } else if seg == seq!['.', '.'] {
        Some(Component::ParentDir)
    } else {
        Some(Component::Normal(seg))
    }
}

/// The components of the segments from position `i` on.
pub open spec fn parts_from(p: Seq<char>, i: nat) -> Seq<Component>
    decreases p.len() - i,
{
    if i >= p.len() {
        seq![]
    } else {
        let j = seg_end(p, i);
        proof {
            lemma_seg_end(p, i);
        }
        let rest = if j < p.len() {
            parts_from(p, j + 1)
        } else {
            seq![]
        };
        match segment_component(p.subrange(i as int, j as int)) {
            Some(c) => seq![c] + rest,
            None => rest,
        }
    }
}

/// The path starts at the root.
pub open spec fn has_root(p: Seq<char>) -> bool {
    p.len() > 0 && p[0] == '/'
}

/// The path starts with a `.` segment, which is kept as `CurDir`.
pub open spec fn leading_cur_dir(p: Seq<char>) -> bool {
    &&& !has_root(p)
    &&& p.len() > 0
    &&& p[0] == '.'
    &&& (p.len() == 1 || p[1] == '/')
}

/// The components of a path: repeated separators, a trailing separator and
/// `.` segments other than a leading one do not count.
pub open spec fn components(p: Seq<char>) -> Seq<Component> {
    if has_root(p) {
        seq![Component::RootDir] + parts_from(p, 1)
    } else if leading_cur_dir(p) {
        seq![Component::CurDir] + parts_from(p, 1)
    } else {
        parts_from(p, 0)
    }
}

/// The file name of a path made of the given components: its last
/// component, when that is a normal one.
pub open spec fn name_of(cs: Seq<Component>) -> Option<Seq<char>> {
    if cs.len() > 0 && cs.last() is Normal {
        Some(cs.last()->Normal_0)
    } else {
        None
    }
}

/// The file name of a path.
pub open spec fn file_name(p: Seq<char>) -> Option<Seq<char>> {
    name_of(components(p))
}

/// The position of the last `.` before `end` in `name`, or -1.
pub open spec fn last_dot(name: Seq<char>, end: int) -> int
    decreases end,
{
    if end <= 0 {
        -1
    } else if name[end - 1] == '.' {
        end - 1
    } else {
        last_dot(name, end - 1)
    }
}

/// The extension of a file name: what follows its last `.`, unless there is
/// none or the only one starts the name.
pub open spec fn name_extension(name: Seq<char>) -> Option<Seq<char>> {
    let k = last_dot(name, name.len() as int);
    if k <= 0 {
        None
    } else {
        Some(name.subrange(k + 1, name.len() as int))
    }
}

/// The stem of a file name: what precedes its last `.`, or the whole name
/// where `name_extension` finds no extension.
pub open spec fn name_stem(name: Seq<char>) -> Seq<char> {
    let k = last_dot(name, name.len() as int);
    if k <= 0 {
        name
    } else {
        name.subrange(0, k)
    }
}

/// The extension of a path's file name.
pub open spec fn extension(p: Seq<char>) -> Option<Seq<char>> {
    match file_name(p) {
        Some(name) => name_extension(name),
        None => None,
    }
}

/// The stem of a path's file name.
pub open spec fn file_stem(p: Seq<char>) -> Option<Seq<char>> {
    match file_name(p) {
        Some(name) => Some(name_stem(name)),
        None => None,
    }
}

/// ASCII upper-case letters become lower-case; other characters stay.
pub open spec fn ascii_lower(c: char) -> char {
    if 'A' <= c && c <= 'Z' {
        ((c as u32) + 32) as char
    } else {
        c
    }
}

/// `ascii_lower` applied to every character.
pub open spec fn ascii_lower_seq(s: Seq<char>) -> Seq<char> {
    s.map_values(|c: char| ascii_lower(c))
}

pub open spec fn starts_with(s: Seq<char>, prefix: Seq<char>) -> bool {
    prefix.len() <= s.len() && s.subrange(0, prefix.len() as int) == prefix
}

proof fn lemma_last_dot(name: Seq<char>, end: int)
    requires
        end <= name.len(),
    ensures
        -1 <= last_dot(name, end) < if end < 0 {
            0
        } else {
            end
        },
        last_dot(name, end) >= 0 ==> name[last_dot(name, end)] == '.',
        forall|i: int| last_dot(name, end) < i < end ==> name[i] != '.',
    decreases end,
{
    if end > 0 && name[end - 1] != '.' {
        lemma_last_dot(name, end - 1);
    }
}

proof fn lemma_name_split(name: Seq<char>)
    ensures
        name_extension(name) matches Some(ext) ==> name == name_stem(name) + "."@ + ext
            && name_stem(name).len() > 0 && !ext.contains('.'),
        name_extension(name) is None ==> name_stem(name) == name && forall|i: int|
            1 <= i < name.len() ==> name[i] != '.',
{
    reveal_strlit(".");
    lemma_last_dot(name, name.len() as int);
    let k = last_dot(name, name.len() as int);
    if k > 0 {
        let ext = name.subrange(k + 1, name.len() as int);
        assert(name =~= name.subrange(0, k) + "."@ + ext);
        if ext.contains('.') {
            let j = choose|j: int| 0 <= j < ext.len() && ext[j] == '.';
            assert(name[k + 1 + j] == '.');
        }
    }
}

/// A file name splits at its last dot: with an extension, the name is the
/// stem, a `.` and the extension, where the stem is not empty and the
/// extension holds no `.`; without one, the stem is the whole name, which
/// then has no `.` but perhaps a leading one. The same holds of a path's
/// file name, stem and extension.
pub proof fn lemma_stem_and_extension(name: Seq<char>, p: Seq<char>)
    ensures
        name_extension(name) matches Some(ext) ==> name == name_stem(name) + "."@ + ext
            && name_stem(name).len() > 0 && !ext.contains('.'),
        name_extension(name) is None ==> name_stem(name) == name && forall|i: int|
            1 <= i < name.len() ==> name[i] != '.',
        extension(p) matches Some(ext) ==> file_name(p) == Some(
            file_stem(p)->0 + "."@ + ext,
        ),
        file_stem(p) is Some <==> file_name(p) is Some,
{
    lemma_name_split(name);
    match file_name(p) {
        Some(n) => {
            lemma_name_split(n);
        },
        None => {},
    }
}

/// A plain name: not empty, no `/`, and neither `.` nor `..`.
pub open spec fn plain_name(name: Seq<char>) -> bool {
    &&& name.len() > 0
    &&& !name.contains('/')
    &&& name != seq!['.']
    &&& name != seq!['.', '.']
}

proof fn lemma_parts_end_with_name(dir: Seq<char>, name: Seq<char>, i: nat)
    requires
        plain_name(name),
        i <= dir.len() + 1,
    ensures
        parts_from(dir + seq!['/'] + name, i).len() > 0,
        parts_from(dir + seq!['/'] + name, i).last() == Component::Normal(name),
    decreases dir.len() + 1 + name.len() - i,
{
    let q = dir + seq!['/'] + name;
    let d = dir.len();
    lemma_seg_end(q, i);
    let j = seg_end(q, i);
    assert(q[d as int] == '/');
    if i == d + 1 {
        assert forall|k: int| i <= k < q.len() implies q[k] != '/' by {
            assert(q[k] == name[k - d - 1]);
        }
        assert(j == q.len());
        assert(q.subrange(i as int, j as int) =~= name);
    } else {
        assert(j <= d);
        lemma_parts_end_with_name(dir, name, j + 1);
    }
}

/// The file name of a directory joined with a plain name, by a `/`, is that
/// name, whatever the directory.
pub proof fn lemma_file_name_of_joined(dir: Seq<char>, name: Seq<char>)
    requires
        plain_name(name),
    ensures
        file_name(dir + seq!['/'] + name) == Some(name),
{
    let q = dir + seq!['/'] + name;
    if has_root(q) || leading_cur_dir(q) {
        lemma_parts_end_with_name(dir, name, 1);
        let cs = components(q);
        let rest = parts_from(q, 1);
        assert(cs.last() == rest.last());
    } else {
        lemma_parts_end_with_name(dir, name, 0);
    }
}

/// The file name of a plain name standing alone is that name.
pub proof fn lemma_file_name_of_plain(name: Seq<char>)
    requires
        plain_name(name),
    ensures
        file_name(name) == Some(name),
{
    lemma_seg_end(name, 0);
    assert forall|k: int| 0 <= k < name.len() implies name[k] != '/' by {
        if name[k] == '/' {
            assert(name.contains('/'));
        }
    }
    assert(seg_end(name, 0) == name.len());
    assert(name.subrange(0, name.len() as int) =~= name);
    if name[0] == '.' && name.len() > 1 && name[1] == '/' {
        assert(name.contains('/'));
    }
    if name.len() == 1 && name[0] == '.' {
        assert(name =~= seq!['.']);
    }
    assert(parts_from(name, 0) =~= seq![Component::Normal(name)]);
}

// ---------------------------------------------------------------------------
// Executable counterparts
// ---------------------------------------------------------------------------

/// The characters of `text`, in order.
pub fn chars_of(text: &str) -> (chars: Vec<char>)
    ensures
        chars@ == text@,
{
    let mut chars: Vec<char> = Vec::new();
    for c in it: text.chars()
        invariant
            chars@ == it.seq().take(it.index() as int),
    {
        chars.push(c);
        proof {
            assert(it.seq().take(it.index() as int + 1) =~= it.seq().take(it.index() as int).push(
                c,
            ));
        }
    }
    chars
}

/// A component located in a character buffer; `Normal(s, e)` is the
/// segment `s..e`.
#[derive(Clone, Copy)]
pub enum Part {
    RootDir,
    CurDir,
    ParentDir,
    Normal(usize, usize),
}

/// The component a part stands for within `p`.
pub open spec fn part_view(part: Part, p: Seq<char>) -> Component {
    match part {
        Part::RootDir => Component::RootDir,
        Part::CurDir => Component::CurDir,
        Part::ParentDir => Component::ParentDir,
        Part::Normal(s, e) => Component::Normal(p.subrange(s as int, e as int)),
    }
}

/// The part's range lies within `p`.
pub open spec fn part_in(part: Part, p: Seq<char>) -> bool {
    match part {
        Part::Normal(s, e) => s <= e <= p.len(),
        _ => true,
    }
}

/// The components that a list of parts stands for.
pub open spec fn parts_view(parts: Seq<Part>, p: Seq<char>) -> Seq<Component> {
    parts.map_values(|part: Part| part_view(part, p))
}

pub open spec fn parts_in(parts: Seq<Part>, p: Seq<char>) -> bool {
    forall|k: int| 0 <= k < parts.len() ==> part_in(#[trigger] parts[k], p)
}

fn find_seg_end(p: &Vec<char>, i: usize) -> (j: usize)
    requires
        i <= p.len(),
    ensures
        j == seg_end(p@, i as nat),
{
    let mut j = i;
    while j < p.len() && p[j] != '/'
        invariant
            i <= j <= p.len(),
            seg_end(p@, j as nat) == seg_end(p@, i as nat),
        decreases p.len() - j,
    {
        j = j + 1;
    }
    j
}

/// The `n` characters `a` (and `b`) spell `lit`.
pub open spec fn short_lit(a: char, b: char, n: usize) -> Seq<char> {
    if n == 1 {
        seq![a]
    } else {
        seq![a, b]
    }
}

/// `s..e` of `p` spells the one or two characters given.
fn range_is(p: &Vec<char>, s: usize, e: usize, a: char, b: char, n: usize) -> (r: bool)
    requires
        s <= e <= p.len(),
        1 <= n <= 2,
    ensures
        r == (p@.subrange(s as int, e as int) == short_lit(a, b, n)),
{
    let ghost lit = short_lit(a, b, n);
    assert(lit.len() == n);
    if e - s != n {
        return false;
    }
    if p[s] != a {
        assert(p@.subrange(s as int, e as int)[0] != lit[0]);
        return false;
    }
    if n == 2 && p[s + 1] != b {
        assert(p@.subrange(s as int, e as int)[1] != lit[1]);
        return false;
    }
    assert(p@.subrange(s as int, e as int) =~= lit);
    true
}

/// The parts of the segments of `p` from position `start` on.
fn parts_after(p: &Vec<char>, start: usize) -> (parts: Vec<Part>)
    requires
        start <= p.len(),
    ensures
        parts_view(parts@, p@) == parts_from(p@, start as nat),
        parts_in(parts@, p@),
{
    let n = p.len();
    let mut parts: Vec<Part> = Vec::new();
    let mut i = start;
    loop
        invariant_except_break
            parts_view(parts@, p@) + parts_from(p@, i as nat) == parts_from(p@, start as nat),
        invariant
            n == p.len(),
            start <= i <= n,
            parts_in(parts@, p@),
        ensures
            parts_view(parts@, p@) == parts_from(p@, start as nat),
        decreases n - i,
    {
        if i >= n {
            assert(parts_from(p@, i as nat) =~= seq![]);
            assert(parts_view(parts@, p@) + seq![] =~= parts_view(parts@, p@));
            break ;
        }
        let j = find_seg_end(p, i);
        proof {
            lemma_seg_end(p@, i as nat);
        }
        let ghost seg = p@.subrange(i as int, j as int);
        let ghost old_parts = parts@;
        let ghost rest = if j < n {
            parts_from(p@, (j + 1) as nat)
        } else {
            seq![]
        };
        assert(parts_from(p@, i as nat) == match segment_component(seg) {
            Some(c) => seq![c] + rest,
            None => rest,
        });
        let empty = j == i;
        let dot = !empty && range_is(p, i, j, '.', '.', 1);
        let dotdot = !empty && !dot && range_is(p, i, j, '.', '.', 2);
        if empty || dot {
            assert(segment_component(seg) is None);
        } else if dotdot {
            parts.push(Part::ParentDir);
            assert(segment_component(seg) == Some(Component::ParentDir));
            assert(parts_view(parts@, p@) =~= parts_view(old_parts, p@) + seq![
                Component::ParentDir,
            ]);
        } else {
            parts.push(Part::Normal(i, j));
            assert(segment_component(seg) == Some(Component::Normal(seg)));
            assert(parts_view(parts@, p@) =~= parts_view(old_parts, p@) + seq![
                Component::Normal(seg),
            ]);
        }
        assert(parts_view(parts@, p@) + rest =~= parts_view(old_parts, p@) + parts_from(
            p@,
            i as nat,
        ));
        assert(parts_in(parts@, p@));
        if j >= n {
            assert(parts_view(parts@, p@) + seq![] =~= parts_view(parts@, p@));
            break ;
        }
        i = j + 1;
    }
    parts
}

/// The components of the path spelled by `p`.
pub fn path_parts(p: &Vec<char>) -> (parts: Vec<Part>)
    ensures
        parts_view(parts@, p@) == components(p@),
        parts_in(parts@, p@),
{
    let n = p.len();
    if n > 0 && p[0] == '/' {
        let rest = parts_after(p, 1);
        let mut parts = vec![Part::RootDir];
        let mut rest = rest;
        parts.append(&mut rest);
        assert(parts_view(parts@, p@) =~= seq![Component::RootDir] + parts_from(p@, 1));
        parts
    } else if n > 0 && p[0] == '.' && (n == 1 || p[1] == '/') {
        let rest = parts_after(p, 1);
        let mut parts = vec![Part::CurDir];
        let mut rest = rest;
        parts.append(&mut rest);
        assert(parts_view(parts@, p@) =~= seq![Component::CurDir] + parts_from(p@, 1));
        parts
    } else {
        parts_after(p, 0)
    }
}

/// The range of the file name among located components.
pub fn name_in_parts(parts: &Vec<Part>, p: &Vec<char>) -> (range: Option<(usize, usize)>)
    requires
        parts_in(parts@, p@),
    ensures
        match range {
            Some((s, e)) => s <= e <= p.len() && name_of(parts_view(parts@, p@)) == Some(
                p@.subrange(s as int, e as int),
            ),
            None => name_of(parts_view(parts@, p@)) is None,
        },
{
    let n = parts.len();
    if n == 0 {
        return None;
    }
    assert(parts_view(parts@, p@).last() == part_view(parts@[n - 1], p@));
    assert(part_in(parts@[n - 1], p@));
    match parts[n - 1] {
        Part::Normal(s, e) => Some((s, e)),
        _ => None,
    }
}

/// The range of the file name within `p`, when the path has one.
pub fn file_name_range(p: &Vec<char>) -> (range: Option<(usize, usize)>)
    ensures
        match range {
            Some((s, e)) => s <= e <= p.len() && file_name(p@) == Some(
                p@.subrange(s as int, e as int),
            ),
            None => file_name(p@) is None,
        },
{
    let parts = path_parts(p);
    name_in_parts(&parts, p)
}

/// The position of the last `.` within `s..e` of `p`, relative to `s`.
fn find_last_dot(p: &Vec<char>, s: usize, e: usize) -> (k: Option<usize>)
    requires
        s <= e <= p.len(),
    ensures
        match k {
            Some(k) => k < e - s && last_dot(p@.subrange(s as int, e as int), (e - s) as int)
                == k as int,
            None => last_dot(p@.subrange(s as int, e as int), (e - s) as int) == -1,
        },
{
    let ghost name = p@.subrange(s as int, e as int);
    let mut end = e - s;
    while end > 0
        invariant
            end <= e - s,
            e <= p.len(),
            name == p@.subrange(s as int, e as int),
            last_dot(name, end as int) == last_dot(name, (e - s) as int),
        decreases end,
    {
        if p[s + end - 1] == '.' {
            assert(name[end - 1] == '.');
            return Some(end - 1);
        }
        assert(name[end - 1] != '.');
        end = end - 1;
    }
    None
}

/// The range of the extension within `p`, when the path has one.
pub fn extension_range(p: &Vec<char>) -> (range: Option<(usize, usize)>)
    ensures
        match range {
            Some((s, e)) => s <= e <= p.len() && extension(p@) == Some(
                p@.subrange(s as int, e as int),
            ),
            None => extension(p@) is None,
        },
{
    match file_name_range(p) {
        None => None,
        Some((s, e)) => {
            let ghost name = p@.subrange(s as int, e as int);
            match find_last_dot(p, s, e) {
                None => None,
                Some(k) => {
                    if k == 0 {
                        None
                    } else {
                        assert(name.subrange(k + 1, name.len() as int) =~= p@.subrange(
                            s + k + 1,
                            e as int,
                        ));
                        Some((s + k + 1, e))
                    }
                },
            }
        },
    }
}

/// The range of the stem within `p`, when the path has a file name.
pub fn stem_range(p: &Vec<char>) -> (range: Option<(usize, usize)>)
    ensures
        match range {
            Some((s, e)) => s <= e <= p.len() && file_stem(p@) == Some(
                p@.subrange(s as int, e as int),
            ),
            None => file_stem(p@) is None,
        },
{
    match file_name_range(p) {
        None => None,
        Some((s, e)) => {
            let ghost name = p@.subrange(s as int, e as int);
            match find_last_dot(p, s, e) {
                None => Some((s, e)),
                Some(k) => {
                    if k == 0 {
                        Some((s, e))
                    } else {
                        assert(name.subrange(0, k as int) =~= p@.subrange(s as int, s + k));
                        Some((s, s + k))
                    }
                },
            }
        },
    }
}

/// `ascii_lower` in executable form.
pub fn lower_char(c: char) -> (l: char)
    ensures
        l == ascii_lower(c),
{
    if 'A' <= c && c <= 'Z' {
        ((c as u8) + 32) as char
    } else {
        c
    }
}

/// The characters `s..e` of `p` lower-cased.
pub fn lower_range(p: &Vec<char>, s: usize, e: usize) -> (lowered: Vec<char>)
    requires
        s <= e <= p.len(),
    ensures
        lowered@ == ascii_lower_seq(p@.subrange(s as int, e as int)),
{
    let mut lowered: Vec<char> = Vec::new();
    let mut i = s;
    while i < e
        invariant
            s <= i <= e <= p.len(),
            lowered@ == ascii_lower_seq(p@.subrange(s as int, i as int)),
        decreases e - i,
    {
        let c = lower_char(p[i]);
        lowered.push(c);
        i = i + 1;
        assert(lowered@ =~= ascii_lower_seq(p@.subrange(s as int, i as int)));
    }
    lowered
}

/// Whether two character buffers hold the same characters.
pub fn same_chars(a: &Vec<char>, b: &Vec<char>) -> (same: bool)
    ensures
        same == (a@ == b@),
{
    if a.len() != b.len() {
        return false;
    }
    let mut i: usize = 0;
    while i < a.len()
        invariant
            a.len() == b.len(),
            0 <= i <= a.len(),
            forall|k: int| 0 <= k < i ==> a@[k] == b@[k],
        decreases a.len() - i,
    {
        if a[i] != b[i] {
            return false;
        }
        i = i + 1;
    }
    assert(a@ =~= b@);
    true
}

/// Whether the buffer starts with the given characters.
pub fn has_prefix(a: &Vec<char>, prefix: &Vec<char>) -> (yes: bool)
    ensures
        yes == starts_with(a@, prefix@),
{
    if prefix.len() > a.len() {
        return false;
    }
    let mut i: usize = 0;
    while i < prefix.len()
        invariant
            prefix.len() <= a.len(),
            0 <= i <= prefix.len(),
            forall|k: int| 0 <= k < i ==> a@[k] == prefix@[k],
        decreases prefix.len() - i,
    {
        if a[i] != prefix[i] {
            assert(a@.subrange(0, prefix.len() as int)[i as int] != prefix@[i as int]);
            return false;
        }
        i = i + 1;
    }
    assert(a@.subrange(0, prefix.len() as int) =~= prefix@);
    true
}

} // verus!
