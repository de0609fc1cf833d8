//! Names of output files. An existing file is never overwritten: the
//! converter tries `stem.jpg`, then `stem-2.jpg`, `stem-3.jpg`, ... until it
//! can create one that does not exist yet.
use vstd::prelude::*;
use vstd::string::*;

use crate::path::{
    chars_of, file_stem, lemma_file_name_of_joined, lemma_stem_and_extension, name_extension,
    name_stem, plain_name, stem_range,
};

verus! {

/// The decimal digit `d` as a character.
pub open spec fn digit(d: nat) -> char {
    (('0' as int) + d) as char
}

/// The decimal representation of `n`, without leading zeros.
pub open spec fn decimal(n: nat) -> Seq<char>
    decreases n,
{
    if n < 10 {
        seq![digit(n)]
    } else {
        decimal(n / 10) + seq![digit(n % 10)]
    }
}

/// The stem an output file is named after: the input's file stem, when it
/// has a non-empty one.
pub open spec fn output_stem(input: Seq<char>) -> Option<Seq<char>> {
    match file_stem(input) {
        Some(stem) => if stem.len() > 0 {
            Some(stem)
        } else {
            None
        },
        None => None,
    }
}

/// The `number`-th name tried for an output file: `stem.jpg` first, then
/// `stem-2.jpg`, `stem-3.jpg`, and so on.
pub open spec fn candidate_name(stem: Seq<char>, number: nat) -> Seq<char> {
    if number > 1 {
        stem + "-"@ + decimal(number) + ".jpg"@
    } else {
        stem + ".jpg"@
    }
}

proof fn lemma_decimal_len(n: nat)
    ensures
        decimal(n).len() >= 1,
    decreases n,
{
    if n >= 10 {
        lemma_decimal_len(n / 10);
    }
}

proof fn lemma_decimal_injective(n: nat, m: nat)
    requires
        decimal(n) == decimal(m),
    ensures
        n == m,
    decreases n,
{
    lemma_decimal_len(n);
    lemma_decimal_len(m);
    if n < 10 && m < 10 {
        assert(decimal(n)[0] == digit(n));
        assert(decimal(m)[0] == digit(m));
    } else if n < 10 {
        lemma_decimal_len(m / 10);
        assert(decimal(m).len() >= 2);
    } else if m < 10 {
        lemma_decimal_len(n / 10);
        assert(decimal(n).len() >= 2);
    } else {
        let a = decimal(n / 10);
        let b = decimal(m / 10);
        assert(decimal(n).last() == digit(n % 10));
        assert(decimal(m).last() == digit(m % 10));
        assert(decimal(n).drop_last() =~= a);
        assert(decimal(m).drop_last() =~= b);
        lemma_decimal_injective(n / 10, m / 10);
    }
}

/// Distinct attempts try distinct names, so the search for a free name
/// never retries a name it has found taken.
pub proof fn lemma_candidate_names_distinct(stem: Seq<char>, n: nat, m: nat)
    requires
        1 <= n,
        1 <= m,
        n != m,
    ensures
        candidate_name(stem, n) != candidate_name(stem, m),
{
    reveal_strlit(".jpg");
    reveal_strlit("-");
    let k = stem.len() as int;
    if n == 1 || m == 1 {
        let (one, other) = if n == 1 {
            (n, m)
        } else {
            (m, n)
        };
        assert(candidate_name(stem, one)[k] == '.');
        assert(candidate_name(stem, other)[k] == '-');
    } else {
        if candidate_name(stem, n) == candidate_name(stem, m) {
            let x = candidate_name(stem, n);
            lemma_decimal_len(n);
            lemma_decimal_len(m);
            assert(x.len() == k + 1 + decimal(n).len() + 4);
            assert(decimal(n) =~= x.subrange(k + 1, x.len() - 4));
            assert(decimal(m) =~= candidate_name(stem, m).subrange(
                k + 1,
                candidate_name(stem, m).len() - 4,
            ));
            lemma_decimal_injective(n, m);
        }
    }
}

/// Outputs are named after the input's stem, whatever directory it is in: an
/// input `dir/stem.ext`, whose extension holds no `.`, is written as
/// `stem.jpg`, then `stem-2.jpg`, `stem-3.jpg`, ... .
pub proof fn lemma_output_named_after_stem(
    dir: Seq<char>,
    stem: Seq<char>,
    ext: Seq<char>,
    number: nat,
)
    requires
        plain_name(stem + "."@ + ext),
        stem.len() > 0,
        !ext.contains('.'),
        number >= 1,
    ensures
        output_stem(dir + seq!['/'] + (stem + "."@ + ext)) == Some(stem),
        candidate_name(stem, number) == if number == 1 {
            stem + ".jpg"@
        } else {
            stem + "-"@ + decimal(number) + ".jpg"@
        },
{
    reveal_strlit(".");
    let name = stem + "."@ + ext;
    let p = dir + seq!['/'] + name;
    lemma_file_name_of_joined(dir, name);
    lemma_stem_and_extension(name, p);
    let k = stem.len() as int;
    assert(name[k] == '.');
    match name_extension(name) {
        Some(e) => {
            let s2 = name_stem(name);
            assert(name == s2 + "."@ + e);
            if e.len() < ext.len() {
                let j = ext.len() - e.len() - 1;
                assert(name[k + 1 + j] == '.');
                assert(ext[j] == '.');
                assert(ext.contains('.'));
            } else if e.len() > ext.len() {
                let j = e.len() - ext.len() - 1;
                assert(name[s2.len() + 1 + j] == '.');
                assert(e[j] == '.');
                assert(e.contains('.'));
            }
            assert(s2.len() == stem.len());
            assert forall|i: int| 0 <= i < k implies s2[i] == stem[i] by {
                assert(name[i] == s2[i]);
                assert(name[i] == stem[i]);
            }
            assert(s2 =~= stem);
        },
        None => {
            assert(name[k] != '.');
        },
    }
}

/// Appends the decimal digit `d` to `text`.
fn push_digit(text: &mut String, d: u32)
    requires
        d < 10,
    ensures
        final(text)@ == old(text)@ + seq![digit(d as nat)],
{
    proof {
        reveal_strlit("0");
        reveal_strlit("1");
        reveal_strlit("2");
        reveal_strlit("3");
        reveal_strlit("4");
        reveal_strlit("5");
        reveal_strlit("6");
        reveal_strlit("7");
        reveal_strlit("8");
        reveal_strlit("9");
    }
    let s = match d {
        0 => "0",
        1 => "1",
        2 => "2",
        3 => "3",
        4 => "4",
        5 => "5",
        6 => "6",
        7 => "7",
        8 => "8",
        _ => "9",
    };
    assert(s@ =~= seq![digit(d as nat)]);
    text.append(s);
}

/// Appends the decimal representation of `n` to `text`.
fn push_decimal(text: &mut String, n: u32)
    ensures
        final(text)@ == old(text)@ + decimal(n as nat),
    decreases n,
{
    if n >= 10 {
        push_decimal(text, n / 10);
        push_digit(text, n % 10);
        assert(final(text)@ =~= old(text)@ + decimal(n as nat));
    } else {
        push_digit(text, n);
    }
}

/// The `number`-th name to try for the output of `input`; see
/// `candidate_name`. Fails with "input has no filename" when the input has
/// no non-empty file stem.
pub fn output_file_name(input: &str, number: u32) -> (name: Result<String, String>)
    requires
        number >= 1,
    ensures
        match output_stem(input@) {
            Some(stem) => name matches Ok(text) && text@ == candidate_name(stem, number as nat),
            None => name matches Err(reason) && reason@ == "input has no filename"@,
        },
{
    let chars = chars_of(input);
    match stem_range(&chars) {
        Some((s, e)) => {
            if s == e {
                return Err(String::from_str("input has no filename"));
            }
            let mut text = input.substring_char(s, e).to_owned();
            if number > 1 {
                text.append("-");
                push_decimal(&mut text, number);
            }
            text.append(".jpg");
            Ok(text)
        },
        None => Err(String::from_str("input has no filename")),
    }
}

/// What trying to create a candidate output file came to.
#[derive(Clone, Copy, Debug, PartialEq, Eq, Structural)]
pub enum CreateResult {
    /// The file was created.
    Created,
    /// A file of that name exists already.
    AlreadyExists,
    /// Creating failed for another reason.
    Failed,
}

/// What to do after trying a candidate name.
#[derive(Clone, Copy, Debug, PartialEq, Eq, Structural)]
pub enum NameStep {
    /// The output file is created: use it.
    Done,
    /// Try the candidate with this number next.
    Try(u32),
    /// Stop with the error met.
    Stop,
    /// Every numbered name is taken.
    GiveUp,
}

/// Decides the next step after trying candidate `number`: a created file is
/// used, a taken name moves on to the next number, any other error stops
/// the search. An existing file is never opened for writing.
pub fn next_name_step(result: CreateResult, number: u32) -> (step: NameStep)
    ensures
        result == CreateResult::Created ==> step == NameStep::Done,
        result == CreateResult::Failed ==> step == NameStep::Stop,
        result == CreateResult::AlreadyExists ==> step == if number < u32::MAX {
            NameStep::Try((number + 1) as u32)
        } else {
            NameStep::GiveUp
        },
{
    match result {
        CreateResult::Created => NameStep::Done,
        CreateResult::Failed => NameStep::Stop,
        CreateResult::AlreadyExists => if number < u32::MAX {
            NameStep::Try(number + 1)
        } else {
            NameStep::GiveUp
        },
    }
}

} // verus!
