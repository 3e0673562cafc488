//! Team-name casing: case-insensitive matching and the display-form fixer.
//!
//! Matching is Unicode case-insensitive, through the `caseless` crate. The
//! display form of a name is its title-cased form (through `heck`) with one
//! correction: the first whitespace-delimited word that ends in the letters
//! `fc` is forced to uppercase, so that `real portland fc` reads
//! `Real Portland FC` and not `Real Portland Fc`.

use vstd::prelude::*;
use vstd::string::StringExecFns;

use crate::chars::{is_space_char, space_char, to_upper_char, upper_char, upper_chars};

verus! {

/// The Unicode default case fold of a string's characters, as the
/// `caseless` crate computes it.
pub uninterp spec fn case_fold(s: Seq<char>) -> Seq<char>;

/// Relies on `caseless::default_caseless_match_str`, which holds two
/// strings equal exactly when their default case folds are equal character
/// sequences.
#[verifier::external_body]
pub(crate) fn caseless_match(a: &str, b: &str) -> (r: bool)
    ensures
        r == (case_fold(a@) == case_fold(b@)),
{
    caseless::default_caseless_match_str(a, b)
}

/// The title-cased form of a string, as the `heck` crate computes it: words
/// begin with a capital and are separated by single spaces.
pub uninterp spec fn title_of(s: Seq<char>) -> Seq<char>;

/// Relies on `heck::ToTitleCase::to_title_case`: the title-cased form is a
/// function of the input characters alone.
#[verifier::external_body]
pub(crate) fn title_case(s: &str) -> (r: String)
    ensures
        r@ == title_of(s@),
{
    heck::ToTitleCase::to_title_case(s)
}

/// The position just past the run of non-whitespace characters starting at
/// `i`.
pub open spec fn run_end(s: Seq<char>, i: int) -> int
    decreases s.len() - i,
    when 0 <= i <= s.len()
{
    if i < s.len() && !is_space_char(s[i]) {
        run_end(s, i + 1)
    } else {
        i
    }
}

pub proof fn lemma_run_end(s: Seq<char>, i: int)
    requires
        0 <= i <= s.len(),
    ensures
        i <= run_end(s, i) <= s.len(),
        forall|p: int| i <= p < run_end(s, i) ==> !is_space_char(#[trigger] s[p]),
        run_end(s, i) == s.len() || is_space_char(s[run_end(s, i)]),
    decreases s.len() - i,
{
    if i < s.len() && !is_space_char(s[i]) {
        lemma_run_end(s, i + 1);
    }
}

/// The word ending at `j` closes with the letters `fc`, in either case.
pub open spec fn ends_fc(s: Seq<char>, i: int, j: int) -> bool {
    &&& j - i >= 2
    &&& (s[j - 2] == 'f' || s[j - 2] == 'F')
    &&& (s[j - 1] == 'c' || s[j - 1] == 'C')
}

/// The first whitespace-delimited word at or after position `i` that ends
/// in the letters `fc`, as its start and end positions.
pub open spec fn fc_find(s: Seq<char>, i: int) -> Option<(int, int)>
    decreases s.len() - i,
    when 0 <= i <= s.len()
    via fc_find_decreases
{
    if i >= s.len() {
        None
    } else if is_space_char(s[i]) {
        fc_find(s, i + 1)
    } else if ends_fc(s, i, run_end(s, i)) {
        Some((i, run_end(s, i)))
    } else {
        fc_find(s, run_end(s, i))
    }
}

#[via_fn]
proof fn fc_find_decreases(s: Seq<char>, i: int) {
    if 0 <= i < s.len() && !is_space_char(s[i]) {
        lemma_run_end(s, i + 1);
    }
}

/// The string with the first word that ends in `fc` forced to uppercase,
/// and every other character unchanged.
pub open spec fn fix_fc(s: Seq<char>) -> Seq<char> {
    match fc_find(s, 0) {
        None => s,
        Some((i, j)) => s.subrange(0, i) + upper_chars(s.subrange(i, j)) + s.subrange(
            j,
            s.len() as int,
        ),
    }
}

/// What a found word satisfies: it starts at or after the scan position, it
/// is a non-whitespace run, and it closes with `fc`.
pub proof fn lemma_fc_find_props(s: Seq<char>, p: int)
    requires
        0 <= p <= s.len(),
        fc_find(s, p) is Some,
    ensures
        ({
            let (i, j) = fc_find(s, p)->Some_0;
            &&& p <= i < j <= s.len()
            &&& !is_space_char(s[i])
            &&& run_end(s, i) == j
            &&& ends_fc(s, i, j)
        }),
    decreases s.len() - p,
{
    if p < s.len() {
        if is_space_char(s[p]) {
            lemma_fc_find_props(s, p + 1);
        } else {
            lemma_run_end(s, p);
            if !ends_fc(s, p, run_end(s, p)) {
                lemma_fc_find_props(s, run_end(s, p));
            }
        }
    }
}

proof fn lemma_run_end_same_spaces(s1: Seq<char>, s2: Seq<char>, p: int)
    requires
        s1.len() == s2.len(),
        forall|q: int|
            0 <= q < s1.len() ==> is_space_char(#[trigger] s1[q]) == is_space_char(s2[q]),
        0 <= p <= s1.len(),
    ensures
        run_end(s1, p) == run_end(s2, p),
    decreases s1.len() - p,
{
    if p < s1.len() && !is_space_char(s1[p]) {
        lemma_run_end_same_spaces(s1, s2, p + 1);
    }
}

proof fn lemma_fc_find_after_fix(s: Seq<char>, r: Seq<char>, i: int, j: int, p: int)
    requires
        0 <= p <= s.len(),
        fc_find(s, p) == Some((i, j)),
        r.len() == s.len(),
        forall|q: int| 0 <= q < i ==> #[trigger] r[q] == s[q],
        forall|q: int| i <= q < j ==> #[trigger] r[q] == upper_char(s[q]),
        forall|q: int| j <= q < s.len() ==> #[trigger] r[q] == s[q],
    ensures
        fc_find(r, p) == Some((i, j)),
    decreases s.len() - p,
{
    lemma_fc_find_props(s, p);
    assert forall|q: int| 0 <= q < s.len() implies is_space_char(#[trigger] s[q]) == is_space_char(
        r[q],
    ) by {
        if i <= q < j {
            assert(r[q] == upper_char(s[q]));
        }
    }
    if is_space_char(s[p]) {
        lemma_fc_find_after_fix(s, r, i, j, p + 1);
    } else {
        lemma_run_end(s, p);
        let e = run_end(s, p);
        lemma_run_end_same_spaces(s, r, p);
        if ends_fc(s, p, e) {
            assert(i == p && j == e);
        } else {
            lemma_fc_find_props(s, e);
            assert(e <= i);
            assert(!ends_fc(r, p, e));
            lemma_fc_find_after_fix(s, r, i, j, e);
        }
    }
}

/// Fixing the casing of the first `fc` word is idempotent: a second pass
/// finds the same word, already uppercase, and leaves the string unchanged.
pub proof fn lemma_fix_fc_idempotent(s: Seq<char>)
    ensures
        fix_fc(fix_fc(s)) == fix_fc(s),
{
    match fc_find(s, 0) {
        None => {},
        Some((i, j)) => {
            lemma_fc_find_props(s, 0);
            let r = fix_fc(s);
            assert(r == s.subrange(0, i) + upper_chars(s.subrange(i, j)) + s.subrange(
                j,
                s.len() as int,
            ));
            assert(r.len() == s.len());
            assert forall|q: int| 0 <= q < i implies #[trigger] r[q] == s[q] by {}
            assert forall|q: int| i <= q < j implies #[trigger] r[q] == upper_char(s[q]) by {}
            assert forall|q: int| j <= q < s.len() implies #[trigger] r[q] == s[q] by {}
            lemma_fc_find_after_fix(s, r, i, j, 0);
            assert(fix_fc(r) == r.subrange(0, i) + upper_chars(r.subrange(i, j)) + r.subrange(
                j,
                r.len() as int,
            ));
            assert(r.subrange(0, i) =~= s.subrange(0, i));
            assert(upper_chars(r.subrange(i, j)) =~= upper_chars(s.subrange(i, j)));
            assert(r.subrange(j, r.len() as int) =~= s.subrange(j, s.len() as int));
            assert(fix_fc(r) =~= r);
        },
    }
}

/// Forces the casing of the first word ending in `fc` to uppercase.
#[verifier::loop_isolation(false)]
pub fn fc_to_uppercase(s: String) -> (r: String)
    ensures
        r@ == fix_fc(s@),
{
    let text = s.as_str();
    let n = text.unicode_len();
    let mut i: usize = 0;
    while i < n
        invariant
            i <= n,
            fc_find(s@, 0) == fc_find(s@, i as int),
        decreases n - i,
    {
        if space_char(text.get_char(i)) {
            i = i + 1;
        } else {
            let mut j: usize = i + 1;
            while j < n && !space_char(text.get_char(j))
                invariant
                    i < j <= n,
                    run_end(s@, i as int) == run_end(s@, j as int),
                decreases n - j,
            {
                j = j + 1;
            }
            proof {
                assert(run_end(s@, j as int) == j);
            }
            let word_fc = j - i >= 2 && {
                let f = text.get_char(j - 2);
                let l = text.get_char(j - 1);
                (f == 'f' || f == 'F') && (l == 'c' || l == 'C')
            };
            if word_fc {
                proof {
                    assert(fc_find(s@, i as int) == Some((i as int, j as int)));
                }
                let prefix = text.substring_char(0, i);
                let mut out = String::from_str(prefix);
                proof {
                    assert(out@ =~= s@.subrange(0, i as int) + upper_chars(
                        s@.subrange(i as int, i as int),
                    ));
                }
                let mut p: usize = i;
                while p < j
                    invariant
                        i <= p <= j,
                        out@ == s@.subrange(0, i as int) + upper_chars(
                            s@.subrange(i as int, p as int),
                        ),
                    decreases j - p,
                {
                    out.push(to_upper_char(text.get_char(p)));
                    proof {
                        assert(out@ =~= s@.subrange(0, i as int) + upper_chars(
                            s@.subrange(i as int, p + 1),
                        ));
                    }
                    p = p + 1;
                }
                let suffix = text.substring_char(j, n);
                out.append(suffix);
                proof {
                    assert(out@ =~= fix_fc(s@));
                }
                return out;
            }
            i = j;
        }
    }
    s
}

/// The display form of a team name: the title-cased name with the first
/// `fc` word forced to uppercase.
pub open spec fn fix_case_spec(s: Seq<char>) -> Seq<char> {
    fix_fc(title_of(s))
}

/// Normalises a team name for display.
pub fn fix_case(s: &str) -> (r: String)
    ensures
        r@ == fix_case_spec(s@),
{
    let t = title_case(s);
    fc_to_uppercase(t)
}

} // verus!
