//! String helpers: whitespace trimming and decimal rendering of numbers.

use vstd::prelude::*;

use crate::chars::{is_digit_char, is_space_char, space_char};

verus! {

/// Relies on `String::push`: appends one character at the end of the string.
pub assume_specification[ String::push ](s: &mut String, c: char)
    ensures
        final(s)@ == old(s)@.push(c),
;

/// The sequence with its leading whitespace removed.
pub open spec fn trim_front(s: Seq<char>) -> Seq<char>
    decreases s.len(),
{
    if s.len() > 0 && is_space_char(s[0]) {
        trim_front(s.drop_first())
    } else {
        s
    }
}

/// The sequence with its trailing whitespace removed.
pub open spec fn trim_back(s: Seq<char>) -> Seq<char>
    decreases s.len(),
{
    if s.len() > 0 && is_space_char(s.last()) {
        trim_back(s.drop_last())
    } else {
        s
    }
}

/// The sequence with surrounding whitespace removed.
pub open spec fn trim_spec(s: Seq<char>) -> Seq<char> {
    trim_back(trim_front(s))
}

proof fn lemma_trim_front_at(s: Seq<char>, k: int)
    requires
        0 <= k <= s.len(),
        forall|j: int| 0 <= j < k ==> is_space_char(#[trigger] s[j]),
        k == s.len() || !is_space_char(s[k]),
    ensures
        trim_front(s) == s.subrange(k, s.len() as int),
    decreases k,
{
    if k == 0 {
        assert(s.subrange(0, s.len() as int) =~= s);
    } else {
        let t = s.drop_first();
        assert(forall|j: int| 0 <= j < k - 1 ==> is_space_char(#[trigger] t[j]));
        lemma_trim_front_at(t, k - 1);
        assert(t.subrange(k - 1, t.len() as int) =~= s.subrange(k, s.len() as int));
    }
}

proof fn lemma_trim_back_at(s: Seq<char>, k: int)
    requires
        0 <= k <= s.len(),
        forall|j: int| k <= j < s.len() ==> is_space_char(#[trigger] s[j]),
        k == 0 || !is_space_char(s[k - 1]),
    ensures
        trim_back(s) == s.subrange(0, k),
    decreases s.len(),
{
    if k < s.len() {
        let t = s.drop_last();
        assert(forall|j: int| k <= j < t.len() ==> is_space_char(#[trigger] t[j]));
        lemma_trim_back_at(t, k);
        assert(t.subrange(0, k) =~= s.subrange(0, k));
    } else {
        assert(s.subrange(0, s.len() as int) =~= s);
    }
}

/// Trimming keeps exactly the characters between the first and the last
/// non-whitespace character.
pub proof fn lemma_trim_via_bounds(s: Seq<char>, a: int, b: int)
    requires
        0 <= a <= b <= s.len(),
        forall|j: int| 0 <= j < a ==> is_space_char(#[trigger] s[j]),
        forall|j: int| b <= j < s.len() ==> is_space_char(#[trigger] s[j]),
        a == b || (!is_space_char(s[a]) && !is_space_char(s[b - 1])),
    ensures
        trim_spec(s) == s.subrange(a, b),
    decreases s.len(),
{
    if a == b {
        lemma_trim_front_at(s, s.len() as int);
        lemma_trim_back_at(s.subrange(s.len() as int, s.len() as int), 0);
        assert(s.subrange(a, b) =~= s.subrange(s.len() as int, s.len() as int));
    } else {
        lemma_trim_front_at(s, a);
        let t = s.subrange(a, s.len() as int);
        assert(forall|j: int| b - a <= j < t.len() ==> is_space_char(#[trigger] t[j]));
        lemma_trim_back_at(t, b - a);
        assert(t.subrange(0, b - a) =~= s.subrange(a, b));
    }
}

/// Copies the characters of `line` between `lo` and `hi`, without
/// surrounding whitespace, into a fresh string.
pub fn trim_range(line: &str, lo: usize, hi: usize) -> (r: String)
    requires
        lo <= hi <= line@.len(),
    ensures
        r@ == trim_spec(line@.subrange(lo as int, hi as int)),
{
    let ghost sub = line@.subrange(lo as int, hi as int);
    let mut a: usize = lo;
    while a < hi && space_char(line.get_char(a))
        invariant
            lo <= a <= hi <= line@.len(),
            forall|j: int| lo <= j < a ==> is_space_char(#[trigger] line@[j]),
        decreases hi - a,
    {
        a = a + 1;
    }
    let mut b: usize = hi;
    while b > a && space_char(line.get_char(b - 1))
        invariant
            lo <= a <= b <= hi <= line@.len(),
            forall|j: int| lo <= j < a ==> is_space_char(#[trigger] line@[j]),
            forall|j: int| b <= j < hi ==> is_space_char(#[trigger] line@[j]),
        decreases b,
    {
        b = b - 1;
    }
    proof {
        assert(forall|j: int| 0 <= j < a - lo ==> is_space_char(#[trigger] sub[j]));
        assert(forall|j: int| b - lo <= j < sub.len() ==> is_space_char(#[trigger] sub[j]));
        lemma_trim_via_bounds(sub, a - lo, b - lo);
    }
    let piece = line.substring_char(a, b);
    proof {
        assert(piece@ =~= sub.subrange(a - lo, b - lo));
    }
    String::from_str(piece)
}

/// The character for one decimal digit.
pub open spec fn digit_to_char(d: int) -> char
    recommends
        0 <= d <= 9,
{
    ((48 + d) as u8) as char
}

/// The decimal digits of a nonnegative number, most significant first.
pub open spec fn dec_digits(n: int) -> Seq<char>
    recommends
        n >= 0,
    decreases n,
{
    if n < 10 {
        seq![digit_to_char(n)]
    } else {
        dec_digits(n / 10).push(digit_to_char(n % 10))
    }
}

/// Renders a number in decimal, as `u16::to_string` does.
pub fn u16_digits(n: u16) -> (r: String)
    ensures
        r@ == dec_digits(n as int),
    decreases n,
{
    if n < 10 {
        let mut s = String::new();
        s.push((48 + n as u8) as char);
        proof {
            assert(s@ =~= dec_digits(n as int));
        }
        s
    } else {
        let mut s = u16_digits(n / 10);
        s.push((48 + (n % 10) as u8) as char);
        s
    }
}

} // verus!
