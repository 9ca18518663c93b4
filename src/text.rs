//! Character-level scanning shared by the envelope readers.
use vstd::prelude::*;
use crate::decimal::is_digit;

verus! {

/// Whether `lit` stands in `s` at position `i`.
pub open spec fn occurs_at(s: Seq<char>, i: int, lit: Seq<char>) -> bool {
    0 <= i && i + lit.len() <= s.len() && s.subrange(i, i + lit.len()) == lit
}

/// End of the run of digits that starts at `i`: the first position at or
/// after `i` that holds no digit, or the length of `s`.
pub open spec fn digit_run(s: Seq<char>, i: nat) -> nat
    decreases s.len() - i,
{
    if i < s.len() && is_digit(s[i as int]) {
        digit_run(s, i + 1)
    } else {
        i
    }
}

/// A run of digits from `i` to `e` that a non-digit, or the end, closes
/// ends at `e`.
pub proof fn lemma_digit_run(s: Seq<char>, i: nat, e: nat)
    requires
        i <= e <= s.len(),
        forall|j: int| i <= j < e ==> is_digit(#[trigger] s[j]),
        e == s.len() || !is_digit(s[e as int]),
    ensures
        digit_run(s, i) == e,
    decreases e - i,
{
    if i < e {
        lemma_digit_run(s, i + 1, e);
    }
}

/// A run of digits holds digits only.
pub proof fn lemma_digit_run_digits(s: Seq<char>, i: nat)
    ensures
        i <= digit_run(s, i),
        i <= s.len() ==> digit_run(s, i) <= s.len(),
        forall|j: int| i <= j < digit_run(s, i) ==> is_digit(#[trigger] s[j]),
    decreases s.len() - i,
{
    if i < s.len() && is_digit(s[i as int]) {
        lemma_digit_run_digits(s, i + 1);
    }
}

/// Whether `lit` stands in `s` at position `i`.
pub fn matches_at(s: &str, i: usize, lit: &str) -> (r: bool)
    ensures
        r == occurs_at(s@, i as int, lit@),
{
    let n = s.unicode_len();
    let m = lit.unicode_len();
    if m > n || i > n - m {
        return false;
    }
    let mut j: usize = 0;
    while j < m
        invariant
            n == s@.len(),
            m == lit@.len(),
            i + m <= n,
            j <= m,
            forall|k: int| 0 <= k < j ==> s@[i + k] == lit@[k],
        decreases m - j,
    {
        if s.get_char(i + j) != lit.get_char(j) {
            assert(s@.subrange(i as int, i + m)[j as int] != lit@[j as int]);
            return false;
        }
        j = j + 1;
    }
    assert(s@.subrange(i as int, i + m) =~= lit@);
    true
}

/// End of the run of digits of `s` that starts at `i`.
pub fn digit_run_end(s: &str, i: usize) -> (r: usize)
    ensures
        r == digit_run(s@, i as nat),
{
    let n = s.unicode_len();
    let mut e: usize = i;
    while e < n && '0' <= s.get_char(e) && s.get_char(e) <= '9'
        invariant
            n == s@.len(),
            i <= e,
            digit_run(s@, i as nat) == digit_run(s@, e as nat),
        decreases n - e,
    {
        e = e + 1;
    }
    e
}

} // verus!
