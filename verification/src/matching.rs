//! Substring matching on character sequences.
//!
//! A keyword matches at a position when the characters starting there are
//! exactly the keyword; containment asks whether some position matches.
//! Matching is on raw character sequences: no patterns, no normalization.

use vstd::prelude::*;

verus! {

/// The keyword `k` matches `c` at position `i`: the characters of `c`
/// from `i` on begin with exactly the characters of `k`.
pub open spec fn is_match_at(c: Seq<char>, k: Seq<char>, i: int) -> bool {
    &&& 0 <= i
    &&& i + k.len() <= c.len()
    &&& c.subrange(i, i + k.len() as int) == k
}

/// `k` occurs somewhere in `c` as a contiguous character subsequence.
/// An empty keyword is contained in every sequence.
pub open spec fn contains_keyword(c: Seq<char>, k: Seq<char>) -> bool {
    exists|i: int| is_match_at(c, k, i)
}

/// Number of newline characters in `s`.
pub open spec fn newline_count(s: Seq<char>) -> nat
    decreases s.len(),
{
    if s.len() == 0 {
        0
    } else {
        newline_count(s.drop_last()) + (if s.last() == '\n' {
            1nat
        } else {
            0nat
        })
    }
}

/// Extending a prefix by one character adds that character's newlines.
pub proof fn lemma_newline_count_extend(c: Seq<char>, i: int)
    requires
        0 <= i < c.len(),
    ensures
        newline_count(c.subrange(0, i + 1)) == newline_count(c.subrange(0, i)) + (if c[i] == '\n' {
            1nat
        } else {
            0nat
        }),
{
    let p = c.subrange(0, i + 1);
    assert(p.drop_last() =~= c.subrange(0, i));
    assert(p.last() == c[i]);
}

/// Compares the keyword against the characters of `c` starting at `i`.
pub(crate) fn check_match_at(c: &str, k: &str, i: usize, n: usize, klen: usize) -> (b: bool)
    requires
        n == c@.len(),
        klen == k@.len(),
        i + klen <= n,
    ensures
        b == is_match_at(c@, k@, i as int),
{
    let mut j: usize = 0;
    while j < klen
        invariant
            n == c@.len(),
            klen == k@.len(),
            i + klen <= n,
            0 <= j <= klen,
            forall|t: int| 0 <= t < j ==> c@[i + t] == k@[t],
        decreases klen - j,
    {
        if c.get_char(i + j) != k.get_char(j) {
            assert(c@.subrange(i as int, i + klen as int)[j as int] != k@[j as int]);
            return false;
        }
        j += 1;
    }
    assert(c@.subrange(i as int, i + klen as int) =~= k@);
    true
}

/// Whether the keyword occurs in `name` as a contiguous substring.
/// An empty keyword is found in every name.
pub fn name_contains(name: &str, keyword: &str) -> (b: bool)
    ensures
        b == contains_keyword(name@, keyword@),
{
    let n = name.unicode_len();
    let klen = keyword.unicode_len();
    if klen > n {
        assert(forall|i: int| !is_match_at(name@, keyword@, i));
        return false;
    }
    if klen == 0 {
        assert(name@.subrange(0, 0) =~= keyword@);
        assert(is_match_at(name@, keyword@, 0));
        return true;
    }
    let mut i: usize = 0;
    while i <= n - klen
        invariant
            n == name@.len(),
            klen == keyword@.len(),
            1 <= klen <= n,
            0 <= i <= n - klen + 1,
            forall|t: int| 0 <= t < i ==> !is_match_at(name@, keyword@, t),
        decreases n - klen + 1 - i,
    {
        if check_match_at(name, keyword, i, n, klen) {
            return true;
        }
        i += 1;
    }
    assert(forall|t: int| !is_match_at(name@, keyword@, t)) by {
        assert(forall|t: int| t > n - klen ==> !is_match_at(name@, keyword@, t));
    }
    false
}

} // verus!
