//! Content scanner: substring search with line tracking.
//!
//! The scanner visits every character position of the contents from left
//! to right and reports an occurrence at each position where the keyword
//! matches, together with the count of newline characters strictly before
//! that position (the zero-based line number).  The scan advances one
//! character at a time whether or not a position matched, so overlapping
//! occurrences are all reported.  An empty keyword yields no occurrences:
//! a position only matches when its character equals the keyword's first
//! character, and an empty keyword has none.

use vstd::prelude::*;

use crate::matching::is_match_at;
use crate::matching::newline_count;
use crate::matching::lemma_newline_count_extend;
use crate::matching::check_match_at;
use crate::occurrence::Occurrence;
use crate::occurrence::OccurrenceView;
use crate::occurrence::views_of;
use crate::occurrence::lemma_views_of_push;

verus! {

/// The scanner reports position `i`: the keyword is non-empty and matches
/// there.
pub open spec fn scanner_match_at(c: Seq<char>, k: Seq<char>, i: int) -> bool {
    k.len() > 0 && is_match_at(c, k, i)
}

/// The occurrence the scanner reports for a match of `k` at position `i`
/// of `c`: the keyword itself, the containing file's path, and the count
/// of newline characters strictly before position `i`.
pub open spec fn content_occurrence_at(c: Seq<char>, k: Seq<char>, path: Seq<char>, i: int) -> OccurrenceView {
    OccurrenceView::FileContent {
        matching_text: k,
        path: path,
        line_number: newline_count(c.subrange(0, i)),
    }
}

/// The occurrences the scanner reports from position `i` on, in ascending
/// position order.
pub open spec fn scan_from(c: Seq<char>, k: Seq<char>, path: Seq<char>, i: int) -> Seq<OccurrenceView>
    decreases c.len() - i,
{
    if i >= c.len() {
        Seq::empty()
    } else {
        let rest = scan_from(c, k, path, i + 1);
        if scanner_match_at(c, k, i) {
            seq![content_occurrence_at(c, k, path, i)] + rest
        } else {
            rest
        }
    }
}

/// Everything the scanner reports for contents `c`, keyword `k` and file
/// path `path`.
pub open spec fn scan_spec(c: Seq<char>, k: Seq<char>, path: Seq<char>) -> Seq<OccurrenceView> {
    scan_from(c, k, path, 0)
}

/// The positions the scanner reports from `i` on, ascending.
pub open spec fn match_positions_from(c: Seq<char>, k: Seq<char>, i: int) -> Seq<int>
    decreases c.len() - i,
{
    if i >= c.len() {
        Seq::empty()
    } else {
        let rest = match_positions_from(c, k, i + 1);
        if scanner_match_at(c, k, i) {
            seq![i] + rest
        } else {
            rest
        }
    }
}

/// Every position the scanner reports, ascending.
pub open spec fn match_positions(c: Seq<char>, k: Seq<char>) -> Seq<int> {
    match_positions_from(c, k, 0)
}

proof fn lemma_scan_from_is_mapped_positions(c: Seq<char>, k: Seq<char>, path: Seq<char>, i: int)
    ensures
        scan_from(c, k, path, i) == match_positions_from(c, k, i).map_values(
            |t: int| content_occurrence_at(c, k, path, t),
        ),
    decreases c.len() - i,
{
    let f = |t: int| content_occurrence_at(c, k, path, t);
    if i >= c.len() {
        assert(scan_from(c, k, path, i) =~= match_positions_from(c, k, i).map_values(f));
    } else {
        lemma_scan_from_is_mapped_positions(c, k, path, i + 1);
        if scanner_match_at(c, k, i) {
            assert((seq![i] + match_positions_from(c, k, i + 1)).map_values(f) =~= seq![f(i)]
                + match_positions_from(c, k, i + 1).map_values(f));
        }
        assert(scan_from(c, k, path, i) =~= match_positions_from(c, k, i).map_values(f));
    }
}

proof fn lemma_match_positions_from_props(c: Seq<char>, k: Seq<char>, i: int)
    ensures
        forall|j: int|
            0 <= j < match_positions_from(c, k, i).len() ==> i <= #[trigger] match_positions_from(
                c,
                k,
                i,
            )[j] && scanner_match_at(c, k, match_positions_from(c, k, i)[j]),
        forall|j1: int, j2: int|
            0 <= j1 < j2 < match_positions_from(c, k, i).len() ==> #[trigger] match_positions_from(
                c,
                k,
                i,
            )[j1] < #[trigger] match_positions_from(c, k, i)[j2],
        forall|t: int| i <= t && scanner_match_at(c, k, t) ==> match_positions_from(c, k, i).contains(t),
    decreases c.len() - i,
{
    if i >= c.len() {
        assert forall|t: int| i <= t && scanner_match_at(c, k, t) implies match_positions_from(
            c,
            k,
            i,
        ).contains(t) by {
            assert(t + k.len() <= c.len());
            assert(false);
        }
    } else {
        lemma_match_positions_from_props(c, k, i + 1);
        let rest = match_positions_from(c, k, i + 1);
        let whole = match_positions_from(c, k, i);
        if scanner_match_at(c, k, i) {
            assert(whole == seq![i] + rest);
            assert(whole[0] == i);
            assert(forall|j: int| 1 <= j < whole.len() ==> whole[j] == rest[j - 1]);
        } else {
            assert(whole == rest);
        }
        assert forall|t: int| i <= t && scanner_match_at(c, k, t) implies whole.contains(t) by {
            if t == i {
                assert(whole[0] == t);
            } else {
                assert(rest.contains(t));
                let j = choose|j: int| 0 <= j < rest.len() && rest[j] == t;
                if scanner_match_at(c, k, i) {
                    assert(whole[j + 1] == t);
                } else {
                    assert(whole[j] == t);
                }
            }
        }
    }
}

proof fn lemma_match_count_is_set_len(c: Seq<char>, k: Seq<char>, i: int)
    requires
        k.len() > 0,
    ensures
        Set::new(|t: int| i <= t && is_match_at(c, k, t)).finite(),
        match_positions_from(c, k, i).len() == Set::new(
            |t: int| i <= t && is_match_at(c, k, t),
        ).len(),
    decreases c.len() - i,
{
    let s = Set::new(|t: int| i <= t && is_match_at(c, k, t));
    if i >= c.len() {
        assert forall|t: int| !s.contains(t) by {
            if i <= t && is_match_at(c, k, t) {
                assert(t + k.len() <= c.len());
            }
        }
        assert(s =~= Set::empty());
    } else {
        lemma_match_count_is_set_len(c, k, i + 1);
        let s1 = Set::new(|t: int| i + 1 <= t && is_match_at(c, k, t));
        if scanner_match_at(c, k, i) {
            assert(s =~= s1.insert(i));
            assert(!s1.contains(i));
            assert(s.len() == s1.len() + 1);
        } else {
            assert(s =~= s1);
        }
    }
}

/// Law: for a non-empty keyword, the scanner reports exactly one
/// occurrence per position of the contents at which the keyword matches,
/// overlapping positions included.
pub proof fn lemma_scan_counts_every_match(c: Seq<char>, k: Seq<char>, path: Seq<char>)
    requires
        k.len() > 0,
    ensures
        Set::new(|t: int| is_match_at(c, k, t)).finite(),
        scan_spec(c, k, path).len() == Set::new(|t: int| is_match_at(c, k, t)).len(),
{
    lemma_scan_from_is_mapped_positions(c, k, path, 0);
    lemma_match_count_is_set_len(c, k, 0);
    assert(Set::new(|t: int| is_match_at(c, k, t)) =~= Set::new(
        |t: int| 0 <= t && is_match_at(c, k, t),
    ));
}

/// Law: the scanner's occurrences stand in ascending match-position
/// order, every reported position is a match, every match position is
/// reported, and each occurrence's line number is the count of newline
/// characters strictly before its match's starting character
/// (zero-based).
pub proof fn lemma_scan_occurrences_exact(c: Seq<char>, k: Seq<char>, path: Seq<char>)
    ensures
        scan_spec(c, k, path).len() == match_positions(c, k).len(),
        forall|j: int|
            0 <= j < match_positions(c, k).len() ==> scanner_match_at(
                c,
                k,
                #[trigger] match_positions(c, k)[j],
            ),
        forall|j1: int, j2: int|
            0 <= j1 < j2 < match_positions(c, k).len() ==> #[trigger] match_positions(c, k)[j1]
                < #[trigger] match_positions(c, k)[j2],
        forall|t: int| scanner_match_at(c, k, t) ==> match_positions(c, k).contains(t),
        forall|j: int|
            0 <= j < match_positions(c, k).len() ==> #[trigger] scan_spec(c, k, path)[j]
                == content_occurrence_at(c, k, path, match_positions(c, k)[j]),
{
    lemma_scan_from_is_mapped_positions(c, k, path, 0);
    lemma_match_positions_from_props(c, k, 0);
    assert forall|t: int| scanner_match_at(c, k, t) implies match_positions(c, k).contains(t) by {
        assert(0 <= t);
    }
}

/// Scans `contents` for `keyword`, reporting one occurrence per matching
/// character position, in ascending position order, each carrying the
/// zero-based line number of its match's start.
pub fn scan_contents(contents: &str, keyword: &str, path: &str) -> (r: Vec<Occurrence>)
    ensures
        views_of(r@) == scan_spec(contents@, keyword@, path@),
{
    let n = contents.unicode_len();
    let klen = keyword.unicode_len();
    let mut r: Vec<Occurrence> = Vec::new();
    let mut line: usize = 0;
    let mut i: usize = 0;
    proof {
        assert(views_of(r@) =~= Seq::<OccurrenceView>::empty());
        assert(contents@.subrange(0, 0) =~= Seq::<char>::empty());
    }
    while i < n
        invariant
            n == contents@.len(),
            klen == keyword@.len(),
            0 <= i <= n,
            line <= i,
            line as nat == newline_count(contents@.subrange(0, i as int)),
            views_of(r@) + scan_from(contents@, keyword@, path@, i as int) == scan_spec(
                contents@,
                keyword@,
                path@,
            ),
        decreases n - i,
    {
        let matched: bool = if 0 < klen && klen <= n - i {
            check_match_at(contents, keyword, i, n, klen)
        } else {
            false
        };
        assert(matched == scanner_match_at(contents@, keyword@, i as int));
        if matched {
            let occ = Occurrence::FileContent {
                matching_text: String::from_str(keyword),
                path: String::from_str(path),
                line_number: line,
            };
            proof {
                assert(occ@ == content_occurrence_at(contents@, keyword@, path@, i as int));
                lemma_views_of_push(r@, occ);
                assert(views_of(r@).push(occ@) + scan_from(contents@, keyword@, path@, i + 1)
                    =~= views_of(r@) + (seq![occ@] + scan_from(contents@, keyword@, path@, i + 1)));
            }
            r.push(occ);
        }
        if contents.get_char(i) == '\n' {
            line += 1;
        }
        proof {
            lemma_newline_count_extend(contents@, i as int);
        }
        i += 1;
    }
    proof {
        assert(views_of(r@) + scan_from(contents@, keyword@, path@, i as int) =~= views_of(r@));
    }
    r
}

} // verus!
