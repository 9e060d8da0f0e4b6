//! The fuzzy matcher: a case-insensitive ordered-subsequence test. It accepts or
//! rejects and never ranks.

use crate::text::chars_of;
use crate::text::lowercased;
use crate::text::to_lowercase;
use vstd::prelude::*;

verus! {

/// Whether every character of `needle` occurs in `hay` in the same relative order,
/// not necessarily side by side.
pub open spec fn is_subsequence(needle: Seq<char>, hay: Seq<char>) -> bool
    decreases hay.len(),
{
    if needle.len() == 0 {
        true
    } else if hay.len() == 0 {
        false
    } else {
        (needle[0] == hay[0] && is_subsequence(needle.drop_first(), hay.drop_first()))
            || is_subsequence(needle, hay.drop_first())
    }
}

/// Whether `needle` matches `haystack`: the lowercase form of the one is a
/// subsequence of the lowercase form of the other.
pub open spec fn fuzzy(haystack: Seq<char>, needle: Seq<char>) -> bool {
    is_subsequence(lowercased(needle), lowercased(haystack))
}

/// A subsequence stays one when the haystack grows at the front.
pub proof fn lemma_subsequence_longer_hay(needle: Seq<char>, hay: Seq<char>)
    requires
        hay.len() > 0,
        is_subsequence(needle, hay.drop_first()),
    ensures
        is_subsequence(needle, hay),
{
}

/// A subsequence stays one when the needle loses its first character.
pub proof fn lemma_subsequence_shorter_needle(needle: Seq<char>, hay: Seq<char>)
    requires
        needle.len() > 0,
        is_subsequence(needle, hay),
    ensures
        is_subsequence(needle.drop_first(), hay),
    decreases hay.len(),
{
    if needle[0] == hay[0] && is_subsequence(needle.drop_first(), hay.drop_first()) {
        lemma_subsequence_longer_hay(needle.drop_first(), hay);
    } else {
        lemma_subsequence_shorter_needle(needle, hay.drop_first());
        lemma_subsequence_longer_hay(needle.drop_first(), hay);
    }
}

/// Where the first characters agree, matching them loses nothing.
pub proof fn lemma_subsequence_greedy(needle: Seq<char>, hay: Seq<char>)
    requires
        needle.len() > 0,
        hay.len() > 0,
        needle[0] == hay[0],
    ensures
        is_subsequence(needle, hay) == is_subsequence(needle.drop_first(), hay.drop_first()),
{
    if is_subsequence(needle, hay.drop_first()) {
        lemma_subsequence_shorter_needle(needle, hay.drop_first());
    }
}

/// Whether `needle` is a subsequence of `haystack`, character for character.
pub fn subsequence_match(haystack: &str, needle: &str) -> (found: bool)
    ensures
        found == is_subsequence(needle@, haystack@),
{
    let h = chars_of(haystack);
    let n = chars_of(needle);
    let mut hi: usize = 0;
    let mut ni: usize = 0;
    assert(n@.skip(0) == n@ && h@.skip(0) == h@);
    while ni < n.len()
        invariant
            hi <= h.len(),
            ni <= n.len(),
            h@ == haystack@,
            n@ == needle@,
            is_subsequence(n@, h@) == is_subsequence(n@.skip(ni as int), h@.skip(hi as int)),
        decreases n.len() - ni,
    {
        let nc = n[ni];
        while hi < h.len() && h[hi] != nc
            invariant
                hi <= h.len(),
                ni < n.len(),
                nc == n@[ni as int],
                is_subsequence(n@, h@) == is_subsequence(n@.skip(ni as int), h@.skip(hi as int)),
            decreases h.len() - hi,
        {
            assert(h@.skip(hi as int).drop_first() == h@.skip(hi + 1));
            hi += 1;
        }
        if hi >= h.len() {
            return false;
        }
        proof {
            lemma_subsequence_greedy(n@.skip(ni as int), h@.skip(hi as int));
            assert(h@.skip(hi as int).drop_first() == h@.skip(hi + 1));
            assert(n@.skip(ni as int).drop_first() == n@.skip(ni + 1));
        }
        hi += 1;
        ni += 1;
    }
    true
}

/// Whether `needle` matches `haystack` without regard to case: every character of
/// the needle appears in the haystack in the same relative order.
pub fn fuzzy_match(haystack: &str, needle: &str) -> (found: bool)
    ensures
        found == fuzzy(haystack@, needle@),
{
    let h = to_lowercase(haystack);
    let n = to_lowercase(needle);
    subsequence_match(h.as_str(), n.as_str())
}

} // verus!
