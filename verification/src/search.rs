//! One text inside another.

use vstd::prelude::*;
use crate::strings::to_chars;

verus! {

/// `needle` stands in `haystack` from position `at` on.
pub open spec fn occurs_at(haystack: Seq<char>, needle: Seq<char>, at: int) -> bool {
    &&& 0 <= at
    &&& at + needle.len() <= haystack.len()
    &&& haystack.subrange(at, at + needle.len()) == needle
}

/// `needle` is a contiguous part of `haystack`. The empty text is part of
/// every text.
pub open spec fn occurs_in(needle: Seq<char>, haystack: Seq<char>) -> bool {
    exists|at: int| occurs_at(haystack, needle, at)
}

/// Tells whether `needle` stands in `haystack` from position `at` on.
fn matches_at(haystack: &Vec<char>, needle: &Vec<char>, at: usize) -> (found: bool)
    requires
        at + needle.len() <= haystack.len(),
    ensures
        found == occurs_at(haystack@, needle@, at as int),
{
    let mut j: usize = 0;
    while j < needle.len()
        invariant
            j <= needle.len(),
            at + needle.len() <= haystack.len(),
            forall|k: int| 0 <= k < j ==> haystack[at + k] == needle[k],
        decreases needle.len() - j,
    {
        if haystack[at + j] != needle[j] {
            assert(haystack@.subrange(at as int, at + needle.len())[j as int] == haystack[at + j]);
            return false;
        }
        j += 1;
    }
    assert(haystack@.subrange(at as int, at + needle.len()) =~= needle@);
    true
}

/// Tells whether `needle` is a contiguous part of `haystack`.
pub fn str_contains(haystack: &str, needle: &str) -> (found: bool)
    ensures
        found == occurs_in(needle@, haystack@),
{
    let hay = to_chars(haystack);
    let pat = to_chars(needle);
    if pat.len() > hay.len() {
        return false;
    }
    if pat.len() == 0 {
        assert(occurs_at(hay@, pat@, 0)) by {
            assert(hay@.subrange(0, 0) =~= pat@);
        }
        return true;
    }
    let last = hay.len() - pat.len();
    let mut at: usize = 0;
    while at <= last
        invariant
            hay@ == haystack@,
            pat@ == needle@,
            pat.len() > 0,
            last == hay.len() - pat.len(),
            at <= last + 1,
            forall|k: int| 0 <= k < at ==> !occurs_at(hay@, pat@, k),
        decreases last + 1 - at,
    {
        if matches_at(&hay, &pat, at) {
            return true;
        }
        at += 1;
    }
    false
}

/// A text holds whatever stands between its beginning and its end.
pub proof fn lemma_occurs_in_concat(before: Seq<char>, needle: Seq<char>, after: Seq<char>)
    ensures
        occurs_in(needle, before + needle + after),
{
    let whole = before + needle + after;
    assert(whole.subrange(before.len() as int, (before.len() + needle.len()) as int) =~= needle);
    assert(occurs_at(whole, needle, before.len() as int));
}

/// A text that holds another is made of a beginning, the other text and an
/// end.
pub proof fn lemma_occurs_in_splits(needle: Seq<char>, haystack: Seq<char>)
    requires
        occurs_in(needle, haystack),
    ensures
        exists|before: Seq<char>, after: Seq<char>| haystack == before + needle + after,
{
    let at = choose|at: int| occurs_at(haystack, needle, at);
    let before = haystack.take(at);
    let after = haystack.skip(at + needle.len());
    assert(haystack =~= before + needle + after) by {
        assert forall|i: int| 0 <= i < haystack.len() implies haystack[i] == (before + needle
            + after)[i] by {
            if at <= i < at + needle.len() {
                assert(haystack.subrange(at, at + needle.len())[i - at] == haystack[i]);
            }
        }
    }
}

} // verus!
