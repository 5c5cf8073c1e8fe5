//! Character-sequence helpers the codec and the search filter are specified
//! with: whitespace trimming, substring containment, and case folding.

use vstd::prelude::*;

verus! {

/// The whitespace characters trimming removes.
pub open spec fn ws(c: char) -> bool {
    c == ' ' || c == '\t' || c == '\r' || c == '\n'
}

/// `s` without its leading whitespace.
pub open spec fn trim_front(s: Seq<char>) -> Seq<char>
    decreases s.len(),
{
    if s.len() > 0 && ws(s[0]) {
        trim_front(s.subrange(1, s.len() as int))
    } else {
        s
    }
}

/// `s` without its trailing whitespace.
pub open spec fn trim_back(s: Seq<char>) -> Seq<char>
    decreases s.len(),
{
    if s.len() > 0 && ws(s[s.len() - 1]) {
        trim_back(s.subrange(0, s.len() - 1))
    } else {
        s
    }
}

/// `s` without leading and trailing whitespace.
pub open spec fn trimmed(s: Seq<char>) -> Seq<char> {
    trim_back(trim_front(s))
}

/// `n` occurs in `h` starting at position `i`.
pub open spec fn contains_at(h: Seq<char>, i: int, n: Seq<char>) -> bool {
    0 <= i && i + n.len() <= h.len() && h.subrange(i, i + n.len() as int) == n
}

/// `n` is a contiguous substring of `h`.
pub open spec fn contains_seq(h: Seq<char>, n: Seq<char>) -> bool {
    exists|i: int| contains_at(h, i, n)
}

/// The case folding str::to_lowercase applies, as a function of the
/// characters alone.
pub uninterp spec fn lower_of(s: Seq<char>) -> Seq<char>;

pub fn is_ws_char(c: char) -> (r: bool)
    ensures
        r == ws(c),
{
    c == ' ' || c == '\t' || c == '\r' || c == '\n'
}

/// Relies on str::to_lowercase: the result depends on the characters alone,
/// and an empty string stays empty.
#[verifier::external_body]
pub fn lowercase(s: &str) -> (r: String)
    ensures
        r@ == lower_of(s@),
        s@.len() == 0 ==> r@.len() == 0,
{
    s.to_lowercase()
}

/// Relies on str::contains with a &str pattern: true exactly when the pattern
/// matches a sub-slice of the haystack.
#[verifier::external_body]
pub fn str_contains(h: &str, n: &str) -> (r: bool)
    ensures
        r == contains_seq(h@, n@),
{
    h.contains(n)
}

/// The empty sequence is a substring of anything.
pub proof fn lemma_empty_contained(h: Seq<char>)
    ensures
        contains_seq(h, Seq::<char>::empty()),
{
    assert(contains_at(h, 0, Seq::<char>::empty())) by {
        assert(h.subrange(0, 0) =~= Seq::<char>::empty());
    }
}

} // verus!
