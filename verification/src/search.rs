//! Finding byte patterns.

use vstd::prelude::*;

verus! {

/// Whether a pattern occurs at a position.
pub open spec fn matches_at(haystack: Seq<u8>, needle: Seq<u8>, at: int) -> bool {
    &&& 0 <= at
    &&& at + needle.len() <= haystack.len()
    &&& haystack.subrange(at, at + needle.len()) == needle
}

/// The first position, not before `from`, at which a pattern occurs.
pub open spec fn first_match(haystack: Seq<u8>, needle: Seq<u8>, from: int) -> Option<int>
    decreases haystack.len() + 1 - from,
{
    if from < 0 || from + needle.len() > haystack.len() {
        None
    } else if matches_at(haystack, needle, from) {
        Some(from)
    } else {
        first_match(haystack, needle, from + 1)
    }
}

/// What `first_match` finds is an occurrence, and there is none before it.
pub proof fn lemma_first_match(haystack: Seq<u8>, needle: Seq<u8>, from: int)
    requires
        0 <= from,
    ensures
        match first_match(haystack, needle, from) {
            Some(p) => from <= p && matches_at(haystack, needle, p) && (forall|j: int|
                from <= j < p ==> !#[trigger] matches_at(haystack, needle, j)),
            None => forall|j: int| from <= j ==> !#[trigger] matches_at(haystack, needle, j),
        },
    decreases haystack.len() + 1 - from,
{
    if from + needle.len() <= haystack.len() && !matches_at(haystack, needle, from) {
        lemma_first_match(haystack, needle, from + 1);
    }
}

/// An occurrence with none before it is what `first_match` finds.
pub proof fn lemma_first_match_unique(haystack: Seq<u8>, needle: Seq<u8>, from: int, p: int)
    requires
        0 <= from <= p,
        matches_at(haystack, needle, p),
        forall|j: int| from <= j < p ==> !#[trigger] matches_at(haystack, needle, j),
    ensures
        first_match(haystack, needle, from) == Some(p),
{
    lemma_first_match(haystack, needle, from);
    match first_match(haystack, needle, from) {
        Some(q) => {
            if q < p {
                assert(!matches_at(haystack, needle, q));
            }
            if p < q {
                assert(!matches_at(haystack, needle, p));
            }
        },
        None => {
            assert(!matches_at(haystack, needle, p));
        },
    }
}

/// Without an occurrence there is nothing to find.
pub proof fn lemma_first_match_none(haystack: Seq<u8>, needle: Seq<u8>, from: int)
    requires
        0 <= from,
        forall|j: int| from <= j ==> !#[trigger] matches_at(haystack, needle, j),
    ensures
        first_match(haystack, needle, from) is None,
{
    lemma_first_match(haystack, needle, from);
    match first_match(haystack, needle, from) {
        Some(q) => {
            assert(!matches_at(haystack, needle, q));
        },
        None => {},
    }
}

/// Occurrences inside a byte string are occurrences in every continuation of it.
pub proof fn lemma_matches_extend(haystack: Seq<u8>, more: Seq<u8>, needle: Seq<u8>, at: int)
    requires
        at + needle.len() <= haystack.len(),
    ensures
        matches_at(haystack + more, needle, at) == matches_at(haystack, needle, at),
{
    if 0 <= at {
        assert((haystack + more).subrange(at, at + needle.len()) =~= haystack.subrange(
            at,
            at + needle.len(),
        ));
    }
}

/// Occurrences after a skipped prefix keep their place relative to it.
pub proof fn lemma_matches_skip(haystack: Seq<u8>, needle: Seq<u8>, skip: int, at: int)
    requires
        0 <= skip <= haystack.len(),
        0 <= at,
    ensures
        matches_at(haystack.skip(skip), needle, at) == matches_at(haystack, needle, skip + at),
{
    if at + needle.len() <= haystack.len() - skip {
        assert(haystack.skip(skip).subrange(at, at + needle.len()) =~= haystack.subrange(
            skip + at,
            skip + at + needle.len(),
        ));
    }
}

/// A first occurrence stays the first one in every continuation.
pub proof fn lemma_first_match_extend(haystack: Seq<u8>, more: Seq<u8>, needle: Seq<u8>, from: int)
    requires
        0 <= from,
        first_match(haystack, needle, from) is Some,
    ensures
        first_match(haystack + more, needle, from) == first_match(haystack, needle, from),
{
    lemma_first_match(haystack, needle, from);
    let p = first_match(haystack, needle, from)->Some_0;
    lemma_matches_extend(haystack, more, needle, p);
    assert forall|j: int| from <= j < p implies !#[trigger] matches_at(
        haystack + more,
        needle,
        j,
    ) by {
        lemma_matches_extend(haystack, more, needle, j);
        assert(!matches_at(haystack, needle, j));
    }
    lemma_first_match_unique(haystack + more, needle, from, p);
}

/// In a continuation of a byte string without occurrence, an occurrence ends
/// beyond the byte string.
pub proof fn lemma_first_match_beyond(haystack: Seq<u8>, more: Seq<u8>, needle: Seq<u8>, from: int)
    requires
        0 <= from,
        first_match(haystack, needle, from) is None,
    ensures
        match first_match(haystack + more, needle, from) {
            Some(p) => from <= p && haystack.len() < p + needle.len(),
            None => true,
        },
{
    lemma_first_match(haystack, needle, from);
    lemma_first_match(haystack + more, needle, from);
    match first_match(haystack + more, needle, from) {
        Some(p) => {
            if p + needle.len() <= haystack.len() {
                lemma_matches_extend(haystack, more, needle, p);
                assert(!matches_at(haystack, needle, p));
            }
        },
        None => {},
    }
}

/// Skipping a prefix in which no occurrence begins moves the first occurrence
/// by the length of that prefix.
pub proof fn lemma_first_match_skip(haystack: Seq<u8>, needle: Seq<u8>, skip: int, from: int)
    requires
        0 <= from,
        0 <= skip <= haystack.len(),
    ensures
        first_match(haystack.skip(skip), needle, from) == match first_match(
            haystack,
            needle,
            skip + from,
        ) {
            Some(p) => Some(p - skip),
            None => None,
        },
{
    lemma_first_match(haystack, needle, skip + from);
    match first_match(haystack, needle, skip + from) {
        Some(p) => {
            lemma_matches_skip(haystack, needle, skip, p - skip);
            assert forall|j: int| from <= j < p - skip implies !#[trigger] matches_at(
                haystack.skip(skip),
                needle,
                j,
            ) by {
                lemma_matches_skip(haystack, needle, skip, j);
                assert(!matches_at(haystack, needle, skip + j));
            }
            lemma_first_match_unique(haystack.skip(skip), needle, from, p - skip);
        },
        None => {
            assert forall|j: int| from <= j implies !#[trigger] matches_at(
                haystack.skip(skip),
                needle,
                j,
            ) by {
                lemma_matches_skip(haystack, needle, skip, j);
                assert(!matches_at(haystack, needle, skip + j));
            }
            lemma_first_match_none(haystack.skip(skip), needle, from);
        },
    }
}

/// A search that starts anywhere up to the first occurrence finds it.
pub proof fn lemma_first_match_later_start(haystack: Seq<u8>, needle: Seq<u8>, from: int, later: int)
    requires
        0 <= from <= later,
        match first_match(haystack, needle, from) {
            Some(p) => later <= p,
            None => true,
        },
    ensures
        first_match(haystack, needle, later) == first_match(haystack, needle, from),
{
    lemma_first_match(haystack, needle, from);
    match first_match(haystack, needle, from) {
        Some(p) => {
            lemma_first_match_unique(haystack, needle, later, p);
        },
        None => {
            lemma_first_match_none(haystack, needle, later);
        },
    }
}

fn pattern_at(haystack: &[u8], needle: &[u8], at: usize) -> (found: bool)
    requires
        at + needle@.len() <= haystack@.len(),
    ensures
        found == matches_at(haystack@, needle@, at as int),
{
    let mut i: usize = 0;
    let len = haystack.len();
    while i < needle.len()
        invariant
            i <= needle@.len(),
            at + needle@.len() <= haystack@.len(),
            len == haystack@.len(),
            forall|j: int| 0 <= j < i ==> haystack@[at + j] == #[trigger] needle@[j],
        decreases needle@.len() - i,
    {
        if haystack[at + i] != needle[i] {
            proof {
                if matches_at(haystack@, needle@, at as int) {
                    assert(haystack@.subrange(at as int, at + needle@.len())[i as int]
                        == needle@[i as int]);
                }
            }
            return false;
        }
        i += 1;
    }
    assert(haystack@.subrange(at as int, at + needle@.len()) =~= needle@);
    true
}

/// The first occurrence of a pattern that does not begin before `from`.
pub fn find_from(haystack: &[u8], needle: &[u8], from: usize) -> (position: Option<usize>)
    requires
        needle@.len() > 0,
    ensures
        match position {
            Some(p) => first_match(haystack@, needle@, from as int) == Some(p as int) && from <= p
                && p + needle@.len() <= haystack@.len(),
            None => first_match(haystack@, needle@, from as int) is None,
        },
{
    let mut at: usize = from;
    while needle.len() <= haystack.len() && at <= haystack.len() - needle.len()
        invariant
            from <= at,
            needle@.len() > 0,
            first_match(haystack@, needle@, from as int) == first_match(
                haystack@,
                needle@,
                at as int,
            ),
        decreases haystack@.len() + 1 - at,
    {
        if pattern_at(haystack, needle, at) {
            return Some(at);
        }
        at += 1;
    }
    None
}

/// The first occurrence of a pattern.
pub fn find_subslice(haystack: &[u8], needle: &[u8]) -> (position: Option<usize>)
    requires
        needle@.len() > 0,
    ensures
        match position {
            Some(p) => first_match(haystack@, needle@, 0) == Some(p as int) && p + needle@.len()
                <= haystack@.len(),
            None => first_match(haystack@, needle@, 0) is None,
        },
{
    find_from(haystack, needle, 0)
}

/// A pattern is found where it first stands in full, not before the place where the search
/// begins; where it stands nowhere from there on, nothing is found.
pub proof fn law_the_first_occurrence_is_found(
    haystack: &[u8],
    needle: &[u8],
    from: usize,
    position: Option<usize>,
    j: int,
)
    requires
        needle@.len() > 0,
        call_ensures(find_from, (haystack, needle, from), position),
        from <= j,
        j + needle@.len() <= haystack@.len(),
    ensures
        position is Some ==> {
            &&& from <= position->Some_0
            &&& position->Some_0 + needle@.len() <= haystack@.len()
            &&& forall|i: int|
                0 <= i < needle@.len() ==> #[trigger] needle@[i] == haystack@[position->Some_0 + i]
        },
        position is None || j < position->Some_0 ==> exists|i: int|
            0 <= i < needle@.len() && #[trigger] needle@[i] != haystack@[j + i],
{
    lemma_first_match(haystack@, needle@, from as int);
    if let Some(p) = position {
        assert(matches_at(haystack@, needle@, p as int));
        let part = haystack@.subrange(p as int, p + needle@.len());
        assert forall|i: int| 0 <= i < needle@.len() implies #[trigger] needle@[i] == haystack@[p
            + i] by {
            assert(part[i] == needle@[i]);
        }
    }
    if position is None || j < position->Some_0 {
        assert(!matches_at(haystack@, needle@, j));
        let part = haystack@.subrange(j, j + needle@.len());
        if forall|i: int| 0 <= i < needle@.len() ==> #[trigger] needle@[i] == haystack@[j + i] {
            assert forall|i: int| 0 <= i < needle@.len() implies part[i] == needle@[i] by {
                assert(needle@[i] == haystack@[j + i]);
            }
            assert(part =~= needle@);
        }
    }
}

} // verus!
