//! The first position in a sequence at which a predicate holds, and the
//! facts that loops scanning a vector from the front rely on.

use vstd::prelude::*;

verus! {

/// The least index of `s` whose element satisfies `p`
pub open spec fn first_index<A>(s: Seq<A>, p: spec_fn(A) -> bool) -> Option<int>
    decreases s.len(),
{
    if s.len() == 0 {
        None
    } else {
        match first_index(s.drop_last(), p) {
            Some(i) => Some(i),
            None => if p(s.last()) {
                Some(s.len() - 1)
            } else {
                None
            },
        }
    }
}

/// Scanning one more element of a prefix that holds no match
pub proof fn lemma_first_index_extend<A>(s: Seq<A>, p: spec_fn(A) -> bool, i: int)
    requires
        0 <= i < s.len(),
        first_index(s.subrange(0, i), p) is None,
    ensures
        first_index(s.subrange(0, i + 1), p) == (if p(s[i]) {
            Some(i)
        } else {
            None
        }),
{
    assert(s.subrange(0, i + 1).drop_last() =~= s.subrange(0, i));
}

/// The empty prefix holds no match, and the full prefix is the sequence
pub proof fn lemma_first_index_bounds<A>(s: Seq<A>, p: spec_fn(A) -> bool)
    ensures
        first_index(s.subrange(0, 0), p) is None,
        s.subrange(0, s.len() as int) == s,
{
    assert(s.subrange(0, s.len() as int) =~= s);
}

/// The first index is a match, and nothing before it is
pub proof fn lemma_first_index_spec<A>(s: Seq<A>, p: spec_fn(A) -> bool)
    ensures
        match first_index(s, p) {
            Some(i) => 0 <= i < s.len() && p(s[i]) && forall|j: int|
                0 <= j < i ==> !#[trigger] p(s[j]),
            None => forall|j: int| 0 <= j < s.len() ==> !#[trigger] p(s[j]),
        },
    decreases s.len(),
{
    if s.len() > 0 {
        lemma_first_index_spec(s.drop_last(), p);
        assert forall|j: int| 0 <= j < s.len() - 1 implies s.drop_last()[j] == s[j] by {}
    }
}

/// A match that nothing before it precedes is the first index
pub proof fn lemma_first_index_unique<A>(s: Seq<A>, p: spec_fn(A) -> bool, i: int)
    requires
        0 <= i < s.len(),
        p(s[i]),
        forall|j: int| 0 <= j < i ==> !#[trigger] p(s[j]),
    ensures
        first_index(s, p) == Some(i),
{
    lemma_first_index_spec(s, p);
    match first_index(s, p) {
        Some(k) => {
            if k < i {
                assert(!p(s[k]));
            }
            if k > i {
                assert(!p(s[i]));
            }
        },
        None => {
            assert(!p(s[i]));
        },
    }
}

/// A match with no match in the prefix before it is the first index
pub proof fn lemma_first_index_at<A>(s: Seq<A>, p: spec_fn(A) -> bool, i: int)
    requires
        0 <= i < s.len(),
        p(s[i]),
        first_index(s.subrange(0, i), p) is None,
    ensures
        first_index(s, p) == Some(i),
{
    lemma_first_index_spec(s.subrange(0, i), p);
    assert forall|j: int| 0 <= j < i implies !#[trigger] p(s[j]) by {
        assert(s.subrange(0, i)[j] == s[j]);
    }
    lemma_first_index_unique(s, p, i);
}

/// Converts an optional `usize` index to its mathematical value
pub open spec fn opt_int(r: Option<usize>) -> Option<int> {
    match r {
        Some(i) => Some(i as int),
        None => None,
    }
}

} // verus!
