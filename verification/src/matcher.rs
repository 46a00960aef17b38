//! The fuzzy text matcher: subsequence-style matching used by the text gate,
//! and exact string comparison used by the severity and category gates.

use vstd::prelude::*;

verus! {

/// Subsequence-style fuzzy match: every character of `query` occurs in
/// `candidate`, in order, though not necessarily contiguously. The empty
/// query matches everything.
pub open spec fn fuzzy_matches(query: Seq<char>, candidate: Seq<char>) -> bool
    decreases candidate.len(),
{
    if query.len() == 0 {
        true
    } else if candidate.len() == 0 {
        false
    } else {
        ||| (query[0] == candidate[0] && fuzzy_matches(query.skip(1), candidate.skip(1)))
        ||| fuzzy_matches(query, candidate.skip(1))
    }
}

/// A match against a candidate still holds against that candidate extended
/// on the left by one character.
proof fn lemma_fuzzy_extend_candidate(query: Seq<char>, candidate: Seq<char>)
    requires
        candidate.len() > 0,
        fuzzy_matches(query, candidate.skip(1)),
    ensures
        fuzzy_matches(query, candidate),
{
}

/// Dropping the head of a matching query keeps the match.
proof fn lemma_fuzzy_drop_query_head(query: Seq<char>, candidate: Seq<char>)
    requires
        query.len() > 0,
        fuzzy_matches(query, candidate),
    ensures
        fuzzy_matches(query.skip(1), candidate),
    decreases candidate.len(),
{
    assert(candidate.len() > 0);
    if query[0] == candidate[0] && fuzzy_matches(query.skip(1), candidate.skip(1)) {
        lemma_fuzzy_extend_candidate(query.skip(1), candidate);
    } else {
        lemma_fuzzy_drop_query_head(query, candidate.skip(1));
        lemma_fuzzy_extend_candidate(query.skip(1), candidate);
    }
}

/// When the heads agree, a match may always consume both: greedy matching
/// loses nothing.
proof fn lemma_fuzzy_greedy(query: Seq<char>, candidate: Seq<char>)
    requires
        query.len() > 0,
        candidate.len() > 0,
        query[0] == candidate[0],
        fuzzy_matches(query, candidate),
    ensures
        fuzzy_matches(query.skip(1), candidate.skip(1)),
{
    if !(query[0] == candidate[0] && fuzzy_matches(query.skip(1), candidate.skip(1))) {
        assert(fuzzy_matches(query, candidate.skip(1)));
        lemma_fuzzy_drop_query_head(query, candidate.skip(1));
    }
}

/// Decides the subsequence-style fuzzy match by one greedy left-to-right scan.
pub fn fuzzy_match(query: &str, candidate: &str) -> (r: bool)
    ensures
        r == fuzzy_matches(query@, candidate@),
{
    let qlen = query.unicode_len();
    let clen = candidate.unicode_len();
    let mut qi: usize = 0;
    let mut ci: usize = 0;
    proof {
        assert(query@.skip(0) =~= query@);
        assert(candidate@.skip(0) =~= candidate@);
    }
    while qi < qlen && ci < clen
        invariant
            qi <= qlen == query@.len(),
            ci <= clen == candidate@.len(),
            fuzzy_matches(query@, candidate@) == fuzzy_matches(
                query@.skip(qi as int),
                candidate@.skip(ci as int),
            ),
        decreases clen - ci,
    {
        let ghost q = query@.skip(qi as int);
        let ghost c = candidate@.skip(ci as int);
        if query.get_char(qi) == candidate.get_char(ci) {
            proof {
                assert(q[0] == c[0]);
                if fuzzy_matches(q, c) {
                    lemma_fuzzy_greedy(q, c);
                }
                assert(q.skip(1) =~= query@.skip(qi + 1));
                assert(c.skip(1) =~= candidate@.skip(ci + 1));
            }
            qi = qi + 1;
        } else {
            proof {
                assert(q[0] != c[0]);
                assert(fuzzy_matches(q, c) == fuzzy_matches(q, c.skip(1)));
                assert(c.skip(1) =~= candidate@.skip(ci + 1));
            }
        }
        ci = ci + 1;
    }
    proof {
        if qi == qlen {
            assert(query@.skip(qi as int).len() == 0);
        } else {
            assert(candidate@.skip(ci as int).len() == 0);
            assert(query@.skip(qi as int).len() > 0);
        }
    }
    qi == qlen
}

/// Exact equality of two string slices, character by character.
pub fn str_eq(a: &str, b: &str) -> (r: bool)
    ensures
        r == (a@ == b@),
{
    let alen = a.unicode_len();
    let blen = b.unicode_len();
    if alen != blen {
        return false;
    }
    let mut i: usize = 0;
    while i < alen
        invariant
            i <= alen == a@.len(),
            alen == blen == b@.len(),
            forall|k: int| 0 <= k < i ==> a@[k] == b@[k],
        decreases alen - i,
    {
        if a.get_char(i) != b.get_char(i) {
            return false;
        }
        i = i + 1;
    }
    proof {
        assert(a@ =~= b@);
    }
    true
}

} // verus!
