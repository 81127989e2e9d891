//! Ranking of one candidate line against one query.
//!
//! A candidate matches a non-empty query when every query character occurs
//! in the candidate, in order, case-insensitively, as a (not necessarily
//! contiguous) subsequence.  An empty query matches every candidate with one
//! constant positive quality, so that an empty query keeps the whole pool in
//! its original order.
//!
//! The weighting chosen among matches is match density alone — the share of
//! the candidate's characters that the query accounts for — so of two
//! candidates holding the same query, the shorter one ranks first, and
//! candidates of equal quality are left to the ranking's stable tie-break.

use vstd::prelude::*;

verus! {

/// Case folding: ASCII uppercase letters map onto their lowercase
/// counterparts (code point plus 32); every other character stands for
/// itself.
pub open spec fn fold_char(c: char) -> u32 {
    if 'A' <= c && c <= 'Z' {
        (c as u32 + 32) as u32
    } else {
        c as u32
    }
}

/// Two characters are equal up to ASCII case.
pub open spec fn chars_eq_ci(a: char, b: char) -> bool {
    fold_char(a) == fold_char(b)
}

/// `query` occurs in `cand` as a (not necessarily contiguous) subsequence,
/// compared case-insensitively.
pub open spec fn is_subseq_ci(query: Seq<char>, cand: Seq<char>) -> bool
    decreases cand.len(),
{
    if query.len() == 0 {
        true
    } else if cand.len() == 0 {
        false
    } else {
        (chars_eq_ci(query[0], cand[0]) && is_subseq_ci(
            query.drop_first(),
            cand.drop_first(),
        )) || is_subseq_ci(query, cand.drop_first())
    }
}

/// The quality of `choice` against `query`: 0 when the candidate does not
/// match; a constant 1 for the empty query; otherwise 1 plus a match
/// density on a scale of 1000 (the share of the candidate's characters
/// that the query accounts for).  A match always scores at least 1.
pub open spec fn score_spec(choice: Seq<char>, query: Seq<char>) -> int {
    if query.len() == 0 {
        1
    } else if is_subseq_ci(query, choice) {
        1 + (1000 * (query.len() as int)) / (choice.len() as int)
    } else {
        0
    }
}

/// A subsequence is never longer than the sequence it occurs in.
pub proof fn lemma_subseq_len(query: Seq<char>, cand: Seq<char>)
    requires
        is_subseq_ci(query, cand),
    ensures
        query.len() <= cand.len(),
    decreases cand.len(),
{
    if query.len() == 0 {
    } else if cand.len() == 0 {
    } else {
        if chars_eq_ci(query[0], cand[0]) && is_subseq_ci(query.drop_first(), cand.drop_first()) {
            lemma_subseq_len(query.drop_first(), cand.drop_first());
        } else {
            lemma_subseq_len(query, cand.drop_first());
        }
    }
}

/// A subsequence of a sequence's tail occurs in the whole sequence.
pub proof fn lemma_subseq_extend_cand(query: Seq<char>, cand: Seq<char>)
    requires
        cand.len() > 0,
        is_subseq_ci(query, cand.drop_first()),
    ensures
        is_subseq_ci(query, cand),
{
}

/// Dropping the query's first character preserves the match.
pub proof fn lemma_subseq_drop_query_head(query: Seq<char>, cand: Seq<char>)
    requires
        query.len() > 0,
        is_subseq_ci(query, cand),
    ensures
        is_subseq_ci(query.drop_first(), cand),
    decreases cand.len(),
{
    if cand.len() == 0 {
    } else {
        if chars_eq_ci(query[0], cand[0]) && is_subseq_ci(query.drop_first(), cand.drop_first()) {
            lemma_subseq_extend_cand(query.drop_first(), cand);
        } else {
            lemma_subseq_drop_query_head(query, cand.drop_first());
            lemma_subseq_extend_cand(query.drop_first(), cand);
        }
    }
}

/// When the heads of query and candidate agree up to case, matching them
/// against one another neither loses nor invents a match.
pub proof fn lemma_subseq_take_match(query: Seq<char>, cand: Seq<char>)
    requires
        query.len() > 0,
        cand.len() > 0,
        chars_eq_ci(query[0], cand[0]),
    ensures
        is_subseq_ci(query, cand) <==> is_subseq_ci(query.drop_first(), cand.drop_first()),
{
    if is_subseq_ci(query, cand) {
        if is_subseq_ci(query, cand.drop_first()) {
            lemma_subseq_drop_query_head(query, cand.drop_first());
        }
    }
}

/// Match density decides among matches: of two candidates matching the
/// same non-empty query, the shorter one — the one with fewer characters
/// the query does not account for — scores at least as high.
pub proof fn lemma_score_density(a: Seq<char>, b: Seq<char>, query: Seq<char>)
    requires
        query.len() > 0,
        is_subseq_ci(query, a),
        is_subseq_ci(query, b),
        a.len() <= b.len(),
    ensures
        score_spec(a, query) >= score_spec(b, query),
{
    lemma_subseq_len(query, a);
    vstd::arithmetic::div_mod::lemma_div_is_ordered_by_denominator(
        1000 * (query.len() as int),
        a.len() as int,
        b.len() as int,
    );
}

/// The scoring function.  It carries no state: one candidate and one query
/// in, one quality out, the same on every call.
pub struct Score {}

impl Score {
    /// Compares two characters up to ASCII case.
    fn chars_eq(a: char, b: char) -> (r: bool)
        ensures
            r == chars_eq_ci(a, b),
    {
        let fa: u32 = if 'A' <= a && a <= 'Z' {
            a as u32 + 32
        } else {
            a as u32
        };
        let fb: u32 = if 'A' <= b && b <= 'Z' {
            b as u32 + 32
        } else {
            b as u32
        };
        fa == fb
    }

    /// Decides whether `choice` matches `query` as a case-insensitive
    /// subsequence, by the greedy scan that takes the earliest occurrence
    /// of each query character.
    pub fn matches(choice: &str, query: &str) -> (r: bool)
        ensures
            r == is_subseq_ci(query@, choice@),
    {
        let clen = choice.unicode_len();
        let qlen = query.unicode_len();
        let mut i: usize = 0;
        let mut j: usize = 0;
        proof {
            assert(query@.skip(0) =~= query@);
            assert(choice@.skip(0) =~= choice@);
        }
        while i < clen && j < qlen
            invariant
                i <= clen,
                j <= qlen,
                clen == choice@.len(),
                qlen == query@.len(),
                is_subseq_ci(query@, choice@) == is_subseq_ci(
                    query@.skip(j as int),
                    choice@.skip(i as int),
                ),
            decreases clen - i,
        {
            let cc = choice.get_char(i);
            let qc = query.get_char(j);
            proof {
                assert(query@.skip(j as int)[0] == query@[j as int]);
                assert(choice@.skip(i as int)[0] == choice@[i as int]);
                assert(query@.skip(j as int).drop_first() =~= query@.skip(j as int + 1));
                assert(choice@.skip(i as int).drop_first() =~= choice@.skip(i as int + 1));
            }
            if Score::chars_eq(qc, cc) {
                proof {
                    lemma_subseq_take_match(query@.skip(j as int), choice@.skip(i as int));
                }
                j = j + 1;
            }
            i = i + 1;
        }
        proof {
            if j == qlen {
                assert(query@.skip(j as int).len() == 0);
            } else {
                assert(choice@.skip(i as int).len() == 0);
                assert(query@.skip(j as int).len() > 0);
            }
        }
        j == qlen
    }

    /// Ranks `choice` against `query`.  A result of 0 means the candidate
    /// does not match and is excluded; matches score at least 1, and denser
    /// matches score higher.
    pub fn score(choice: &str, query: &str) -> (quality: u64)
        ensures
            quality == score_spec(choice@, query@),
    {
        let qlen = query.unicode_len();
        if qlen == 0 {
            return 1;
        }
        if !Score::matches(choice, query) {
            return 0;
        }
        let clen = choice.unicode_len();
        proof {
            lemma_subseq_len(query@, choice@);
        }
        let num: u128 = 1000u128 * (qlen as u128);
        let den: u128 = clen as u128;
        let d: u128 = num / den;
        proof {
            assert(num / den <= 1000) by (nonlinear_arith)
                requires
                    0 < den,
                    num <= 1000 * den,
            ;
        }
        1 + (d as u64)
    }
}

} // verus!
