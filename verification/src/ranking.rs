//! The filtering and ranking pipeline of the search.
//!
//! Given the candidate pool and the current query, the pipeline keeps the
//! candidates that match, in their original order, and then stable-sorts
//! them by quality, descending: candidates of equal quality keep their
//! relative order, which is what gives an empty query the identity order.

use vstd::prelude::*;
use crate::score::score_spec;

verus! {

/// The views of a sequence of owned strings, character sequence by
/// character sequence.
pub open spec fn views_of(s: Seq<String>) -> Seq<Seq<char>> {
    Seq::new(s.len(), |i: int| s[i]@)
}

/// The candidates of `choices` that match `query`, in their original order.
pub open spec fn filter_spec(choices: Seq<Seq<char>>, query: Seq<char>) -> Seq<Seq<char>>
    decreases choices.len(),
{
    if choices.len() == 0 {
        Seq::empty()
    } else if score_spec(choices.last(), query) > 0 {
        filter_spec(choices.drop_last(), query).push(choices.last())
    } else {
        filter_spec(choices.drop_last(), query)
    }
}

/// Stable insertion by quality, descending: `x` goes after every element
/// that scores at least as high, so that equal qualities keep their order.
pub open spec fn insert_desc(s: Seq<Seq<char>>, x: Seq<char>, query: Seq<char>) -> Seq<Seq<char>>
    decreases s.len(),
{
    if s.len() == 0 {
        seq![x]
    } else if score_spec(s[0], query) >= score_spec(x, query) {
        seq![s[0]] + insert_desc(s.drop_first(), x, query)
    } else {
        seq![x] + s
    }
}

/// Stable insertion sort by quality, descending.
pub open spec fn sort_desc(s: Seq<Seq<char>>, query: Seq<char>) -> Seq<Seq<char>>
    decreases s.len(),
{
    if s.len() == 0 {
        Seq::empty()
    } else {
        insert_desc(sort_desc(s.drop_last(), query), s.last(), query)
    }
}

/// The whole pipeline: filter, then rank.
pub open spec fn rank_spec(choices: Seq<Seq<char>>, query: Seq<char>) -> Seq<Seq<char>> {
    sort_desc(filter_spec(choices, query), query)
}

/// Qualities never increase along `s`.
pub open spec fn sorted_desc(s: Seq<Seq<char>>, query: Seq<char>) -> bool {
    forall|i: int, j: int|
        0 <= i <= j < s.len() ==> #[trigger] score_spec(s[i], query) >= #[trigger] score_spec(
            s[j],
            query,
        )
}

/// Every element of `s` matches `query`.
pub open spec fn all_match(s: Seq<Seq<char>>, query: Seq<char>) -> bool {
    forall|i: int| 0 <= i < s.len() ==> #[trigger] score_spec(s[i], query) > 0
}

/// Where `insert_desc` puts its element: right after the longest leading
/// run of elements that score at least as high.
pub open spec fn ins_pos(s: Seq<Seq<char>>, x: Seq<char>, query: Seq<char>) -> int
    decreases s.len(),
{
    if s.len() == 0 {
        0
    } else if score_spec(s[0], query) >= score_spec(x, query) {
        1 + ins_pos(s.drop_first(), x, query)
    } else {
        0
    }
}

/// `insert_desc` splices its element in at `ins_pos` and moves nothing
/// else: everything before the position scores at least as high as the
/// element, and the element just past it, if any, scores lower.
pub proof fn lemma_insert_desc_split(s: Seq<Seq<char>>, x: Seq<char>, query: Seq<char>)
    ensures
        0 <= ins_pos(s, x, query) <= s.len(),
        insert_desc(s, x, query) == s.take(ins_pos(s, x, query)) + seq![x] + s.skip(
            ins_pos(s, x, query),
        ),
        forall|k: int|
            0 <= k < ins_pos(s, x, query) ==> #[trigger] score_spec(s[k], query) >= score_spec(
                x,
                query,
            ),
        ins_pos(s, x, query) < s.len() ==> score_spec(s[ins_pos(s, x, query)], query) < score_spec(
            x,
            query,
        ),
    decreases s.len(),
{
    let p = ins_pos(s, x, query);
    if s.len() == 0 {
        assert(insert_desc(s, x, query) =~= s.take(0) + seq![x] + s.skip(0));
    } else if score_spec(s[0], query) >= score_spec(x, query) {
        lemma_insert_desc_split(s.drop_first(), x, query);
        let q = ins_pos(s.drop_first(), x, query);
        assert(forall|k: int| 0 <= k < s.drop_first().len() ==> s.drop_first()[k] == s[k + 1]);
        assert(s.take(p) =~= seq![s[0]] + s.drop_first().take(q));
        assert(s.skip(p) =~= s.drop_first().skip(q));
        assert(insert_desc(s, x, query) =~= s.take(p) + seq![x] + s.skip(p));
        assert forall|k: int| 0 <= k < p implies #[trigger] score_spec(s[k], query) >= score_spec(
            x,
            query,
        ) by {
            if k > 0 {
                assert(s[k] == s.drop_first()[k - 1]);
                assert(score_spec(s.drop_first()[k - 1], query) >= score_spec(x, query));
            }
        }
    } else {
        assert(insert_desc(s, x, query) =~= s.take(0) + seq![x] + s.skip(0));
    }
}

/// The insertion position is the one index that splits `s` into a prefix
/// scoring at least the element and a suffix starting below it.
pub proof fn lemma_ins_pos_unique(s: Seq<Seq<char>>, x: Seq<char>, query: Seq<char>, j: int)
    requires
        0 <= j <= s.len(),
        forall|k: int|
            0 <= k < j ==> #[trigger] score_spec(s[k], query) >= score_spec(x, query),
        j < s.len() ==> score_spec(s[j], query) < score_spec(x, query),
    ensures
        ins_pos(s, x, query) == j,
    decreases s.len(),
{
    if s.len() == 0 {
    } else {
        assert(forall|k: int| 0 <= k < s.drop_first().len() ==> s.drop_first()[k] == s[k + 1]);
        if score_spec(s[0], query) >= score_spec(x, query) {
            assert(j != 0);
            lemma_ins_pos_unique(s.drop_first(), x, query, j - 1);
        } else {
            assert(j == 0);
        }
    }
}

/// Inserting preserves sortedness.
pub proof fn lemma_insert_desc_sorted(s: Seq<Seq<char>>, x: Seq<char>, query: Seq<char>)
    requires
        sorted_desc(s, query),
    ensures
        sorted_desc(insert_desc(s, x, query), query),
{
    lemma_insert_desc_split(s, x, query);
    let p = ins_pos(s, x, query);
    let r = insert_desc(s, x, query);
    assert forall|i: int, j: int|
        0 <= i <= j < r.len() implies #[trigger] score_spec(r[i], query)
        >= #[trigger] score_spec(r[j], query) by {
        assert(forall|k: int| 0 <= k < p ==> r[k] == s[k]);
        assert(r[p] == x);
        assert(forall|k: int| p < k < r.len() ==> r[k] == s[k - 1]);
        if i < p && j == p {
            assert(score_spec(s[i], query) >= score_spec(x, query));
        } else if i == p && j > p {
            assert(score_spec(s[j - 1], query) <= score_spec(s[p], query));
        }
    }
}

/// Inserting a matching element among matching elements leaves every
/// element matching.
pub proof fn lemma_insert_desc_all_match(s: Seq<Seq<char>>, x: Seq<char>, query: Seq<char>)
    requires
        all_match(s, query),
        score_spec(x, query) > 0,
    ensures
        all_match(insert_desc(s, x, query), query),
{
    lemma_insert_desc_split(s, x, query);
    let p = ins_pos(s, x, query);
    let r = insert_desc(s, x, query);
    assert forall|i: int| 0 <= i < r.len() implies #[trigger] score_spec(r[i], query) > 0 by {
        if i < p {
            assert(r[i] == s[i]);
        } else if i == p {
            assert(r[i] == x);
        } else {
            assert(r[i] == s[i - 1]);
        }
    }
}

/// The sort returns as many elements as it was given, sorted.
pub proof fn lemma_sort_desc_sorted(s: Seq<Seq<char>>, query: Seq<char>)
    ensures
        sort_desc(s, query).len() == s.len(),
        sorted_desc(sort_desc(s, query), query),
    decreases s.len(),
{
    if s.len() == 0 {
    } else {
        lemma_sort_desc_sorted(s.drop_last(), query);
        lemma_insert_desc_sorted(sort_desc(s.drop_last(), query), s.last(), query);
        lemma_insert_desc_split(sort_desc(s.drop_last(), query), s.last(), query);
    }
}

/// Sorting a pool of matching candidates leaves every element matching.
pub proof fn lemma_sort_desc_all_match(s: Seq<Seq<char>>, query: Seq<char>)
    requires
        all_match(s, query),
    ensures
        all_match(sort_desc(s, query), query),
    decreases s.len(),
{
    if s.len() == 0 {
    } else {
        assert(forall|k: int| 0 <= k < s.drop_last().len() ==> s.drop_last()[k] == s[k]);
        lemma_sort_desc_all_match(s.drop_last(), query);
        lemma_insert_desc_all_match(sort_desc(s.drop_last(), query), s.last(), query);
    }
}

/// Sorting an already sorted sequence moves nothing: the stable tie-break
/// keeps equal qualities where they stand.
pub proof fn lemma_sort_desc_of_sorted(s: Seq<Seq<char>>, query: Seq<char>)
    requires
        sorted_desc(s, query),
    ensures
        sort_desc(s, query) == s,
    decreases s.len(),
{
    if s.len() == 0 {
        assert(sort_desc(s, query) =~= s);
    } else {
        let d = s.drop_last();
        assert(forall|k: int| 0 <= k < d.len() ==> d[k] == s[k]);
        lemma_sort_desc_of_sorted(d, query);
        lemma_ins_pos_unique(d, s.last(), query, d.len() as int);
        lemma_insert_desc_split(d, s.last(), query);
        assert(insert_desc(d, s.last(), query) =~= s);
    }
}

/// Filtering keeps only matching candidates.
pub proof fn lemma_filter_spec_all_match(choices: Seq<Seq<char>>, query: Seq<char>)
    ensures
        all_match(filter_spec(choices, query), query),
        filter_spec(choices, query).len() <= choices.len(),
    decreases choices.len(),
{
    if choices.len() == 0 {
    } else {
        lemma_filter_spec_all_match(choices.drop_last(), query);
    }
}

/// Filtering a pool whose candidates all match keeps every one of them,
/// in place.
pub proof fn lemma_filter_spec_of_matching(s: Seq<Seq<char>>, query: Seq<char>)
    requires
        all_match(s, query),
    ensures
        filter_spec(s, query) == s,
    decreases s.len(),
{
    if s.len() == 0 {
        assert(filter_spec(s, query) =~= s);
    } else {
        assert(forall|k: int| 0 <= k < s.drop_last().len() ==> s.drop_last()[k] == s[k]);
        lemma_filter_spec_of_matching(s.drop_last(), query);
        assert(score_spec(s.last(), query) > 0);
        assert(filter_spec(s, query) =~= s);
    }
}

/// The pipeline is idempotent: filtering and ranking its own output with
/// the same query gives that output back unchanged.
pub proof fn lemma_rank_idempotent(choices: Seq<Seq<char>>, query: Seq<char>)
    ensures
        rank_spec(rank_spec(choices, query), query) == rank_spec(choices, query),
{
    let f = filter_spec(choices, query);
    let r = rank_spec(choices, query);
    lemma_filter_spec_all_match(choices, query);
    lemma_sort_desc_all_match(f, query);
    lemma_sort_desc_sorted(f, query);
    lemma_filter_spec_of_matching(r, query);
    lemma_sort_desc_of_sorted(r, query);
}

/// An empty query keeps the whole pool, in its original order: every
/// candidate scores the one constant quality, and the stable sort moves
/// nothing.
pub proof fn lemma_rank_empty_query(choices: Seq<Seq<char>>, query: Seq<char>)
    requires
        query.len() == 0,
    ensures
        rank_spec(choices, query) == choices,
{
    assert(all_match(choices, query));
    lemma_filter_spec_of_matching(choices, query);
    assert(sorted_desc(choices, query));
    lemma_sort_desc_of_sorted(choices, query);
}

} // verus!
