//! The search state machine.
//!
//! Every transition consumes the previous snapshot and returns a fresh one:
//! the result rows are always exactly the ranked filtering of the pool by
//! the current query, the navigation index cycles over the fixed window
//! `[0, visible_limit)` however many rows currently match, and the
//! selection is looked up with its bounds checked, never by blind
//! indexing.  Once a search is confirmed it is frozen: every further
//! transition returns it unchanged.

use vstd::prelude::*;
use crate::configuration::Configuration;
use crate::ranking::{
    views_of,
    filter_spec,
    insert_desc,
    sort_desc,
    rank_spec,
    lemma_ins_pos_unique,
    lemma_insert_desc_split,
};
use crate::score::{Score, score_spec};

verus! {

/// Navigation steps forward, cycling over the window `[0, limit)`.
pub open spec fn next_index_spec(current: nat, limit: nat) -> nat {
    if current + 1 >= limit {
        0
    } else {
        current + 1
    }
}

/// Navigation steps backward, cycling over the window `[0, limit)`.
pub open spec fn prev_index_spec(current: nat, limit: nat) -> nat {
    if current == 0 {
        (limit - 1) as nat
    } else {
        (current - 1) as nat
    }
}

/// One snapshot of the search.
pub struct Search {
    pub config: Configuration,
    pub query: String,
    pub current: usize,
    pub result: Vec<String>,
    pub selection: Option<String>,
    pub done: bool,
}

/// The frozen copy of a search: the same snapshot with its flag set.
pub open spec fn confirmed(s: Search) -> Search {
    Search { done: true, ..s }
}

impl Search {
    /// What ties a snapshot's fields together: the window is positive, the
    /// navigation index stays inside it, the result rows are exactly the
    /// ranked filtering of the pool by the query, and the selection is the
    /// result row at the navigation index when that row exists, nothing
    /// otherwise.
    pub open spec fn wf(&self) -> bool {
        &&& self.config.wf()
        &&& (self.current as int) < self.config.visible_limit
        &&& views_of(self.result@) == rank_spec(views_of(self.config.choices@), self.query@)
        &&& match self.selection {
            Some(t) => (self.current as int) < self.result@.len() && t@
                == self.result@[self.current as int]@,
            None => (self.current as int) >= self.result@.len(),
        }
    }

    /// Filters the pool down to the candidates matching `query` and ranks
    /// them best-first; candidates of equal quality keep their original
    /// relative order.
    pub fn filter(query: &str, choices: &Vec<String>) -> (res: Vec<String>)
        ensures
            views_of(res@) == rank_spec(views_of(choices@), query@),
    {
        let cn = choices.len();
        let mut kept: Vec<String> = Vec::new();
        let mut i: usize = 0;
        proof {
            assert(views_of(kept@) =~= filter_spec(views_of(choices@).take(0), query@));
        }
        while i < cn
            invariant
                i <= cn,
                cn == choices@.len(),
                views_of(kept@) == filter_spec(views_of(choices@).take(i as int), query@),
            decreases cn - i,
        {
            let quality = Score::score(choices[i].as_str(), query);
            proof {
                let cv = views_of(choices@);
                assert(cv.take(i as int + 1).drop_last() =~= cv.take(i as int));
                assert(cv.take(i as int + 1).last() == cv[i as int]);
            }
            if quality > 0 {
                kept.push(choices[i].clone());
            }
            proof {
                assert(views_of(kept@) =~= filter_spec(views_of(choices@).take(i as int + 1), query@));
            }
            i = i + 1;
        }
        proof {
            assert(views_of(choices@).take(cn as int) =~= views_of(choices@));
        }
        let kn = kept.len();
        let mut out: Vec<String> = Vec::new();
        let mut k: usize = 0;
        proof {
            assert(views_of(out@) =~= sort_desc(views_of(kept@).take(0), query@));
        }
        while k < kn
            invariant
                k <= kn,
                kn == kept@.len(),
                views_of(kept@) == filter_spec(views_of(choices@), query@),
                views_of(out@) == sort_desc(views_of(kept@).take(k as int), query@),
            decreases kn - k,
        {
            let x = kept[k].clone();
            let xs = Score::score(x.as_str(), query);
            let on = out.len();
            let mut j: usize = 0;
            while j < on && Score::score(out[j].as_str(), query) >= xs
                invariant
                    j <= on,
                    on == out@.len(),
                    xs == score_spec(x@, query@),
                    forall|t: int|
                        0 <= t < j ==> #[trigger] score_spec(views_of(out@)[t], query@)
                            >= score_spec(x@, query@),
                decreases on - j,
            {
                proof {
                    assert(views_of(out@)[j as int] == out@[j as int]@);
                }
                j = j + 1;
            }
            proof {
                let ov = views_of(out@);
                assert(j < on ==> ov[j as int] == out@[j as int]@);
                lemma_ins_pos_unique(ov, x@, query@, j as int);
                lemma_insert_desc_split(ov, x@, query@);
                let kv = views_of(kept@);
                assert(kv.take(k as int + 1).drop_last() =~= kv.take(k as int));
                assert(kv.take(k as int + 1).last() == kv[k as int]);
                assert(x@ == kv[k as int]);
            }
            let ghost old_out = out@;
            out.insert(j, x);
            proof {
                assert(views_of(out@) =~= views_of(old_out).take(j as int) + seq![
                    views_of(out@)[j as int],
                ] + views_of(old_out).skip(j as int));
                assert(views_of(out@) =~= insert_desc(views_of(old_out), views_of(out@)[j as int], query@));
                assert(views_of(out@) =~= sort_desc(views_of(kept@).take(k as int + 1), query@));
            }
            k = k + 1;
        }
        proof {
            assert(views_of(kept@).take(kn as int) =~= views_of(kept@));
        }
        out
    }

    /// Builds the snapshot for `query` at navigation index `index`.
    pub fn new(config: Configuration, query: String, index: usize) -> (r: Search)
        requires
            config.wf(),
            index < config.visible_limit,
        ensures
            r.wf(),
            r.config == config,
            r.query == query,
            r.current == index,
            !r.done,
    {
        let result = Search::filter(query.as_str(), &config.choices);
        let selection = if index < result.len() {
            Some(result[index].clone())
        } else {
            None
        };
        Search { config, current: index, query, selection, result, done: false }
    }

    /// The initial snapshot of a run: the configuration's starting query,
    /// with the navigation index on the first row.
    pub fn blank(config: Configuration) -> (r: Search)
        requires
            config.wf(),
        ensures
            r.wf(),
            r.config == config,
            r.query == config.initial_search,
            r.current == 0,
            !r.done,
    {
        let query = config.initial_search.clone();
        Search::new(config, query, 0)
    }

    /// The same query, looked at from another navigation index.
    pub fn new_for_index(self, index: usize) -> (r: Search)
        requires
            self.config.wf(),
            index < self.config.visible_limit,
        ensures
            r.wf(),
            r.config == self.config,
            r.query == self.query,
            r.current == index,
            !r.done,
    {
        let Search { config, query, .. } = self;
        Search::new(config, query, index)
    }

    /// The index one row down, wrapping back to the top of the window.
    pub fn next_index(&self) -> (i: usize)
        requires
            (self.current as int) < self.config.visible_limit,
        ensures
            i == next_index_spec(self.current as nat, self.config.visible_limit as nat),
    {
        let next = self.current + 1;
        if next >= self.config.visible_limit {
            0
        } else {
            next
        }
    }

    /// The index one row up, wrapping to the bottom of the window.
    pub fn prev_index(&self) -> (i: usize)
        requires
            self.config.wf(),
        ensures
            i == prev_index_spec(self.current as nat, self.config.visible_limit as nat),
    {
        if self.current == 0 {
            self.config.visible_limit - 1
        } else {
            self.current - 1
        }
    }

    /// Moves the selection one row down; a confirmed search stays as it
    /// is.
    pub fn down(self) -> (r: Search)
        requires
            self.wf(),
        ensures
            r.wf(),
            self.done ==> r == self,
            !self.done ==> r.config == self.config && r.query == self.query && !r.done
                && r.current == next_index_spec(
                self.current as nat,
                self.config.visible_limit as nat,
            ),
    {
        if self.done {
            return self;
        }
        let index = self.next_index();
        self.new_for_index(index)
    }

    /// Moves the selection one row up; a confirmed search stays as it is.
    pub fn up(self) -> (r: Search)
        requires
            self.wf(),
        ensures
            r.wf(),
            self.done ==> r == self,
            !self.done ==> r.config == self.config && r.query == self.query && !r.done
                && r.current == prev_index_spec(
                self.current as nat,
                self.config.visible_limit as nat,
            ),
    {
        if self.done {
            return self;
        }
        let index = self.prev_index();
        self.new_for_index(index)
    }

    /// Appends `input` to the query and recomputes the result; the
    /// navigation index stays where it was.  A confirmed search stays as
    /// it is.
    pub fn append_to_search(self, input: &str) -> (r: Search)
        requires
            self.wf(),
        ensures
            r.wf(),
            self.done ==> r == self,
            !self.done ==> r.config == self.config && !r.done && r.current == self.current
                && r.query@ == self.query@ + input@,
    {
        if self.done {
            return self;
        }
        let Search { config, query, current, .. } = self;
        let mut new_query = query;
        new_query.append(input);
        Search::new(config, new_query, current)
    }

    /// Erases the last character of the query, if there is one, and
    /// recomputes the result; the navigation index stays where it was.  A
    /// confirmed search stays as it is.
    pub fn backspace(self) -> (r: Search)
        requires
            self.wf(),
        ensures
            r.wf(),
            self.done ==> r == self,
            !self.done ==> r.config == self.config && !r.done && r.current == self.current
                && r.query@ == (if self.query@.len() == 0 {
                self.query@
            } else {
                self.query@.drop_last()
            }),
    {
        if self.done {
            return self;
        }
        let Search { config, query, current, .. } = self;
        let n = query.as_str().unicode_len();
        let new_query = if n == 0 {
            query
        } else {
            let shorter = query.as_str().substring_char(0, n - 1).to_owned();
            proof {
                assert(shorter@ =~= query@.drop_last());
            }
            shorter
        };
        Search::new(config, new_query, current)
    }

    /// Confirms the selection: the search is frozen exactly as it stands.
    pub fn done(self) -> (r: Search)
        requires
            self.wf(),
        ensures
            r.wf(),
            r == confirmed(self),
    {
        Search { done: true, ..self }
    }

    /// Whether the search has been confirmed.
    pub fn is_done(&self) -> (b: bool)
        ensures
            b == self.done,
    {
        self.done
    }
}

/// Stepping down and then up, or up and then down, from any index of the
/// window returns to that index.
pub proof fn lemma_nav_round_trip(current: nat, limit: nat)
    requires
        current < limit,
    ensures
        prev_index_spec(next_index_spec(current, limit), limit) == current,
        next_index_spec(prev_index_spec(current, limit), limit) == current,
{
}

/// Navigation wraps at the window's two ends: up from the first row lands
/// on the last one, down from the last row lands on the first.
pub proof fn lemma_nav_wraps(limit: nat)
    requires
        limit >= 1,
    ensures
        next_index_spec((limit - 1) as nat, limit) == 0,
        prev_index_spec(0, limit) == (limit - 1) as nat,
{
}

/// Appending one character to the query and erasing it restores the prior
/// query exactly, and with it the prior result: the result is a function
/// of the pool and the query alone.
pub proof fn lemma_append_backspace(query: Seq<char>, input: Seq<char>, choices: Seq<Seq<char>>)
    requires
        input.len() == 1,
    ensures
        (query + input).drop_last() == query,
        rank_spec(choices, (query + input).drop_last()) == rank_spec(choices, query),
{
    assert((query + input).drop_last() =~= query);
}

/// Confirming is idempotent: confirming a confirmed search changes
/// nothing at all.
pub proof fn lemma_confirm_idempotent(s: Search)
    ensures
        confirmed(confirmed(s)) == confirmed(s),
{
}

/// The three-line sample pool the tests run against.
pub fn one_two_three() -> (v: Vec<String>)
    ensures
        v@.len() == 3,
        v@[0]@ == "one"@,
        v@[1]@ == "two"@,
        v@[2]@ == "three"@,
{
    let mut v: Vec<String> = Vec::new();
    v.push(String::from_str("one"));
    v.push(String::from_str("two"));
    v.push(String::from_str("three"));
    v
}

} // verus!
