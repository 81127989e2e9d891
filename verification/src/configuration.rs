//! The immutable snapshot of one run: the candidate pool and the search
//! settings, built once at startup and never changed afterwards.

use vstd::prelude::*;

verus! {

/// The candidate pool in its original input order, the query the search
/// starts from, and the size of the navigable window.
pub struct Configuration {
    pub choices: Vec<String>,
    pub initial_search: String,
    pub visible_limit: usize,
}

impl Configuration {
    /// The window has at least one row, so that navigation can cycle.
    pub open spec fn wf(&self) -> bool {
        self.visible_limit >= 1
    }

    /// Builds the configuration the startup code hands in.  A missing
    /// initial query starts the search empty; a missing window bound sizes
    /// the window to the pool, so the whole pool stays navigable.
    pub fn from_inputs(
        choices: Vec<String>,
        initial_search: Option<String>,
        visible_limit: Option<usize>,
    ) -> (c: Configuration)
        requires
            match visible_limit {
                Some(l) => l >= 1,
                None => choices.len() >= 1,
            },
        ensures
            c.wf(),
            c.choices == choices,
            c.initial_search@ == match initial_search {
                Some(s) => s@,
                None => Seq::<char>::empty(),
            },
            c.visible_limit as int == match visible_limit {
                Some(l) => l as int,
                None => choices.len() as int,
            },
    {
        let limit = match visible_limit {
            Some(l) => l,
            None => choices.len(),
        };
        let initial = match initial_search {
            Some(s) => s,
            None => String::new(),
        };
        Configuration { choices, initial_search: initial, visible_limit: limit }
    }
}

} // verus!
