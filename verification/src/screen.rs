//! The mapping from decoded keystroke tokens to search transitions.
//!
//! Reading raw bytes, decoding them into tokens and painting the screen
//! are terminal work and live outside this library; what is verified here
//! is the decision which transition a decoded token stands for.

use vstd::prelude::*;
use crate::search::{
    Search,
    confirmed,
    next_index_spec,
    prev_index_spec,
};

verus! {

/// The transition a decoded token asks of the search.
pub enum Key {
    Down,
    Up,
    Backspace,
    Confirm,
    Text,
}

/// One control character each for down, up, backspace and confirm; any
/// other token is text appended to the query.
pub open spec fn classify(input: Seq<char>) -> Key {
    if input.len() == 1 && input[0] == '\u{e}' {
        Key::Down
    } else if input.len() == 1 && input[0] == '\u{10}' {
        Key::Up
    } else if input.len() == 1 && input[0] == '\u{7f}' {
        Key::Backspace
    } else if input.len() == 1 && input[0] == '\n' {
        Key::Confirm
    } else {
        Key::Text
    }
}

/// Applies to `search` the transition that `input` stands for.  A
/// confirmed search stays as it is, whatever the token.
pub fn handle_keystroke(search: Search, input: &str) -> (r: Search)
    requires
        search.wf(),
    ensures
        r.wf(),
        search.done && !(classify(input@) is Confirm) ==> r == search,
        search.done && classify(input@) is Confirm ==> r == confirmed(search),
        !search.done ==> match classify(input@) {
            Key::Down => r.config == search.config && r.query == search.query && !r.done
                && r.current == next_index_spec(
                search.current as nat,
                search.config.visible_limit as nat,
            ),
            Key::Up => r.config == search.config && r.query == search.query && !r.done
                && r.current == prev_index_spec(
                search.current as nat,
                search.config.visible_limit as nat,
            ),
            Key::Backspace => r.config == search.config && !r.done && r.current == search.current
                && r.query@ == (if search.query@.len() == 0 {
                search.query@
            } else {
                search.query@.drop_last()
            }),
            Key::Confirm => r == confirmed(search),
            Key::Text => r.config == search.config && !r.done && r.current == search.current
                && r.query@ == search.query@ + input@,
        },
{
    let n = input.unicode_len();
    if n == 1 {
        let c = input.get_char(0);
        if c == '\u{e}' {
            return search.down();
        }
        if c == '\u{10}' {
            return search.up();
        }
        if c == '\u{7f}' {
            return search.backspace();
        }
        if c == '\n' {
            return search.done();
        }
    }
    search.append_to_search(input)
}

} // verus!
