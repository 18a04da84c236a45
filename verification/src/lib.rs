//! Core state model of a line-oriented chat bot: channels, members and
//! roles tracked from protocol events, plus the pure decision logic of the
//! bot's reactive handlers (learned commands, pollers, summaries).
//!
//! The session state is one plain value: every mutation goes through a
//! contract-bearing method, and [`dispatch::apply_event`] maps each
//! normalized event to exactly one of them. The enclosing process decides
//! how to share the value between its tasks (a lock around the whole
//! session keeps every mutation and every snapshot read atomic, which is
//! all the model asks for) and performs the outbound [`dispatch::Action`]s
//! the dispatcher hands back.
use vstd::prelude::*;

pub mod channel;
pub mod client;
pub mod commands;
pub mod dispatch;
pub mod laws;
pub mod multiplayer;
pub mod scrape;
pub mod strutil;
pub mod watcher;
pub mod wolfram;

verus! {

/// True when `c` is one of the role-indicator characters that may prefix a
/// member name in a bulk name listing (operator, protected, founder marks).
pub open spec fn is_role_marker(c: char) -> bool {
    c == '@' || c == '!' || c == '~'
}

/// Executable check for [`is_role_marker`].
pub fn role_marker(c: char) -> (r: bool)
    ensures
        r == is_role_marker(c),
{
    c == '@' || c == '!' || c == '~'
}

} // verus!
