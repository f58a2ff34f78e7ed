//! Chat history: the persisted messages of an agent's conversations.
use vstd::prelude::*;

use crate::clock::{is_timestamp, now_iso};
use crate::text::{opt_text, same_text};

verus! {

/// A single persisted message entry.
#[derive(Clone, Debug, PartialEq)]
pub struct HistoryEntry {
    pub role: String,
    pub content: String,
    pub timestamp: Option<String>,
}

/// A history entry for a message, stamped with the current time.
pub fn new_history_entry(role: &str, content: &str) -> (r: HistoryEntry)
    ensures
        r.role@ == role@,
        r.content@ == content@,
        r.timestamp matches Some(t) && is_timestamp(t@),
{
    HistoryEntry { role: role.to_owned(), content: content.to_owned(), timestamp: Some(now_iso()) }
}

/// The two entries an exchange adds to the history: the user's message, then the
/// assistant's reply, both stamped with the current time.
pub fn exchange_entries(user_msg: &str, assistant_msg: &str) -> (r: (HistoryEntry, HistoryEntry))
    ensures
        r.0.role@ == "user"@,
        r.0.content@ == user_msg@,
        r.1.role@ == "assistant"@,
        r.1.content@ == assistant_msg@,
        r.0.timestamp matches Some(t) && is_timestamp(t@),
        r.1.timestamp matches Some(t) && is_timestamp(t@),
{
    (new_history_entry("user", user_msg), new_history_entry("assistant", assistant_msg))
}

/// The text of the user's last message among `messages`, each given as its role and
/// its content (each present when the request had it as a string): empty when no
/// message is the user's, or when the last one has no text.
pub open spec fn last_user_text(messages: Seq<(Option<Seq<char>>, Option<Seq<char>>)>) -> Seq<char>
    decreases messages.len(),
{
    if messages.len() == 0 {
        Seq::empty()
    } else if messages.last().0 == Some("user"@) {
        match messages.last().1 {
            Some(c) => c,
            None => Seq::empty(),
        }
    } else {
        last_user_text(messages.drop_last())
    }
}

/// Abstract value of messages given as role and content.
pub open spec fn message_texts(messages: Seq<(Option<String>, Option<String>)>) -> Seq<(Option<Seq<char>>, Option<Seq<char>>)> {
    messages.map_values(|m: (Option<String>, Option<String>)| (opt_text(m.0), opt_text(m.1)))
}

/// The user's last message of a chat request, which the history keeps.
pub fn last_user_message(messages: &Vec<(Option<String>, Option<String>)>) -> (r: String)
    ensures
        r@ == last_user_text(message_texts(messages@)),
{
    let ghost all = message_texts(messages@);
    let mut n: usize = messages.len();
    assert(all.take(n as int) =~= all);
    while n > 0
        invariant
            n <= messages.len(),
            all == message_texts(messages@),
            last_user_text(all) == last_user_text(all.take(n as int)),
        decreases n,
    {
        let is_user = match &messages[n - 1].0 {
            Some(role) => same_text(role.as_str(), "user"),
            None => false,
        };
        proof {
            reveal_strlit("user");
            assert(all.take(n as int).last() == all[n - 1]);
            assert(all.take(n as int).drop_last() =~= all.take(n - 1));
        }
        if is_user {
            return match &messages[n - 1].1 {
                Some(c) => c.clone(),
                None => String::new(),
            };
        }
        n = n - 1;
    }
    String::new()
}

/// The reply the history keeps of a chat: the model's final reply, or `(error)`
/// when the chat ended without one.
pub fn kept_reply(reply: Option<String>) -> (r: String)
    ensures
        r@ == match opt_text(reply) {
            Some(t) => t,
            None => "(error)"@,
        },
{
    match reply {
        Some(t) => t,
        None => String::from_str("(error)"),
    }
}

} // verus!
