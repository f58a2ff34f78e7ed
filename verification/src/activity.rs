//! The activity log: file writes and commands that agents performed.
use vstd::prelude::*;

use crate::clock::{is_timestamp, now_iso};
use crate::text::same_text;
use crate::tools::{json_tool_arguments, parse_tool_arguments, ToolArgs, ToolArgsView};

verus! {

/// One logged action of an agent.
#[derive(Clone, Debug, PartialEq)]
pub struct LogEntry {
    pub timestamp: String,
    pub agent: String,
    pub action: String,
    pub path: String,
}

/// A log entry for an action of `agent`, stamped with the current time.
pub fn new_log_entry(agent: &str, action: &str, path: &str) -> (r: LogEntry)
    ensures
        r.agent@ == agent@,
        r.action@ == action@,
        r.path@ == path@,
        is_timestamp(r.timestamp@),
{
    LogEntry { timestamp: now_iso(), agent: agent.to_owned(), action: action.to_owned(), path: path.to_owned() }
}

/// The log as it is shown: the entries in the reverse of the order they were
/// written, newest first.
pub fn newest_first(entries: Vec<LogEntry>) -> (r: Vec<LogEntry>)
    ensures
        r@ == entries@.reverse(),
{
    let mut entries = entries;
    let ghost written = entries@;
    let mut r: Vec<LogEntry> = Vec::new();
    while entries.len() > 0
        invariant
            written.len() == entries@.len() + r@.len(),
            entries@ == written.take(entries@.len() as int),
            r@ == written.reverse().take(r@.len() as int),
        decreases entries.len(),
    {
        let ghost n = entries@.len();
        let e = entries.pop().unwrap();
        assert(written.reverse()[r@.len() as int] == written[n - 1]);
        r.push(e);
        assert(r@ =~= written.reverse().take(r@.len() as int));
        assert(entries@ =~= written.take(entries@.len() as int));
    }
    assert(r@ =~= written.reverse());
    r
}

/// What the activity log records of a tool call, as (action, target), given what
/// the parser read of its arguments: a file write with its path, a command with
/// its text; nothing for other tools, or when the arguments lack that string or
/// are not JSON.
pub open spec fn action_of(tool_name: Seq<char>, args: Option<ToolArgsView>) -> Option<(Seq<char>, Seq<char>)> {
    match args {
        None => None,
        Some(a) => if tool_name == "write_file"@ {
            match a.1 {
                Some(p) => Some(("write_file"@, p)),
                None => None,
            }
        } else if tool_name == "exec"@ {
            match a.3 {
                Some(c) => Some(("exec"@, c)),
                None => None,
            }
        } else {
            None
        },
    }
}

/// What the activity log records of a tool call with the arguments text `arguments`.
pub open spec fn logged_action(tool_name: Seq<char>, arguments: Seq<char>) -> Option<(Seq<char>, Seq<char>)> {
    action_of(tool_name, json_tool_arguments(arguments))
}

/// The action to log for a tool call, given what the parser read of its arguments.
pub fn activity_from(tool_name: &str, parsed: Option<ToolArgs>) -> (r: Option<(String, String)>)
    ensures
        match r {
            Some(x) => action_of(tool_name@, opt_args(parsed)) == Some((x.0@, x.1@)),
            None => action_of(tool_name@, opt_args(parsed)) is None,
        },
{
    let args = match parsed {
        Some(a) => a,
        None => {
            return None;
        },
    };
    if same_text(tool_name, "write_file") {
        match args.path {
            Some(p) => Some((String::from_str("write_file"), p)),
            None => None,
        }
    } else if same_text(tool_name, "exec") {
        match args.command {
            Some(c) => Some((String::from_str("exec"), c)),
            None => None,
        }
    } else {
        None
    }
}

/// Abstract value of optional parsed arguments.
pub open spec fn opt_args(o: Option<ToolArgs>) -> Option<ToolArgsView> {
    match o {
        Some(a) => Some(a@),
        None => None,
    }
}

/// The action to log for a tool call, if any.
pub fn activity_for_tool(tool_name: &str, arguments: &str) -> (r: Option<(String, String)>)
    ensures
        match r {
            Some(x) => logged_action(tool_name@, arguments@) == Some((x.0@, x.1@)),
            None => logged_action(tool_name@, arguments@) is None,
        },
{
    activity_from(tool_name, parse_tool_arguments(arguments))
}

} // verus!
