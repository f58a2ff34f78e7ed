//! The tools that agents can call: which tools an agent is offered, and how a
//! tool call is read from its name and JSON arguments.
use vstd::prelude::*;

use crate::text::{contains_text, opt_text, same_text};
use crate::tools::sandbox::{all_components, path_allowed, sandbox_allows, Resolution};

pub mod delegate;
pub mod exec;
pub mod sandbox;
pub mod web_search;

verus! {

/// The tools there are, in the order they are offered.
pub open spec fn tool_names() -> Seq<Seq<char>> {
    seq!["web_search"@, "read_file"@, "write_file"@, "exec"@]
}

/// The tool is one of `allowed`.
pub open spec fn allowed_by(allowed: Seq<Seq<char>>) -> spec_fn(Seq<char>) -> bool {
    |t: Seq<char>| allowed.contains(t)
}

/// The tools offered to an agent whose configuration lists `allowed`: all of them
/// when the list is empty, else those listed, in the standard order.
pub open spec fn selected_tools(allowed: Seq<Seq<char>>) -> Seq<Seq<char>> {
    if allowed.len() == 0 {
        tool_names()
    } else {
        tool_names().filter(allowed_by(allowed))
    }
}

/// Names of the tools offered to an agent whose configuration lists `allowed`.
/// If `allowed` is empty, every tool is offered.
pub fn select_tools(allowed: &Vec<String>) -> (r: Vec<&'static str>)
    ensures
        r@.map_values(|s: &str| s@) == selected_tools(allowed.deep_view()),
{
    let all = vec!["web_search", "read_file", "write_file", "exec"];
    assert(all@.map_values(|s: &str| s@) =~= tool_names());
    if allowed.len() == 0 {
        return all;
    }
    let ghost names = tool_names();
    let mut r: Vec<&'static str> = Vec::new();
    let mut i: usize = 0;
    while i < all.len()
        invariant
            i <= all.len(),
            all@.map_values(|s: &str| s@) == names,
            names == tool_names(),
            r@.map_values(|s: &str| s@) == names.take(i as int).filter(allowed_by(allowed.deep_view())),
        decreases all.len() - i,
    {
        let ghost before = r@;
        proof {
            assert(names.take(i + 1) =~= names.take(i as int).push(names[i as int]));
            names.take(i as int).lemma_filter_push(names[i as int], allowed_by(allowed.deep_view()));
        }
        let t = all[i];
        if contains_text(allowed, t) {
            r.push(t);
            assert(r@.map_values(|s: &str| s@) =~= before.map_values(|s: &str| s@).push(t@));
        }
        i = i + 1;
    }
    assert(names.take(4) =~= names);
    r
}

/// The largest file, in bytes, that the read tool returns.
pub const MAX_READ_BYTES: u64 = 102400;

/// What the read tool does once the file system has answered for the file's
/// metadata (its size, or why it cannot be had): `None` to go on and read it, or
/// the reply that refuses it.
pub fn read_file_check(size: Result<u64, String>) -> (r: Option<String>)
    ensures
        match size {
            Ok(n) => if n > MAX_READ_BYTES {
                r matches Some(m) && m@ == "File too large (max 100KB)"@
            } else {
                r is None
            },
            Err(e) => r matches Some(m) && m@ == "Cannot access file: "@ + e@,
        },
{
    match size {
        Ok(n) => if n > MAX_READ_BYTES {
            Some(String::from_str("File too large (max 100KB)"))
        } else {
            None
        },
        Err(e) => {
            let mut m = String::from_str("Cannot access file: ");
            m.append(e.as_str());
            Some(m)
        },
    }
}

/// The string arguments a tool call can carry, each present when the JSON object
/// has a string under that key.
#[derive(Clone, Debug, PartialEq)]
pub struct ToolArgs {
    pub query: Option<String>,
    pub path: Option<String>,
    pub content: Option<String>,
    pub command: Option<String>,
}

/// Abstract value of tool arguments: query, path, content, command.
pub type ToolArgsView = (Option<Seq<char>>, Option<Seq<char>>, Option<Seq<char>>, Option<Seq<char>>);

impl View for ToolArgs {
    type V = ToolArgsView;

    open spec fn view(&self) -> ToolArgsView {
        (opt_text(self.query), opt_text(self.path), opt_text(self.content), opt_text(self.command))
    }
}

/// What `serde_json` reads from a tool call's arguments text: nothing when it is not
/// JSON, else the strings under `query`, `path`, `content` and `command`.
pub uninterp spec fn json_tool_arguments(arguments: Seq<char>) -> Option<ToolArgsView>;

/// `serde_json::from_str::<serde_json::Value>` on the arguments text, then the
/// string value (if any) under each argument key. `None` when the text is not JSON.
#[verifier::external_body]
pub(crate) fn parse_tool_arguments(arguments: &str) -> (r: Option<ToolArgs>)
    ensures
        match r {
            Some(a) => json_tool_arguments(arguments@) == Some(a@),
            None => json_tool_arguments(arguments@) is None,
        },
{
    let v: serde_json::Value = serde_json::from_str(arguments).ok()?;
    let field = |key: &str| v[key].as_str().map(|s| s.to_string());
    Some(ToolArgs { query: field("query"), path: field("path"), content: field("content"), command: field("command") })
}

/// A tool call as the agent asked for it.
#[derive(Clone, Debug, PartialEq)]
pub enum ToolCall {
    /// No tool runs; this is the tool's reply.
    Reply(String),
    /// Search the web for the query.
    WebSearch(String),
    /// Read the file at the path.
    ReadFile(String),
    /// Write the content to the file at the path.
    WriteFile { path: String, content: String },
    /// Run the shell command.
    Exec(String),
}

/// The text of an optional argument, empty when absent.
pub open spec fn or_empty(o: Option<Seq<char>>) -> Seq<char> {
    match o {
        Some(s) => s,
        None => Seq::empty(),
    }
}

fn take_or_empty(o: Option<String>) -> (r: String)
    ensures
        r@ == or_empty(opt_text(o)),
{
    match o {
        Some(s) => s,
        None => String::new(),
    }
}

/// The tool call named `name`, given what the parser read of its arguments text
/// `arguments`: a missing argument counts as empty; arguments that are not JSON,
/// and unknown tools, get a reply instead.
pub fn tool_call_from(name: &str, arguments: &str, parsed: Option<ToolArgs>) -> (r: ToolCall)
    ensures
        match parsed {
            None => r matches ToolCall::Reply(m) && m@ == "Invalid arguments: "@ + arguments@,
            Some(a) => if name@ == "web_search"@ {
                r matches ToolCall::WebSearch(q) && q@ == or_empty(a@.0)
            } else if name@ == "read_file"@ {
                r matches ToolCall::ReadFile(p) && p@ == or_empty(a@.1)
            } else if name@ == "write_file"@ {
                r matches ToolCall::WriteFile { path, content } && path@ == or_empty(a@.1) && content@
                    == or_empty(a@.2)
            } else if name@ == "exec"@ {
                r matches ToolCall::Exec(c) && c@ == or_empty(a@.3)
            } else {
                r matches ToolCall::Reply(m) && m@ == "Unknown tool: "@ + name@
            },
        },
{
    let args = match parsed {
        Some(a) => a,
        None => {
            let mut m = String::from_str("Invalid arguments: ");
            m.append(arguments);
            return ToolCall::Reply(m);
        },
    };
    if same_text(name, "web_search") {
        ToolCall::WebSearch(take_or_empty(args.query))
    } else if same_text(name, "read_file") {
        ToolCall::ReadFile(take_or_empty(args.path))
    } else if same_text(name, "write_file") {
        ToolCall::WriteFile { path: take_or_empty(args.path), content: take_or_empty(args.content) }
    } else if same_text(name, "exec") {
        ToolCall::Exec(take_or_empty(args.command))
    } else {
        let mut m = String::from_str("Unknown tool: ");
        m.append(name);
        ToolCall::Reply(m)
    }
}

/// Read a tool call from the tool's name and its JSON arguments text: a missing
/// argument counts as empty; arguments that are not JSON, and unknown tools, get a
/// reply instead.
pub fn plan_tool_call(name: &str, arguments: &str) -> (r: ToolCall)
    ensures
        match json_tool_arguments(arguments@) {
            None => r matches ToolCall::Reply(m) && m@ == "Invalid arguments: "@ + arguments@,
            Some(a) => if name@ == "web_search"@ {
                r matches ToolCall::WebSearch(q) && q@ == or_empty(a.0)
            } else if name@ == "read_file"@ {
                r matches ToolCall::ReadFile(p) && p@ == or_empty(a.1)
            } else if name@ == "write_file"@ {
                r matches ToolCall::WriteFile { path, content } && path@ == or_empty(a.1) && content@
                    == or_empty(a.2)
            } else if name@ == "exec"@ {
                r matches ToolCall::Exec(c) && c@ == or_empty(a.3)
            } else {
                r matches ToolCall::Reply(m) && m@ == "Unknown tool: "@ + name@
            },
        },
{
    tool_call_from(name, arguments, parse_tool_arguments(arguments))
}

/// The reply of a file tool whose path the sandbox refuses.
pub open spec fn access_denied() -> Seq<char> {
    "Access denied: path is outside allowed workspace"@
}

/// A file read or write of a path that the sandbox refuses, given where the path
/// resolved and the allowed directories, becomes the access-denied reply; any
/// other call goes ahead as planned. So a file tool only ever runs on a path that
/// the sandbox lets through.
pub fn guarded_call(call: ToolCall, resolution: &Resolution, dirs: &Vec<Vec<Vec<u8>>>) -> (r: ToolCall)
    ensures
        (call is ReadFile || call is WriteFile) && !sandbox_allows(all_components(dirs@), *resolution)
            ==> (r matches ToolCall::Reply(m) && m@ == access_denied()),
        !((call is ReadFile || call is WriteFile) && !sandbox_allows(all_components(dirs@), *resolution))
            ==> r == call,
        (r is ReadFile || r is WriteFile) ==> sandbox_allows(all_components(dirs@), *resolution),
{
    let touches_file = match &call {
        ToolCall::ReadFile(_) => true,
        ToolCall::WriteFile { .. } => true,
        _ => false,
    };
    if touches_file && !path_allowed(resolution, dirs) {
        ToolCall::Reply(String::from_str("Access denied: path is outside allowed workspace"))
    } else {
        call
    }
}

} // verus!
