//! The command tool: the guard against dangerous shell commands and the shaping
//! of a command's output.
use vstd::prelude::*;

use vstd::utf8::{decode_utf8, encode_utf8, is_char_boundary};

use crate::text::{contains_seq, text_contains};

verus! {

/// Command fragments that are refused, in the order they are checked.
pub open spec fn blocked_patterns() -> Seq<Seq<char>> {
    seq![
        "rm -rf /"@,
        "rm -rf /*"@,
        "rm -rf ~"@,
        "rm -rf ~/*"@,
        "rm -r /"@,
        "rm -r /*"@,
        "rm -r ~"@,
        "rm -f /"@,
        "rm -f /*"@,
        "dd if=/dev/zero of=/dev/"@,
        "dd if=/dev/random of=/dev/"@,
        "dd if=/dev/urandom of=/dev/"@,
        "mkfs."@,
        "shred /dev/"@,
        "cat /dev/urandom > /dev/"@,
        "cat /dev/zero > /dev/"@,
        "> /dev/sd"@,
        ":(){ :|:& };:"@,
        "fork bomb"@,
        "chmod -R 777 /"@,
        "chmod 777 /"@,
        "chown -R"@,
        "bash -i >& /dev/tcp/"@,
        "nc -e /bin/"@,
        "nc -e /usr/bin/"@,
        "/dev/tcp/"@,
        "| bash"@,
        "| sh"@,
        "| zsh"@,
        "| fish"@,
        "| sudo bash"@,
        "| sudo sh"@,
        "iptables -F"@,
        "iptables --flush"@,
        "> /etc/passwd"@,
        "> /etc/shadow"@,
        "> /etc/sudoers"@,
        "mv / /dev/null"@,
        "sysctl -w"@,
    ]
}

/// The dangerous command fragments, in the order they are checked.
fn blocked_pattern_list() -> (r: Vec<&'static str>)
    ensures
        r@.map_values(|p: &str| p@) == blocked_patterns(),
{
    let v = vec![
        "rm -rf /",
        "rm -rf /*",
        "rm -rf ~",
        "rm -rf ~/*",
        "rm -r /",
        "rm -r /*",
        "rm -r ~",
        "rm -f /",
        "rm -f /*",
        "dd if=/dev/zero of=/dev/",
        "dd if=/dev/random of=/dev/",
        "dd if=/dev/urandom of=/dev/",
        "mkfs.",
        "shred /dev/",
        "cat /dev/urandom > /dev/",
        "cat /dev/zero > /dev/",
        "> /dev/sd",
        ":(){ :|:& };:",
        "fork bomb",
        "chmod -R 777 /",
        "chmod 777 /",
        "chown -R",
        "bash -i >& /dev/tcp/",
        "nc -e /bin/",
        "nc -e /usr/bin/",
        "/dev/tcp/",
        "| bash",
        "| sh",
        "| zsh",
        "| fish",
        "| sudo bash",
        "| sudo sh",
        "iptables -F",
        "iptables --flush",
        "> /etc/passwd",
        "> /etc/shadow",
        "> /etc/sudoers",
        "mv / /dev/null",
        "sysctl -w",
    ];
    assert(v@.map_values(|p: &str| p@) =~= blocked_patterns());
    v
}

/// The lower-case form of a text, as `str::to_lowercase` computes it from the
/// Unicode case tables.
pub uninterp spec fn lowercase(s: Seq<char>) -> Seq<char>;

/// `str::to_lowercase`: the lower-case form of `s`.
#[verifier::external_body]
fn to_lower(s: &str) -> (r: String)
    ensures
        r@ == lowercase(s@),
{
    s.to_lowercase()
}

/// The `k`-th dangerous pattern matches the command, ignoring case.
pub open spec fn pattern_matches(command: Seq<char>, k: int) -> bool {
    contains_seq(lowercase(command), lowercase(blocked_patterns()[k]))
}

/// Check whether a command contains a dangerous pattern, ignoring case: the first
/// pattern that matches, if any.
pub fn is_command_blocked(command: &str) -> (r: Option<&'static str>)
    ensures
        match r {
            Some(p) => exists|k: int|
                0 <= k < blocked_patterns().len() && pattern_matches(command@, k) && p@
                    == blocked_patterns()[k] && forall|j: int| 0 <= j < k ==> !pattern_matches(command@, j),
            None => forall|k: int| 0 <= k < blocked_patterns().len() ==> !pattern_matches(command@, k),
        },
{
    let normalized = to_lower(command);
    let patterns = blocked_pattern_list();
    let ghost pv = patterns@.map_values(|p: &str| p@);
    let mut i: usize = 0;
    while i < patterns.len()
        invariant
            i <= patterns.len(),
            pv == patterns@.map_values(|p: &str| p@),
            pv == blocked_patterns(),
            normalized@ == lowercase(command@),
            forall|j: int| 0 <= j < i ==> !pattern_matches(command@, j),
        decreases patterns.len() - i,
    {
        let pattern = patterns[i];
        let lowered = to_lower(pattern);
        assert(pattern@ == blocked_patterns()[i as int]);
        if text_contains(normalized.as_str(), lowered.as_str()) {
            return Some(pattern);
        }
        i = i + 1;
    }
    None
}

/// The reply of the command tool when a command is refused.
pub open spec fn blocked_reply(pattern: Seq<char>) -> Seq<char> {
    "Error: Command blocked (matched dangerous pattern: \""@ + pattern
        + "\"). This operation is not allowed for safety reasons."@
}

/// What the command tool does with a command: refuse it with a reply, or run it.
#[derive(Clone, Debug, PartialEq)]
pub enum ExecDecision {
    /// The command is refused; this is the tool's reply.
    Refuse(String),
    /// The command is to be run by the shell, in `dir` when one is given.
    Run { command: String, dir: Option<String> },
}

fn decide(command: &str, dir: Option<&str>) -> (r: ExecDecision)
    ensures
        match is_blocked_pattern(command@) {
            Some(p) => r matches ExecDecision::Refuse(reply) && reply@ == blocked_reply(p),
            None => r matches ExecDecision::Run { command: c, dir: d } && c@ == command@ && match dir {
                Some(x) => d is Some && d->0@ == x@,
                None => d is None,
            },
        },
{
    match is_command_blocked(command) {
        Some(pattern) => {
            proof {
                lemma_blocked_pattern_first(command@);
            }
            let mut reply = String::from_str("Error: Command blocked (matched dangerous pattern: \"");
            reply.append(pattern);
            reply.append("\"). This operation is not allowed for safety reasons.");
            ExecDecision::Refuse(reply)
        },
        None => {
            proof {
                lemma_blocked_pattern_first(command@);
            }
            ExecDecision::Run {
                command: command.to_owned(),
                dir: match dir {
                    Some(x) => Some(x.to_owned()),
                    None => None,
                },
            }
        },
    }
}

/// The first dangerous pattern that matches the command, if any.
pub open spec fn is_blocked_pattern(command: Seq<char>) -> Option<Seq<char>> {
    if exists|k: int| 0 <= k < blocked_patterns().len() && pattern_matches(command, k) {
        Some(
            blocked_patterns()[choose|k: int|
                0 <= k < blocked_patterns().len() && pattern_matches(command, k) && forall|j: int|
                    0 <= j < k ==> !pattern_matches(command, j)],
        )
    } else {
        None
    }
}

proof fn lemma_blocked_pattern_first(command: Seq<char>)
    ensures
        forall|k: int|
            0 <= k < blocked_patterns().len() && pattern_matches(command, k) && (forall|j: int|
                0 <= j < k ==> !pattern_matches(command, j)) ==> is_blocked_pattern(command) == Some(
                blocked_patterns()[k],
            ),
        (forall|k: int| 0 <= k < blocked_patterns().len() ==> !pattern_matches(command, k))
            ==> is_blocked_pattern(command) is None,
{
    assert forall|k: int|
        0 <= k < blocked_patterns().len() && pattern_matches(command, k) && (forall|j: int|
            0 <= j < k ==> !pattern_matches(command, j)) implies is_blocked_pattern(command) == Some(
        blocked_patterns()[k],
    ) by {
        let c = choose|c: int|
            0 <= c < blocked_patterns().len() && pattern_matches(command, c) && forall|j: int|
                0 <= j < c ==> !pattern_matches(command, j);
        if c < k {
            assert(!pattern_matches(command, c));
        }
        if k < c {
            assert(!pattern_matches(command, k));
        }
    }
}

/// Decide what the command tool does with `command`: refuse it when it contains a
/// dangerous pattern (the reply names the first one), else run it.
pub fn tool_exec(command: &str) -> (r: ExecDecision)
    ensures
        match is_blocked_pattern(command@) {
            Some(p) => r matches ExecDecision::Refuse(reply) && reply@ == blocked_reply(p),
            None => r matches ExecDecision::Run { command: c, dir: d } && c@ == command@ && d is None,
        },
{
    decide(command, None)
}

/// Decide what the command tool does with `command` inside the directory `dir`:
/// refuse it when it contains a dangerous pattern, else run it there.
pub fn tool_exec_in_dir(command: &str, dir: &str) -> (r: ExecDecision)
    ensures
        match is_blocked_pattern(command@) {
            Some(p) => r matches ExecDecision::Refuse(reply) && reply@ == blocked_reply(p),
            None => r matches ExecDecision::Run { command: c, dir: d } && c@ == command@ && d is Some
                && d->0@ == dir@,
        },
{
    decide(command, Some(dir))
}

/// The text of a command's output: its standard output, then its standard error
/// (after a `[stderr]` line when both are present), or `(no output)`.
pub open spec fn combined_output(stdout: Seq<char>, stderr: Seq<char>) -> Seq<char> {
    if stdout.len() == 0 && stderr.len() == 0 {
        "(no output)"@
    } else if stderr.len() == 0 {
        stdout
    } else if stdout.len() == 0 {
        stderr
    } else {
        stdout + "\n[stderr]\n"@ + stderr
    }
}

/// The longest output, in UTF-8 bytes, that is passed on whole.
pub const MAX_OUTPUT_BYTES: usize = 10000;

/// The combined text of a command's standard output and standard error.
pub fn combine_command_output(stdout: &str, stderr: &str) -> (r: String)
    ensures
        r@ == combined_output(stdout@, stderr@),
{
    let mut result = String::new();
    if !stdout.is_empty() {
        result.append(stdout);
    }
    if !stderr.is_empty() {
        if !result.as_str().is_empty() {
            result.append("\n[stderr]\n");
        }
        result.append(stderr);
    }
    if result.as_str().is_empty() {
        result = String::from_str("(no output)");
    }
    result
}

/// Output of at most `MAX_OUTPUT_BYTES` bytes is passed on as it is; longer output
/// is cut to its first `MAX_OUTPUT_BYTES` bytes and marked as truncated.
pub open spec fn shortened_output(output: Seq<char>) -> Seq<char> {
    let bytes = encode_utf8(output);
    if bytes.len() <= MAX_OUTPUT_BYTES {
        output
    } else {
        decode_utf8(bytes.subrange(0, MAX_OUTPUT_BYTES as int)) + "\n... (truncated)"@
    }
}

/// Cut a command's output to `MAX_OUTPUT_BYTES` bytes. Output longer than that
/// must have a character boundary at the cut (and, as any string in memory, its
/// length in bytes fits in `usize`).
pub fn truncate_command_output(output: &str) -> (r: String)
    requires
        encode_utf8(output@).len() <= usize::MAX,
        encode_utf8(output@).len() <= MAX_OUTPUT_BYTES || is_char_boundary(
            encode_utf8(output@),
            MAX_OUTPUT_BYTES as int,
        ),
    ensures
        r@ == shortened_output(output@),
{
    if output.len() <= MAX_OUTPUT_BYTES {
        return output.to_owned();
    }
    let (head, _) = output.split_at(MAX_OUTPUT_BYTES);
    let mut r = head.to_owned();
    r.append("\n... (truncated)");
    proof {
        vstd::utf8::encode_utf8_decode_utf8(head@);
    }
    r
}

} // verus!
