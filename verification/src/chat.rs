//! The decisions of a chat with a language model that may call tools: where the
//! request goes, what each reply leads to, and how tool output is summarised.
use vstd::prelude::*;

use vstd::utf8::{decode_utf8, encode_utf8, is_char_boundary};

use crate::text::{chars_of, opt_text, string_of};

verus! {

/// `s` without its trailing `/` characters.
pub open spec fn without_trailing_slashes(s: Seq<char>) -> Seq<char>
    decreases s.len(),
{
    if s.len() > 0 && s.last() == '/' {
        without_trailing_slashes(s.drop_last())
    } else {
        s
    }
}

/// The chat-completions endpoint of an API base URL.
pub fn chat_completions_url(api_url: &str) -> (r: String)
    ensures
        r@ == without_trailing_slashes(api_url@) + "/chat/completions"@,
{
    let chars = chars_of(api_url);
    let mut end = chars.len();
    assert(chars@.subrange(0, end as int) =~= chars@);
    while end > 0 && chars[end - 1] == '/'
        invariant
            end <= chars.len(),
            without_trailing_slashes(api_url@) == without_trailing_slashes(chars@.subrange(0, end as int)),
            chars@ == api_url@,
        decreases end,
    {
        assert(chars@.subrange(0, end as int).drop_last() =~= chars@.subrange(0, end - 1));
        end = end - 1;
    }
    let mut kept: Vec<char> = Vec::new();
    let mut i: usize = 0;
    while i < end
        invariant
            i <= end <= chars.len(),
            kept@ == chars@.subrange(0, i as int),
        decreases end - i,
    {
        kept.push(chars[i]);
        i = i + 1;
        assert(kept@ =~= chars@.subrange(0, i as int));
    }
    let mut url = string_of(&kept);
    url.append("/chat/completions");
    url
}

/// What came back from one request to the language model.
#[derive(Clone, Debug, PartialEq)]
pub enum LlmOutcome {
    /// The request failed; the text says why.
    HttpFailed(String),
    /// The reply was not JSON; the text says why.
    Unparsable(String),
    /// The model's message: whether it asks for tool calls, and its text content.
    Message { tool_calls: bool, content: Option<String> },
}

/// What the JSON parser reads from the body of the model's reply: nothing when the
/// body is not JSON; else, of the message at `choices[0].message`, the length of
/// its `tool_calls` array (when it has one) and its text `content` (when it is a
/// string).
pub uninterp spec fn json_chat_reply(body: Seq<char>) -> Option<(Option<nat>, Option<Seq<char>>)>;

/// Abstract value of an optional count.
pub open spec fn opt_nat(o: Option<usize>) -> Option<nat> {
    match o {
        Some(n) => Some(n as nat),
        None => None,
    }
}

/// `serde_json::from_str::<serde_json::Value>` on the reply body, then, of
/// `choices[0].message`, the length of the `tool_calls` array and the string
/// `content`. The error text is the parser's message, of which nothing is stated.
#[verifier::external_body]
fn parse_chat_reply(body: &str) -> (r: Result<(Option<usize>, Option<String>), String>)
    ensures
        match r {
            Ok(p) => json_chat_reply(body@) == Some((opt_nat(p.0), opt_text(p.1))),
            Err(_) => json_chat_reply(body@) is None,
        },
{
    let v: serde_json::Value = serde_json::from_str(body).map_err(|e| e.to_string())?;
    let msg = &v["choices"][0]["message"];
    let calls = msg.get("tool_calls").and_then(|tc| tc.as_array()).map(|a| a.len());
    Ok((calls, msg["content"].as_str().map(|s| s.to_string())))
}

/// The outcome of a reply, from what the parser read of it: a body that is not
/// JSON is unparsable; otherwise the message asks for tools exactly when its
/// `tool_calls` array is there and not empty.
pub fn reply_outcome(parsed: Result<(Option<usize>, Option<String>), String>) -> (r: LlmOutcome)
    ensures
        match parsed {
            Err(e) => r matches LlmOutcome::Unparsable(m) && m@ == e@,
            Ok(p) => r matches LlmOutcome::Message { tool_calls, content } && tool_calls == (p.0 matches Some(
                n,
            ) && n > 0) && opt_text(content) == opt_text(p.1),
        },
{
    match parsed {
        Err(e) => LlmOutcome::Unparsable(e),
        Ok((calls, content)) => {
            let tool_calls = match calls {
                Some(n) => n > 0,
                None => false,
            };
            LlmOutcome::Message { tool_calls, content }
        },
    }
}

/// Read the outcome of a request from the body of the model's reply.
pub fn read_chat_reply(body: &str) -> (r: LlmOutcome)
    ensures
        match json_chat_reply(body@) {
            None => r is Unparsable,
            Some(p) => r matches LlmOutcome::Message { tool_calls, content } && tool_calls == (p.0 matches Some(
                n,
            ) && n > 0) && opt_text(content) == p.1,
        },
{
    reply_outcome(parse_chat_reply(body))
}

/// The most request rounds of a chat.
pub const MAX_TOOL_ROUNDS: usize = 10;

/// What a chat does after a reply of the model.
#[derive(Clone, Debug, PartialEq)]
pub enum ChatStep {
    /// Stop with this error.
    Error(String),
    /// Run the requested tools; when `then_error` is given this was the last round
    /// and the chat stops with that error after the tools ran.
    RunTools { then_error: Option<String> },
    /// Stop with this reply.
    Done(String),
}

/// The reply text of a message: its content, or `(empty)` without one.
pub open spec fn reply_text(content: Option<Seq<char>>) -> Seq<char> {
    match content {
        Some(c) => c,
        None => "(empty)"@,
    }
}

fn reply_of(content: Option<String>) -> (r: String)
    ensures
        r@ == reply_text(opt_text(content)),
{
    match content {
        Some(c) => c,
        None => String::from_str("(empty)"),
    }
}

/// The model's reply `outcome` in round `round` (from 0) ends the chat: a failure,
/// a final message, or tool calls in the last round.
pub open spec fn ends_chat(round: nat, outcome: LlmOutcome) -> bool {
    match outcome {
        LlmOutcome::Message { tool_calls, .. } => !tool_calls || round + 1 >= MAX_TOOL_ROUNDS,
        _ => true,
    }
}

/// The number of requests a chat makes, from round `round` on, when the model's
/// reply in round `i` is `replies[i]`.
pub open spec fn chat_requests(replies: Seq<LlmOutcome>, round: nat) -> nat
    decreases MAX_TOOL_ROUNDS - round,
{
    if round + 1 >= MAX_TOOL_ROUNDS || ends_chat(round, replies[round as int]) {
        round + 1
    } else {
        chat_requests(replies, round + 1)
    }
}

proof fn lemma_chat_requests(replies: Seq<LlmOutcome>, round: nat)
    requires
        round < MAX_TOOL_ROUNDS,
        replies.len() >= MAX_TOOL_ROUNDS,
    ensures
        round < chat_requests(replies, round) <= MAX_TOOL_ROUNDS,
        ends_chat((chat_requests(replies, round) - 1) as nat, replies[chat_requests(replies, round) - 1]),
        forall|r: nat|
            round <= r < chat_requests(replies, round) - 1 ==> !ends_chat(r, #[trigger] replies[r as int]),
    decreases MAX_TOOL_ROUNDS - round,
{
    if !(round + 1 >= MAX_TOOL_ROUNDS || ends_chat(round, replies[round as int])) {
        lemma_chat_requests(replies, round + 1);
    }
}

/// However the model replies, a chat makes between 1 and `MAX_TOOL_ROUNDS`
/// requests and ends with exactly one terminal event: the reply to its last request
/// ends it, and no reply before that does.
pub proof fn law_chat_ends(replies: Seq<LlmOutcome>)
    requires
        replies.len() >= MAX_TOOL_ROUNDS,
    ensures
        1 <= chat_requests(replies, 0) <= MAX_TOOL_ROUNDS,
        ends_chat((chat_requests(replies, 0) - 1) as nat, replies[chat_requests(replies, 0) - 1]),
        forall|r: nat| r < chat_requests(replies, 0) - 1 ==> !ends_chat(r, #[trigger] replies[r as int]),
{
    lemma_chat_requests(replies, 0);
}

/// Decide what the chat does after the model's reply in round `round` (from 0):
/// errors stop it, tool calls are run (the last round stops afterwards), any other
/// message is the final reply.
pub fn chat_step(round: usize, outcome: LlmOutcome) -> (r: ChatStep)
    ensures
        (r matches ChatStep::RunTools { then_error: None }) <==> !ends_chat(round as nat, outcome),
        match outcome {
            LlmOutcome::HttpFailed(e) => r matches ChatStep::Error(m) && m@ == e@,
            LlmOutcome::Unparsable(e) => r matches ChatStep::Error(m) && m@ == e@,
            LlmOutcome::Message { tool_calls, content } => if tool_calls {
                r matches ChatStep::RunTools { then_error } && if round + 1 >= MAX_TOOL_ROUNDS {
                    then_error matches Some(m) && m@ == "Exceeded 10 tool calling rounds"@
                } else {
                    then_error is None
                }
            } else {
                r matches ChatStep::Done(m) && m@ == reply_text(opt_text(content))
            },
        },
{
    match outcome {
        LlmOutcome::HttpFailed(e) => ChatStep::Error(e),
        LlmOutcome::Unparsable(e) => ChatStep::Error(e),
        LlmOutcome::Message { tool_calls, content } => {
            if tool_calls {
                let then_error = if round >= MAX_TOOL_ROUNDS - 1 {
                    Some(String::from_str("Exceeded 10 tool calling rounds"))
                } else {
                    None
                };
                ChatStep::RunTools { then_error }
            } else {
                ChatStep::Done(reply_of(content))
            }
        },
    }
}

/// The deepest delegation that is still carried out.
pub const MAX_DELEGATION_DEPTH: usize = 5;

/// The reply that stops a delegation nested deeper than `MAX_DELEGATION_DEPTH`.
pub fn delegation_depth_reply(depth: usize) -> (r: Option<String>)
    ensures
        match r {
            Some(m) => depth > MAX_DELEGATION_DEPTH && m@ == "委派层级过深，已终止。"@,
            None => depth <= MAX_DELEGATION_DEPTH,
        },
{
    if depth > MAX_DELEGATION_DEPTH {
        Some(String::from_str("委派层级过深，已终止。"))
    } else {
        None
    }
}

/// What a delegated agent does after the model's reply.
#[derive(Clone, Debug, PartialEq)]
pub enum DelegationStep {
    /// Answer with this text.
    Reply(String),
    /// Run the requested tools, then ask the model once more.
    RunTools,
}

/// Decide what a delegated agent does after the model's reply: failures are
/// reported, tool calls are run after the first request only, any other message
/// is the answer.
pub fn delegation_step(first_request: bool, outcome: LlmOutcome) -> (r: DelegationStep)
    ensures
        match outcome {
            LlmOutcome::HttpFailed(e) => r matches DelegationStep::Reply(m) && m@ == "LLM调用失败: "@ + e@,
            LlmOutcome::Unparsable(e) => r matches DelegationStep::Reply(m) && m@ == "解析响应失败: "@ + e@,
            LlmOutcome::Message { tool_calls, content } => if first_request && tool_calls {
                r is RunTools
            } else {
                r matches DelegationStep::Reply(m) && m@ == reply_text(opt_text(content))
            },
        },
{
    match outcome {
        LlmOutcome::HttpFailed(e) => {
            let mut m = String::from_str("LLM调用失败: ");
            m.append(e.as_str());
            DelegationStep::Reply(m)
        },
        LlmOutcome::Unparsable(e) => {
            let mut m = String::from_str("解析响应失败: ");
            m.append(e.as_str());
            DelegationStep::Reply(m)
        },
        LlmOutcome::Message { tool_calls, content } => {
            if first_request && tool_calls {
                DelegationStep::RunTools
            } else {
                DelegationStep::Reply(reply_of(content))
            }
        },
    }
}

/// The longest tool output, in UTF-8 bytes, that a progress event shows whole.
pub const MAX_SUMMARY_BYTES: usize = 500;

/// A tool's output as a progress event shows it: whole when short, else its first
/// `MAX_SUMMARY_BYTES` bytes followed by `... (truncated)`.
pub open spec fn summary_text(output: Seq<char>) -> Seq<char> {
    let bytes = encode_utf8(output);
    if bytes.len() <= MAX_SUMMARY_BYTES {
        output
    } else {
        decode_utf8(bytes.subrange(0, MAX_SUMMARY_BYTES as int)) + "... (truncated)"@
    }
}

/// Summarise a tool's output for a progress event. Output longer than
/// `MAX_SUMMARY_BYTES` must have a character boundary at the cut.
pub fn tool_output_summary(output: &str) -> (r: String)
    requires
        encode_utf8(output@).len() <= usize::MAX,
        encode_utf8(output@).len() <= MAX_SUMMARY_BYTES || is_char_boundary(
            encode_utf8(output@),
            MAX_SUMMARY_BYTES as int,
        ),
    ensures
        r@ == summary_text(output@),
{
    if output.len() <= MAX_SUMMARY_BYTES {
        return output.to_owned();
    }
    let (head, _) = output.split_at(MAX_SUMMARY_BYTES);
    let mut r = head.to_owned();
    r.append("... (truncated)");
    proof {
        vstd::utf8::encode_utf8_decode_utf8(head@);
    }
    r
}

} // verus!
