//! Delegation: an agent hands a task to an agent below it in the organisation
//! chart. These functions decide what is asked of the language model.
use vstd::prelude::*;

use crate::config::{AgentConfig, Config, OrgChart, PositionView};
use crate::org::{
    agents_of, all_agents, build_system_prompt, find_agent_position, first_where, get_subordinates,
    group_display, group_text, prompt_parts, reports_to, staffed_by,
};
use crate::text::{join, join_texts, opt_text};
use crate::tools::{or_empty, select_tools, selected_tools};

verus! {

/// All agent names of the chart, joined with `、`.
pub open spec fn available_agents_text(org: Seq<PositionView>) -> Seq<char> {
    join(all_agents(org), "、"@)
}

/// The description of the delegation tool for a position with subordinates `subs`.
pub open spec fn delegate_text(subs: Seq<PositionView>) -> Seq<char> {
    "将任务委派给下属。你的下属有："@ + group_text(subs) + "。"@
}

/// All agents of the chart, as the delegation tool lists them when a name is unknown.
pub fn available_agents(org: &OrgChart) -> (r: String)
    ensures
        r@ == available_agents_text(org@),
{
    let names = agents_of(&org.positions);
    join_texts(&names, "、")
}

/// The description of the delegation tool offered to the position `position_id`,
/// when it has subordinates.
pub fn delegate_description(org: &OrgChart, position_id: &str) -> (r: Option<String>)
    ensures
        match r {
            Some(d) => org@.filter(reports_to(position_id@)).len() > 0 && d@ == delegate_text(
                org@.filter(reports_to(position_id@)),
            ),
            None => org@.filter(reports_to(position_id@)).len() == 0,
        },
{
    let subs = get_subordinates(org, position_id);
    if subs.len() == 0 {
        return None;
    }
    let mut d = String::from_str("将任务委派给下属。你的下属有：");
    let names = group_display(&subs);
    d.append(names.as_str());
    d.append("。");
    Some(d)
}

/// What is asked of the language model for an agent: its system prompt, the tools it
/// is offered and, when it has subordinates, the description of the delegation tool.
#[derive(Clone, Debug, PartialEq)]
pub struct AgentPrompt {
    pub system_prompt: Option<String>,
    pub tools: Vec<&'static str>,
    pub delegate_description: Option<String>,
}

/// The prompt of `agent`, filling the position of the chart that lists
/// `agent_name`: with such a position, the combined position prompt and the
/// delegation tool when the position has subordinates; without one, the agent's own
/// prompt (none when empty).
pub fn agent_prompt(org: &OrgChart, agent_name: &str, agent: &AgentConfig) -> (r: AgentPrompt)
    ensures
        r.tools@.map_values(|s: &str| s@) == selected_tools(agent.tools.deep_view()),
        match first_where(org@, staffed_by(agent_name@)) {
            Some(pos) => opt_text(r.system_prompt) == Some(
                join(prompt_parts(org@, pos, agent.system_prompt@), "\n\n"@),
            ) && match r.delegate_description {
                Some(d) => org@.filter(reports_to(pos.id)).len() > 0 && d@ == delegate_text(
                    org@.filter(reports_to(pos.id)),
                ),
                None => org@.filter(reports_to(pos.id)).len() == 0,
            },
            None => r.delegate_description is None && opt_text(r.system_prompt) == if agent.system_prompt@.len()
                == 0 {
                None::<Seq<char>>
            } else {
                Some(agent.system_prompt@)
            },
        },
{
    let tools = select_tools(&agent.tools);
    match find_agent_position(org, agent_name) {
        Some(position) => {
            let sp = build_system_prompt(org, &position, agent);
            let desc = delegate_description(org, position.id.as_str());
            AgentPrompt { system_prompt: Some(sp), tools, delegate_description: desc }
        },
        None => {
            let sp = if agent.system_prompt.as_str().is_empty() {
                None
            } else {
                Some(agent.system_prompt.clone())
            };
            AgentPrompt { system_prompt: sp, tools, delegate_description: None }
        },
    }
}

/// A request to the language model on behalf of an agent.
#[derive(Clone, Debug, PartialEq)]
pub struct LlmRequest {
    pub api_url: String,
    pub api_key: String,
    pub model: String,
    pub prompt: AgentPrompt,
}

/// The outcome of planning a delegation: a reply without asking the model, or a
/// request to it.
#[derive(Clone, Debug, PartialEq)]
pub enum Delegation {
    Reply(String),
    Call(LlmRequest),
}

/// Plan the delegation of a task to the agent `agent_name`, whose configuration
/// (looked up by name) is `agent`. The agent must hold a position, exist, and have a
/// model; otherwise the reply says what is missing.
pub fn plan_delegation(agent_name: &str, org: &OrgChart, agent: Option<&AgentConfig>, config: &Config) -> (r: Delegation)
    ensures
        match first_where(org@, staffed_by(agent_name@)) {
            None => r matches Delegation::Reply(m) && m@ == "未找到agent："@ + agent_name@ + "。可用agent："@
                + available_agents_text(org@),
            Some(pos) => match agent {
                None => r matches Delegation::Reply(m) && m@ == "Agent "@ + agent_name@ + " 不存在。"@,
                Some(a) => match config.model_for(opt_text(a.model_name)) {
                    None => r matches Delegation::Reply(m) && m@ == "未配置模型。请在 Settings 中添加模型。"@,
                    Some(e) => r matches Delegation::Call(q) && q.api_url@ == e.api_url@ && q.api_key@
                        == e.api_key@ && q.model@ == e.model@ && opt_text(q.prompt.system_prompt) == Some(
                        join(prompt_parts(org@, pos, a.system_prompt@), "\n\n"@),
                    ) && q.prompt.tools@.map_values(|s: &str| s@) == selected_tools(a.tools.deep_view())
                        && match q.prompt.delegate_description {
                        Some(d) => org@.filter(reports_to(pos.id)).len() > 0 && d@ == delegate_text(
                            org@.filter(reports_to(pos.id)),
                        ),
                        None => org@.filter(reports_to(pos.id)).len() == 0,
                    },
                },
            },
        },
{
    if find_agent_position(org, agent_name).is_none() {
        let mut m = String::from_str("未找到agent：");
        m.append(agent_name);
        m.append("。可用agent：");
        let names = available_agents(org);
        m.append(names.as_str());
        return Delegation::Reply(m);
    }
    let a = match agent {
        Some(a) => a,
        None => {
            let mut m = String::from_str("Agent ");
            m.append(agent_name);
            m.append(" 不存在。");
            return Delegation::Reply(m);
        },
    };
    let prompt = agent_prompt(org, agent_name, a);
    let name_opt: Option<&str> = match &a.model_name {
        Some(n) => Some(n.as_str()),
        None => None,
    };
    match config.resolve_model(name_opt) {
        Some(e) => Delegation::Call(
            LlmRequest {
                api_url: e.api_url.clone(),
                api_key: e.api_key.clone(),
                model: e.model.clone(),
                prompt,
            },
        ),
        None => Delegation::Reply(String::from_str("未配置模型。请在 Settings 中添加模型。")),
    }
}

/// What the JSON parser reads from the delegation tool's arguments text: nothing
/// when it is not JSON, else the strings under `agent_name` and `task`.
pub uninterp spec fn json_delegate_arguments(arguments: Seq<char>) -> Option<(Option<Seq<char>>, Option<Seq<char>>)>;

/// `serde_json::from_str::<serde_json::Value>` on the arguments text, then the
/// string value (if any) under `agent_name` and under `task`. `None` when the text
/// is not JSON.
#[verifier::external_body]
fn parse_delegate_arguments(arguments: &str) -> (r: Option<(Option<String>, Option<String>)>)
    ensures
        match r {
            Some(p) => json_delegate_arguments(arguments@) == Some((opt_text(p.0), opt_text(p.1))),
            None => json_delegate_arguments(arguments@) is None,
        },
{
    let v: serde_json::Value = serde_json::from_str(arguments).ok()?;
    let field = |key: &str| v[key].as_str().map(|s| s.to_string());
    Some((field("agent_name"), field("task")))
}

/// The agent and the task a delegation names, from what the parser read of the
/// arguments: each is empty when absent, and both are when the text is not JSON.
pub fn delegate_target(parsed: Option<(Option<String>, Option<String>)>) -> (r: (String, String))
    ensures
        match parsed {
            None => r.0@ == Seq::<char>::empty() && r.1@ == Seq::<char>::empty(),
            Some(p) => r.0@ == or_empty(opt_text(p.0)) && r.1@ == or_empty(opt_text(p.1)),
        },
{
    match parsed {
        None => (String::new(), String::new()),
        Some((agent, task)) => {
            let a = match agent {
                Some(a) => a,
                None => String::new(),
            };
            let t = match task {
                Some(t) => t,
                None => String::new(),
            };
            (a, t)
        },
    }
}

/// Read the agent and the task of a delegation from the tool's arguments text.
pub fn delegate_arguments(arguments: &str) -> (r: (String, String))
    ensures
        match json_delegate_arguments(arguments@) {
            None => r.0@ == Seq::<char>::empty() && r.1@ == Seq::<char>::empty(),
            Some(p) => r.0@ == or_empty(p.0) && r.1@ == or_empty(p.1),
        },
{
    delegate_target(parse_delegate_arguments(arguments))
}

} // verus!
