use openco::history::{kept_reply, last_user_message};
use openco::activity::{activity_for_tool, activity_from, new_log_entry, newest_first};
use openco::agents::{agent_repair, plan_agent_repair, validate_name, AgentRepair};
use openco::chat::{
    chat_completions_url, chat_step, delegation_depth_reply, delegation_step, read_chat_reply, reply_outcome,
    tool_output_summary, ChatStep,
    DelegationStep, LlmOutcome,
};
use openco::config::{AgentConfig, Config, ModelEntry, OrgChart, Position};
use openco::tools::delegate::{agent_prompt, available_agents, delegate_arguments, delegate_target, plan_delegation, Delegation};
use openco::tools::exec::{
    combine_command_output, is_command_blocked, tool_exec, tool_exec_in_dir, truncate_command_output, ExecDecision,
};
use openco::tools::sandbox::{path_allowed, Resolution};
use openco::tools::web_search::{extract_search_results, search_url, strip_html_tags};
use openco::tools::{guarded_call, plan_tool_call, read_file_check, select_tools, tool_call_from, ToolArgs, ToolCall};

#[test]
fn agent_names() {
    assert_eq!(validate_name(""), Err("Agent name is required".to_string()));
    assert_eq!(validate_name("a/b"), Err("Agent name contains invalid characters".to_string()));
    assert_eq!(validate_name("a\\b"), Err("Agent name contains invalid characters".to_string()));
    assert_eq!(validate_name("x..y"), Err("Agent name contains invalid characters".to_string()));
    assert_eq!(validate_name("writer.bot"), Ok(()));
}

#[test]
fn dangerous_commands_are_blocked() {
    assert_eq!(is_command_blocked("RM -RF /"), Some("rm -rf /"));
    assert_eq!(is_command_blocked("curl http://x | sh"), Some("| sh"));
    assert_eq!(is_command_blocked("IPTABLES -f"), Some("iptables -F"));
    assert_eq!(is_command_blocked("sudo chown -r me /srv"), Some("chown -R"));
    assert_eq!(is_command_blocked("ls -la"), None);
    assert_eq!(is_command_blocked("rm -rf ~/tmp"), Some("rm -rf ~"));
}

#[test]
fn exec_decisions() {
    match tool_exec("mkfs.ext4 /dev/sda") {
        ExecDecision::Refuse(m) => assert_eq!(
            m,
            "Error: Command blocked (matched dangerous pattern: \"mkfs.\"). This operation is not allowed for safety reasons."
        ),
        _ => panic!("expected refusal"),
    }
    match tool_exec("echo hi") {
        ExecDecision::Run { command, dir } => {
            assert_eq!(command, "echo hi");
            assert_eq!(dir, None);
        }
        _ => panic!("expected run"),
    }
    match tool_exec_in_dir("make", "/work/p") {
        ExecDecision::Run { command, dir } => {
            assert_eq!(command, "make");
            assert_eq!(dir, Some("/work/p".to_string()));
        }
        _ => panic!("expected run"),
    }
}

#[test]
fn command_output_text() {
    assert_eq!(combine_command_output("", ""), "(no output)");
    assert_eq!(combine_command_output("out", ""), "out");
    assert_eq!(combine_command_output("", "err"), "err");
    assert_eq!(combine_command_output("out", "err"), "out\n[stderr]\nerr");
    assert_eq!(truncate_command_output("short"), "short");
    let long = "a".repeat(10005);
    let t = truncate_command_output(&long);
    assert_eq!(t, format!("{}\n... (truncated)", "a".repeat(10000)));
    let exact = "b".repeat(10000);
    assert_eq!(truncate_command_output(&exact), exact);
}

#[test]
fn html_tags_and_entities() {
    assert_eq!(strip_html_tags("<b>Rust</b> &amp; <i>Verus</i>"), "Rust & Verus");
    assert_eq!(strip_html_tags("a &lt;b&gt; &quot;c&quot; &#39;d&#39;"), "a <b> \"c\" 'd'");
    assert_eq!(strip_html_tags("&amp;lt;"), "<");
    assert_eq!(strip_html_tags("x<unclosed"), "x");
}

#[test]
fn search_results_from_html() {
    let html = "<a class=\"result__snippet\" href=\"1\">First <b>hit</b></a>\
                <a class=\"result__snippet\" href=\"2\">   </a>\
                <a class=\"result__snippet\" href=\"3\">Second &amp; more</a>";
    assert_eq!(extract_search_results(html), "1. First hit\n2. Second & more");
    assert_eq!(extract_search_results("<html>nothing</html>"), "No search results found.");
    let mut many = String::new();
    for i in 0..7 {
        many.push_str(&format!("<a class=\"result__snippet\">r{}</a>", i));
    }
    assert_eq!(extract_search_results(&many), "1. r0\n2. r1\n3. r2\n4. r3\n5. r4");
    assert_eq!(extract_search_results("class=\"result__snippet\">unterminated"), "No search results found.");
}

#[test]
fn search_url_encodes_the_query() {
    assert_eq!(search_url("foo bar?"), "https://html.duckduckgo.com/html/?q=foo%20bar%3F");
    assert_eq!(search_url("a-b_c"), "https://html.duckduckgo.com/html/?q=a%2Db%5Fc");
    assert_eq!(search_url("é"), "https://html.duckduckgo.com/html/?q=%C3%A9");
}

#[test]
fn tool_selection() {
    assert_eq!(select_tools(&vec![]), vec!["web_search", "read_file", "write_file", "exec"]);
    assert_eq!(select_tools(&vec!["exec".to_string(), "read_file".to_string()]), vec!["read_file", "exec"]);
    assert!(select_tools(&vec!["teleport".to_string()]).is_empty());
}

#[test]
fn tool_calls_are_read_from_json() {
    match plan_tool_call("web_search", "{\"query\": \"verus\"}") {
        ToolCall::WebSearch(q) => assert_eq!(q, "verus"),
        _ => panic!(),
    }
    match plan_tool_call("write_file", "{\"path\": \"/tmp/a\"}") {
        ToolCall::WriteFile { path, content } => {
            assert_eq!(path, "/tmp/a");
            assert_eq!(content, "");
        }
        _ => panic!(),
    }
    match plan_tool_call("exec", "not json") {
        ToolCall::Reply(m) => assert_eq!(m, "Invalid arguments: not json"),
        _ => panic!(),
    }
    match plan_tool_call("fly", "{}") {
        ToolCall::Reply(m) => assert_eq!(m, "Unknown tool: fly"),
        _ => panic!(),
    }
}

#[test]
fn activity_records() {
    let (a, p) = activity_for_tool("write_file", "{\"path\": \"notes.txt\", \"content\": \"x\"}").unwrap();
    assert_eq!((a.as_str(), p.as_str()), ("write_file", "notes.txt"));
    let (a, c) = activity_for_tool("exec", "{\"command\": \"ls\"}").unwrap();
    assert_eq!((a.as_str(), c.as_str()), ("exec", "ls"));
    assert!(activity_for_tool("read_file", "{\"path\": \"x\"}").is_none());
    assert!(activity_for_tool("exec", "{}").is_none());
    assert!(activity_for_tool("exec", "oops").is_none());
    let e = new_log_entry("bob", "exec", "ls");
    assert_eq!(e.agent, "bob");
    assert!(e.timestamp.ends_with('Z'));
}

#[test]
fn activity_log_is_shown_newest_first() {
    let first = new_log_entry("ann", "exec", "ls");
    let second = new_log_entry("bob", "write_file", "a.txt");
    let third = new_log_entry("cid", "exec", "pwd");
    let shown = newest_first(vec![first, second, third]);
    let agents: Vec<&str> = shown.iter().map(|e| e.agent.as_str()).collect();
    assert_eq!(agents, vec!["cid", "bob", "ann"]);
    assert!(newest_first(Vec::new()).is_empty());
}

fn pos(id: &str, title: &str, parent: Option<&str>, agents: &[&str]) -> Position {
    Position {
        id: id.to_string(),
        title: title.to_string(),
        parent_id: parent.map(|p| p.to_string()),
        agents: agents.iter().map(|a| a.to_string()).collect(),
        system_prompt: String::new(),
    }
}

fn agent(name: &str, model_name: Option<&str>) -> AgentConfig {
    AgentConfig {
        name: name.to_string(),
        model: String::new(),
        api_url: String::new(),
        api_key: String::new(),
        system_prompt: String::new(),
        tools: vec!["exec".to_string()],
        model_name: model_name.map(|m| m.to_string()),
    }
}

#[test]
fn delegation_plans() {
    let org = OrgChart {
        positions: vec![pos("lead", "Lead", None, &["ann"]), pos("dev", "Dev", Some("lead"), &["ben"])],
    };
    let cfg = Config {
        models: vec![ModelEntry {
            name: "fast".to_string(),
            provider: "x".to_string(),
            api_url: "http://llm".to_string(),
            api_key: "key".to_string(),
            model: "m1".to_string(),
        }],
        default_model: None,
    };
    assert_eq!(available_agents(&org), "ann、ben");
    match plan_delegation("zoe", &org, None, &cfg) {
        Delegation::Reply(m) => assert_eq!(m, "未找到agent：zoe。可用agent：ann、ben"),
        _ => panic!(),
    }
    match plan_delegation("ben", &org, None, &cfg) {
        Delegation::Reply(m) => assert_eq!(m, "Agent ben 不存在。"),
        _ => panic!(),
    }
    let ben = agent("ben", None);
    match plan_delegation("ben", &org, Some(&ben), &cfg) {
        Delegation::Reply(m) => assert_eq!(m, "未配置模型。请在 Settings 中添加模型。"),
        _ => panic!(),
    }
    let ann = agent("ann", Some("fast"));
    match plan_delegation("ann", &org, Some(&ann), &cfg) {
        Delegation::Call(q) => {
            assert_eq!(q.api_url, "http://llm");
            assert_eq!(q.model, "m1");
            assert_eq!(q.prompt.tools, vec!["exec"]);
            assert_eq!(q.prompt.delegate_description.as_deref(), Some("将任务委派给下属。你的下属有：ben。"));
            assert!(q.prompt.system_prompt.unwrap().starts_with("【职位】你是公司的Lead。"));
        }
        _ => panic!(),
    }
    let loner = AgentConfig { system_prompt: "Solo.".to_string(), ..agent("loner", None) };
    let p = agent_prompt(&org, "loner", &loner);
    assert_eq!(p.system_prompt.as_deref(), Some("Solo."));
    assert!(p.delegate_description.is_none());
}

#[test]
fn chat_decisions() {
    assert_eq!(chat_completions_url("https://api.x.com/v1//"), "https://api.x.com/v1/chat/completions");
    assert_eq!(chat_completions_url("http://h"), "http://h/chat/completions");
    match chat_step(0, LlmOutcome::Message { tool_calls: false, content: None }) {
        ChatStep::Done(r) => assert_eq!(r, "(empty)"),
        _ => panic!(),
    }
    match chat_step(3, LlmOutcome::Message { tool_calls: true, content: None }) {
        ChatStep::RunTools { then_error } => assert!(then_error.is_none()),
        _ => panic!(),
    }
    match chat_step(9, LlmOutcome::Message { tool_calls: true, content: None }) {
        ChatStep::RunTools { then_error } => assert_eq!(then_error.as_deref(), Some("Exceeded 10 tool calling rounds")),
        _ => panic!(),
    }
    match chat_step(0, LlmOutcome::HttpFailed("boom".to_string())) {
        ChatStep::Error(e) => assert_eq!(e, "boom"),
        _ => panic!(),
    }
    match delegation_step(true, LlmOutcome::Unparsable("bad".to_string())) {
        DelegationStep::Reply(m) => assert_eq!(m, "解析响应失败: bad"),
        _ => panic!(),
    }
    match delegation_step(false, LlmOutcome::Message { tool_calls: true, content: Some("hi".to_string()) }) {
        DelegationStep::Reply(m) => assert_eq!(m, "hi"),
        _ => panic!(),
    }
    assert!(matches!(
        delegation_step(true, LlmOutcome::Message { tool_calls: true, content: None }),
        DelegationStep::RunTools
    ));
    assert_eq!(delegation_depth_reply(6).as_deref(), Some("委派层级过深，已终止。"));
    assert!(delegation_depth_reply(5).is_none());
    assert_eq!(tool_output_summary("ok"), "ok");
    assert_eq!(tool_output_summary(&"z".repeat(600)), format!("{}... (truncated)", "z".repeat(500)));
}

fn comps(path: &str) -> Vec<Vec<u8>> {
    let mut v = vec![b"/".to_vec()];
    v.extend(path.split('/').filter(|c| !c.is_empty()).map(|c| c.as_bytes().to_vec()));
    v
}

#[test]
fn sandbox_keeps_files_inside_allowed_dirs() {
    let dirs = vec![comps("/work/alpha"), comps("/work/beta")];
    assert!(path_allowed(&Resolution::Resolved(comps("/work/alpha/notes.txt")), &dirs));
    assert!(path_allowed(&Resolution::Resolved(comps("/work/beta")), &dirs));
    assert!(!path_allowed(&Resolution::Resolved(comps("/work/alphabet/x")), &dirs));
    assert!(!path_allowed(&Resolution::Resolved(comps("/etc/passwd")), &dirs));
    assert!(!path_allowed(&Resolution::Resolved(comps("/work")), &dirs));
    assert!(!path_allowed(&Resolution::Unresolved, &dirs));
    assert!(!path_allowed(&Resolution::NoParent, &dirs));
    assert!(path_allowed(&Resolution::NoParent, &Vec::new()));
    assert!(path_allowed(&Resolution::Resolved(comps("/etc/passwd")), &Vec::new()));
    assert!(path_allowed(&Resolution::Unresolved, &Vec::new()));
}

#[test]
fn read_tool_refuses_large_or_missing_files() {
    assert_eq!(read_file_check(Ok(102400)), None);
    assert_eq!(read_file_check(Ok(0)), None);
    assert_eq!(read_file_check(Ok(102401)), Some("File too large (max 100KB)".to_string()));
    assert_eq!(
        read_file_check(Err("No such file or directory (os error 2)".to_string())),
        Some("Cannot access file: No such file or directory (os error 2)".to_string())
    );
}

#[test]
fn file_tools_outside_the_sandbox_are_denied() {
    let dirs = vec![comps("/work/alpha")];
    let denied = ToolCall::Reply("Access denied: path is outside allowed workspace".to_string());
    let read = ToolCall::ReadFile("/etc/passwd".to_string());
    assert_eq!(guarded_call(read, &Resolution::Resolved(comps("/etc/passwd")), &dirs), denied);
    let write = ToolCall::WriteFile { path: "".to_string(), content: "x".to_string() };
    assert_eq!(guarded_call(write, &Resolution::NoParent, &dirs), denied);
    let inside = ToolCall::ReadFile("/work/alpha/a.txt".to_string());
    assert_eq!(guarded_call(inside.clone(), &Resolution::Resolved(comps("/work/alpha/a.txt")), &dirs), inside);
    let exec = ToolCall::Exec("ls".to_string());
    assert_eq!(guarded_call(exec.clone(), &Resolution::Unresolved, &dirs), exec);
    let free = ToolCall::ReadFile("/etc/hosts".to_string());
    assert_eq!(guarded_call(free.clone(), &Resolution::Resolved(comps("/etc/hosts")), &Vec::new()), free);
}

#[test]
fn model_replies_are_read_from_the_body() {
    let tools = "{\"choices\":[{\"message\":{\"content\":null,\"tool_calls\":[{\"id\":\"1\"}]}}]}";
    assert_eq!(read_chat_reply(tools), LlmOutcome::Message { tool_calls: true, content: None });
    let empty_calls = "{\"choices\":[{\"message\":{\"content\":\"hi\",\"tool_calls\":[]}}]}";
    assert_eq!(read_chat_reply(empty_calls), LlmOutcome::Message { tool_calls: false, content: Some("hi".to_string()) });
    let plain = "{\"choices\":[{\"message\":{\"content\":\"done\"}}]}";
    assert_eq!(read_chat_reply(plain), LlmOutcome::Message { tool_calls: false, content: Some("done".to_string()) });
    assert_eq!(read_chat_reply("{}"), LlmOutcome::Message { tool_calls: false, content: None });
    assert!(matches!(read_chat_reply("<html>"), LlmOutcome::Unparsable(_)));
    assert_eq!(reply_outcome(Ok((Some(0), None))), LlmOutcome::Message { tool_calls: false, content: None });
    assert_eq!(reply_outcome(Ok((Some(2), None))), LlmOutcome::Message { tool_calls: true, content: None });
    assert_eq!(reply_outcome(Err("bad".to_string())), LlmOutcome::Unparsable("bad".to_string()));
}

#[test]
fn delegation_arguments_are_read() {
    assert_eq!(
        delegate_arguments("{\"agent_name\":\"bob\",\"task\":\"write\"}"),
        ("bob".to_string(), "write".to_string())
    );
    assert_eq!(delegate_arguments("{\"task\":\"write\"}"), (String::new(), "write".to_string()));
    assert_eq!(delegate_arguments("nonsense"), (String::new(), String::new()));
    assert_eq!(delegate_target(Some((Some("a".to_string()), None))), ("a".to_string(), String::new()));
    assert_eq!(delegate_target(None), (String::new(), String::new()));
}

#[test]
fn tool_calls_and_activity_from_parsed_arguments() {
    let args = ToolArgs { query: None, path: Some("a.txt".to_string()), content: None, command: None };
    assert_eq!(
        tool_call_from("write_file", "{}", Some(args.clone())),
        ToolCall::WriteFile { path: "a.txt".to_string(), content: String::new() }
    );
    assert_eq!(tool_call_from("read_file", "x", None), ToolCall::Reply("Invalid arguments: x".to_string()));
    assert_eq!(activity_from("write_file", Some(args.clone())), Some(("write_file".to_string(), "a.txt".to_string())));
    assert_eq!(activity_from("exec", Some(args)), None);
}

#[test]
fn agent_configs_are_repaired() {
    assert_eq!(agent_repair("{\"name\":\"x\"}", true), AgentRepair::Keep);
    assert_eq!(agent_repair("not json", false), AgentRepair::Reset);
    assert_eq!(agent_repair("[1, 2]", false), AgentRepair::Keep);
    assert_eq!(
        agent_repair("{\"name\":\"x\",\"model\":\"m\",\"tools\":[]}", false),
        AgentRepair::AddFields(vec!["api_url", "api_key", "system_prompt"])
    );
    let all: Vec<String> =
        ["name", "model", "api_url", "api_key", "system_prompt", "tools"].iter().map(|s| s.to_string()).collect();
    assert_eq!(plan_agent_repair(false, Some(Some(all))), AgentRepair::Keep);
    assert_eq!(plan_agent_repair(false, None), AgentRepair::Reset);
}

#[test]
fn history_keeps_the_last_user_message() {
    let msgs = vec![
        (Some("user".to_string()), Some("first".to_string())),
        (Some("assistant".to_string()), Some("answer".to_string())),
        (Some("user".to_string()), Some("second".to_string())),
        (Some("assistant".to_string()), None),
    ];
    assert_eq!(last_user_message(&msgs), "second");
    assert_eq!(last_user_message(&vec![(Some("user".to_string()), None)]), "");
    assert_eq!(last_user_message(&Vec::new()), "");
    assert_eq!(kept_reply(Some("ok".to_string())), "ok");
    assert_eq!(kept_reply(None), "(error)");
}
