use openco::config::{AgentConfig, OrgChart, Position};
use openco::org::{
    add_agent_to_position, add_position, build_agent_position_index, build_system_prompt, find_agent_position, find_position,
    get_subordinates, group_display, position_id, remove_position, update_position,
};

fn pos(id: &str, title: &str, parent: Option<&str>, agents: &[&str], prompt: &str) -> Position {
    Position {
        id: id.to_string(),
        title: title.to_string(),
        parent_id: parent.map(|p| p.to_string()),
        agents: agents.iter().map(|a| a.to_string()).collect(),
        system_prompt: prompt.to_string(),
    }
}

fn agent(name: &str, prompt: &str) -> AgentConfig {
    AgentConfig {
        name: name.to_string(),
        model: String::new(),
        api_url: String::new(),
        api_key: String::new(),
        system_prompt: prompt.to_string(),
        tools: vec![],
        model_name: None,
    }
}

fn sample() -> OrgChart {
    OrgChart {
        positions: vec![
            pos("ceo", "CEO", None, &["alice"], "Lead."),
            pos("cto", "CTO", Some("ceo"), &["bob"], ""),
            pos("dev", "Developer", Some("cto"), &["carol", "dave"], ""),
            pos("qa", "QA", Some("cto"), &[], ""),
        ],
    }
}

#[test]
fn position_ids_have_millis_and_hex_suffix() {
    assert_eq!(position_id(1700000000123, 0x1_2345), "pos_1700000000123_2345");
    assert_eq!(position_id(5, 0xa), "pos_5_000a");
}

#[test]
fn add_position_appends_an_empty_position() {
    let mut org = sample();
    let p = add_position(&mut org, "Designer".to_string(), Some("ceo".to_string()));
    assert!(p.id.starts_with("pos_"));
    assert_eq!(p.title, "Designer");
    assert_eq!(p.parent_id.as_deref(), Some("ceo"));
    assert!(p.agents.is_empty() && p.system_prompt.is_empty());
    assert_eq!(org.positions.len(), 5);
    assert_eq!(org.positions[4].id, p.id);
    assert_eq!(find_position(&org, &p.id).unwrap().title, "Designer");
}

#[test]
fn remove_position_reparents_children() {
    let mut org = sample();
    assert!(remove_position(&mut org, "cto").is_ok());
    assert_eq!(org.positions.len(), 3);
    assert!(find_position(&org, "cto").is_none());
    assert_eq!(find_position(&org, "dev").unwrap().parent_id.as_deref(), Some("ceo"));
    assert_eq!(find_position(&org, "qa").unwrap().parent_id.as_deref(), Some("ceo"));
    assert_eq!(find_position(&org, "ceo").unwrap().parent_id, None);
}

#[test]
fn remove_top_position_makes_children_top() {
    let mut org = sample();
    remove_position(&mut org, "ceo").unwrap();
    assert_eq!(find_position(&org, "cto").unwrap().parent_id, None);
}

#[test]
fn remove_unknown_position_fails() {
    let mut org = sample();
    assert_eq!(remove_position(&mut org, "nope"), Err("Position not found".to_string()));
    assert_eq!(org.positions.len(), 4);
}

#[test]
fn update_position_changes_given_fields() {
    let mut org = sample();
    update_position(&mut org, "qa", Some("Tester".to_string()), Some(None), Some(vec!["erin".to_string()]), None)
        .unwrap();
    let p = find_position(&org, "qa").unwrap();
    assert_eq!(p.title, "Tester");
    assert_eq!(p.parent_id, None);
    assert_eq!(p.agents, vec!["erin".to_string()]);
    assert_eq!(p.system_prompt, "");
    assert_eq!(
        update_position(&mut org, "zzz", None, None, None, None),
        Err("Position not found".to_string())
    );
}

#[test]
fn subordinates_and_agent_lookup() {
    let org = sample();
    let subs = get_subordinates(&org, "cto");
    assert_eq!(subs.iter().map(|p| p.id.as_str()).collect::<Vec<_>>(), vec!["dev", "qa"]);
    assert!(get_subordinates(&org, "qa").is_empty());
    assert_eq!(find_agent_position(&org, "dave").unwrap().id, "dev");
    assert!(find_agent_position(&org, "zed").is_none());
    assert_eq!(group_display(&subs), "carol、dave");
    assert_eq!(group_display(&vec![pos("x", "X", None, &[], ""), pos("y", "Y", None, &[], "")]), "X、Y");
}

#[test]
fn agent_index_keeps_first_position() {
    let mut org = sample();
    org.positions.push(pos("dup", "Dup", None, &["bob", "frank"], ""));
    let ix = build_agent_position_index(&org);
    let keys: Vec<&str> = ix.iter().map(|(k, _)| k.as_str()).collect();
    assert_eq!(keys, vec!["alice", "bob", "carol", "dave", "frank"]);
    let bob = ix.iter().find(|(k, _)| k.as_str() == "bob").unwrap();
    assert_eq!(bob.1.id, "cto");
    for (name, p) in &ix {
        assert_eq!(find_agent_position(&org, name).unwrap().id, p.id);
    }
}

#[test]
fn system_prompt_of_a_middle_manager() {
    let org = sample();
    let cto = find_position(&org, "cto").unwrap();
    let prompt = build_system_prompt(&org, &cto, &agent("bob", "Be concise."));
    assert_eq!(
        prompt,
        "【职位】你是公司的CTO。\n\n你的上级是：alice。\n\n你的下属有：carol、dave。你可以使用delegate工具向他们分配任务。\n\n【个人设定】Be concise."
    );
}

#[test]
fn system_prompt_of_the_top_position() {
    let org = sample();
    let ceo = find_position(&org, "ceo").unwrap();
    let prompt = build_system_prompt(&org, &ceo, &agent("alice", ""));
    assert_eq!(
        prompt,
        "【职位】你是公司的CEO。\n\n你是最高管理者，直接向用户（公司所有者）汇报。\n\n你的下属有：bob。你可以使用delegate工具向他们分配任务。\n\n【职位要求】Lead."
    );
}

#[test]
fn system_prompt_names_unstaffed_superior_by_title() {
    let org = sample();
    let mut intern = pos("intern", "Intern", Some("qa"), &[], "");
    let p = build_system_prompt(&org, &intern, &agent("x", ""));
    assert_eq!(p, "【职位】你是公司的Intern。\n\n你的上级是：QA。");
    intern.parent_id = Some("missing".to_string());
    let p = build_system_prompt(&org, &intern, &agent("x", ""));
    assert_eq!(p, "【职位】你是公司的Intern。");
}

#[test]
fn update_position_refuses_loops() {
    let mut org = sample();
    let before = org.clone();
    let cycle = Err("Parent would create a cycle".to_string());
    assert_eq!(update_position(&mut org, "cto", None, Some(Some("cto".to_string())), None, None), cycle);
    assert_eq!(update_position(&mut org, "cto", None, Some(Some("dev".to_string())), None, None), cycle);
    assert_eq!(update_position(&mut org, "ceo", Some("Boss".to_string()), Some(Some("qa".to_string())), None, None), cycle);
    assert_eq!(org, before);
    let mut single = OrgChart { positions: vec![pos("solo", "Solo", None, &[], "")] };
    assert_eq!(update_position(&mut single, "solo", None, Some(Some("solo".to_string())), None, None), cycle);
    assert_eq!(single.positions[0].parent_id, None);
}

#[test]
fn update_position_moves_within_the_tree() {
    let mut org = sample();
    update_position(&mut org, "qa", None, Some(Some("ceo".to_string())), None, None).unwrap();
    assert_eq!(find_position(&org, "qa").unwrap().parent_id.as_deref(), Some("ceo"));
    update_position(&mut org, "dev", None, Some(Some("qa".to_string())), None, None).unwrap();
    assert_eq!(find_position(&org, "dev").unwrap().parent_id.as_deref(), Some("qa"));
    update_position(&mut org, "ceo", None, Some(Some("board".to_string())), None, None).unwrap();
    assert_eq!(find_position(&org, "ceo").unwrap().parent_id.as_deref(), Some("board"));
}

#[test]
fn added_positions_get_unused_ids() {
    let mut org = sample();
    let a = add_position(&mut org, "A".to_string(), None);
    let b = add_position(&mut org, "B".to_string(), Some(a.id.clone()));
    assert_ne!(a.id, b.id);
    for p in &sample().positions {
        assert_ne!(p.id, a.id);
        assert_ne!(p.id, b.id);
    }
    assert!(a.id.starts_with("pos_") && b.id.starts_with("pos_"));
}

#[test]
fn agents_join_positions() {
    let mut org = sample();
    let p = add_agent_to_position(&mut org, "qa", "erin".to_string()).unwrap();
    assert_eq!(p.agents, vec!["erin".to_string()]);
    assert_eq!(find_position(&org, "qa").unwrap(), p);
    let d = add_agent_to_position(&mut org, "dev", "frank".to_string()).unwrap();
    assert_eq!(d.agents, vec!["carol".to_string(), "dave".to_string(), "frank".to_string()]);
    let before = org.clone();
    assert!(add_agent_to_position(&mut org, "nope", "x".to_string()).is_none());
    assert_eq!(org, before);
}
