use openco::text::is_white_space;
use openco::config::{Config, ModelEntry, ProjectAccess, WorkspaceAccess};
use openco::tasks::{add_task, delete_task, task_id, title_is_blank, update_task, TaskBoard};
use openco::workspace::{check_access, get_agent_projects, grant_access, revoke_access, validate_project_name};

#[test]
fn task_ids_fold_the_millisecond_count() {
    // 0x0001_2345: low half 0x2345, next half 0x0001 -> 0x2344
    assert_eq!(task_id(0x1_2345), "task_74565_2344");
    assert_eq!(task_id(0), "task_0_0000");
}

#[test]
fn add_update_delete_tasks() {
    let mut board = TaskBoard { tasks: vec![] };
    let t = add_task(&mut board, "Write docs".to_string(), "All of them".to_string());
    assert!(t.id.starts_with("task_"));
    assert_eq!(t.status, "in_progress");
    assert_eq!(t.progress, 0);
    assert!(t.agents.is_empty());
    assert_eq!(board.tasks.len(), 1);
    let id = t.id.clone();
    assert!(update_task(&mut board, &id, None, None, Some("done".to_string()), Some(vec!["bob".to_string()]), Some(150)));
    assert_eq!(board.tasks[0].progress, 100);
    assert_eq!(board.tasks[0].status, "done");
    assert_eq!(board.tasks[0].title, "Write docs");
    assert_eq!(board.tasks[0].agents, vec!["bob".to_string()]);
    assert!(update_task(&mut board, &id, None, None, None, None, Some(40)));
    assert_eq!(board.tasks[0].progress, 40);
    assert!(!update_task(&mut board, "missing", Some("x".to_string()), None, None, None, None));
    assert!(!delete_task(&mut board, "missing"));
    assert!(delete_task(&mut board, &id));
    assert!(board.tasks.is_empty());
}

#[test]
fn blank_titles() {
    assert!(title_is_blank(""));
    assert!(title_is_blank("  \t\n"));
    assert!(!title_is_blank(" a "));
}

fn access() -> WorkspaceAccess {
    WorkspaceAccess { projects: vec![] }
}

#[test]
fn grant_check_revoke() {
    let mut a = access();
    grant_access(&mut a, "web", "alice");
    grant_access(&mut a, "web", "bob");
    grant_access(&mut a, "web", "alice");
    grant_access(&mut a, "api", "alice");
    assert_eq!(a.projects.len(), 2);
    assert_eq!(a.projects[0].1.agents, vec!["alice".to_string(), "bob".to_string()]);
    assert!(check_access(&a, "web", "bob"));
    assert!(!check_access(&a, "api", "bob"));
    assert!(!check_access(&a, "nope", "alice"));
    assert_eq!(get_agent_projects(&a, "alice"), vec!["web".to_string(), "api".to_string()]);
    revoke_access(&mut a, "web", "alice");
    assert!(!check_access(&a, "web", "alice"));
    assert!(check_access(&a, "web", "bob"));
    revoke_access(&mut a, "api", "alice");
    assert_eq!(a.projects.len(), 1);
    assert!(get_agent_projects(&a, "alice").is_empty());
    revoke_access(&mut a, "nope", "alice");
    assert_eq!(a.projects.len(), 1);
}

#[test]
fn revoke_removes_every_copy_of_the_agent() {
    let mut a = WorkspaceAccess {
        projects: vec![(
            "p".to_string(),
            ProjectAccess { agents: vec!["x".to_string(), "y".to_string(), "x".to_string()] },
        )],
    };
    revoke_access(&mut a, "p", "x");
    assert_eq!(a.projects[0].1.agents, vec!["y".to_string()]);
}

#[test]
fn project_names() {
    assert_eq!(validate_project_name("  demo  "), Ok("demo".to_string()));
    assert_eq!(validate_project_name("   "), Err("name is required".to_string()));
    assert_eq!(validate_project_name("a/b"), Err("invalid project name".to_string()));
    assert_eq!(validate_project_name("a\\b"), Err("invalid project name".to_string()));
    assert_eq!(validate_project_name(".."), Err("invalid project name".to_string()));
    assert_eq!(validate_project_name("v1.2"), Ok("v1.2".to_string()));
}

fn model(name: &str, url: &str) -> ModelEntry {
    ModelEntry {
        name: name.to_string(),
        provider: "p".to_string(),
        api_url: url.to_string(),
        api_key: "k".to_string(),
        model: "m".to_string(),
    }
}

#[test]
fn resolve_model_by_name_or_default() {
    let cfg = Config {
        models: vec![model("a", "u1"), model("b", "u2"), model("a", "u3")],
        default_model: Some("b".to_string()),
    };
    assert_eq!(cfg.resolve_model(Some("a")).unwrap().api_url, "u1");
    assert_eq!(cfg.resolve_model(None).unwrap().api_url, "u2");
    assert!(cfg.resolve_model(Some("c")).is_none());
    let no_default = Config { models: vec![model("a", "u1")], default_model: None };
    assert!(no_default.resolve_model(None).is_none());
}

#[test]
fn grant_then_revoke_restores_access() {
    let before = WorkspaceAccess {
        projects: vec![("web".to_string(), ProjectAccess { agents: vec!["bob".to_string()] })],
    };
    let mut a = before.clone();
    grant_access(&mut a, "web", "carol");
    revoke_access(&mut a, "web", "carol");
    assert_eq!(a, before);
    grant_access(&mut a, "new", "carol");
    revoke_access(&mut a, "new", "carol");
    assert_eq!(a, before);
}

#[test]
fn empty_defaults() {
    assert!(TaskBoard::default().tasks.is_empty());
    assert!(WorkspaceAccess::default().projects.is_empty());
    let cfg = Config::default();
    assert!(cfg.models.is_empty());
    assert!(cfg.resolve_model(None).is_none());
}

#[test]
fn white_space_matches_the_unicode_property() {
    for code in 0u32..=0x10FFFF {
        if let Some(c) = char::from_u32(code) {
            assert_eq!(is_white_space(c), c.is_whitespace(), "U+{:04X}", code);
        }
    }
    assert!(title_is_blank("\u{3000}\u{2028} "));
    assert!(!title_is_blank("\u{200b}"));
}
