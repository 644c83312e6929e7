use agent_kit::task::{
    blocked_status, needs_source_hash_column, parse_depends_on, recomputed_status, render_task_footer,
    resolve_sender, serialize_depends_on, task_from_row, task_ids_from_strings, Namespace, Task,
    TaskId, TaskStatus,
};
use rusqlite::{Connection, OptionalExtension};

const SESSION_CONTEXT_DDL: &str = "\
CREATE TABLE IF NOT EXISTS session_context (
    claude_session_id TEXT NOT NULL,
    agent_id          TEXT NOT NULL DEFAULT '',
    task_session      TEXT NOT NULL,
    role              TEXT,
    updated_at        TEXT NOT NULL DEFAULT (datetime('now')),
    PRIMARY KEY (claude_session_id, agent_id)
);
";

fn tid(ns: Namespace, id: u32) -> TaskId {
    TaskId { namespace: ns, id }
}

fn task(ns: Namespace, id: u32, name: &str, status: TaskStatus) -> Task {
    Task {
        namespace: ns,
        id,
        name: name.to_string(),
        description: None,
        status,
        owner: None,
        depends_on: Vec::new(),
    }
}

/// The role registered for `(sid, agent_id)`, looked up the way the server does.
fn registered(conn: &Connection, sid: &str, agent_id: &str) -> Option<String> {
    conn.query_row(
        "SELECT role FROM session_context WHERE claude_session_id = ?1 AND agent_id = ?2",
        (sid, agent_id),
        |r| r.get::<_, Option<String>>(0),
    )
    .optional()
    .unwrap()
    .flatten()
}

fn resolve(
    conn: &Connection,
    explicit: Option<String>,
    sid: Option<&str>,
    agent_id: &str,
    fallback: Option<String>,
) -> Option<String> {
    let role = match (&explicit, sid) {
        (None, Some(s)) => registered(conn, s, agent_id),
        _ => None,
    };
    resolve_sender(explicit, sid, agent_id, role, fallback)
}

#[test]
fn task_resolve_sender_uses_composite_identity_then_fallback() {
    let conn = Connection::open_in_memory().unwrap();
    conn.execute_batch(SESSION_CONTEXT_DDL).unwrap();
    conn.execute(
        "INSERT INTO session_context (claude_session_id, agent_id, task_session, role) \
         VALUES ('sid', '', 'sess', 'leader')",
        [],
    )
    .unwrap();
    conn.execute(
        "INSERT INTO session_context (claude_session_id, agent_id, task_session, role) \
         VALUES ('sid', 'agentX', 'sess', 'teammate')",
        [],
    )
    .unwrap();
    assert_eq!(
        resolve(&conn, Some("explicit".into()), Some("sid"), "", Some("fb".into())),
        Some("explicit".into())
    );
    assert_eq!(resolve(&conn, None, Some("sid"), "", Some("fb".into())), Some("leader".into()));
    assert_eq!(
        resolve(&conn, None, Some("sid"), "agentX", Some("fb".into())),
        Some("teammate".into())
    );
    assert_eq!(resolve(&conn, None, Some("sid"), "unknown", Some("fb".into())), None);
    assert_eq!(resolve(&conn, None, None, "", Some("fb".into())), Some("fb".into()));
}

#[test]
fn namespaces_and_ids_parse_and_display() {
    assert_eq!(Namespace::parse("ws"), Ok(Namespace::Ws));
    assert_eq!(Namespace::parse("team"), Ok(Namespace::Team));
    assert_eq!(
        Namespace::parse("Team"),
        Err("Unknown namespace 'Team'. Must be 'ws' or 'team'".to_string())
    );
    assert_eq!(Namespace::Team.as_str(), "team");
    assert_eq!(TaskId::parse("7"), Ok(tid(Namespace::Ws, 7)));
    assert_eq!(TaskId::parse("team:12"), Ok(tid(Namespace::Team, 12)));
    assert_eq!(TaskId::parse("+3"), Ok(tid(Namespace::Ws, 3)));
    assert_eq!(
        TaskId::parse("x"),
        Err("Invalid task ID: 'x'. Use N, ws:N, or team:N".to_string())
    );
    assert_eq!(
        TaskId::parse("ws:-1"),
        Err("Invalid task ID number: '-1'".to_string())
    );
    assert_eq!(
        TaskId::parse("ops:1"),
        Err("Unknown namespace 'ops'. Must be 'ws' or 'team'".to_string())
    );
    assert_eq!(TaskId::parse("4294967296").is_err(), true);
    assert_eq!(tid(Namespace::Team, 4).display(), "team:4");
    assert_eq!(task(Namespace::Ws, 9, "n", TaskStatus::Done).display_id(), "ws:9");
    for s in ["ws:0", "team:4294967295"] {
        assert_eq!(TaskId::parse(s).unwrap().display(), s);
    }
}

#[test]
fn statuses_parse() {
    assert_eq!(TaskStatus::parse("in_progress"), Ok(TaskStatus::InProgress));
    assert_eq!(TaskStatus::parse("blocked"), Ok(TaskStatus::Blocked));
    assert_eq!(
        TaskStatus::parse("Done"),
        Err("Invalid status 'Done'. Must be: pending, in_progress, done, blocked".to_string())
    );
}

#[test]
fn dependency_lists_round_trip_as_json() {
    let deps = vec![tid(Namespace::Ws, 1), tid(Namespace::Team, 2)];
    let json = serialize_depends_on(&deps);
    assert_eq!(json, r#"["ws:1","team:2"]"#);
    assert_eq!(parse_depends_on(&json), deps);
    // unreadable entries are skipped; unreadable JSON is an empty list
    assert_eq!(parse_depends_on(r#"["3", "bogus", "team:x"]"#), vec![tid(Namespace::Ws, 3)]);
    assert_eq!(parse_depends_on("not json"), Vec::<TaskId>::new());
    assert_eq!(serialize_depends_on(&[]), "[]");
    assert_eq!(
        task_ids_from_strings(&["team:1".to_string(), "?".to_string()]),
        vec![tid(Namespace::Team, 1)]
    );
}

#[test]
fn blocked_status_follows_dependencies() {
    let deps = vec![tid(Namespace::Ws, 1), tid(Namespace::Team, 2)];
    assert_eq!(recomputed_status(&deps, &["ws:1".to_string()]), "blocked");
    assert_eq!(
        recomputed_status(&deps, &["team:2".to_string(), "ws:1".to_string()]),
        "pending"
    );
    assert_eq!(recomputed_status(&[], &[]), "pending");
    assert_eq!(blocked_status(&deps, &[tid(Namespace::Ws, 1)]), TaskStatus::Blocked);
    assert_eq!(
        blocked_status(&deps, &[tid(Namespace::Team, 2), tid(Namespace::Ws, 1), tid(Namespace::Ws, 9)]),
        TaskStatus::Pending
    );
    assert_eq!(blocked_status(&[], &[]), TaskStatus::Pending);
    // ws:2 and team:2 are different tasks
    assert_eq!(blocked_status(&[tid(Namespace::Team, 2)], &[tid(Namespace::Ws, 2)]), TaskStatus::Blocked);
}

#[test]
fn rows_read_with_fallbacks() {
    let t = task_from_row("nope", 5, "n".into(), None, "weird", Some("o".into()), "[\"ws:1\"]");
    assert_eq!(t.namespace, Namespace::Ws);
    assert_eq!(t.status, TaskStatus::Pending);
    assert_eq!(t.depends_on, vec![tid(Namespace::Ws, 1)]);
    assert_eq!(t.owner.as_deref(), Some("o"));
    assert!(needs_source_hash_column(&["name".to_string()]));
    assert!(!needs_source_hash_column(&["source_hash".to_string()]));
}

#[test]
fn footer_is_empty_without_tasks_or_buffers() {
    assert_eq!(render_task_footer(&[], "s1", &[]), "");
}

#[test]
fn footer_lists_tasks_by_status() {
    let mut blocked = task(Namespace::Team, 3, "deploy", TaskStatus::Blocked);
    blocked.depends_on = vec![tid(Namespace::Ws, 2)];
    let mut doing = task(Namespace::Ws, 2, "build", TaskStatus::InProgress);
    doing.owner = Some("ann".into());
    let tasks = vec![
        task(Namespace::Ws, 1, "plan", TaskStatus::Done),
        doing,
        blocked,
    ];
    let footer = render_task_footer(&tasks, "s1", &[]);
    let expected = [
        "── Tasks (s1) ws:[1/2] team:[0/1] ──────────────────────────",
        "  ✓ ws:1. plan",
        "  → ws:2.build   (owner: ann) ← in_progress",
        "    team:3.deploy  (blocked by: ws:2)",
        "──────────────────────────────────────────",
    ]
    .join("\n");
    assert_eq!(footer, expected);
}

#[test]
fn footer_summarises_done_and_caps_the_list() {
    let mut tasks = Vec::new();
    for i in 1..=3 {
        tasks.push(task(Namespace::Ws, i, "d", TaskStatus::Done));
    }
    for i in 4..=8 {
        tasks.push(task(Namespace::Ws, i, "p", TaskStatus::Pending));
    }
    let names: Vec<String> = ["f", "b", "a", "e", "d", "c"].iter().map(|s| s.to_string()).collect();
    let footer = render_task_footer(&tasks, "s", &names);
    let expected = [
        "── Tasks (s) ws:[3/8] ──────────────────────────",
        "  ✓ 3 ws done",
        "    ws:4.p",
        "    ws:5.p",
        "    ws:6.p",
        "    ... and 2 more",
        "── Buffers: 6 staged (a, b, c, d, e, +1 more) ──",
        "──────────────────────────────────────────",
    ]
    .join("\n");
    assert_eq!(footer, expected);
}

#[test]
fn footer_ignores_buffer_name_order() {
    let tasks = vec![task(Namespace::Ws, 1, "plan", TaskStatus::Pending)];
    let a: Vec<String> = ["b", "a", "c"].iter().map(|s| s.to_string()).collect();
    let b: Vec<String> = ["c", "b", "a"].iter().map(|s| s.to_string()).collect();
    assert_eq!(render_task_footer(&tasks, "s", &a), render_task_footer(&tasks, "s", &b));
    assert!(render_task_footer(&tasks, "s", &a).contains("── Buffers: 3 staged (a, b, c) ──"));
}
