use agent_kit::msg::{
    effective_session_id, inbox_message, inbox_scope, msg_send_scope, msg_sent_message,
    register_identity, registered_message, resolve_sender, sender_lookup,
    session_context_needs_rebuild, sort_inbox, upsert_session_context_sql, InboxRow,
};
use rusqlite::{Connection, OptionalExtension};

const SESSION_CONTEXT_DDL: &str = "\
CREATE TABLE IF NOT EXISTS session_context (
    claude_session_id TEXT NOT NULL,
    agent_id          TEXT NOT NULL DEFAULT '',
    task_session      TEXT NOT NULL,
    role              TEXT,
    updated_at        TEXT NOT NULL DEFAULT (datetime('now')),
    PRIMARY KEY (claude_session_id, agent_id)
);
";

fn upsert(conn: &Connection, sid: &str, agent: &str, scope: &str, role: Option<&str>, keep: bool) {
    conn.execute(
        upsert_session_context_sql(keep),
        (sid, agent, scope, role),
    )
    .unwrap();
}

fn role_of(conn: &Connection, sid: &str, agent: &str) -> Option<String> {
    conn.query_row(
        "SELECT role FROM session_context WHERE claude_session_id = ?1 AND agent_id = ?2",
        (sid, agent),
        |r| r.get::<_, Option<String>>(0),
    )
    .optional()
    .unwrap()
    .flatten()
}

/// Sender resolution as the server runs it: the lookup the library names,
/// then the library's verdict.
fn resolve(
    conn: &Connection,
    explicit: Option<String>,
    sid: Option<&str>,
    agent: Option<&str>,
    fallback: Option<String>,
) -> Option<String> {
    let role = sender_lookup(&explicit, sid, agent).and_then(|(s, a)| role_of(conn, &s, &a));
    resolve_sender(explicit, sid, agent, role, fallback)
}

#[test]
fn upsert_session_context_respects_keep_existing_role() {
    let conn = Connection::open_in_memory().unwrap();
    conn.execute_batch(SESSION_CONTEXT_DDL).unwrap();
    upsert(&conn, "sid", "aX", "sid", Some("researcher"), true);
    assert_eq!(role_of(&conn, "sid", "aX").as_deref(), Some("researcher"));
    upsert(&conn, "sid", "aX", "sid", Some("auto-name"), true);
    assert_eq!(role_of(&conn, "sid", "aX").as_deref(), Some("researcher"), "auto must not clobber");
    upsert(&conn, "sid", "aX", "sid", Some("renamed"), false);
    assert_eq!(role_of(&conn, "sid", "aX").as_deref(), Some("renamed"));
}

#[test]
fn msg_resolve_sender_uses_composite_identity_then_fallback() {
    let conn = Connection::open_in_memory().unwrap();
    conn.execute_batch(SESSION_CONTEXT_DDL).unwrap();
    conn.execute(
        "INSERT INTO session_context (claude_session_id, agent_id, task_session, role) \
         VALUES ('sid', '', 'sess', 'leader')",
        [],
    )
    .unwrap();
    conn.execute(
        "INSERT INTO session_context (claude_session_id, agent_id, task_session, role) \
         VALUES ('sid', 'agentX', 'sess', 'teammate')",
        [],
    )
    .unwrap();
    assert_eq!(
        resolve(&conn, Some("explicit".into()), Some("sid"), Some(""), Some("fb".into())),
        Some("explicit".into())
    );
    assert_eq!(
        resolve(&conn, None, Some("sid"), Some(""), Some("fb".into())),
        Some("leader".into())
    );
    assert_eq!(
        resolve(&conn, None, Some("sid"), Some("agentX"), Some("fb".into())),
        Some("teammate".into())
    );
    assert_eq!(resolve(&conn, None, Some("sid"), Some("unknown"), Some("fb".into())), None);
    assert_eq!(resolve(&conn, None, Some("sid"), None, Some("fb".into())), None);
    assert_eq!(resolve(&conn, None, None, None, Some("fb".into())), Some("fb".into()));
}

#[test]
fn session_context_rebuild_only_for_the_old_shape() {
    let cols = |v: &[&str]| v.iter().map(|s| s.to_string()).collect::<Vec<String>>();
    assert!(!session_context_needs_rebuild(&[]));
    assert!(session_context_needs_rebuild(&cols(&["claude_session_id", "role"])));
    assert!(!session_context_needs_rebuild(&cols(&["claude_session_id", "agent_id"])));
}

#[test]
fn session_scope_and_identity_checks() {
    assert_eq!(effective_session_id(Some("".into()), Some("env".into())), Some("env".into()));
    assert_eq!(effective_session_id(Some("p".into()), Some("env".into())), Some("p".into()));
    assert_eq!(effective_session_id(None, None), None);
    assert_eq!(
        register_identity(Some("s".into()), Some("".into()), "the host"),
        Ok(("s".to_string(), "".to_string()))
    );
    assert_eq!(
        register_identity(None, Some("".into()), "the host"),
        Err("No session id: pass session_id (the value from the [workslate] SessionStart/SubagentStart hint) or run under the host.".to_string())
    );
    assert!(register_identity(Some("s".into()), None, "h")
        .unwrap_err()
        .starts_with("workslate_register: agent_id is required"));
    assert_eq!(msg_send_scope(Some("s".into()), &None, &Some("me".into())), Ok("s".to_string()));
    assert!(msg_send_scope(Some("s".into()), &None, &None)
        .unwrap_err()
        .starts_with("workslate_msg_send: agent_id was omitted."));
    assert!(msg_send_scope(None, &Some("".into()), &None)
        .unwrap_err()
        .starts_with("No session id:"));
    assert_eq!(inbox_scope(Some("s".into())), Ok("s".to_string()));
    assert!(inbox_scope(None).is_err());
}

#[test]
fn result_texts() {
    assert_eq!(
        registered_message("lead", "s1", ""),
        "Registered as 'lead' (session id: s1, agent_id: <main>) — the inbox doorbell is armed; unread messages will be announced before your tool calls."
    );
    assert_eq!(
        registered_message("dev", "s1", "a7"),
        "Registered as 'dev' (session id: s1, agent_id: a7) — the inbox doorbell is armed; unread messages will be announced before your tool calls."
    );
    assert_eq!(msg_sent_message("dev", "hi"), "Message sent to 'dev': hi");
}

fn row(id: i64, sender: Option<&str>, subject: &str, body: &str, urgent: i64) -> InboxRow {
    (
        id,
        sender.map(str::to_string),
        subject.to_string(),
        body.to_string(),
        urgent,
        "2026-01-01 00:00:00".to_string(),
    )
}

#[test]
fn inbox_is_listed_oldest_first() {
    let msgs = vec![row(5, None, "b", "second", 1), row(2, Some("lead"), "a", "first", 0)];
    let sorted = sort_inbox(msgs.clone());
    assert_eq!(sorted.iter().map(|m| m.0).collect::<Vec<_>>(), vec![2, 5]);
    assert_eq!(
        inbox_message("dev", msgs),
        "2 unread message(s) for 'dev':\n\n[a]  from lead  (2026-01-01 00:00:00)\nfirst\n\n🚨 [b]  from unknown  (2026-01-01 00:00:00)\nsecond\n"
    );
    assert_eq!(inbox_message("dev", Vec::new()), "No unread messages for 'dev'");
}
