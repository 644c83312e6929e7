use agent_kit::hooks::{
    entry_group, inbox_hook_reply, install_events, uninstall_events, EventEntry,
    event_name, hook_is_ours, hook_step, inbox_doorbell, install_group, install_plan, read_hook_input, HookStep, parse_hook_mode, plan_bridge,
    session_start_context, stop_verify_prompt, strip_our_hooks, subagent_name,
    subagent_start_context, truncate_chars, ws_hook_events, BridgeRecipient, HookGroup,
    HookHandler, HookMode, STOP_VERIFY_MARKER,
};
use serde_json::Value;

fn args(v: &[&str]) -> Vec<String> {
    v.iter().map(|s| s.to_string()).collect()
}

/// The string value of `key` in a JSON object.
fn field<'a>(v: &'a Value, key: &str) -> Option<&'a str> {
    v.get(key).and_then(Value::as_str)
}

fn parse(text: &str) -> Value {
    serde_json::from_str(text).unwrap()
}

fn subagent_name_of(payload: &str) -> Option<String> {
    let v = parse(payload);
    subagent_name(field(&v, "agent_name"), field(&v, "name"))
}

fn is_ours(entry: &str) -> bool {
    let v = parse(entry);
    hook_is_ours(field(&v, "command"), field(&v, "prompt"))
}

fn handler(command: &str) -> HookHandler<String> {
    HookHandler { command: Some(command.to_string()), prompt: None, raw: command.to_string() }
}

#[test]
fn parse_hook_mode_detects_flags() {
    assert!(matches!(
        parse_hook_mode(&args(&["prog", "--hook=inbox"])),
        Some(HookMode::Inbox)
    ));
    assert!(matches!(
        parse_hook_mode(&args(&["--hook=send-bridge"])),
        Some(HookMode::SendBridge)
    ));
    assert!(matches!(
        parse_hook_mode(&args(&["--hook=session-start"])),
        Some(HookMode::SessionStart)
    ));
    assert!(matches!(
        parse_hook_mode(&args(&["--hook=subagent-start"])),
        Some(HookMode::SubagentStart)
    ));
    // A stale settings.json may still invoke --hook=task; it must be
    // recognized (and quietly no-op) rather than fall through to a server start.
    assert!(matches!(
        parse_hook_mode(&args(&["--hook=task"])),
        Some(HookMode::LegacyTask)
    ));
    assert!(parse_hook_mode(&args(&["--something-else"])).is_none());
    assert!(parse_hook_mode(&[]).is_none());
}

#[test]
fn event_names_route_hooks_to_the_right_events() {
    assert_eq!(event_name(HookMode::Inbox), "PreToolUse");
    assert_eq!(event_name(HookMode::SendBridge), "PostToolUse");
    assert_eq!(event_name(HookMode::LegacyTask), "PostToolUse");
    assert_eq!(event_name(HookMode::SessionStart), "SessionStart");
    assert_eq!(event_name(HookMode::SubagentStart), "SubagentStart");
}

#[test]
fn subagent_name_reads_name_fields_only() {
    assert_eq!(
        subagent_name_of(r#"{"agent_name": "researcher"}"#),
        Some("researcher".to_string())
    );
    assert_eq!(
        subagent_name_of(r#"{"name": " backend-dev "}"#),
        Some("backend-dev".to_string())
    );
    // agent_type is a capability class, not an identity — never a role.
    assert_eq!(subagent_name_of(r#"{"agent_type": "general-purpose"}"#), None);
    assert_eq!(subagent_name_of(r#"{"agent_name": ""}"#), None);
    assert_eq!(subagent_name_of("{}"), None);
}

#[test]
fn hook_is_ours_matches_only_workslate_commands() {
    let ours = r#"{ "type": "command", "command": "/abs/path/workslate --hook=send-bridge" }"#;
    let legacy = r#"{ "type": "command", "command": "/abs/path/workslate --hook=task" }"#;
    let theirs = r#"{ "type": "command", "command": "/usr/bin/prettier --write" }"#;
    assert!(is_ours(ours));
    assert!(
        is_ours(legacy),
        "older task footer entries must still be recognized so reinstall removes them"
    );
    assert!(!is_ours(theirs));
}

#[test]
fn strip_our_hooks_preserves_user_hooks_in_shared_group() {
    let mut pre = vec![HookGroup {
        handlers: Some(vec![
            handler("/abs/workslate --hook=inbox"),
            handler("/usr/bin/prettier"),
        ]),
        raw: "*",
    }];
    strip_our_hooks(&mut pre);
    assert_eq!(pre.len(), 1);
    let handlers = pre[0].handlers.as_ref().unwrap();
    assert_eq!(handlers.len(), 1);
    assert_eq!(handlers[0].command.as_deref(), Some("/usr/bin/prettier"));
}

#[test]
fn strip_our_hooks_drops_group_when_only_ours() {
    let mut pre = vec![HookGroup {
        handlers: Some(vec![handler("/abs/workslate --hook=inbox")]),
        raw: "*",
    }];
    strip_our_hooks(&mut pre);
    assert!(pre.is_empty());
}

#[test]
fn hook_is_ours_matches_stop_verify_agent_prompt_entry() {
    // Agent entries have a `prompt` field, not `command`.
    let prompt = stop_verify_prompt();
    assert!(hook_is_ours(None, Some(prompt.as_str())));
    let theirs = r#"{ "type": "agent", "prompt": "Some unrelated user-authored Stop hook prompt.", "timeout": 60 }"#;
    assert!(!is_ours(theirs));
}

#[test]
fn stop_verify_block_reinstall_replaces_and_uninstall_removes() {
    let prompt = stop_verify_prompt();
    let verify = || HookGroup {
        handlers: Some(vec![HookHandler {
            command: None,
            prompt: Some(prompt.clone()),
            raw: "agent".to_string(),
        }]),
        raw: "",
    };
    let mut stop: Vec<HookGroup<&str, String>> = Vec::new();
    for _ in 0..2 {
        install_group(&mut stop, verify());
    }
    assert_eq!(stop.len(), 1, "reinstall must replace, not duplicate");
    assert!(ws_hook_events().contains(&"Stop"));
    strip_our_hooks(&mut stop);
    assert!(stop.is_empty(), "uninstall must remove the Stop verify hook");
}

#[test]
fn groups_without_a_hooks_array_are_kept() {
    let mut groups = vec![
        HookGroup { handlers: None, raw: "odd" },
        HookGroup { handlers: Some(vec![handler("/usr/bin/true")]), raw: "user" },
    ];
    strip_our_hooks(&mut groups);
    assert_eq!(groups.len(), 2);
    assert_eq!(groups[0].raw, "odd");
}

#[test]
fn installed_entries_are_recognized_as_ours() {
    let plan = install_plan("/opt/bin/workslate");
    assert!(!plan.is_empty());
    for e in &plan {
        assert!(hook_is_ours(e.command.as_deref(), e.prompt.as_deref()));
        assert!(ws_hook_events().contains(&e.event));
    }
    assert!(plan.iter().any(|e| e.event == "Stop" && e.prompt.is_some()));
    assert!(stop_verify_prompt().starts_with(STOP_VERIFY_MARKER));
}

#[test]
fn hint_texts() {
    assert_eq!(
        session_start_context("s1"),
        "[workslate] session_id=`s1` — to enable the mid-turn message doorbell, pass session_id=\"s1\" (and agent_id=\"\") to workslate_register."
    );
    assert_eq!(
        subagent_start_context("a1", "s1", Some("researcher")),
        "[workslate] agent_id=`a1` session_id=`s1` — you are a subagent, auto-registered for team messaging as role \"researcher\". Unread messages will be announced by the inbox doorbell; drain them with workslate_inbox_read(role=\"researcher\", session_id=\"s1\"). To use a different role, call workslate_register with BOTH ids."
    );
    assert_eq!(
        subagent_start_context("a1", "s1", None),
        "[workslate] agent_id=`a1` session_id=`s1` — you are a subagent; to enable the mid-turn message doorbell, pass BOTH agent_id=\"a1\" and session_id=\"s1\" to workslate_register."
    );
}

#[test]
fn doorbell_rings_only_for_a_role_with_unread_mail() {
    let rows = vec![("hello".to_string(), 0i64), ("older".to_string(), 1i64)];
    assert_eq!(inbox_doorbell(None, &rows), None);
    assert_eq!(inbox_doorbell(Some("lead"), &[]), None);
    assert_eq!(
        inbox_doorbell(Some("lead"), &rows),
        Some("📨 🚨 URGENT — 2 unread message(s) for role \"lead\". Latest: \"hello\". Read now with workslate_inbox_read(role=\"lead\").".to_string())
    );
    assert_eq!(
        inbox_doorbell(Some("lead"), &rows[..1]),
        Some("📨 1 unread message(s) for role \"lead\". Latest: \"hello\". Read now with workslate_inbox_read(role=\"lead\").".to_string())
    );
}

#[test]
fn truncation_squashes_whitespace_and_cuts_by_characters() {
    assert_eq!(truncate_chars("  a \n\t b  ", 80), "a b");
    assert_eq!(truncate_chars("ééééé", 3), "ééé…");
    assert_eq!(truncate_chars("abc", 3), "abc");
}

#[test]
fn bridge_mirrors_plain_sends_only() {
    let p = plan_bridge(Some(" researcher "), Some("start on task #1"), Some("assign task 1")).unwrap();
    assert!(matches!(p.recipient, BridgeRecipient::Role(ref r) if r == "researcher"));
    assert_eq!(p.subject, "assign task 1");
    assert_eq!(p.body, "start on task #1");
    // a protocol object has no string message: nothing is mirrored
    assert!(plan_bridge(Some("researcher"), None, None).is_none());
    assert!(plan_bridge(Some("  "), Some("x"), None).is_none());
    assert!(plan_bridge(None, Some("x"), None).is_none());
    // "main" goes to the leader; a blank summary falls back to the body
    let p = plan_bridge(Some("main"), Some("task 1 complete, moving to task 2"), Some(" ")).unwrap();
    assert!(matches!(p.recipient, BridgeRecipient::Leader));
    assert_eq!(p.subject, "task 1 complete, moving to task 2");
}

#[test]
fn hook_input_is_read_from_json() {
    let i = read_hook_input(
        r#"{"session_id": "s1", "agent_id": 7, "tool_input": {"to": "dev", "message": {"type": "x"}, "summary": "hi"}}"#,
    )
    .unwrap();
    assert_eq!(i.session_id.as_deref(), Some("s1"));
    assert_eq!(i.agent_id, None, "a non-string field reads as absent");
    assert_eq!(i.to.as_deref(), Some("dev"));
    assert_eq!(i.message, None);
    assert_eq!(i.summary.as_deref(), Some("hi"));
    assert!(read_hook_input("not json").is_none());
}

#[test]
fn hook_routing() {
    let input = |t: &str| read_hook_input(t).unwrap();
    let no_session = input(r#"{"session_id": "", "agent_name": "dev"}"#);
    for mode in [HookMode::SessionStart, HookMode::SubagentStart, HookMode::Inbox, HookMode::SendBridge] {
        assert!(matches!(hook_step(mode, &no_session, true), HookStep::Nothing));
    }
    let i = input(r#"{"session_id": "s1"}"#);
    match hook_step(HookMode::SessionStart, &i, false) {
        HookStep::Inject(t) => assert_eq!(t, session_start_context("s1")),
        _ => panic!("session start injects its hint"),
    }
    assert!(matches!(hook_step(HookMode::Inbox, &i, false), HookStep::Nothing));
    assert!(matches!(hook_step(HookMode::Inbox, &i, true), HookStep::Doorbell { .. }));
    assert!(matches!(hook_step(HookMode::LegacyTask, &i, true), HookStep::Nothing));
    let sub = input(r#"{"session_id": "s1", "agent_id": "a1", "agent_name": " dev "}"#);
    match hook_step(HookMode::SubagentStart, &sub, true) {
        HookStep::AutoRegister { session_id, agent_id, role, registered, unregistered } => {
            assert_eq!((session_id.as_str(), agent_id.as_str(), role.as_str()), ("s1", "a1", "dev"));
            assert_eq!(registered, subagent_start_context("a1", "s1", Some("dev")));
            assert_eq!(unregistered, subagent_start_context("a1", "s1", None));
        }
        _ => panic!("a named subagent is auto-registered"),
    }
    match hook_step(HookMode::SubagentStart, &sub, false) {
        HookStep::Inject(t) => assert_eq!(t, subagent_start_context("a1", "s1", None)),
        _ => panic!("without a database the subagent is only told its ids"),
    }
    let send = input(r#"{"session_id": "s1", "tool_input": {"to": "main", "message": "done"}}"#);
    match hook_step(HookMode::SendBridge, &send, true) {
        HookStep::Bridge { session_id, agent_id, plan } => {
            assert_eq!((session_id.as_str(), agent_id.as_str()), ("s1", ""));
            assert!(matches!(plan.recipient, BridgeRecipient::Leader));
            assert_eq!(plan.subject, "done");
        }
        _ => panic!("a plain send is mirrored"),
    }
    let protocol = input(r#"{"session_id": "s1", "tool_input": {"to": "dev", "message": {"type": "shutdown_request"}}}"#);
    assert!(matches!(hook_step(HookMode::SendBridge, &protocol, true), HookStep::Nothing));
}

/// The raw markers of an event's groups, or the other value it holds.
fn event_raws(t: &[(String, EventEntry<&'static str, String, &'static str>)], k: &str) -> Result<Vec<&'static str>, &'static str> {
    let e = &t.iter().find(|(key, _)| key == k).unwrap().1;
    match e {
        EventEntry::Groups(gs) => Ok(gs.iter().map(|g| g.raw).collect()),
        EventEntry::Other(v) => Err(*v),
    }
}

fn settings_plan(bin: &str) -> Vec<(String, HookGroup<&'static str, String>)> {
    install_plan(bin).into_iter().map(|e| entry_group(e, "ours", "handler".to_string())).collect()
}

#[test]
fn install_into_the_hooks_table_keeps_user_entries_and_replaces_ours() {
    let table = vec![
        (
            "PreToolUse".to_string(),
            EventEntry::Groups(vec![
                HookGroup { handlers: Some(vec![handler("/usr/bin/lint")]), raw: "user" },
                HookGroup { handlers: Some(vec![handler("\"/old/workslate\" --hook=inbox")]), raw: "stale" },
            ]),
        ),
        ("Notification".to_string(), EventEntry::Other("kept")),
    ];
    let once = install_events(table, settings_plan("/opt/bin/workslate")).unwrap();
    assert_eq!(once.len(), 6);
    assert_eq!(event_raws(&once, "PreToolUse"), Ok(vec!["user", "ours"]));
    assert_eq!(event_raws(&once, "Notification"), Err("kept"));
    for e in ["PostToolUse", "SessionStart", "SubagentStart", "Stop"] {
        assert_eq!(event_raws(&once, e), Ok(vec!["ours"]));
    }
    let keys: Vec<String> = once.iter().map(|(k, _)| k.clone()).collect();
    let twice = install_events(once, settings_plan("/opt/bin/workslate")).unwrap();
    assert_eq!(twice.iter().map(|(k, _)| k.clone()).collect::<Vec<_>>(), keys);
    assert_eq!(event_raws(&twice, "PreToolUse"), Ok(vec!["user", "ours"]));
    for e in ["PostToolUse", "SessionStart", "SubagentStart", "Stop"] {
        assert_eq!(event_raws(&twice, e), Ok(vec!["ours"]));
    }
}

#[test]
fn install_refuses_an_event_that_is_not_an_array() {
    let table = vec![("SessionStart".to_string(), EventEntry::Other("odd"))];
    let r = install_events(table, settings_plan("/opt/bin/workslate"));
    assert_eq!(r.err(), Some("settings.json 'hooks.SessionStart' is not an array".to_string()));
}

#[test]
fn an_install_entry_becomes_a_group_of_its_handler() {
    let plan = install_plan("/opt/bin/workslate");
    let stop = plan.into_iter().find(|e| e.event == "Stop").unwrap();
    let (event, group) = entry_group(stop, "g", "h".to_string());
    assert_eq!(event, "Stop");
    let hs = group.handlers.unwrap();
    assert_eq!(hs.len(), 1);
    assert_eq!(hs[0].prompt.as_deref(), Some(stop_verify_prompt().as_str()));
    assert_eq!(hs[0].command, None);
    assert_eq!(hs[0].raw, "h");
}

#[test]
fn uninstall_after_install_leaves_the_user_entries() {
    let table = vec![
        (
            "PreToolUse".to_string(),
            EventEntry::Groups(vec![
                HookGroup { handlers: Some(vec![handler("/usr/bin/lint")]), raw: "user" },
                HookGroup { handlers: Some(vec![handler("\"/old/workslate\" --hook=inbox")]), raw: "stale" },
            ]),
        ),
        (
            "Notification".to_string(),
            EventEntry::Groups(vec![HookGroup { handlers: Some(vec![handler("/x/workslate --hook=inbox")]), raw: "kept" }]),
        ),
        ("Stop".to_string(), EventEntry::Groups(vec![])),
    ];
    let installed = install_events(table, settings_plan("/opt/bin/workslate")).unwrap();
    let removed = uninstall_events(installed);
    assert_eq!(removed.len(), 6);
    assert_eq!(event_raws(&removed, "PreToolUse"), Ok(vec!["user"]));
    // only our own events are touched
    assert_eq!(event_raws(&removed, "Notification"), Ok(vec!["kept"]));
    for e in ["PostToolUse", "SessionStart", "SubagentStart", "Stop"] {
        assert_eq!(event_raws(&removed, e), Ok(vec![]));
    }
    let other = uninstall_events(vec![("Stop".to_string(), EventEntry::<&str, String, &str>::Other("odd"))]);
    assert_eq!(event_raws(&other, "Stop"), Err("odd"));
}

#[test]
fn inbox_hook_needs_a_registered_role() {
    let rows = vec![("hello".to_string(), 0i64)];
    assert_eq!(inbox_hook_reply(None, Some(&rows)), None);
    assert_eq!(inbox_hook_reply(Some(None), Some(&rows)), None);
    assert_eq!(inbox_hook_reply(Some(Some("lead")), None), None);
    assert_eq!(inbox_hook_reply(Some(Some("lead")), Some(&[])), None);
    assert_eq!(
        inbox_hook_reply(Some(Some("lead")), Some(&rows)),
        Some("📨 1 unread message(s) for role \"lead\". Latest: \"hello\". Read now with workslate_inbox_read(role=\"lead\").".to_string())
    );
}
