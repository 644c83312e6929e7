use std::time::{Duration, SystemTime};

use agent_kit::backend::Backend;
use agent_kit::dispatch::{
    backend_or_default, cancel_target, cancel_task_reply, check_sandbox, check_steer_params,
    check_working_dir, db_error_message, dir_busy_message, inherit, is_active, is_stranded,
    is_truthy, line_count, lines_of, make_nonce, no_active_in_plan_message, no_such_task_message,
    nonempty, nonempty_ref, parse_sqlite_utc, plan_submit, working_dir_is_absolute, process_alive, project_slug,
    rollout_key, session_not_ready_message, split_by_signal, steer_dir_busy_message, steer_poll,
    steer_prompt, steer_title, still_terminating_message, task_floor, trim_to_start_line,
    wait_poll, wait_timeout_ms, wait_timeout_note, CancelTarget, ErrCode, PollStep, RolloutKey,
    SubmitParams, task_lookup, logs_step, plan_steer, steer_reply, backend_report, LogsOutcome,
    SteerParams, SubmitPlan, TaskRow,
};

fn utc(s: &str) -> Option<SystemTime> {
    parse_sqlite_utc(s).map(|secs| SystemTime::UNIX_EPOCH + Duration::from_secs(secs))
}

#[test]
fn parse_sqlite_utc_epoch_known_dates_and_ordering() {
    assert_eq!(utc("1970-01-01 00:00:00"), Some(SystemTime::UNIX_EPOCH));
    // 2001-09-09 01:46:40 UTC is exactly 1_000_000_000 epoch seconds.
    assert_eq!(
        utc("2001-09-09 01:46:40"),
        Some(SystemTime::UNIX_EPOCH + Duration::from_secs(1_000_000_000)),
    );
    assert!(utc("2026-06-27 02:36:23") > utc("2026-06-27 02:36:22"));
    assert!(utc("not-a-date").is_none());
    assert!(utc("2026-13-01 00:00:00").is_none());
    assert!(utc("2026-06-27 -1:00:00").is_none());
}

#[test]
fn parse_sqlite_utc_calendar_edges() {
    // leap day and the day after
    assert_eq!(parse_sqlite_utc("2000-02-29 00:00:00"), Some(951782400));
    assert_eq!(parse_sqlite_utc("2000-03-01 00:00:00"), Some(951868800));
    // a year boundary
    assert_eq!(parse_sqlite_utc("1999-12-31 23:59:59"), Some(946684799));
    assert_eq!(parse_sqlite_utc("2000-01-01 00:00:00"), Some(946684800));
    // surrounding whitespace is ignored, extra pieces are not read
    assert_eq!(parse_sqlite_utc("  1970-01-02 00:00:01  "), Some(86401));
    assert_eq!(parse_sqlite_utc("1970-01-01-9 00:00:05:7"), Some(5));
    // before the epoch, missing fields, bad ranges
    assert_eq!(parse_sqlite_utc("1969-12-31 23:59:59"), None);
    assert_eq!(parse_sqlite_utc("1970-01-01"), None);
    assert_eq!(parse_sqlite_utc("1970-01 00:00:00"), None);
    assert_eq!(parse_sqlite_utc("1970-01-01 00:60:00"), None);
    assert_eq!(parse_sqlite_utc("1970-01-32 00:00:00"), None);
    assert_eq!(parse_sqlite_utc("1970-01-01 24:00:00"), None);
    // a day past the end of its month is malformed
    assert_eq!(parse_sqlite_utc("2026-02-31 00:00:00"), None);
    assert_eq!(parse_sqlite_utc("2026-04-31 00:00:00"), None);
    assert_eq!(parse_sqlite_utc("2001-02-29 00:00:00"), None);
    assert_eq!(parse_sqlite_utc("1900-02-29 00:00:00"), None);
    assert_eq!(parse_sqlite_utc("2026-01-31 00:00:00"), Some(1769817600));
    // a leap second reads as the next second
    assert_eq!(parse_sqlite_utc("1970-01-01 00:00:60"), Some(60));
}

#[test]
fn earlier_timestamps_read_as_fewer_seconds() {
    let stamps = [
        "1999-12-31 23:59:59",
        "2000-01-01 00:00:00",
        "2000-02-28 12:00:00",
        "2000-02-29 00:00:00",
        "2000-03-01 00:00:00",
        "2024-12-31 23:59:59",
        "2025-01-01 00:00:00",
    ];
    for w in stamps.windows(2) {
        assert!(parse_sqlite_utc(w[0]).unwrap() < parse_sqlite_utc(w[1]).unwrap());
    }
}

#[test]
fn error_codes_have_stable_names() {
    assert_eq!(ErrCode::InvalidParams.as_str(), "invalid_params");
    assert_eq!(ErrCode::NoSuchTask.as_str(), "no_such_task");
    assert_eq!(ErrCode::InvalidWorkingDir.as_str(), "invalid_working_dir");
    assert_eq!(ErrCode::SandboxForbidden.as_str(), "sandbox_forbidden");
    assert_eq!(ErrCode::DirBusy.as_str(), "dir_busy");
    assert_eq!(ErrCode::SessionNotReady.as_str(), "session_not_ready");
    assert_eq!(ErrCode::UnknownBackend.as_str(), "unknown_backend");
    assert_eq!(ErrCode::RolloutUnreadable.as_str(), "rollout_unreadable");
    assert_eq!(ErrCode::DbError.as_str(), "db_error");
}

#[test]
fn blank_parameters_count_as_unset() {
    assert_eq!(nonempty(Some("  ".to_string())), None);
    assert_eq!(nonempty(None), None);
    assert_eq!(nonempty(Some(" x ".to_string())), Some(" x ".to_string()));
    assert_eq!(nonempty_ref(&Some(" x ".to_string())), Some("x"));
    assert_eq!(nonempty_ref(&Some("\t\n".to_string())), None);
    assert_eq!(nonempty_ref(&None), None);
}

#[test]
fn nonces_join_instance_and_counter() {
    assert_eq!(make_nonce("123-456", 0), "123-456-0");
    assert_eq!(make_nonce("123-456", 42), "123-456-42");
    assert_ne!(make_nonce("i", 1), make_nonce("i", 10));
}

#[test]
fn lines_follow_str_lines() {
    for s in ["", "a", "a\n", "a\nb", "a\r\nb\r\n", "\n\n", "x\r", "a\rb\n"] {
        let expected: Vec<String> = s.lines().map(str::to_string).collect();
        assert_eq!(lines_of(s), expected, "lines of {s:?}");
        assert_eq!(line_count(s), s.lines().count());
    }
}

#[test]
fn trim_to_start_line_drops_inherited_lines() {
    let log = "l1\nl2\nl3\n".to_string();
    assert_eq!(trim_to_start_line(log.clone(), None), log);
    assert_eq!(trim_to_start_line(log.clone(), Some(0)), log);
    assert_eq!(trim_to_start_line(log.clone(), Some(-3)), log);
    assert_eq!(trim_to_start_line(log.clone(), Some(1)), "l2\nl3");
    assert_eq!(trim_to_start_line(log.clone(), Some(3)), "");
    assert_eq!(trim_to_start_line(log.clone(), Some(9)), "");
    assert_eq!(trim_to_start_line("a\r\nb\r\nc".to_string(), Some(1)), "b\nc");
}

#[test]
fn sandbox_ceiling() {
    assert_eq!(check_sandbox(None, false), Ok("workspace-write".to_string()));
    assert_eq!(check_sandbox(Some("  "), false), Ok("workspace-write".to_string()));
    assert_eq!(check_sandbox(Some(" read-only "), false), Ok("read-only".to_string()));
    assert_eq!(
        check_sandbox(Some("danger-full-access"), true),
        Ok("danger-full-access".to_string())
    );
    assert_eq!(
        check_sandbox(Some("danger-full-access"), false),
        Err("sandbox 'danger-full-access' is disabled on this server. Set DISPATCH_ALLOW_DANGER=1 to permit running codex with no sandbox.".to_string())
    );
    assert_eq!(
        check_sandbox(Some("yolo"), true),
        Err("invalid sandbox \"yolo\"; allowed: read-only, workspace-write (or danger-full-access if the server enables it)".to_string())
    );
}

#[test]
fn working_dir_guard() {
    let roots = vec!["/extra".to_string()];
    assert!(!working_dir_is_absolute("rel/dir"));
    assert!(!working_dir_is_absolute("   "));
    assert_eq!(
        check_working_dir("rel/dir", working_dir_is_absolute("rel/dir"), Err("x".into()), false, "/proj", &roots),
        Err("working_dir must be an absolute path, got \"rel/dir\"".to_string())
    );
    assert_eq!(
        check_working_dir(" /nope ", working_dir_is_absolute(" /nope "), Err("No such file or directory (os error 2)".into()), false, "/proj", &roots),
        Err("working_dir \"/nope\" cannot be resolved (does it exist?): No such file or directory (os error 2)".to_string())
    );
    assert_eq!(
        check_working_dir("/proj/f", working_dir_is_absolute("/proj/f"), Ok("/proj/f".into()), false, "/proj", &roots),
        Err("working_dir /proj/f is not a directory".to_string())
    );
    assert_eq!(
        check_working_dir("/proj/a", working_dir_is_absolute("/proj/a"), Ok("/proj/a".into()), true, "/proj", &roots),
        Ok("/proj/a".to_string())
    );
    assert_eq!(
        check_working_dir("/extra/b", working_dir_is_absolute("/extra/b"), Ok("/extra/b".into()), true, "/proj", &roots),
        Ok("/extra/b".to_string())
    );
    // a sibling that merely shares a prefix is not inside the root
    let outside = check_working_dir("/projx", working_dir_is_absolute("/projx"), Ok("/projx".into()), true, "/proj", &roots);
    assert_eq!(
        outside,
        Err("working_dir /projx is outside the project root (/proj) and any allowlisted root. dispatch only delegates within the project tree by default; if you intend this, add the root to the DISPATCH_EXTRA_ROOTS env var (an OS-path-list of absolute paths) for this server.".to_string())
    );
}

/// `plan_submit` with the working directory's absoluteness as this platform
/// judges it.
fn submit_with(
    p: SubmitParams,
    canonical: Result<String, String>,
    is_dir: bool,
    project_root: &str,
    extra_roots: &Vec<String>,
    allow_danger: bool,
    active_in_dir: Option<String>,
) -> Result<SubmitPlan, (ErrCode, String)> {
    let absolute = working_dir_is_absolute(&p.working_dir);
    plan_submit(p, absolute, canonical, is_dir, project_root, extra_roots, allow_danger, active_in_dir)
}

fn submit(objective: &str, working_dir: &str) -> SubmitParams {
    SubmitParams {
        objective: objective.to_string(),
        working_dir: working_dir.to_string(),
        backend: None,
        sandbox: None,
        allow_concurrent: None,
        plan_id: Some(" ".to_string()),
        title: Some("step 1".to_string()),
        model: None,
        reasoning_effort: None,
        skip_git_repo_check: Some(true),
    }
}

#[test]
fn submit_is_checked_in_order() {
    let roots: Vec<String> = Vec::new();
    let e = submit_with(submit(" ", "/p"), Ok("/p".into()), true, "/p", &roots, false, None).err().unwrap();
    assert_eq!((e.0, e.1.as_str()), (ErrCode::InvalidParams, "objective is required"));
    let e = submit_with(submit("do", ""), Ok("/p".into()), true, "/p", &roots, false, None).err().unwrap();
    assert_eq!((e.0, e.1.as_str()), (ErrCode::InvalidParams, "working_dir is required"));
    let mut p = submit("do", "/p");
    p.backend = Some("claudius".to_string());
    let e = submit_with(p, Ok("/p".into()), true, "/p", &roots, false, None).err().unwrap();
    assert_eq!(
        (e.0, e.1.as_str()),
        (ErrCode::UnknownBackend, "unknown backend \"claudius\"; supported: codex")
    );
    let e = submit_with(submit("do", "/q"), Ok("/q".into()), true, "/p", &roots, false, None).err().unwrap();
    assert_eq!(e.0, ErrCode::InvalidWorkingDir);
    let mut p = submit("do", "/p/w");
    p.sandbox = Some("danger-full-access".to_string());
    let e = submit_with(p, Ok("/p/w".into()), true, "/p", &roots, false, Some("t9".into())).err().unwrap();
    assert_eq!(e.0, ErrCode::SandboxForbidden);
    let e = submit_with(submit("do", "/p/w"), Ok("/p/w".into()), true, "/p", &roots, false, Some("t9".into()))
        .err()
        .unwrap();
    assert_eq!(
        (e.0, e.1.as_str()),
        (
            ErrCode::DirBusy,
            "a dispatch (t9) is already active for /p/w; wait for it, cancel it, or pass allow_concurrent=true to override"
        )
    );
}

#[test]
fn accepted_submit_plan() {
    let roots: Vec<String> = Vec::new();
    let mut p = submit("do it", " /p/w ");
    p.backend = Some(" CODEX ".to_string());
    p.model = Some("gpt-5".to_string());
    let plan = submit_with(p, Ok("/p/w".into()), true, "/p", &roots, false, None).ok().unwrap();
    assert_eq!(plan.backend, Backend::Codex);
    assert_eq!(plan.working_dir, "/p/w");
    assert_eq!(plan.sandbox, "workspace-write");
    assert_eq!(plan.enforce_dir, Some("/p/w".to_string()));
    assert_eq!(plan.plan_id, None);
    assert_eq!(plan.title, Some("step 1".to_string()));
    assert_eq!(plan.model, Some("gpt-5".to_string()));
    assert_eq!(plan.reasoning_effort, None);
    assert!(plan.skip_git_repo_check);

    let mut p = submit("do it", "/p");
    p.allow_concurrent = Some(true);
    let plan = submit_with(p, Ok("/p".into()), true, "/p", &roots, false, Some("t9".into())).ok().unwrap();
    assert_eq!(plan.enforce_dir, None);
}

#[test]
fn reply_messages() {
    assert_eq!(no_such_task_message("t1"), "no task with id \"t1\"");
    assert_eq!(db_error_message("locked"), "db error: locked");
    assert_eq!(
        dir_busy_message("t9", "/p/w"),
        "a dispatch (t9) is already active for /p/w; wait for it, cancel it, or pass allow_concurrent=true to override"
    );
    assert_eq!(
        steer_dir_busy_message("t9", "/p/w"),
        "another dispatch (t9) is active for /p/w; cancel it first"
    );
    assert_eq!(
        session_not_ready_message("t1"),
        "no codex session recorded for t1 yet — it may not have started; check dispatch_status / dispatch_logs first"
    );
    assert_eq!(
        still_terminating_message("t1"),
        "t1 is still terminating after cancel; retry dispatch_steer shortly"
    );
    assert_eq!(no_active_in_plan_message("p"), "no active tasks in plan \"p\"");
}

#[test]
fn cancel_needs_exactly_one_target() {
    assert_eq!(
        cancel_target(&Some(" t1 ".into()), &None),
        Ok(CancelTarget::Task("t1".to_string()))
    );
    assert_eq!(
        cancel_target(&Some("".into()), &Some("plan".into())),
        Ok(CancelTarget::Plan("plan".to_string()))
    );
    assert_eq!(
        cancel_target(&Some("t1".into()), &Some("plan".into())),
        Err((ErrCode::InvalidParams, "pass exactly one of id or plan_id, not both".to_string()))
    );
    assert_eq!(
        cancel_target(&None, &Some("  ".into())),
        Err((ErrCode::InvalidParams, "pass either id or plan_id to cancel".to_string()))
    );
}

#[test]
fn cancel_replies_by_status_and_ownership() {
    assert!(is_active("queued") && is_active("running"));
    assert!(!is_active("succeeded") && !is_active("cancelled") && !is_active("interrupted"));
    assert_eq!(
        cancel_task_reply("t1", "failed", true),
        "task t1 is already failed — nothing to cancel"
    );
    assert_eq!(
        cancel_task_reply("t1", "running", true),
        "cancellation requested for t1; it will transition to cancelled shortly"
    );
    assert_eq!(
        cancel_task_reply("t1", "queued", false),
        "task t1 is queued but is not running under this server instance (another session may own it) — cannot cancel it from here"
    );
    let outcomes = vec![("a".to_string(), true), ("b".to_string(), false), ("c".to_string(), true)];
    let (yes, no) = split_by_signal(&outcomes);
    assert_eq!(yes, vec!["a".to_string(), "c".to_string()]);
    assert_eq!(no, vec!["b".to_string()]);
}

#[test]
fn wait_is_bounded() {
    assert_eq!(wait_timeout_ms(None), 30000);
    assert_eq!(wait_timeout_ms(Some(5)), 300);
    assert_eq!(wait_timeout_ms(Some(4500)), 4500);
    assert_eq!(wait_timeout_ms(Some(999_999)), 120000);
    assert_eq!(wait_timeout_ms(Some(-1)), 120000);
    assert_eq!(wait_poll(false, 0, 300), PollStep::Finished);
    assert_eq!(wait_poll(true, 300, 300), PollStep::TimedOut);
    assert_eq!(wait_poll(true, 0, 300), PollStep::Again);
    assert_eq!(steer_poll(false, 30000), PollStep::Finished);
    assert_eq!(steer_poll(true, 30000), PollStep::TimedOut);
    assert_eq!(steer_poll(true, 200), PollStep::Again);
    assert_eq!(
        wait_timeout_note("running", 900),
        "still running after 900ms — re-invoke dispatch_wait to keep waiting, or poll dispatch_status"
    );
}

#[test]
fn steering_inputs() {
    assert_eq!(check_steer_params(" ", "x"), Err("id is required".to_string()));
    assert_eq!(check_steer_params("t1", "\n"), Err("instruction is required".to_string()));
    assert_eq!(check_steer_params("t1", "go"), Ok(()));
    assert_eq!(
        steer_prompt("  use tabs  "),
        "Continue working in the same workspace on the SAME task. New instruction from the user:\n\nuse tabs\n\nWhen finished, end with a short summary of what you changed."
    );
    assert_eq!(steer_title("t1"), "steer of t1");
    assert_eq!(inherit(Some(" ".into()), Some("p".into())), Some("p".to_string()));
    assert_eq!(inherit(Some("o".into()), Some("p".into())), Some("o".to_string()));
    assert_eq!(inherit(None, None), None);
    assert_eq!(backend_or_default("codex"), Backend::Codex);
    assert_eq!(backend_or_default("mystery"), Backend::Codex);
}

#[test]
fn rollout_identity_priority() {
    let s = |x: &str| Some(x.to_string());
    assert_eq!(rollout_key(&s("n1"), &s("p"), &s("sid")), RolloutKey::Nonce("n1".into()));
    assert_eq!(rollout_key(&s(""), &s("p"), &s("sid")), RolloutKey::Session("sid".into()));
    assert_eq!(rollout_key(&None, &s("p"), &s("")), RolloutKey::Unknown);
    assert_eq!(rollout_key(&None, &s("p"), &None), RolloutKey::Unknown);
    assert_eq!(rollout_key(&None, &None, &s("sid")), RolloutKey::DirSince);
}

#[test]
fn task_floor_uses_start_then_creation() {
    assert_eq!(task_floor(&Some("1970-01-01 00:02:00".into()), "2000-01-01 00:00:00"), Some(60));
    assert_eq!(task_floor(&None, "1970-01-01 00:00:30"), Some(-30));
    assert_eq!(task_floor(&Some("garbage".into()), "1970-01-01 00:00:30"), None);
}

#[test]
fn environment_and_liveness_decisions() {
    for v in ["1", "true", " YES ", "On"] {
        assert!(is_truthy(v), "{v:?}");
    }
    for v in ["", "0", "no", "enable"] {
        assert!(!is_truthy(v), "{v:?}");
    }
    assert_eq!(project_slug("/home/u/proj"), "-home-u-proj");
    assert!(!process_alive(0, 0, None, 1));
    assert!(process_alive(42, 0, None, 1));
    assert!(process_alive(42, -1, Some(1), 1));
    assert!(!process_alive(42, -1, Some(3), 1));
    assert!(is_stranded(None, true));
    assert!(is_stranded(Some(7), false));
    assert!(!is_stranded(Some(7), true));
}

fn row(id: &str, status: &str) -> TaskRow {
    TaskRow {
        id: id.to_string(),
        status: status.to_string(),
        plan_id: Some("plan-a".to_string()),
        backend: "codex".to_string(),
        working_dir: "/p/w".to_string(),
        model: Some("gpt-5".to_string()),
        reasoning_effort: None,
        sandbox: "read-only".to_string(),
        session_id: Some("sess-1".to_string()),
        rollout_path: None,
        nonce: None,
        parent_id: None,
        started_at: None,
        created_at: "2026-01-01 00:00:00".to_string(),
        rollout_start_line: Some(1),
    }
}

fn steer(id: &str, instruction: &str) -> SteerParams {
    SteerParams {
        id: id.to_string(),
        instruction: instruction.to_string(),
        model: None,
        reasoning_effort: Some("high".to_string()),
    }
}

#[test]
fn task_lookup_refusals() {
    let e = task_lookup(" ", Ok(None)).err().unwrap();
    assert_eq!((e.0, e.1.as_str()), (ErrCode::InvalidParams, "id is required"));
    let e = task_lookup(" t1 ", Ok(None)).err().unwrap();
    assert_eq!((e.0, e.1.as_str()), (ErrCode::NoSuchTask, "no task with id \"t1\""));
    let e = task_lookup("t1", Err("locked".into())).err().unwrap();
    assert_eq!((e.0, e.1.as_str()), (ErrCode::DbError, "db error: locked"));
    assert_eq!(task_lookup("t1", Ok(Some(row("t1", "running")))).ok().unwrap().status, "running");
}

#[test]
fn logs_step_cases() {
    match logs_step("t1", Ok(Some(row("t1", "running"))), None).ok().unwrap() {
        LogsOutcome::Pending { id, status, note } => {
            assert_eq!((id.as_str(), status.as_str()), ("t1", "running"));
            assert!(note.starts_with("no codex log associated yet"));
        }
        _ => panic!("expected a pending answer"),
    }
    let read = Some(("/r.jsonl".to_string(), Ok("old\nnew1\nnew2\n".to_string())));
    match logs_step(" t1", Ok(Some(row("t1", "succeeded"))), read).ok().unwrap() {
        LogsOutcome::Log { id, status, session_id, rollout_path, log } => {
            assert_eq!(id, "t1");
            assert_eq!(status, "succeeded");
            assert_eq!(session_id.as_deref(), Some("sess-1"));
            assert_eq!(rollout_path, "/r.jsonl");
            assert_eq!(log, "new1\nnew2");
        }
        _ => panic!("expected the log"),
    }
    let bad = Some(("/r.jsonl".to_string(), Err("permission denied".to_string())));
    let e = logs_step("t1", Ok(Some(row("t1", "running"))), bad).err().unwrap();
    assert_eq!(
        (e.0, e.1.as_str()),
        (ErrCode::RolloutUnreadable, "could not read rollout /r.jsonl: permission denied")
    );
    let e = logs_step("t2", Ok(None), None).err().unwrap();
    assert_eq!(e.0, ErrCode::NoSuchTask);
}

#[test]
fn steer_plan_and_reply() {
    let e = plan_steer(&steer(" ", "x"), Ok(None), None).err().unwrap();
    assert_eq!((e.0, e.1.as_str()), (ErrCode::InvalidParams, "id is required"));
    let e = plan_steer(&steer("t1", " "), Ok(None), None).err().unwrap();
    assert_eq!((e.0, e.1.as_str()), (ErrCode::InvalidParams, "instruction is required"));
    let e = plan_steer(&steer("t1", "x"), Ok(None), None).err().unwrap();
    assert_eq!(e.0, ErrCode::NoSuchTask);
    let e = plan_steer(&steer("t1", "x"), Ok(Some(row("t1", "running"))), None).err().unwrap();
    assert_eq!(
        (e.0, e.1.as_str()),
        (
            ErrCode::SessionNotReady,
            "no codex session recorded for t1 yet — it may not have started; check dispatch_status / dispatch_logs first"
        )
    );
    let plan = plan_steer(&steer(" t1 ", " use tabs "), Ok(Some(row("t1", "running"))), Some("sess-1".into()))
        .ok()
        .unwrap();
    assert_eq!(plan.parent_id, "t1");
    assert!(plan.interrupt_parent);
    assert_eq!(plan.title, "steer of t1");
    assert_eq!(plan.objective, "use tabs");
    assert!(plan.prompt.contains("\n\nuse tabs\n\n"));
    assert_eq!(plan.plan_id.as_deref(), Some("plan-a"));
    assert_eq!(plan.backend, Backend::Codex);
    assert_eq!((plan.working_dir.as_str(), plan.sandbox.as_str()), ("/p/w", "read-only"));
    assert_eq!(plan.model.as_deref(), Some("gpt-5"));
    assert_eq!(plan.reasoning_effort.as_deref(), Some("high"));
    assert_eq!(plan.resume_session, "sess-1");
    let done = plan_steer(&steer("t1", "x"), Ok(Some(row("t1", "failed"))), Some("s".into())).ok().unwrap();
    assert!(!done.interrupt_parent);
    let reply = steer_reply("t7", &plan);
    assert_eq!((reply.id.as_str(), reply.parent_id.as_str(), reply.status.as_str()), ("t7", "t1", "queued"));
    assert_eq!(reply.resumed_session, "sess-1");
    assert!(reply.note.starts_with("steering: the codex session was resumed"));
}

#[test]
fn backend_reports() {
    let r = backend_report(Backend::Codex, Some("/bin/codex".into()), None);
    assert!(r.available);
    assert_eq!(r.version.as_deref(), Some("(unknown)"));
    let r = backend_report(Backend::Codex, None, Some("v1".into()));
    assert!(!r.available && r.path.is_none() && r.version.is_none());
}
