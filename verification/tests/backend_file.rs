use agent_kit::backend::{
    build_command, install_hint, version_from_output, Backend, Capped, CappedReader, SpawnSpec,
    MAX_STDERR, MAX_STDOUT,
};
use agent_kit::file::{format_numbered_line, is_binary, parent_to_resolve, validate_path, MAX_FILE_SIZE};

#[test]
fn backend_names_and_parsing() {
    assert_eq!(Backend::Codex.binary(), "codex");
    assert_eq!(Backend::Codex.as_str(), "codex");
    assert_eq!(Backend::parse(""), Some(Backend::Codex));
    assert_eq!(Backend::parse(" Codex "), Some(Backend::Codex));
    assert_eq!(Backend::parse("gemini"), None);
    assert_eq!(Backend::all(), &[Backend::Codex]);
    assert_eq!(
        install_hint(Backend::Codex),
        "install codex CLI (`npm i -g @openai/codex`; see https://github.com/openai/codex)"
    );
    assert_eq!((MAX_STDOUT, MAX_STDERR), (204800, 16384));
}

#[test]
fn codex_argv_for_fresh_and_resumed_runs() {
    let fresh = SpawnSpec {
        working_dir: "/p/w",
        sandbox: "workspace-write",
        model: Some("gpt-5"),
        reasoning_effort: Some("high"),
        skip_git_repo_check: true,
        resume_session: None,
    };
    assert_eq!(
        build_command(Backend::Codex, &fresh),
        vec![
            "codex", "-C", "/p/w", "-s", "workspace-write", "-a", "never", "-m", "gpt-5", "-c",
            "model_reasoning_effort=high", "exec", "--skip-git-repo-check",
        ]
    );
    let resumed = SpawnSpec {
        working_dir: "/p/w",
        sandbox: "read-only",
        model: None,
        reasoning_effort: None,
        skip_git_repo_check: false,
        resume_session: Some("sid-1"),
    };
    assert_eq!(
        build_command(Backend::Codex, &resumed),
        vec!["codex", "-C", "/p/w", "-s", "read-only", "-a", "never", "exec", "resume", "sid-1"]
    );
}

#[test]
fn version_prefers_stdout_then_stderr() {
    assert_eq!(version_from_output(" codex 1.2 \n", "warn"), Some("codex 1.2".to_string()));
    assert_eq!(version_from_output("  ", " v9 "), Some("v9".to_string()));
    assert_eq!(version_from_output("", "\n"), None);
}

#[test]
fn capped_reader_keeps_the_first_bytes_and_counts_all() {
    let mut r = CappedReader::new(5);
    r.absorb(b"abc");
    r.absorb(b"defg");
    r.absorb(b"hi");
    assert_eq!(r.buf, b"abcde".to_vec());
    let c: Capped = r.finish();
    assert_eq!(c.text, "abcde");
    assert_eq!(c.total, 9);
    assert!(c.truncated);
    // invalid UTF-8 is replaced, not dropped
    let mut r = CappedReader::new(16);
    r.absorb(&[b'o', b'k', 0xff]);
    let c = r.finish();
    assert_eq!(c.text, "ok\u{FFFD}");
    assert!(!c.truncated);
    let e = Capped::empty();
    assert_eq!((e.text.as_str(), e.total, e.truncated), ("", 0, false));
}

#[test]
fn chunking_does_not_change_the_capture() {
    let stream: Vec<u8> = (0u8..40).collect();
    for split in [1usize, 3, 7, 40] {
        let mut r = CappedReader::new(17);
        for chunk in stream.chunks(split) {
            r.absorb(chunk);
        }
        assert_eq!(r.buf, stream[..17].to_vec());
        assert_eq!(r.total, 40);
    }
}

#[test]
fn paths_are_confined_to_the_project_root() {
    assert_eq!(
        validate_path("src/a.rs", "/proj", Ok("/proj/src/a.rs".to_string()), None),
        Ok("/proj/src/a.rs".to_string())
    );
    assert_eq!(
        validate_path("../x", "/proj", Ok("/x".to_string()), None),
        Err("Access denied: '../x' is outside project root '/proj'".to_string())
    );
    // whole components: a sibling sharing a prefix is outside
    assert_eq!(
        validate_path("/proj2/x", "/proj", Ok("/proj2/x".to_string()), None),
        Err("Access denied: '/proj2/x' is outside project root '/proj'".to_string())
    );
    assert_eq!(MAX_FILE_SIZE, 1_048_576);
}

#[test]
fn a_new_file_resolves_through_its_parent() {
    assert_eq!(parent_to_resolve("src/new.rs"), Some("src".to_string()));
    assert_eq!(parent_to_resolve("/"), None);
    assert_eq!(
        validate_path("src/new.rs", "/proj", Err("not found".into()), Some(Ok("/proj/src".into()))),
        Ok("/proj/src/new.rs".to_string())
    );
    assert_eq!(
        validate_path("gone/new.rs", "/proj", Err("not found".into()), Some(Err("No such file".into()))),
        Err("Path not accessible: gone/new.rs: No such file".to_string())
    );
    assert_eq!(
        validate_path("/", "/proj", Err("denied".into()), None),
        Err("Path not accessible: /".to_string())
    );
    assert_eq!(
        validate_path("/etc/new", "/proj", Err("not found".into()), Some(Ok("/etc".into()))),
        Err("Access denied: '/etc/new' is outside project root '/proj'".to_string())
    );
}

#[test]
fn binary_detection_and_numbered_lines() {
    assert!(!is_binary(b""));
    assert!(!is_binary(b"plain text"));
    assert!(is_binary(b"ab\0cd"));
    let mut late = vec![b'a'; 9000];
    late[8500] = 0;
    assert!(!is_binary(&late), "only the first 8192 bytes are inspected");
    assert_eq!(format_numbered_line(7, 3, "x = 1", true), ">   7 | x = 1");
    assert_eq!(format_numbered_line(1234, 2, "y", false), "  1234 | y");
}
