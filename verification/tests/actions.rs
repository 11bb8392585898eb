use v9r::adapter::{
    apply_write, is_max_steps_error, is_security_violation, parse_action_command, parse_actions,
    resolve_write, temp_name, validate_action_path, AdapterError, LlmAction, WriteDecision,
    WriteTarget,
};
use v9r::execution::{
    apply_effect, command_cwd, command_line, finish_task_step, run_script_step, run_task_step,
    script_command, validate_command_spec, CommandSpec, Effect, ExecutionError, StepDecision,
};
use v9r::guard::{action_step, reply_actions, step_prompt, ActionStep, SYSTEM_PROMPT};
use v9r::ids::TaskId;
use v9r::manifest::{AccessType, Manifest};
use v9r::task::{Task, TaskStatus};
use v9r::task_fs::{
    block_task_fs, empty_table, ensure_task_fs_unblocked, register_task, TransactionError,
};
use v9r::trace::TaskEvent;

fn texts(v: &[&str]) -> Vec<String> {
    v.iter().map(|s| s.to_string()).collect()
}

fn manifest(write: &[&str], exec: &[&str]) -> Manifest {
    Manifest {
        allow_read: Vec::new(),
        allow_write: texts(write),
        allow_exec: texts(exec),
        token_limit: 100,
        max_steps: 8,
        timeout_ms: 30_000,
        mandatory_artifacts: Vec::new(),
        test_commands: Vec::new(),
    }
}

fn task(write: &[&str], exec: &[&str]) -> Task {
    Task::with_id(TaskId(7), manifest(write, exec), "/w".to_string())
}

fn spec(program: &str, args: &[&str]) -> CommandSpec {
    CommandSpec {
        program: program.to_string(),
        args: texts(args),
        cwd: None,
        reads: Vec::new(),
        writes: Vec::new(),
    }
}

fn workdir() -> String {
    "/tmp/v9r-fake-workdir".to_string()
}

#[test]
fn parses_actions_in_response_order() {
    let actions = parse_actions(
        r#"<write path="src/main.rs">fn main() {}</write>
<execute>cargo test</execute>
<finish status="Success">fixed</finish>"#,
    )
    .unwrap();

    assert_eq!(actions.len(), 3);
    assert!(matches!(actions[0], LlmAction::Write { .. }));
    assert!(matches!(actions[1], LlmAction::Execute(_)));
    assert!(matches!(actions[2], LlmAction::Finish { .. }));
}

#[test]
fn actions_carry_their_contents() {
    let actions = parse_actions(
        r#"<execute> ls -la </execute><write path="a.txt">1 &lt; 2 &amp;&amp; &quot;x&quot;</write><finish status="Failed">no</finish>"#,
    )
    .unwrap();
    assert_eq!(actions[0], LlmAction::Execute("ls -la".to_string()));
    assert_eq!(
        actions[1],
        LlmAction::Write {
            path: "a.txt".to_string(),
            content: "1 < 2 && \"x\"".to_string()
        }
    );
    assert_eq!(
        actions[2],
        LlmAction::Finish { status: TaskStatus::Failed, reason: "no".to_string() }
    );
}

#[test]
fn rejects_unknown_finish_status() {
    let err = parse_actions(r#"<finish status="Done">no</finish>"#).unwrap_err();
    assert!(err.message().contains("unsupported finish status"));
}

#[test]
fn parse_action_command_basic() {
    let s = parse_action_command("cargo test").unwrap();
    assert_eq!(s.program, "cargo");
    assert_eq!(s.args, vec!["test"]);
}

#[test]
fn parse_action_command_handles_quoted_arg_with_spaces() {
    let s = parse_action_command(r#"git commit -m "fix: foo bar""#).unwrap();
    assert_eq!(s.program, "git");
    assert_eq!(s.args, vec!["commit", "-m", "fix: foo bar"]);
}

#[test]
fn parse_action_command_preserves_empty_quoted_arg() {
    let s = parse_action_command(r#"echo "" tail"#).unwrap();
    assert_eq!(s.program, "echo");
    assert_eq!(s.args, vec!["", "tail"]);
}

#[test]
fn parse_action_command_rejects_backslash() {
    let err = parse_action_command(r#"git commit -m \"x\""#).unwrap_err();
    assert!(err.message().contains("backslash"));
}

#[test]
fn parse_action_command_rejects_newline() {
    let err = parse_action_command("cargo test\nrm -rf .").unwrap_err();
    assert!(err.message().contains("control character"));
}

#[test]
fn parse_action_command_rejects_empty_and_whitespace() {
    assert!(parse_action_command("").is_err());
    assert!(parse_action_command("   \t  ").is_err());
}

#[test]
fn parse_action_command_rejects_unmatched_quote() {
    assert!(parse_action_command(r#"echo "unterminated"#).is_err());
}

#[test]
fn parse_action_command_tokenizes_shell_meta_as_literals() {
    let s = parse_action_command("cargo test ; rm -rf .").unwrap();
    assert_eq!(s.program, "cargo");
    assert_eq!(s.args, vec!["test", ";", "rm", "-rf", "."]);
}

#[test]
fn shell_smuggling_is_rejected_by_runtime_validator() {
    let spec = parse_action_command(r#"sh -c "rm -rf .""#).unwrap();
    let err = validate_command_spec(&spec).unwrap_err();
    assert!(err.contains("shell interpreters"));
}

#[test]
fn validate_action_path_accepts_relative() {
    let p = validate_action_path(&workdir(), "src/main.rs").unwrap();
    assert_eq!(p, "/tmp/v9r-fake-workdir/src/main.rs");
}

#[test]
fn validate_action_path_accepts_curdir_components() {
    let p = validate_action_path(&workdir(), "./src/./main.rs").unwrap();
    assert_eq!(p, "/tmp/v9r-fake-workdir/src/main.rs");
}

#[test]
fn validate_action_path_rejects_absolute() {
    for bad in ["/etc/passwd", "/", "\\Windows\\System32"] {
        let err = validate_action_path(&workdir(), bad).unwrap_err();
        assert!(err.contains("absolute"), "{bad}: {err}");
    }
}

#[test]
fn validate_action_path_rejects_home_relative() {
    for bad in ["~/secret", "~"] {
        let err = validate_action_path(&workdir(), bad).unwrap_err();
        assert!(err.contains("home-relative"), "{bad}: {err}");
    }
}

#[test]
fn validate_action_path_rejects_parent_dir_anywhere() {
    for bad in ["..", "../escape", "src/../../../etc", "foo/../bar", "foo/.."] {
        let err = validate_action_path(&workdir(), bad).unwrap_err();
        assert!(err.contains("parent-dir"), "{bad}: {err}");
    }
}

#[test]
fn validate_action_path_rejects_empty() {
    let err = validate_action_path(&workdir(), "").unwrap_err();
    assert!(err.contains("empty"));
}

#[test]
fn rejects_shells_even_with_exe_suffix() {
    for sh in [
        "sh", "bash", "zsh", "dash", "ksh", "csh", "tcsh", "fish", "ash", "pwsh", "powershell",
        "cmd", "Bash", "ZSH", "Bash.exe", "pwsh.exe",
    ] {
        let err = validate_command_spec(&spec(sh, &["-c", "echo hi"])).unwrap_err();
        assert!(err.contains("shell interpreters"), "{sh} should be denied, got: {err}");
    }
}

#[test]
fn rejects_program_paths() {
    for bad in ["/bin/rm", "./rm", "../rm", "C:\\Windows\\System32\\cmd"] {
        let err = validate_command_spec(&spec(bad, &[])).unwrap_err();
        assert!(err.contains("bare binary name"), "{bad} should be denied, got: {err}");
    }
}

#[test]
fn rejects_program_starting_with_dash() {
    let err = validate_command_spec(&spec("-c", &["echo"])).unwrap_err();
    assert!(err.contains("flag"));
}

#[test]
fn rejects_abs_path_args() {
    for bad in ["/etc/passwd", "/", "~/secret", "\\\\share\\x"] {
        let err = validate_command_spec(&spec("cat", &[bad])).unwrap_err();
        assert!(err.contains("absolute") || err.contains("home"), "{bad}: {err}");
    }
}

#[test]
fn rejects_parent_traversal() {
    for bad in ["..", "../foo", "foo/..", "foo/../bar", "..\\foo", "foo\\..\\bar"] {
        let err = validate_command_spec(&spec("cat", &[bad])).unwrap_err();
        assert!(err.contains("parent-dir traversal"), "{bad} should be denied, got: {err}");
    }
}

#[test]
fn rejects_flag_value_with_abs_path() {
    let err = validate_command_spec(&spec("cargo", &["test", "--config=/etc/cargo"])).unwrap_err();
    assert!(err.contains("absolute or home path value"));
    let err = validate_command_spec(&spec("cargo", &["test", "--out=~/secrets"])).unwrap_err();
    assert!(err.contains("absolute or home path value"));
}

#[test]
fn rejects_control_chars_in_args() {
    let err = validate_command_spec(&spec("echo", &["hi\nrm -rf ."])).unwrap_err();
    assert!(err.contains("control character"));
}

#[test]
fn accepts_ordinary_commands() {
    validate_command_spec(&spec("cargo", &["test", "--release"])).unwrap();
    validate_command_spec(&spec("git", &["commit", "-m", "fix: bug", "src/main.rs"])).unwrap();
    validate_command_spec(&spec("rustc", &["src/main.rs", "-o", "target/out"])).unwrap();
    validate_command_spec(&spec("ls", &["-la", "tests"])).unwrap();
}

#[test]
fn fences_apply_to_declared_paths_too() {
    let mut s = spec("cat", &["file.txt"]);
    s.reads = texts(&["/etc/passwd"]);
    let err = validate_command_spec(&s).unwrap_err();
    assert!(err.contains("declared read path absolute path"));

    let mut s = spec("cat", &["file.txt"]);
    s.writes = texts(&["../escape"]);
    let err = validate_command_spec(&s).unwrap_err();
    assert!(err.contains("declared write path parent-dir traversal"));
}

#[test]
fn a_command_that_is_allowed_starts() {
    let mut t = task(&["/w"], &["cargo"]);
    let mut tasks = empty_table();
    let plan = run_task_step(&mut t, &mut tasks, &spec("cargo", &["test"]));
    match plan.decision {
        StepDecision::Spawn { program, args, cwd } => {
            assert_eq!(program, "cargo");
            assert_eq!(args, vec!["test"]);
            assert_eq!(cwd, "/w");
        }
        other => panic!("{other:?}"),
    }
    assert_eq!(t.steps_used, 1);
    assert!(plan.effects.contains(&Effect::SetStatus(TaskStatus::Running)));
}

#[test]
fn a_command_that_is_not_allowed_blocks_the_task() {
    let mut t = task(&["/w"], &["cargo"]);
    let mut tasks = empty_table();
    let plan = run_task_step(&mut t, &mut tasks, &spec("make", &[]));
    assert!(matches!(plan.decision, StepDecision::Refuse(ExecutionError::Violation(_))));
    for e in &plan.effects {
        apply_effect(&mut t, &mut tasks, e);
    }
    assert_eq!(t.status, TaskStatus::Violation);
    assert_eq!(
        ensure_task_fs_unblocked(&tasks, t.id),
        Err(TransactionError::FilesystemBlocked(TaskId(7)))
    );
    let plan = run_task_step(&mut t, &mut tasks, &spec("cargo", &[]));
    assert!(matches!(plan.decision, StepDecision::Refuse(ExecutionError::Transaction(_))));
}

#[test]
fn shells_are_refused_even_where_the_manifest_allows_them() {
    let mut t = task(&["/w"], &["sh"]);
    let mut tasks = empty_table();
    let plan = run_task_step(&mut t, &mut tasks, &spec("sh", &["-c", "true"]));
    assert!(matches!(plan.decision, StepDecision::Refuse(ExecutionError::Violation(_))));
}

#[test]
fn steps_run_out() {
    let mut t = task(&["/w"], &["ls"]);
    t.steps_used = 8;
    let mut tasks = empty_table();
    let plan = run_task_step(&mut t, &mut tasks, &spec("ls", &[]));
    match plan.decision {
        StepDecision::Refuse(e) => assert_eq!(e.message(), "max_steps exceeded: 8"),
        other => panic!("{other:?}"),
    }
    assert!(plan.effects.is_empty());
}

#[test]
fn a_finished_command_is_recorded() {
    let mut t = task(&[], &[]);
    let effects = finish_task_step(&mut t, &spec("ls", &["-l"]), Some(0));
    assert_eq!(t.status, TaskStatus::Verifying);
    assert_eq!(
        effects[0],
        Effect::Log(TaskEvent::CommandExecuted { command: "ls -l".to_string(), exit_code: 0 })
    );
    assert_eq!(effects[1], Effect::SetStatus(TaskStatus::Success));
    let effects = finish_task_step(&mut t, &spec("ls", &[]), None);
    assert_eq!(
        effects[0],
        Effect::Log(TaskEvent::CommandExecuted { command: "ls".to_string(), exit_code: -1 })
    );
    assert_eq!(effects[1], Effect::SetStatus(TaskStatus::Failed));
}

#[test]
fn commands_run_in_the_workdir_unless_told() {
    let t = task(&[], &[]);
    assert_eq!(command_cwd(&t, &spec("ls", &[])), "/w");
    let mut s = spec("ls", &["a b"]);
    s.cwd = Some("sub".to_string());
    assert_eq!(command_cwd(&t, &s), "/w/sub");
    assert_eq!(command_line(&s), "ls a b");
}

#[test]
fn writes_go_through_the_manifest() {
    let mut t = task(&["/w/out"], &[]);
    let mut tasks = empty_table();
    register_task(&mut tasks, t.id, "/w".to_string());
    let plan = apply_write(&mut t, &tasks, "out/a.txt");
    match plan.decision {
        WriteDecision::Resolve(p) => assert_eq!(p, "/w/out/a.txt"),
        other => panic!("{other:?}"),
    }
    assert_eq!(
        plan.effects,
        vec![Effect::Log(TaskEvent::FileAccess {
            path: "/w/out/a.txt".to_string(),
            access: AccessType::Write,
            allowed: true
        })]
    );
    let plan = apply_write(&mut t, &tasks, "elsewhere.txt");
    match plan.decision {
        WriteDecision::Refuse(e) => {
            assert_eq!(e.message(), "permission violation: write denied: /w/elsewhere.txt");
            assert!(is_security_violation(&e));
            assert!(!is_max_steps_error(&e));
        }
        other => panic!("{other:?}"),
    }
    let plan = apply_write(&mut t, &tasks, "../x");
    assert!(matches!(plan.decision, WriteDecision::Refuse(AdapterError::Violation(_))));
    assert_eq!(t.steps_used, 3);
}

#[test]
fn writes_of_blocked_and_unknown_tasks_are_refused() {
    let mut t = task(&["/w"], &[]);
    let mut tasks = empty_table();
    let plan = apply_write(&mut t, &tasks, "a");
    assert!(matches!(
        plan.decision,
        WriteDecision::Refuse(AdapterError::Transaction(TransactionError::UnknownTask(_)))
    ));
    register_task(&mut tasks, t.id, "/w".to_string());
    block_task_fs(&mut tasks, t.id);
    let plan = apply_write(&mut t, &tasks, "a");
    assert!(matches!(
        plan.decision,
        WriteDecision::Refuse(AdapterError::Transaction(TransactionError::FilesystemBlocked(_)))
    ));
    t.steps_used = 8;
    let plan = apply_write(&mut t, &tasks, "a");
    match plan.decision {
        WriteDecision::Refuse(e) => assert!(is_max_steps_error(&e)),
        other => panic!("{other:?}"),
    }
}

#[test]
fn links_cannot_lead_a_write_out() {
    let (effects, target) = resolve_write("/w/link/a", "/etc", "/w");
    assert!(!effects.is_empty());
    match target {
        WriteTarget::Refuse(e) => assert_eq!(
            e.message(),
            "permission violation: write path escapes workdir via symlink: /w/link/a -> /etc"
        ),
        other => panic!("{other:?}"),
    }
    let (effects, target) = resolve_write("/w/d/a", "/real/w/d", "/real/w");
    assert!(effects.is_empty());
    match target {
        WriteTarget::File(p) => assert_eq!(p, "/real/w/d/a"),
        other => panic!("{other:?}"),
    }
    assert_eq!(temp_name("a.txt", "id"), ".a.txt.v9r-tmp-id");
}

#[test]
fn replies_without_actions_are_refused() {
    assert_eq!(
        reply_actions("just talk").unwrap_err().message(),
        "invalid action: LLM response contained no v9r XML action tags"
    );
    assert_eq!(reply_actions("<execute>ls</execute>").unwrap().len(), 1);
    assert_eq!(step_prompt("ctx"), format!("{SYSTEM_PROMPT}\n\nctx"));
}

#[test]
fn actions_become_steps() {
    match action_step(LlmAction::Execute("ls -l".to_string())) {
        ActionStep::Execute(c) => assert_eq!(c.program, "ls"),
        other => panic!("{other:?}"),
    }
    assert!(matches!(
        action_step(LlmAction::Execute("\\".to_string())),
        ActionStep::Fail(AdapterError::InvalidAction(_))
    ));
    match action_step(LlmAction::Finish {
        status: TaskStatus::Success,
        reason: "done".to_string(),
    }) {
        ActionStep::Finish(effects) => {
            assert_eq!(effects.len(), 3);
            assert_eq!(effects[0], Effect::SetStatus(TaskStatus::Success));
            assert_eq!(
                effects[2],
                Effect::Log(TaskEvent::CommandExecuted {
                    command: "finish: done".to_string(),
                    exit_code: 0
                })
            );
        }
        other => panic!("{other:?}"),
    }
}

#[test]
fn adapter_messages() {
    assert_eq!(AdapterError::MissingApiKey.message(), "V9R_API_KEY not set");
    assert_eq!(AdapterError::Http("x".to_string()).message(), "http client: x");
    assert_eq!(
        AdapterError::ApiStatus { status: "500".to_string(), body: "b".to_string() }.message(),
        "LLM provider returned status 500: b"
    );
    assert_eq!(
        AdapterError::InvalidResponse("x".to_string()).message(),
        "invalid LLM provider response: x"
    );
    assert_eq!(
        AdapterError::Execution(ExecutionError::Join("x".to_string())).message(),
        "execution: command worker failed: x"
    );
    assert_eq!(
        AdapterError::Io { path: "p".to_string(), source: "s".to_string() }.message(),
        "io at p: s"
    );
}

#[test]
fn an_operators_script_runs_where_the_manifest_allows_it() {
    let mut t = task(&[], &["sh"]);
    let mut tasks = empty_table();
    let plan = run_script_step(&mut t, &mut tasks, "echo ok > result.txt");
    match plan.decision {
        StepDecision::Spawn { program, args, cwd } => {
            assert_eq!(program, "sh");
            assert_eq!(args, vec!["-c", "echo ok > result.txt"]);
            assert_eq!(cwd, "/w");
        }
        other => panic!("{other:?}"),
    }
    assert_eq!(t.steps_used, 1);
    assert!(matches!(
        &plan.effects[0],
        Effect::Log(TaskEvent::FileAccess { path, access: AccessType::Exec, allowed: true })
            if path == "sh"
    ));
    let done =
        finish_task_step(&mut t, &script_command("echo ok > result.txt", "/w"), Some(0));
    assert!(done.iter().any(|e| matches!(
        e,
        Effect::Log(TaskEvent::CommandExecuted { command, exit_code: 0 })
            if command == "sh -c echo ok > result.txt"
    )));

    // A model that asks for the same command is refused.
    let plan = run_task_step(&mut t, &mut tasks, &spec("sh", &["-c", "echo ok"]));
    assert!(matches!(plan.decision, StepDecision::Refuse(ExecutionError::Violation(_))));
}

#[test]
fn an_operators_script_that_is_refused() {
    let mut tasks = empty_table();
    let mut t = task(&[], &["cargo"]);
    match run_script_step(&mut t, &mut tasks, "true").decision {
        StepDecision::Refuse(ExecutionError::Violation(m)) => assert_eq!(m, "exec denied: sh"),
        other => panic!("{other:?}"),
    }
    let mut t = task(&[], &["sh"]);
    t.manifest.max_steps = 0;
    let plan = run_script_step(&mut t, &mut tasks, "true");
    assert!(matches!(
        plan.decision,
        StepDecision::Refuse(ExecutionError::MaxStepsExceeded(0))
    ));
    assert_eq!(t.steps_used, 0);
    let mut t = task(&[], &["sh"]);
    register_task(&mut tasks, t.id, "/w".to_string());
    block_task_fs(&mut tasks, t.id);
    let plan = run_script_step(&mut t, &mut tasks, "true");
    assert!(matches!(
        plan.decision,
        StepDecision::Refuse(ExecutionError::Transaction(TransactionError::FilesystemBlocked(_)))
    ));
}
