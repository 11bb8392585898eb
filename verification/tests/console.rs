use v9r::args::{parse_args, usage, Command, RunArgs};
use v9r::bundle::{BundleFile, TaskBundle};
use v9r::execution::{script_command, validate_command_spec};
use v9r::ids::{CheckpointId, TaskId};
use v9r::manifest::Manifest;
use v9r::output::{
    emit_debug_xml, emit_exec_output, emit_trace_observability, format_paths, format_strings,
    hex_text, inspect_lines, manifest_line, LogLevel, LogLine,
};
use v9r::provider::ProviderKind;
use v9r::repl::{
    complete, keeps_line, load_history, parse_bool, parse_task_text, save_history, ReplSession,
    ReplStep, HISTORY_LIMIT,
};
use v9r::run::{
    closing_bytes, closing_output, inference_line, required_args, script_event, summary_line,
    Output, Run, RunAction, RunEvent, RunTurn,
};
use v9r::task::{ArtifactHash, TaskErrorType, TaskStatus};

fn texts(v: &[&str]) -> Vec<String> {
    v.iter().map(|s| s.to_string()).collect()
}

fn run_args(v: &[&str]) -> RunArgs {
    match parse_args(&texts(v)).unwrap() {
        Command::Run(a) => a,
        other => panic!("{other:?}"),
    }
}

fn rendered(lines: &[LogLine]) -> Vec<String> {
    lines.iter().map(|l| l.render()).collect()
}

#[test]
fn nothing_starts_the_session() {
    assert!(matches!(parse_args(&Vec::new()).unwrap(), Command::Repl));
    assert!(matches!(parse_args(&texts(&["repl"])).unwrap(), Command::Repl));
}

#[test]
fn run_takes_its_flags() {
    let a = run_args(&[
        "run", "--task", "fix it", "--manifest", "m.toml", "--workdir", "/w", "--provider", "groq",
        "--model", "x", "--base-url", "http://u", "-f", "s.sh", "--debug-xml", "--task", "again",
    ]);
    assert_eq!(a.task.as_deref(), Some("again"));
    assert_eq!(a.manifest.as_deref(), Some("m.toml"));
    assert_eq!(a.workdir.as_deref(), Some("/w"));
    assert_eq!(a.provider.as_deref(), Some("groq"));
    assert_eq!(a.model.as_deref(), Some("x"));
    assert_eq!(a.base_url.as_deref(), Some("http://u"));
    assert_eq!(a.script.as_deref(), Some("s.sh"));
    assert!(a.debug_xml);
    let a = run_args(&["run"]);
    assert!(a.task.is_none() && !a.debug_xml);
}

#[test]
fn words_alone_are_a_task() {
    let a = run_args(&["fix", "the", "bug"]);
    assert_eq!(a.task.as_deref(), Some("fix the bug"));
    assert_eq!(a.manifest.as_deref(), Some("task.toml"));
    assert_eq!(a.provider.as_deref(), Some("ollama"));
    assert_eq!(a.model.as_deref(), Some("llama3"));
    assert!(a.workdir.is_none());
}

#[test]
fn faults_on_the_command_line() {
    let err = |v: &[&str]| parse_args(&texts(v)).unwrap_err();
    assert_eq!(err(&["run", "--task"]), "missing value for --task");
    assert_eq!(err(&["run", "-f"]), "missing value for -f");
    assert_eq!(err(&["run", "--nope"]), "run: unknown argument: --nope");
    assert_eq!(err(&["inspect", "--bundle"]), "missing value for --bundle");
    assert_eq!(err(&["inspect", "x"]), "inspect: unknown argument: x");
    assert_eq!(err(&["--help"]), usage());
    assert_eq!(err(&["-h"]), usage());
    assert_eq!(err(&["help"]), usage());
    assert_eq!(err(&["--x"]), format!("unknown argument: --x\n{}", usage()));
    match parse_args(&texts(&["inspect", "--bundle", "b.bin"])).unwrap() {
        Command::Inspect(a) => assert_eq!(a.bundle.as_deref(), Some("b.bin")),
        other => panic!("{other:?}"),
    }
    assert!(usage().starts_with("usage:\n  v9r repl\n"));
}

fn manifest() -> Manifest {
    Manifest {
        allow_read: texts(&["src", "/abs"]),
        allow_write: Vec::new(),
        allow_exec: texts(&["cargo", "git"]),
        token_limit: 1,
        max_steps: 1,
        timeout_ms: 1,
        mandatory_artifacts: Vec::new(),
        test_commands: Vec::new(),
    }
}

#[test]
fn lists_are_shown_in_brackets() {
    assert_eq!(format_strings(&texts(&["a", "b"])), "[a,b]");
    assert_eq!(format_paths(&Vec::new()), "[]");
    assert_eq!(
        manifest_line(&manifest()).render(),
        "[INFO] manifest: allow_read=[src,/abs], allow_write=[], allow_exec=[cargo,git]"
    );
}

#[test]
fn levels_have_tags() {
    for (level, tag) in [
        (LogLevel::Info, "[INFO] x"),
        (LogLevel::Step, "[STEP] x"),
        (LogLevel::Warn, "[WARN] x"),
        (LogLevel::Exec, "[EXEC] x"),
        (LogLevel::Llm, "[LLM] x"),
    ] {
        assert_eq!(LogLine::new(level, "x".to_string()).render(), tag);
    }
}

#[test]
fn traces_are_shown_line_by_line() {
    let lines = texts(&[
        r#"{"FileAccess":{"path":"/w/a","access":"Write","allowed":true}}"#,
        r#"{"FileAccess":{"access":7}}"#,
        "not json",
        r#"{"ViolationOccurred":{"reason":"no"}}"#,
        r#"{"ViolationOccurred":{}}"#,
        r#"{"CommandExecuted":{"command":"ls","exit_code":-7}}"#,
        r#"{"CommandExecuted":{}}"#,
        r#"{"TaskFinished":{"status":"Success"}}"#,
    ]);
    assert_eq!(
        rendered(&emit_trace_observability(&lines)),
        vec![
            "[STEP] file_access: write /w/a (allowed)",
            "[STEP] file_access:   (denied)",
            "[WARN] violation: no",
            "[WARN] violation: unknown",
            "[EXEC] command: ls exit_code=-7",
            "[EXEC] command:  exit_code=-1",
        ]
    );
}

#[test]
fn streams_are_shown_line_by_line() {
    assert_eq!(
        rendered(&emit_exec_output("stdout", b"a\nb\xff\n")),
        vec!["[EXEC] stdout: a", "[EXEC] stdout: b\u{fffd}"]
    );
    assert_eq!(
        rendered(&emit_debug_xml("<a>\n</a>")),
        vec![
            "[LLM] xml_context_begin",
            "[LLM] xml: <a>",
            "[LLM] xml: </a>",
            "[LLM] xml_context_end"
        ]
    );
}

#[test]
fn hexadecimal_digits() {
    assert_eq!(hex_text(0xcbf29ce484222325, 16), "cbf29ce484222325");
    assert_eq!(hex_text(0xab, 16), "00000000000000ab");
}

#[test]
fn bundles_are_shown() {
    let bundle = TaskBundle {
        version: 1,
        source_task_id: TaskId(2),
        source_status: TaskStatus::Success,
        files: vec![BundleFile { relative_path: "a".to_string(), bytes: b"a".to_vec() }],
        artifact_hashes: vec![ArtifactHash { path: "/w/r".to_string(), bytes: 3, fnv64: 255 }],
        trace_jsonl: b"{\"x\":1}\nlast".to_vec(),
    };
    assert_eq!(
        inspect_lines(&bundle),
        vec![
            "bundle.version=1",
            "bundle.source_task_id=00000000-0000-0000-0000-000000000002",
            "bundle.source_status=Success",
            "bundle.files=1",
            "bundle.artifact_hashes=1",
            "file path=a bytes=1 hash=fnv64:af63dc4c8601ec8c",
            "artifact path=/w/r bytes=3 hash=fnv64:00000000000000ff",
            "trace.begin",
            "{\"x\":1}",
            "last",
            "trace.end",
        ]
    );
}

fn begin(v: &[&str], pipe: bool) -> Run {
    begin_with(v, pipe, false)
}

fn begin_with(v: &[&str], pipe: bool, stdout_is_pipe: bool) -> Run {
    let args = run_args(v);
    let needed = required_args(&args).unwrap();
    let (run, action) = Run::begin(args, needed, pipe, stdout_is_pipe, "/cwd/./x");
    assert!(matches!(action, RunAction::LoadManifest(p) if p == "m.toml"));
    run
}

fn turn(run: &mut Run, event: RunEvent) -> RunTurn {
    run.step(event).unwrap()
}

#[test]
fn runs_need_a_task_and_a_manifest() {
    assert_eq!(required_args(&run_args(&["run"])).unwrap_err(), "run: missing --task");
    assert_eq!(
        required_args(&run_args(&["run", "--task", "t"])).unwrap_err(),
        "run: missing --manifest"
    );
}

#[test]
fn a_script_that_fails_is_rolled_back() {
    let mut run =
        begin(&["run", "--task", "do\nit", "--manifest", "m.toml", "-f", "./s.sh"], false);
    assert_eq!(run.workdir(), "/cwd/x");
    let t = turn(&mut run, RunEvent::Manifest(manifest()));
    assert!(matches!(t.action, RunAction::CheckDirectory(d) if d == "/cwd/x"));
    let t = turn(&mut run, RunEvent::Safe);
    assert_eq!(
        rendered(&t.lines),
        vec!["[INFO] manifest: allow_read=[/cwd/x/src,/abs], allow_write=[], allow_exec=[cargo,git]"]
    );
    match t.action {
        RunAction::StartTask { from_bundle, line, text, .. } => {
            assert!(!from_bundle);
            assert_eq!(line.render(), "[INFO] task: do it");
            assert_eq!(text, "do\nit");
        }
        other => panic!("{other:?}"),
    }
    let t = turn(&mut run, RunEvent::Task(TaskId(1)));
    assert_eq!(
        rendered(&t.lines),
        vec!["[INFO] task started: task_id=00000000-0000-0000-0000-000000000001"]
    );
    assert!(matches!(t.action, RunAction::OpenTrace { log_start: true, show_xml: false }));
    let t = turn(&mut run, RunEvent::TraceOpen);
    assert!(matches!(t.action, RunAction::Checkpoint));
    let t = turn(&mut run, RunEvent::Checkpoint(CheckpointId(9)));
    assert!(matches!(t.action, RunAction::RunScript { path, .. } if path == "s.sh"));
    let t = turn(&mut run, RunEvent::ScriptFailed("boom".to_string()));
    assert_eq!(t.lines[0].render(), "[WARN] run failed: boom");
    assert!(matches!(t.action, RunAction::Rollback(CheckpointId(9))));
    let t = turn(&mut run, RunEvent::RolledBack);
    assert!(matches!(
        t.action,
        RunAction::Close { mark_failed: true, export: false, output: Output::Summary }
    ));
}

#[test]
fn a_script_passes_by_its_exit_code_and_its_outcome() {
    assert!(matches!(script_event(Some(0), Ok(())), RunEvent::ScriptPassed));
    for (code, outcome, why) in [
        (Some(0), Err("no report".to_string()), "no report"),
        (Some(3), Ok(()), "script failed: exit_code=3"),
        (Some(3), Err("no report".to_string()), "script failed: exit_code=3"),
        (None, Ok(()), "script failed: exit_code=-1"),
    ] {
        match script_event(code, outcome) {
            RunEvent::ScriptFailed(m) => assert_eq!(m, why),
            other => panic!("{other:?}"),
        }
    }
}

#[test]
fn a_script_out_of_time_is_rolled_back() {
    let mut run = begin(&["run", "--task", "t", "--manifest", "m.toml", "-f", "s.sh"], false);
    turn(&mut run, RunEvent::Manifest(Manifest { timeout_ms: 250, ..manifest() }));
    turn(&mut run, RunEvent::Safe);
    turn(&mut run, RunEvent::Task(TaskId(1)));
    turn(&mut run, RunEvent::TraceOpen);
    let t = turn(&mut run, RunEvent::Checkpoint(CheckpointId(9)));
    assert!(matches!(t.action, RunAction::RunScript { timeout_ms: 250, .. }));
    let t = turn(&mut run, RunEvent::ScriptTimedOut);
    assert_eq!(t.lines[0].render(), "[WARN] run failed: timeout_ms exceeded: 250");
    assert!(matches!(t.action, RunAction::Rollback(CheckpointId(9))));
}

#[test]
fn a_run_from_a_bundle_with_a_model() {
    let mut run = begin_with(
        &["run", "--task", "t", "--manifest", "m.toml", "--workdir", "/w", "--debug-xml"],
        true,
        true,
    );
    turn(&mut run, RunEvent::Manifest(manifest()));
    let t = turn(&mut run, RunEvent::Safe);
    assert_eq!(t.lines[1].render(), "[INFO] stdin is a pipe: importing task bundle...");
    assert!(matches!(t.action, RunAction::ReadBundle));
    let t = turn(&mut run, RunEvent::Bundle { source_task_id: TaskId(4), files: 2 });
    assert_eq!(
        rendered(&t.lines),
        vec!["[INFO] bundle loaded: source_task_id=00000000-0000-0000-0000-000000000004, files=2"]
    );
    assert!(matches!(t.action, RunAction::StartTask { from_bundle: true, .. }));
    let t = turn(&mut run, RunEvent::Task(TaskId(5)));
    assert!(matches!(t.action, RunAction::OpenTrace { log_start: false, show_xml: true }));
    let t = turn(&mut run, RunEvent::TraceOpen);
    match t.action {
        RunAction::RunModel { provider, model, base_url } => {
            assert_eq!(provider, "openai-compatible");
            assert!(model.is_none() && base_url.is_none());
        }
        other => panic!("{other:?}"),
    }
    let t = turn(
        &mut run,
        RunEvent::Report {
            error_type: Some(TaskErrorType::Timeout),
            message: Some("late".to_string()),
        },
    );
    assert_eq!(
        rendered(&t.lines),
        vec!["[WARN] task report: error_type=Timeout message=late"]
    );
    assert!(matches!(
        t.action,
        RunAction::Close { mark_failed: false, export: false, output: Output::Nothing }
    ));
}

#[test]
fn an_empty_pipe_ends_the_run() {
    let mut run = begin(&["run", "--task", "t", "--manifest", "m.toml"], true);
    turn(&mut run, RunEvent::Manifest(manifest()));
    turn(&mut run, RunEvent::Safe);
    assert_eq!(
        run.step(RunEvent::NoBundle).unwrap_err(),
        "stdin pipe contained no task bundle"
    );
}

#[test]
fn a_run_that_succeeds_is_exported() {
    for (stdout_is_pipe, expected) in [(false, Output::Summary), (true, Output::Bundle)] {
        let mut run =
            begin_with(&["run", "--task", "t", "--manifest", "m.toml"], false, stdout_is_pipe);
        turn(&mut run, RunEvent::Manifest(manifest()));
        turn(&mut run, RunEvent::Safe);
        turn(&mut run, RunEvent::Task(TaskId(5)));
        turn(&mut run, RunEvent::TraceOpen);
        let t = turn(&mut run, RunEvent::Report { error_type: None, message: None });
        assert!(t.lines.is_empty());
        match t.action {
            RunAction::Close { mark_failed, export, output } => {
                assert!(!mark_failed && export);
                assert_eq!(output, expected);
            }
            other => panic!("{other:?}"),
        }
    }
}

#[test]
fn what_goes_to_the_standard_output() {
    assert_eq!(closing_output(true, true), Output::Bundle);
    assert_eq!(closing_output(false, true), Output::Nothing);
    assert_eq!(closing_output(true, false), Output::Summary);
    assert_eq!(closing_output(false, false), Output::Summary);
    assert_eq!(closing_bytes(Output::Bundle, vec![1, 2], "line"), vec![1, 2]);
    assert_eq!(closing_bytes(Output::Summary, vec![1, 2], "l\u{e4}"), b"l\xc3\xa4\n");
    assert!(closing_bytes(Output::Nothing, vec![1, 2], "line").is_empty());
}

#[test]
fn scripts_are_handed_to_a_shell_which_models_may_not_ask_for() {
    let c = script_command("echo hi", "/w");
    assert_eq!(c.program, "sh");
    assert_eq!(c.args, vec!["-c", "echo hi"]);
    assert_eq!(c.cwd.as_deref(), Some("/w"));
    assert!(validate_command_spec(&c).unwrap_err().contains("shell interpreters"));
}

#[test]
fn last_lines() {
    assert_eq!(
        summary_line(TaskId(1), TaskStatus::Failed, "/w", None),
        "task_id=00000000-0000-0000-0000-000000000001 status=Failed workdir=/w bundle_exported=false"
    );
    assert_eq!(
        summary_line(TaskId(1), TaskStatus::Success, "/w", Some(12)),
        "task_id=00000000-0000-0000-0000-000000000001 status=Success workdir=/w bundle_bytes=12"
    );
    assert_eq!(
        inference_line(ProviderKind::Ollama, "m", "u").render(),
        "[LLM] requesting inference (provider: Ollama, model: m, base_url: u)..."
    );
}

fn session() -> ReplSession {
    ReplSession::new("/cwd".to_string(), false)
}

#[test]
fn sessions_take_commands() {
    let mut s = session();
    assert!(matches!(s.execute("   ").unwrap(), ReplStep::Continue));
    assert!(matches!(s.execute(" exit ").unwrap(), ReplStep::Quit));
    assert!(matches!(s.execute("quit").unwrap(), ReplStep::Quit));
    assert_eq!(s.execute("dance").unwrap_err(), "unknown command: dance");
    assert_eq!(s.execute("set").unwrap_err(), "unknown command: set");
    match s.execute("set model  gpt 4 ").unwrap() {
        ReplStep::Changed(l) => assert_eq!(l.render(), "[INFO] set: model=gpt 4"),
        other => panic!("{other:?}"),
    }
    s.execute("set provider groq").unwrap();
    s.execute("set workdir /w").unwrap();
    s.execute("set base-url http://u").unwrap();
    s.execute("set debug-xml yes").unwrap();
    s.execute("set manifest m.toml").unwrap();
    match s.execute("status").unwrap() {
        ReplStep::Status(lines) => assert_eq!(
            lines,
            vec![
                "provider=groq",
                "model=gpt 4",
                "manifest=m.toml",
                "workdir=/w",
                "base_url=http://u",
                "debug_xml=true"
            ]
        ),
        other => panic!("{other:?}"),
    }
    match s.execute("run \"fix it\"").unwrap() {
        ReplStep::Run(a) => {
            assert_eq!(a.task.as_deref(), Some("fix it"));
            assert_eq!(a.manifest.as_deref(), Some("m.toml"));
            assert_eq!(a.workdir.as_deref(), Some("/w"));
            assert_eq!(a.provider.as_deref(), Some("groq"));
            assert!(a.script.is_none() && a.debug_xml);
        }
        other => panic!("{other:?}"),
    }
}

#[test]
fn faults_in_a_session() {
    let mut s = session();
    assert_eq!(s.execute("set model").unwrap_err(), "set: missing value");
    assert_eq!(s.execute("set  model x").unwrap_err(), "set: missing value");
    assert_eq!(s.set("").unwrap_err(), "set: missing key");
    assert_eq!(s.execute("set color red").unwrap_err(), "set: unknown key: color");
    assert_eq!(s.execute("set debug-xml maybe").unwrap_err(), "invalid bool: maybe");
    assert_eq!(s.execute("run go").unwrap_err(), "run: no manifest loaded");
    assert_eq!(s.run_task("  ").unwrap_err(), "run: missing task");
    assert!(matches!(s.execute("load x.toml").unwrap(), ReplStep::Load(p) if p == "x.toml"));
    assert_eq!(
        s.load("x.toml", false).unwrap_err(),
        "load: manifest not found: x.toml"
    );
    assert_eq!(s.load("x.toml", true).unwrap().render(), "[INFO] manifest loaded: x.toml");
    assert_eq!(s.manifest_path.as_deref(), Some("x.toml"));
    match session().execute("status").unwrap() {
        ReplStep::Status(lines) => {
            assert_eq!(lines[2], "manifest=<unset>");
            assert_eq!(lines[4], "base_url=<provider-default>");
            assert_eq!(lines[5], "debug_xml=false");
        }
        other => panic!("{other:?}"),
    }
    assert_eq!(
        ReplSession::new("/c".to_string(), true).manifest_path.as_deref(),
        Some("task.toml")
    );
}

#[test]
fn tasks_may_be_quoted() {
    assert_eq!(parse_task_text(" \"a b\" ").unwrap(), "a b");
    assert_eq!(parse_task_text("\"").unwrap(), "\"");
    assert_eq!(parse_task_text("\"\"").unwrap(), "");
    assert_eq!(parse_task_text("\"half").unwrap(), "\"half");
    for yes in ["1", "true", "yes", "on"] {
        assert_eq!(parse_bool(yes), Ok(true));
    }
    for no in ["0", "false", "no", "off"] {
        assert_eq!(parse_bool(no), Ok(false));
    }
}

#[test]
fn words_are_completed() {
    let c = complete("set mo");
    assert_eq!(c.start, 4);
    assert_eq!(c.candidates, vec!["model"]);
    let c = complete("\u{e9} s");
    assert_eq!(c.start, 3);
    assert_eq!(c.candidates, vec!["set", "status"]);
    assert_eq!(complete("").candidates.len(), 14);
    assert!(complete("zzz").candidates.is_empty());
}

#[test]
fn history_keeps_the_newest_of_each_line() {
    assert_eq!(load_history("a\n\n  \nb\n"), vec!["a", "b"]);
    assert!(keeps_line("x") && !keeps_line(" \t"));
    assert_eq!(save_history(&texts(&["a", "b", "a", "c"])), "b\na\nc\n");
    assert_eq!(save_history(&Vec::new()), "\n");
    let many: Vec<String> = (0..HISTORY_LIMIT + 7).map(|i| format!("line {i}")).collect();
    let saved = load_history(&save_history(&many));
    assert_eq!(saved.len(), HISTORY_LIMIT);
    assert_eq!(saved[0], "line 7");
    assert_eq!(saved[HISTORY_LIMIT - 1], many[many.len() - 1]);
}
