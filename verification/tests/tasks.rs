use v9r::adapter::AdapterError;
use v9r::bundle::{
    compute_mandatory_artifact_hashes, export_bundle, import_bundle, safe_relative_path,
    task_from_bundle, visit_for_bundle, write_trace, ArtifactRead, BundleError, BundleFile,
    BUNDLE_VERSION,
};
use v9r::context::{
    classify_path, read_text_file, CollectStep, ContextError, FileCollector, FileSnapshot,
    TaskSnapshot,
};
use v9r::guard::{ArtifactProbe, GuardAction, GuardEvent, GuardState};
use v9r::ids::{CheckpointId, TaskId};
use v9r::manifest::{normalize_manifest_paths, AccessType, Manifest};
use v9r::snapshot::{
    fnv64, index_file, kept_file, selective_rollback, visit_for_backup, visit_for_rollback,
    CurrentFile, EntryClass, RollbackOp, SnapshotFile, SnapshotManifest, Visit,
};
use v9r::task::{Task, TaskErrorType, TaskReport, TaskStatus};
use v9r::task_fs::{
    backup_dir, block_task_fs, checkpoint, empty_table, ensure_safe_directory, ensure_task_fs_unblocked,
    is_safe_directory, project_markers, register_task, registered_workdir, rollback, staging_dir, DirProbe,
    TransactionError,
};
use v9r::trace::{recent_events, text_lines, trace_line, TaskEvent, TraceError};
use v9r::xml::{escape_xml, replace_text, unescape_xml};

fn texts(v: &[&str]) -> Vec<String> {
    v.iter().map(|s| s.to_string()).collect()
}

fn manifest() -> Manifest {
    Manifest {
        allow_read: Vec::new(),
        allow_write: Vec::new(),
        allow_exec: Vec::new(),
        token_limit: 100,
        max_steps: 8,
        timeout_ms: 30_000,
        mandatory_artifacts: Vec::new(),
        test_commands: Vec::new(),
    }
}

fn task(m: Manifest) -> Task {
    Task::with_id(TaskId(0x11), m, "/w".to_string())
}

fn dir(names: &[&str], files: &[&str]) -> DirProbe {
    DirProbe { names: texts(names), files: texts(files) }
}

fn present(path: &str, bytes: &str) -> CurrentFile {
    CurrentFile { relative_path: path.to_string(), bytes: bytes.as_bytes().to_vec() }
}

#[test]
fn write_access_is_component_bounded() {
    let manifest = Manifest { allow_write: texts(&["/tmp/work"]), ..manifest() };
    assert!(manifest.is_allowed("/tmp/work/file.txt", AccessType::Write));
    assert!(!manifest.is_allowed("/tmp/work-escape/file.txt", AccessType::Write));
}

#[test]
fn access_depends_on_the_normal_form() {
    let m = Manifest {
        allow_read: texts(&["/data/./in"]),
        allow_exec: texts(&["cargo", "/usr/bin/env"]),
        ..manifest()
    };
    assert!(m.is_allowed("/data/x/../in/f", AccessType::Read));
    assert!(!m.is_allowed("/data/in/../f", AccessType::Read));
    assert!(!m.is_allowed("/data/in", AccessType::Write));
    assert!(m.is_allowed("cargo", AccessType::Exec));
    assert!(m.is_allowed("/opt/cargo", AccessType::Exec));
    assert!(m.is_allowed("/usr/bin/env", AccessType::Exec));
    assert!(!m.is_allowed("env", AccessType::Exec));
    assert_eq!(m.copy(), m);
}

#[test]
fn paths_of_a_task_manifest_stand_under_the_workdir() {
    let m = Manifest {
        allow_read: texts(&["src"]),
        allow_write: texts(&["out", "/abs/x/../y"]),
        allow_exec: texts(&["cargo"]),
        mandatory_artifacts: texts(&["out/report.md"]),
        test_commands: texts(&["cargo test"]),
        ..manifest()
    };
    let placed = normalize_manifest_paths(m, "/work");
    assert_eq!(placed.allow_read, vec!["/work/src"]);
    assert_eq!(placed.allow_write, vec!["/work/out", "/abs/y"]);
    assert_eq!(placed.mandatory_artifacts, vec!["/work/out/report.md"]);
    assert_eq!(placed.allow_exec, vec!["cargo"]);
    assert_eq!(placed.test_commands, vec!["cargo test"]);
}

#[test]
fn xml_escapes_content() {
    let snapshot = TaskSnapshot {
        manifest: Manifest {
            allow_read: texts(&["main.rs"]),
            allow_exec: texts(&["cargo"]),
            ..manifest()
        },
        status: TaskStatus::Idle,
        files: vec![FileSnapshot {
            path: "main.rs".to_string(),
            content: "if a < b && c > d { }".to_string(),
            truncated: false,
        }],
        execution_history: texts(&["{\"event\":\"ok\"}"]),
    };

    let xml = snapshot.to_xml();
    assert!(xml.contains("if a &lt; b &amp;&amp; c &gt; d"));
}

#[test]
fn escaping_can_be_undone() {
    let s = "a<b>&\"c\"'d'&amp;";
    assert_eq!(escape_xml(s), "a&lt;b&gt;&amp;&quot;c&quot;&apos;d&apos;&amp;amp;");
    assert_eq!(unescape_xml(&escape_xml(s)), s);
    assert_eq!(replace_text("aaa", "aa", "b"), "ba");
}

#[test]
fn rejects_parent_dir_paths() {
    assert!(safe_relative_path("../escape.txt").is_err());
    assert!(safe_relative_path("ok/file.txt").is_ok());
}

#[test]
fn bundle_paths_are_plain() {
    assert_eq!(safe_relative_path("./a/./b").unwrap(), "a/b");
    for bad in ["", ".", "/abs", "a/../b", ".."] {
        assert_eq!(
            safe_relative_path(bad),
            Err(BundleError::UnsafePath(bad.to_string())),
            "{bad:?}"
        );
    }
}

#[test]
fn what_is_packed_comes_out_again() {
    let t = task(manifest());
    let file = |p: &str, b: &[u8]| BundleFile {
        relative_path: p.to_string(),
        bytes: b.to_vec(),
    };
    let bundle = export_bundle(
        &t,
        vec![file("src/b.rs", b"B"), file("a.txt", b"A")],
        Vec::new(),
        b"{}\n".to_vec(),
    );
    assert_eq!(bundle.version, BUNDLE_VERSION);
    assert_eq!(bundle.source_task_id, TaskId(0x11));
    assert_eq!(bundle.files[0].relative_path, "a.txt");
    let plan = import_bundle(bundle, "/new/./dir").unwrap();
    assert_eq!(plan.workdir, "/new/dir");
    assert!(plan.refused.is_none());
    assert_eq!(plan.files, vec![file("/new/dir/a.txt", b"A"), file("/new/dir/src/b.rs", b"B")]);
    let mut tasks = empty_table();
    let next = task_from_bundle(manifest(), &plan, &mut tasks);
    assert_eq!(next.workdir, "/new/dir");
    assert_eq!(next.steps_used, 0);
    assert_eq!(registered_workdir(&tasks, next.id, true).unwrap(), "/new/dir");
}

#[test]
fn bundles_that_cannot_be_taken() {
    let t = task(manifest());
    let mut bundle = export_bundle(&t, Vec::new(), Vec::new(), Vec::new());
    bundle.version = 99;
    assert_eq!(
        import_bundle(bundle, "/n").unwrap_err().message(),
        "unsupported bundle version: 99"
    );
    let evil = BundleFile { relative_path: "../x".to_string(), bytes: Vec::new() };
    let good = BundleFile { relative_path: "ok".to_string(), bytes: vec![1] };
    let mut bundle = export_bundle(&t, Vec::new(), Vec::new(), Vec::new());
    bundle.files = vec![good, evil];
    let plan = import_bundle(bundle, "/n").unwrap();
    assert_eq!(plan.files.len(), 1);
    assert_eq!(plan.refused, Some(BundleError::UnsafePath("../x".to_string())));
}

#[test]
fn packing_leaves_links_and_traces_out() {
    assert_eq!(
        visit_for_bundle("/w", "/w/a/b", EntryClass::File).unwrap(),
        Visit::Take("a/b".to_string())
    );
    assert_eq!(visit_for_bundle("/w", "/w/trace.jsonl", EntryClass::File).unwrap(), Visit::Skip);
    assert_eq!(visit_for_bundle("/w", "/w/l", EntryClass::Symlink).unwrap(), Visit::Skip);
    assert_eq!(
        visit_for_bundle("/w", "/w/d", EntryClass::Dir).unwrap(),
        Visit::Descend("/w/d".to_string())
    );
    assert_eq!(
        visit_for_bundle("/w", "/x/f", EntryClass::File).unwrap_err(),
        BundleError::UnsafePath("/x/f".to_string())
    );
}

#[test]
fn artifacts_are_hashed_in_path_order() {
    let t = task(Manifest { mandatory_artifacts: texts(&["b", "a"]), ..manifest() });
    let reads = vec![ArtifactRead::Bytes(b"x".to_vec()), ArtifactRead::Bytes(b"yy".to_vec())];
    let hashes = compute_mandatory_artifact_hashes(&t, &reads).unwrap();
    assert_eq!(hashes[0].path, "/w/a");
    assert_eq!(hashes[0].bytes, 2);
    assert_eq!(hashes[1].path, "/w/b");
    assert_eq!(hashes[1].fnv64, fnv64(b"x"));
    let reads = vec![ArtifactRead::Missing, ArtifactRead::Bytes(b"yy".to_vec())];
    assert_eq!(
        compute_mandatory_artifact_hashes(&t, &reads).unwrap_err().message(),
        "mandatory artifact missing or empty: /w/b"
    );
    let reads = vec![ArtifactRead::Failed("denied".to_string()), ArtifactRead::Missing];
    assert_eq!(
        compute_mandatory_artifact_hashes(&t, &reads).unwrap_err().message(),
        "io at /w/b: denied"
    );
}

#[test]
fn the_handover_is_the_last_line() {
    assert_eq!(write_trace(b"old".to_vec(), b"new".to_vec()), b"old\nnew\n");
    assert_eq!(write_trace(b"old\n".to_vec(), b"new".to_vec()), b"old\nnew\n");
    assert_eq!(write_trace(Vec::new(), b"new".to_vec()), b"new\n");
    assert_eq!(trace_line(b"e".to_vec()), b"e\n");
}

#[test]
fn hashes_of_known_texts() {
    assert_eq!(fnv64(b""), 0xcbf29ce484222325);
    assert_eq!(fnv64(b"a"), 0xaf63dc4c8601ec8c);
    assert_eq!(fnv64(b"foobar"), 0x85944171f73967e8);
}

#[test]
fn rejects_project_roots_as_workdirs() {
    let d = dir(&["Cargo.toml"], &["Cargo.toml"]);
    assert!(!is_safe_directory(&d, &Vec::new()));
    let err = ensure_safe_directory(&d, &Vec::new()).unwrap_err().message();
    assert!(err.contains("Safety Error: Cannot use a project root"));
}

#[test]
fn rejects_submodule_dot_git_file() {
    assert!(!is_safe_directory(&dir(&[".git"], &[".git"]), &Vec::new()));
}

#[test]
fn rejects_node_pyproject_go_projects() {
    for marker in ["package.json", "pyproject.toml", "go.mod"] {
        assert!(
            !is_safe_directory(&dir(&[marker], &[marker]), &Vec::new()),
            "{marker} should mark a root"
        );
        assert!(project_markers().contains(&marker.to_string()));
    }
}

#[test]
fn rejects_subfolder_of_git_repo_unless_opted_in() {
    let above = vec![dir(&[".git", "agent-data"], &[])];
    assert!(!is_safe_directory(&dir(&[], &[]), &above));
    assert!(is_safe_directory(&dir(&[".v9r-workdir"], &[".v9r-workdir"]), &above));
    // The opt-in does not cover a directory that is a root itself.
    assert!(!is_safe_directory(
        &dir(&[".v9r-workdir", ".git"], &[".v9r-workdir"]),
        &Vec::new()
    ));
    // A directory of that name is no opt-in.
    assert!(!is_safe_directory(&dir(&[".v9r-workdir"], &[]), &above));
    assert!(is_safe_directory(&dir(&["notes.txt"], &["notes.txt"]), &Vec::new()));
}

fn snapshot_of(files: &[(&str, &str)], dirs: &[&str]) -> SnapshotManifest {
    let mut m = SnapshotManifest::new();
    for (p, b) in files {
        m.add_file(p.to_string(), b.as_bytes());
    }
    for d in dirs {
        m.add_dir(d.to_string());
    }
    m.finish()
}

#[test]
fn rollback_restores_modified_files_and_deletes_new_files_only() {
    let m = snapshot_of(&[("keep.txt", "original\n")], &["stable-dir"]);
    let current = vec![
        present("keep.txt", "changed\n"),
        present("new-dir/file.txt", "new nested\n"),
        present("new.txt", "new\n"),
    ];
    let ops =
        selective_rollback(&m, &current, &vec![true], texts(&["new-dir", "stable-dir"])).unwrap();
    assert!(ops.contains(&RollbackOp::Restore("keep.txt".to_string())));
    assert!(ops.contains(&RollbackOp::Remove("new.txt".to_string())));
    assert!(ops.contains(&RollbackOp::Remove("new-dir/file.txt".to_string())));
    assert!(ops.contains(&RollbackOp::RemoveDir("new-dir".to_string())));
    assert!(!ops.contains(&RollbackOp::RemoveDir("stable-dir".to_string())));
}

#[test]
fn rollback_is_idempotent() {
    let m = snapshot_of(&[("a.txt", "v1\n")], &[]);
    let current = vec![present("a.txt", "v2\n"), present("b.txt", "added\n")];
    let ops = selective_rollback(&m, &current, &vec![true], Vec::new()).unwrap();
    assert_eq!(
        ops,
        vec![
            RollbackOp::Restore("a.txt".to_string()),
            RollbackOp::Remove("b.txt".to_string())
        ]
    );
    // Once they are done, there is nothing left to do.
    let current = vec![present("a.txt", "v1\n")];
    assert!(selective_rollback(&m, &current, &vec![true], Vec::new()).unwrap().is_empty());
}

#[test]
fn rollback_brings_deleted_files_back() {
    let m = snapshot_of(&[("gone.txt", "x")], &[]);
    let ops = selective_rollback(&m, &Vec::new(), &vec![false], Vec::new()).unwrap();
    assert_eq!(ops, vec![RollbackOp::Restore("gone.txt".to_string())]);
}

#[test]
fn rollback_makes_deleted_directories_again() {
    let m = snapshot_of(&[], &["d", "d/empty", "kept"]);
    let ops = selective_rollback(&m, &Vec::new(), &Vec::new(), texts(&["kept", "new"])).unwrap();
    assert_eq!(
        ops,
        vec![
            RollbackOp::RemoveDir("new".to_string()),
            RollbackOp::MakeDir("d".to_string()),
            RollbackOp::MakeDir("d/empty".to_string()),
        ]
    );
    let there = texts(&["d/empty", "kept", "d"]);
    assert!(selective_rollback(&m, &Vec::new(), &Vec::new(), there).unwrap().is_empty());
}

#[test]
fn rollback_brings_a_file_back_that_became_a_directory() {
    let m = snapshot_of(&[("f", "1"), ("g", "2")], &[]);
    let current = vec![present("f/new", ""), present("g", "2")];
    let ops = selective_rollback(&m, &current, &vec![true, true], texts(&["f"])).unwrap();
    assert_eq!(
        ops,
        vec![
            RollbackOp::Remove("f/new".to_string()),
            RollbackOp::RemoveDir("f".to_string()),
            RollbackOp::Restore("f".to_string()),
        ]
    );
}

#[test]
fn rollback_removes_the_deepest_directories_first() {
    let m = snapshot_of(&[], &[]);
    let ops = selective_rollback(&m, &Vec::new(), &Vec::new(), texts(&["a", "a/b/c", "a/b"]))
        .unwrap();
    assert_eq!(
        ops,
        vec![
            RollbackOp::RemoveDir("a/b/c".to_string()),
            RollbackOp::RemoveDir("a/b".to_string()),
            RollbackOp::RemoveDir("a".to_string())
        ]
    );
}

#[test]
fn rollback_rejects_tampered_manifest_with_dotdot() {
    let bad = SnapshotManifest {
        files: vec![SnapshotFile {
            relative_path: "../escape.txt".to_string(),
            bytes: 0,
            fnv64: 0,
        }],
        dirs: Vec::new(),
    };
    let err = selective_rollback(&bad, &Vec::new(), &vec![false], Vec::new()).unwrap_err();
    assert!(matches!(err, TransactionError::Safety(_)));
}

#[test]
fn rollback_refuses_if_workdir_became_project_root() {
    let mut tasks = empty_table();
    let (id, point) = (TaskId(1), CheckpointId(2));
    register_task(&mut tasks, id, "/w".to_string());
    let before = dir(&["file.txt"], &["file.txt"]);
    assert!(checkpoint(&tasks, id, point, &before, &Vec::new()).is_ok());
    let after = dir(&[".git", "file.txt"], &["file.txt"]);
    let err = rollback(&tasks, id, point, &after, &Vec::new(), true).unwrap_err();
    assert!(matches!(err, TransactionError::Safety(_)));
    let err = ensure_safe_directory(&after, &Vec::new()).unwrap_err();
    assert!(matches!(err, TransactionError::Safety(_)));
}

#[test]
fn checkpoints_and_rollbacks_begin_in_their_directories() {
    let mut tasks = empty_table();
    let (id, point) = (TaskId(1), CheckpointId(2));
    let (plain, above) = (dir(&[], &[]), Vec::new());
    assert_eq!(
        checkpoint(&tasks, id, point, &plain, &above).unwrap_err(),
        TransactionError::UnknownTask(id)
    );
    assert_eq!(
        rollback(&tasks, id, point, &plain, &above, true).unwrap_err(),
        TransactionError::UnknownTask(id)
    );
    register_task(&mut tasks, id, "/w".to_string());
    let plan = checkpoint(&tasks, id, point, &plain, &above).unwrap();
    assert_eq!(plan.workdir, "/w");
    assert_eq!(
        plan.staging,
        "/w/.v9r/backups/00000000-0000-0000-0000-000000000001/.tmp-00000000-0000-0000-0000-000000000002"
    );
    assert_eq!(plan.backup, backup_dir("/w", id, point));
    let inside = vec![dir(&["Cargo.toml"], &["Cargo.toml"])];
    assert!(matches!(
        checkpoint(&tasks, id, point, &plain, &inside),
        Err(TransactionError::Safety(_))
    ));

    block_task_fs(&mut tasks, id);
    assert_eq!(
        checkpoint(&tasks, id, point, &plain, &above).unwrap_err(),
        TransactionError::FilesystemBlocked(id)
    );
    let plan = rollback(&tasks, id, point, &plain, &above, true).unwrap();
    assert_eq!((plan.workdir.as_str(), plan.backup), ("/w", backup_dir("/w", id, point)));
    assert_eq!(
        rollback(&tasks, id, point, &plain, &above, false).unwrap_err(),
        TransactionError::Io {
            path: backup_dir("/w", id, point),
            source: "checkpoint not found".to_string()
        }
    );
}

#[test]
fn files_with_equal_hashes_are_not_told_apart() {
    let (a, b) = ("8yn0iYCKYHlIj4-BwPqk", "GReLUrM4wMqfg9yzV3KQ");
    assert_eq!(fnv64(a.as_bytes()), 0x4eac_0c95_5408_67e4);
    assert_eq!(fnv64(b.as_bytes()), 0x4eac_0c95_5408_67e4);
    let m = snapshot_of(&[("f", a)], &[]);
    let ops = selective_rollback(&m, &vec![present("f", b)], &vec![true], Vec::new()).unwrap();
    assert!(ops.is_empty());
}

#[test]
fn rollback_keeps_to_the_snapshot_and_the_workdir() {
    let m = snapshot_of(&[("a", "1"), ("d/b", "2")], &["d"]);
    let current = vec![present("a", "changed"), present("x", ""), present("d/y", "")];
    let ops =
        selective_rollback(&m, &current, &vec![true, false], texts(&["d", "e", "e/f"])).unwrap();
    assert_eq!(
        ops,
        vec![
            RollbackOp::Restore("a".to_string()),
            RollbackOp::Remove("x".to_string()),
            RollbackOp::Remove("d/y".to_string()),
            RollbackOp::Restore("d/b".to_string()),
            RollbackOp::RemoveDir("e/f".to_string()),
            RollbackOp::RemoveDir("e".to_string()),
        ]
    );
    for path in ["/etc/passwd", "a/../../x", "./a", ".", ""] {
        let bad = vec![CurrentFile { relative_path: path.to_string(), bytes: Vec::new() }];
        assert!(selective_rollback(&m, &bad, &vec![true, true], Vec::new()).is_err());
        assert!(selective_rollback(&m, &Vec::new(), &vec![true, true], texts(&[path])).is_err());
    }
}

#[test]
fn snapshots_leave_their_own_files_out() {
    assert_eq!(
        visit_for_backup("/w", "/w/.v9r", EntryClass::Dir).unwrap(),
        Visit::Skip
    );
    assert_eq!(
        visit_for_backup("/w", "/w/a", EntryClass::File).unwrap(),
        Visit::Take("a".to_string())
    );
    assert_eq!(
        visit_for_backup("/w", "/w/l", EntryClass::Symlink).unwrap_err().message(),
        "symbolic links are not supported in task snapshots: /w/l"
    );
    assert_eq!(visit_for_rollback("/w", "/w/.v9r", EntryClass::Dir).unwrap(), Visit::Skip);
    let m = snapshot_of(&[("b", "2"), ("a", "1")], &[]);
    assert_eq!(m.files[0].relative_path, "a");
    assert!(m.holds_file("b"));
    assert!(!m.holds_file("c"));
}

#[test]
fn blocked_tasks_stay_blocked() {
    let mut tasks = empty_table();
    let (a, b) = (TaskId(1), TaskId(2));
    assert_eq!(
        ensure_task_fs_unblocked(&tasks, a),
        Err(TransactionError::UnknownTask(a))
    );
    register_task(&mut tasks, a, "/a".to_string());
    register_task(&mut tasks, b, "/b".to_string());
    block_task_fs(&mut tasks, a);
    assert_eq!(
        ensure_task_fs_unblocked(&tasks, a),
        Err(TransactionError::FilesystemBlocked(a))
    );
    assert_eq!(ensure_task_fs_unblocked(&tasks, b), Ok(()));
    register_task(&mut tasks, a, "/again".to_string());
    assert!(ensure_task_fs_unblocked(&tasks, a).is_err());
    assert!(registered_workdir(&tasks, a, true).is_err());
    assert!(registered_workdir(&tasks, a, false).is_ok());
}

#[test]
fn checkpoints_have_their_own_directories() {
    let id = TaskId(0x0123_4567_89ab_cdef_0123_4567_89ab_cdef);
    let c = CheckpointId(1);
    assert_eq!(
        backup_dir("/w", id, c),
        "/w/.v9r/backups/01234567-89ab-cdef-0123-456789abcdef/00000000-0000-0000-0000-000000000001"
    );
    assert!(staging_dir("/w", id, c).contains(".v9r"));
    assert_eq!(id.text(), "01234567-89ab-cdef-0123-456789abcdef");
}

#[test]
fn random_identifiers_are_version_4() {
    for _ in 0..16 {
        let text = TaskId::random().text();
        assert_eq!(&text[14..15], "4");
        assert!("89ab".contains(&text[19..20]));
        let text = CheckpointId::random().text();
        assert_eq!(&text[14..15], "4");
    }
    assert_ne!(TaskId::random(), TaskId::random());
}

#[test]
fn tool_calls_count_against_the_limit() {
    let mut t = task(Manifest { max_steps: 1, ..manifest() });
    assert!(t.record_tool_call().is_ok());
    assert_eq!(t.record_tool_call().unwrap_err(), "max_steps exceeded: 1");
    assert_eq!(t.steps_used, 1);
}

#[test]
fn test_commands_are_remembered() {
    let mut t = task(Manifest { test_commands: texts(&["cargo test"]), ..manifest() });
    t.record_test_command("ls", 3);
    assert!(!t.ran_test_command);
    t.record_test_command("cargo test --all", 2);
    assert!(t.ran_test_command);
    assert_eq!(t.last_test_exit_code, Some(2));
    assert_eq!(
        t.validate_outcome(&Vec::new(), &Vec::new()).unwrap_err(),
        "last test command failed: exit_code=2"
    );
    t.record_test_command("cargo test", 0);
    assert!(t.validate_outcome(&Vec::new(), &Vec::new()).is_ok());
}

#[test]
fn every_configured_test_has_to_pass() {
    let mut t = task(Manifest { test_commands: texts(&["cargo test", " make check "]), ..manifest() });
    assert_eq!(
        t.validate_outcome(&Vec::new(), &Vec::new()).unwrap_err(),
        "test command not run: cargo test"
    );
    assert_eq!(t.pending_tests(), vec!["cargo test", " make check "]);
    t.record_test_command("cargo test", 0);
    assert_eq!(t.test_exit_codes, vec![Some(0), None]);
    assert_eq!(t.pending_tests(), vec![" make check "]);
    assert_eq!(
        t.validate_outcome(&Vec::new(), &Vec::new()).unwrap_err(),
        "test command not run:  make check "
    );
    t.record_test_command("make check", 1);
    t.record_test_command("cargo test", 0);
    assert_eq!(
        t.validate_outcome(&Vec::new(), &Vec::new()).unwrap_err(),
        "test command failed:  make check : exit_code=1"
    );
    t.record_test_command("make check", 0);
    assert!(t.validate_outcome(&Vec::new(), &Vec::new()).is_ok());
    assert!(t.pending_tests().is_empty());
}

#[test]
fn blank_test_commands_are_passed_over() {
    let mut t = task(Manifest { test_commands: texts(&[""]), ..manifest() });
    assert!(t.validate_outcome(&Vec::new(), &Vec::new()).is_ok());
    assert!(t.pending_tests().is_empty());
    t.manifest.test_commands = texts(&[" \t", "make check", ""]);
    assert_eq!(t.pending_tests(), vec!["make check"]);
    assert_eq!(
        t.validate_outcome(&Vec::new(), &Vec::new()).unwrap_err(),
        "test command not run: make check"
    );
    t.record_test_command("make check", 0);
    assert!(t.validate_outcome(&Vec::new(), &Vec::new()).is_ok());
}

#[test]
fn outcomes_need_their_artifacts() {
    let t = task(Manifest { mandatory_artifacts: texts(&["out.md"]), ..manifest() });
    let missing = vec![ArtifactRead::Missing];
    assert_eq!(
        t.validate_outcome(&vec![ArtifactProbe::Missing], &missing).unwrap_err(),
        "mandatory artifact missing: /w/out.md"
    );
    let empty = vec![ArtifactProbe::Found { is_file: true, len: 0 }];
    assert_eq!(
        t.validate_outcome(&empty, &vec![ArtifactRead::Bytes(Vec::new())]).unwrap_err(),
        "mandatory artifact missing or empty: /w/out.md"
    );
    let found = vec![ArtifactProbe::Found { is_file: true, len: 1 }];
    let hashes = t.validate_outcome(&found, &vec![ArtifactRead::Bytes(b"a".to_vec())]).unwrap();
    assert_eq!(hashes.len(), 1);
    assert_eq!(hashes[0].path, "/w/out.md");
    assert_eq!(hashes[0].bytes, 1);
    assert_eq!(hashes[0].fnv64, 0xaf63dc4c8601ec8c);
    assert!(t.validate_outcome(&found, &missing).is_err());
}

fn report(action: GuardAction) -> TaskReport {
    match action {
        GuardAction::Finish(r) => r,
        other => panic!("{other:?}"),
    }
}

fn nothing_to_examine() -> GuardEvent {
    GuardEvent::Examined { probes: Vec::new(), reads: Vec::new() }
}

#[test]
fn a_run_that_its_agent_calls_failed_is_rolled_back() {
    let mut t = task(manifest());
    let mut tasks = empty_table();
    let state = t.begin_guarded_run(&mut tasks);
    let (state, _) = t.run_with_guards(state, GuardEvent::Checkpointed(Ok(CheckpointId(5))));
    let (state, _) = t.run_with_guards(state, GuardEvent::Elapsed(0));
    t.status = TaskStatus::Failed;
    let (state, action) = t.run_with_guards(state, GuardEvent::StepDone);
    assert!(matches!(action, GuardAction::Validate));
    let (state, action) = t.run_with_guards(state, nothing_to_examine());
    assert!(matches!(action, GuardAction::Rollback(CheckpointId(5))));
    let (_, action) = t.run_with_guards(state, GuardEvent::RolledBack(Ok(())));
    let r = report(action);
    assert_eq!(r.status, TaskStatus::Failed);
    assert_eq!(r.error_type, Some(TaskErrorType::ExecutionFailed));
    assert_eq!(r.message.unwrap(), "agent finished with Failed status");
    assert!(r.artifact_hashes.is_empty());
}

#[test]
fn a_run_over_its_tokens_is_rolled_back() {
    let mut t = task(manifest());
    let mut tasks = empty_table();
    let state = t.begin_guarded_run(&mut tasks);
    let (state, _) = t.run_with_guards(state, GuardEvent::Checkpointed(Ok(CheckpointId(5))));
    let (state, _) = t.run_with_guards(state, GuardEvent::Elapsed(0));
    t.record_tokens(100);
    let (state, action) = t.run_with_guards(state, GuardEvent::StepDone);
    assert!(matches!(action, GuardAction::ReadClock));
    let (state, action) = t.run_with_guards(state, GuardEvent::Elapsed(1));
    assert!(matches!(action, GuardAction::RunStep { .. }));
    t.record_tokens(1);
    t.status = TaskStatus::Success;
    let (state, action) = t.run_with_guards(state, GuardEvent::StepDone);
    assert!(matches!(action, GuardAction::Rollback(CheckpointId(5))));
    let (_, action) = t.run_with_guards(state, GuardEvent::RolledBack(Ok(())));
    let r = report(action);
    assert_eq!(r.error_type, Some(TaskErrorType::TokenLimitExceeded));
    assert_eq!(r.message.unwrap(), "token_limit exceeded: 100");
    t.record_tokens(u64::MAX);
    assert_eq!(t.tokens_used, u64::MAX);
}

#[test]
fn a_checkpoint_keeps_its_index_apart() {
    assert_eq!(kept_file("/b/1", "index.json"), "/b/1/files/index.json");
    assert_eq!(kept_file("/b/1", "src/a.rs"), "/b/1/files/src/a.rs");
    assert_eq!(index_file("/b/1"), "/b/1/index.json");
}

#[test]
fn a_guarded_run_that_succeeds() {
    let mut t = task(manifest());
    let mut tasks = empty_table();
    let state = t.begin_guarded_run(&mut tasks);
    assert_eq!(t.status, TaskStatus::Running);
    let (state, action) =
        t.run_with_guards(state, GuardEvent::Checkpointed(Ok(CheckpointId(5))));
    assert!(matches!(action, GuardAction::ReadClock));
    let (state, action) = t.run_with_guards(state, GuardEvent::Elapsed(1_000));
    assert!(matches!(action, GuardAction::RunStep { remaining_ms: 29_000 }));
    t.status = TaskStatus::Success;
    let (state, action) = t.run_with_guards(state, GuardEvent::StepDone);
    assert!(matches!(action, GuardAction::Validate));
    let (state, action) = t.run_with_guards(state, nothing_to_examine());
    assert!(matches!(state, GuardState::Done));
    let r = report(action);
    assert_eq!(r.error_type, None);
    assert_eq!(r.status, TaskStatus::Success);
}

#[test]
fn a_guarded_run_that_fails_is_rolled_back() {
    let mut t = task(manifest());
    let mut tasks = empty_table();
    let state = t.begin_guarded_run(&mut tasks);
    let (state, _) = t.run_with_guards(state, GuardEvent::Checkpointed(Ok(CheckpointId(5))));
    let (state, _) = t.run_with_guards(state, GuardEvent::Elapsed(0));
    let (state, action) = t.run_with_guards(
        state,
        GuardEvent::StepFailed(AdapterError::Violation("write denied: /x".to_string())),
    );
    assert!(matches!(action, GuardAction::Rollback(CheckpointId(5))));
    let (_, action) = t.run_with_guards(state, GuardEvent::RolledBack(Ok(())));
    let r = report(action);
    assert_eq!(r.error_type, Some(TaskErrorType::SecurityViolation));
    assert_eq!(r.message.unwrap(), "permission violation: write denied: /x");
    assert_eq!(t.status, TaskStatus::Failed);
}

#[test]
fn a_guarded_run_out_of_time() {
    let mut t = task(manifest());
    let mut tasks = empty_table();
    let state = t.begin_guarded_run(&mut tasks);
    let (state, _) = t.run_with_guards(state, GuardEvent::Checkpointed(Ok(CheckpointId(1))));
    let (state, action) = t.run_with_guards(state, GuardEvent::Elapsed(30_000));
    assert!(matches!(action, GuardAction::Rollback(CheckpointId(1))));
    let (_, action) =
        t.run_with_guards(state, GuardEvent::RolledBack(Err("disk full".to_string())));
    let r = report(action);
    assert_eq!(r.error_type, Some(TaskErrorType::RollbackFailed));
    assert_eq!(
        r.message.unwrap(),
        "timeout_ms exceeded: 30000; rollback failed: disk full"
    );
}

#[test]
fn a_guarded_run_without_a_checkpoint_never_steps() {
    let mut t = task(manifest());
    let mut tasks = empty_table();
    let state = t.begin_guarded_run(&mut tasks);
    let (_, action) =
        t.run_with_guards(state, GuardEvent::Checkpointed(Err("unsafe".to_string())));
    let r = report(action);
    assert_eq!(r.error_type, Some(TaskErrorType::ExecutionFailed));
    assert_eq!(r.message.unwrap(), "checkpoint failed: unsafe");
}

#[test]
fn text_files_are_cut_and_binary_ones_left_out() {
    let f = read_text_file("p".to_string(), 5, 3, b"abcd".to_vec()).unwrap();
    assert_eq!(f.content, "abc");
    assert!(f.truncated);
    let f = read_text_file("p".to_string(), 2, 10, b"hi".to_vec()).unwrap();
    assert_eq!(f.content, "hi");
    assert!(!f.truncated);
    assert!(read_text_file("p".to_string(), 2, 10, vec![65, 0]).is_none());
    assert!(read_text_file("p".to_string(), 2, 10, vec![0xff, 0xfe]).is_none());
}

#[test]
fn collecting_visits_each_path_once() {
    let t = task(Manifest { allow_read: texts(&["src", "./src"]), ..manifest() });
    let mut c = FileCollector::start(&t);
    assert_eq!(c.next_path().unwrap(), "/w/src");
    c.push_path("/w/src/a.rs".to_string());
    c.push_path("/w/src/./a.rs".to_string());
    assert_eq!(c.next_path().unwrap(), "/w/src/a.rs");
    c.add_file(FileSnapshot {
        path: "/w/src/a.rs".to_string(),
        content: "a".to_string(),
        truncated: false,
    });
    assert!(c.next_path().is_none());
    let files = c.finish();
    assert_eq!(files.len(), 1);
    assert_eq!(classify_path("/w/trace.jsonl", EntryClass::File), CollectStep::Skip);
    assert_eq!(classify_path("/w/a", EntryClass::File), CollectStep::ReadFile);
    assert_eq!(classify_path("/w/d", EntryClass::Dir), CollectStep::ReadDir);
    assert_eq!(classify_path("/w/l", EntryClass::Symlink), CollectStep::Skip);
    assert!(t.xml_snapshot(files, Vec::new()).contains("/w/src/a.rs"));
}

#[test]
fn traces_show_their_last_lines() {
    assert_eq!(text_lines("a\r\nb\n\nc"), "a\r\nb\n\nc".lines().collect::<Vec<_>>());
    assert_eq!(text_lines(""), Vec::<String>::new());
    assert_eq!(recent_events("1\n2\n3\n", 2), vec!["2", "3"]);
    assert_eq!(recent_events("1\n", 5), vec!["1"]);
}

#[test]
fn events_of_the_start_and_the_handover() {
    match TaskEvent::task_started(manifest()) {
        TaskEvent::TaskStarted { timestamp, manifest: m } => {
            assert!(timestamp.secs > 1_600_000_000);
            assert!(timestamp.nanos < 1_000_000_000);
            assert_eq!(m, manifest());
        }
        other => panic!("{other:?}"),
    }
    match TaskEvent::task_handover_received(TaskId(3)) {
        TaskEvent::TaskHandoverReceived { source_task_id, .. } => {
            assert_eq!(source_task_id, TaskId(3))
        }
        other => panic!("{other:?}"),
    }
}

#[test]
fn messages_of_tasks() {
    assert_eq!(
        TransactionError::UnknownTask(TaskId(0)).message(),
        "unknown task: 00000000-0000-0000-0000-000000000000"
    );
    assert_eq!(
        ContextError::Io { path: "p".to_string(), source: "s".to_string() }.message(),
        "context io at p: s"
    );
    assert_eq!(BundleError::Serialize("x".to_string()).message(), "bundle serialization: x");
    assert!(TraceError::Serialize("x".to_string()).message().contains("x"));
    assert_eq!(TaskStatus::Verifying.text(), "Verifying");
}
