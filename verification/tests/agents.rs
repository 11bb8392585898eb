use bytes::Bytes;
use v9r::agent_manifest::{
    validate_mounts, AgentSpec, Manifest, ManifestError, MountModeSpec, MountSpec, TriggerSpec,
    TrustLevel,
};
use v9r::cap::MountMode;
use v9r::handlers::{
    agent_place, build_view_from_manifest, check_manifest, commit_agent, manifest_text,
    prepare_agent, store_output, triggered_agent, AgentTriggerHandler, Handler, LoadError,
    OutputStep,
};
use v9r::orchestrator::{found_event, host_to_vfs_path, LoadScan, ScanError};
use v9r::registry::{AgentRecord, AgentRegistry};
use v9r::runtime::AgentId;
use v9r::vfs::{ReadStep, Vfs};
use v9r::vfs_path::{Capability, CapabilityId, VfsError, VfsPath};
use v9r::watch::{PathPattern, WatchTable};

fn p(s: &str) -> VfsPath {
    VfsPath::parse(s).unwrap()
}

fn text_at(v: &toml::Value, key: &str) -> Option<String> {
    v.get(key).and_then(|x| x.as_str()).map(|x| x.to_string())
}

fn tables_at(v: &toml::Value, key: &str) -> Vec<toml::Value> {
    v.get(key).and_then(|x| x.as_array()).cloned().unwrap_or_default()
}

/// The manifest that a document holds which is known to be one.
fn manifest_of(text: &str) -> Manifest {
    let v: toml::Value = toml::from_str(text).unwrap();
    let agent = v.get("agent").unwrap();
    Manifest {
        agent: AgentSpec {
            name: text_at(agent, "name").unwrap(),
            trust: match text_at(agent, "trust").as_deref() {
                None => TrustLevel::default(),
                Some("user") => TrustLevel::User,
                Some("system") => TrustLevel::System,
                Some(other) => panic!("{other}"),
            },
            module: text_at(agent, "module"),
        },
        mounts: tables_at(&v, "mounts")
            .iter()
            .map(|m| MountSpec {
                virtual_path: text_at(m, "virtual").unwrap(),
                real_path: text_at(m, "real").unwrap(),
                mode: match text_at(m, "mode").as_deref() {
                    None => MountModeSpec::default(),
                    Some("ro") => MountModeSpec::Ro,
                    Some("rw") => MountModeSpec::Rw,
                    Some(other) => panic!("{other}"),
                },
            })
            .collect(),
        triggers: tables_at(&v, "triggers")
            .iter()
            .map(|t| TriggerSpec {
                path: text_at(t, "path").unwrap(),
                export: text_at(t, "export").unwrap(),
            })
            .collect(),
    }
}

const ECHO_MANIFEST: &str = r#"
[agent]
name = "echo"
trust = "user"

[[mounts]]
virtual = "/"
real = "/agents/echo"
mode = "rw"

[[mounts]]
virtual = "/tools"
real = "/tools"
mode = "ro"

[[triggers]]
path = "input"
export = "on_input"
"#;

#[test]
fn parse_minimal() {
    let m = manifest_of(ECHO_MANIFEST);
    assert_eq!(m.agent.name, "echo");
    assert_eq!(m.agent.trust, TrustLevel::User);
    assert_eq!(m.mounts.len(), 2);
    assert_eq!(m.triggers.len(), 1);
    assert_eq!(m.triggers[0].export, "on_input");
}

#[test]
fn validate_user_cant_mount_sys() {
    let toml = r#"
[agent]
name = "evil"
trust = "user"

[[mounts]]
virtual = "/sys"
real = "/sys"
mode = "rw"
"#;
    let m = manifest_of(toml);
    let err = m.validate("evil").unwrap_err();
    assert!(matches!(err, ManifestError::UntrustedMount { .. }));
}

#[test]
fn validate_user_cant_mount_other_agents_dir() {
    let toml = r#"
[agent]
name = "alice"
trust = "user"

[[mounts]]
virtual = "/peek"
real = "/agents/bob"
mode = "ro"
"#;
    let m = manifest_of(toml);
    let err = m.validate("alice").unwrap_err();
    assert!(matches!(err, ManifestError::UntrustedMount { .. }));
}

#[test]
fn validate_system_can_mount_sys() {
    let toml = r#"
[agent]
name = "kern"
trust = "system"

[[mounts]]
virtual = "/sys"
real = "/sys"
mode = "rw"
"#;
    let m = manifest_of(toml);
    m.validate("kern").unwrap();
}

#[test]
fn validate_name_mismatch() {
    let m = manifest_of(ECHO_MANIFEST);
    let err = m.validate("not-echo").unwrap_err();
    assert!(matches!(err, ManifestError::NameMismatch { .. }));
}

#[test]
fn validate_bad_trigger_path() {
    let toml = r#"
[agent]
name = "x"
trust = "user"

[[triggers]]
path = "sub/dir"
export = "on_x"
"#;
    let m = manifest_of(toml);
    let err = m.validate("x").unwrap_err();
    assert!(matches!(err, ManifestError::BadTriggerPath { .. }));
}

#[test]
fn defaults_of_a_manifest() {
    let m = manifest_of("[agent]\nname = \"a\"\n");
    assert!(m.mounts.is_empty() && m.triggers.is_empty());
    assert!(m.validate("a").is_ok());
    assert_eq!(TrustLevel::default(), TrustLevel::User);
    assert_eq!(MountModeSpec::default(), MountModeSpec::Rw);
    assert_eq!(MountMode::from(MountModeSpec::Ro), MountMode::Ro);
    assert_eq!(MountMode::from(MountModeSpec::Rw), MountMode::Rw);
}

fn mount(real: &str) -> Vec<MountSpec> {
    vec![MountSpec {
        virtual_path: "/x".to_string(),
        real_path: real.to_string(),
        mode: MountModeSpec::Rw,
    }]
}

#[test]
fn users_mount_their_own_places_only() {
    for ok in ["/agents/a", "/agents/a/sub", "/tools", "/tools/x", "/shared", "/agents/a/../a"] {
        assert!(validate_mounts("a", TrustLevel::User, &mount(ok)).is_ok(), "{ok}");
    }
    for bad in ["/", "/agents", "/agents/ab", "/toolsy", "/agents/a/../b", "/sys"] {
        match validate_mounts("a", TrustLevel::User, &mount(bad)) {
            Err(ManifestError::UntrustedMount { agent, trust, real }) => {
                assert_eq!(agent, "a");
                assert_eq!(trust, TrustLevel::User);
                assert_eq!(real, bad);
            }
            other => panic!("{bad}: {other:?}"),
        }
    }
    assert!(matches!(
        validate_mounts("a", TrustLevel::User, &mount("/..")),
        Err(ManifestError::Vfs(VfsError::InvalidPath(_)))
    ));
    assert!(validate_mounts("a", TrustLevel::System, &mount("/sys")).is_ok());
    assert!(matches!(
        validate_mounts("../..", TrustLevel::User, &[]),
        Err(ManifestError::Vfs(VfsError::InvalidPath(_)))
    ));
}

#[test]
fn manifest_messages() {
    let m = manifest_of(ECHO_MANIFEST);
    assert_eq!(
        m.validate("x\"y").unwrap_err().message(),
        "name in manifest (\"echo\") does not match agent dir (\"x\\\"y\")"
    );
    assert_eq!(
        ManifestError::BadTriggerPath { path: "..".to_string() }.message(),
        "invalid trigger path \"..\": must be a single non-empty segment"
    );
    assert_eq!(
        ManifestError::UntrustedMount {
            agent: "a".to_string(),
            trust: TrustLevel::User,
            real: "/sys".to_string()
        }
        .message(),
        "agent \"a\" (User) is not allowed to mount real path \"/sys\""
    );
    assert_eq!(
        ManifestError::Vfs(VfsError::NotFound).message(),
        "invalid path: path not found"
    );
    assert_eq!(ManifestError::Utf8("x".to_string()).message(), "manifest is not utf-8: x");
}

#[test]
fn pattern_wildcard_matches() {
    let p = PathPattern::parse("/agents/*/manifest.toml").unwrap();
    assert!(p.matches(&VfsPath::parse("/agents/echo/manifest.toml").unwrap()));
    assert!(p.matches(&VfsPath::parse("/agents/foo/manifest.toml").unwrap()));
    assert!(!p.matches(&VfsPath::parse("/agents/echo/input").unwrap()));
    assert!(!p.matches(&VfsPath::parse("/agents/manifest.toml").unwrap()));
}

#[test]
fn pattern_exact_matches() {
    let p = PathPattern::exact(&VfsPath::parse("/agents/echo/input").unwrap());
    assert!(p.matches(&VfsPath::parse("/agents/echo/input").unwrap()));
    assert!(!p.matches(&VfsPath::parse("/agents/foo/input").unwrap()));
}

#[test]
fn patterns_take_whole_segments_only() {
    match PathPattern::parse("/a/fo*o/b*") {
        Err(VfsError::InvalidPath(m)) => assert_eq!(m, "partial wildcards not supported: fo*o"),
        other => panic!("{other:?}"),
    }
    let p = PathPattern::parse("//a/*//b/").unwrap();
    assert_eq!(p.specificity(), 2);
    assert_eq!(PathPattern::parse("").unwrap().specificity(), 0);
}

#[test]
fn most_specific_wins() {
    let mut wt: WatchTable<u32> = WatchTable::new();
    wt.register("wild".to_string(), PathPattern::parse("/agents/*/input").unwrap(), 1);
    wt.register("exact".to_string(), PathPattern::exact(&p("/agents/echo/input")), 2);
    assert_eq!(wt.match_path(&p("/agents/echo/input")), Some(&2));
    assert_eq!(wt.match_path(&p("/agents/other/input")), Some(&1));
    assert_eq!(wt.match_path(&p("/agents")), None);
}

#[test]
fn the_later_of_two_equal_routes_wins() {
    let mut wt: WatchTable<u32> = WatchTable::default();
    wt.register("a".to_string(), PathPattern::parse("/*/x").unwrap(), 1);
    wt.register("b".to_string(), PathPattern::parse("/y/*").unwrap(), 2);
    assert_eq!(wt.match_path(&p("/y/x")), Some(&2));
}

#[test]
fn register_replaces_same_label() {
    let mut wt: WatchTable<u32> = WatchTable::new();
    wt.register("x".to_string(), PathPattern::parse("/a").unwrap(), 1);
    wt.register("x".to_string(), PathPattern::parse("/b").unwrap(), 2);
    assert_eq!(wt.labels(), vec!["x".to_string()]);
    assert!(wt.match_path(&VfsPath::parse("/a").unwrap()).is_none());
    assert!(wt.match_path(&VfsPath::parse("/b").unwrap()).is_some());
    assert!(wt.unregister("x"));
    assert!(!wt.unregister("x"));
}

#[test]
fn unregister_prefix() {
    let mut wt: WatchTable<u32> = WatchTable::new();
    wt.register(
        "agent:echo:input".to_string(),
        PathPattern::parse("/agents/echo/input").unwrap(),
        1,
    );
    wt.register(
        "agent:echo:ctl".to_string(),
        PathPattern::parse("/agents/echo/ctl").unwrap(),
        2,
    );
    wt.register(
        "manifest".to_string(),
        PathPattern::parse("/agents/*/manifest.toml").unwrap(),
        3,
    );
    let removed = wt.unregister_prefix("agent:echo:");
    assert_eq!(removed, 2);
    assert_eq!(wt.labels(), vec!["manifest".to_string()]);
}

fn record(name: &str) -> AgentRecord {
    AgentRecord {
        manifest: manifest_of(&format!("[agent]\nname = \"{name}\"\n")),
        agent_dir: p("/agents").join(name),
        log_buffer: 1,
    }
}

#[test]
fn the_registry_holds_each_agent_once() {
    let mut r = AgentRegistry::new();
    r.upsert(AgentId::new("a".to_string()), record("a"));
    r.upsert(AgentId::new("b".to_string()), record("b"));
    let mut again = record("a");
    again.log_buffer = 9;
    r.upsert(AgentId::new("a".to_string()), again);
    let mut names = r.names();
    names.sort();
    assert_eq!(names, vec!["a", "b"]);
    assert_eq!(r.get(&AgentId::new("a".to_string())).unwrap().log_buffer, 9);
    assert!(r.remove(&AgentId::new("a".to_string())).is_some());
    assert!(r.get(&AgentId::new("a".to_string())).is_none());
    assert!(r.remove(&AgentId::new("zzz".to_string())).is_none());
    assert!(AgentRegistry::default().names().is_empty());
}

#[test]
fn agents_are_named_after_their_directory() {
    let place = agent_place(&p("/agents/echo/manifest.toml"), "manifest").unwrap();
    assert_eq!(place.dir, p("/agents/echo"));
    assert_eq!(place.name, "echo");
    assert_eq!(agent_place(&p("/x"), "manifest").unwrap_err(), "agent dir has no name");
    assert_eq!(
        agent_place(&VfsPath::root(), "trigger").unwrap_err(),
        "trigger has no parent dir"
    );
}

#[test]
fn manifests_are_checked_before_anything_is_made() {
    assert_eq!(manifest_text(b"name = \"\xc3\xa4\"".to_vec()).unwrap(), "name = \"\u{e4}\"");
    let err = manifest_text(vec![0xff]).unwrap_err();
    assert!(matches!(err, LoadError::Utf8(_)));
    assert!(err.message().starts_with("manifest not utf-8: invalid utf-8"));
    assert!(check_manifest(Ok(manifest_of(ECHO_MANIFEST)), "echo").is_ok());
    assert!(matches!(
        check_manifest(Ok(manifest_of(ECHO_MANIFEST)), "other"),
        Err(LoadError::Manifest(ManifestError::NameMismatch { .. }))
    ));
    match check_manifest(Err("line 1".to_string()), "other") {
        Err(LoadError::Manifest(ManifestError::Parse(why))) => assert_eq!(why, "line 1"),
        other => panic!("{other:?}"),
    }
    assert_eq!(
        ManifestError::Parse("line 1".to_string()).message(),
        "toml parse error: line 1"
    );
    assert_eq!(LoadError::Vfs(VfsError::IsDir).message(), "is a directory");
}

#[test]
fn taking_an_agent_up() {
    let mut vfs = Vfs::new();
    vfs.mkdir_p(&p("/agents/echo")).unwrap();
    vfs.create_file(&p("/agents/echo/input"), Bytes::from_static(b"kept")).unwrap();
    let text = ECHO_MANIFEST.replace("trust = \"user\"", "module = \"bin/echo.wasm\"");
    let m = check_manifest(Ok(manifest_of(&text)), "echo").unwrap();
    let module = prepare_agent(&mut vfs, &p("/agents/echo"), &m, 77).unwrap();
    assert_eq!(module.unwrap(), p("/agents/echo/bin/echo.wasm"));
    let cap = Capability::root();
    match vfs.read(&cap, &p("/agents/echo/input")).unwrap() {
        ReadStep::File(b) => assert_eq!(&b[..], b"kept"),
        other => panic!("{other:?}"),
    }
    assert!(matches!(vfs.read(&cap, &p("/agents/echo/output")), Ok(ReadStep::File(_))));
    assert!(matches!(
        vfs.read(&cap, &p("/agents/echo/log")),
        Ok(ReadStep::Synthetic { handle: 77, .. })
    ));

    let mut registry = AgentRegistry::new();
    let mut watch: WatchTable<Handler> = WatchTable::new();
    watch.register(
        "manifest".to_string(),
        PathPattern::parse("/agents/*/manifest.toml").unwrap(),
        Handler::Manifest,
    );
    watch.register(
        "agent:echo:old".to_string(),
        PathPattern::parse("/agents/echo/old").unwrap(),
        Handler::Trigger(AgentTriggerHandler { export: "gone".to_string() }),
    );
    let place = agent_place(&p("/agents/echo/manifest.toml"), "manifest").unwrap();
    let failed = commit_agent(
        place,
        m.clone(),
        78,
        Err(VfsError::Synthetic("no module".to_string())),
        &mut registry,
        &mut watch,
    );
    assert!(matches!(failed, Err(VfsError::Synthetic(_))));
    assert!(registry.names().is_empty());
    assert_eq!(watch.labels(), vec!["manifest", "agent:echo:old"]);

    let place = agent_place(&p("/agents/echo/manifest.toml"), "manifest").unwrap();
    commit_agent(place, m, 77, Ok(()), &mut registry, &mut watch).unwrap();
    assert_eq!(watch.labels(), vec!["manifest", "agent:echo:input"]);
    match watch.match_path(&p("/agents/echo/input")) {
        Some(Handler::Trigger(t)) => assert_eq!(t.export, "on_input"),
        other => panic!("{other:?}"),
    }
    assert!(watch.match_path(&p("/agents/echo/old")).is_none());
    assert!(matches!(
        watch.match_path(&p("/agents/echo/manifest.toml")),
        Some(Handler::Manifest)
    ));

    let place = agent_place(&p("/agents/echo/input"), "trigger").unwrap();
    let rec = triggered_agent(&registry, &place).unwrap();
    assert_eq!(rec.log_buffer, 77);
    let view = build_view_from_manifest(&rec.manifest).unwrap();
    assert!(!view.can_access_network());
    assert_eq!(view.resolve(&p("/x")).unwrap().0, p("/agents/echo/x"));
    let nobody = agent_place(&p("/agents/nobody/input"), "trigger").unwrap();
    assert_eq!(
        triggered_agent(&registry, &nobody).unwrap_err(),
        "agent nobody not in registry"
    );
}

#[test]
fn agents_that_cannot_be_prepared() {
    let mut vfs = Vfs::new();
    let m = check_manifest(Ok(manifest_of(ECHO_MANIFEST)), "echo").unwrap();
    assert!(matches!(
        prepare_agent(&mut vfs, &p("/agents/echo"), &m, 1),
        Err(VfsError::NotFound)
    ));
    vfs.mkdir_p(&p("/agents/echo/log")).unwrap();
    assert!(matches!(
        prepare_agent(&mut vfs, &p("/agents/echo"), &m, 1),
        Err(VfsError::IsDir)
    ));
    let mut vfs = Vfs::new();
    vfs.mkdir_p(&p("/agents/echo")).unwrap();
    let text = ECHO_MANIFEST.replace("trust = \"user\"", "module = \"../../x\"");
    let m = check_manifest(Ok(manifest_of(&text)), "echo").unwrap();
    match prepare_agent(&mut vfs, &p("/agents/echo"), &m, 1) {
        Err(VfsError::InvalidPath(why)) => assert_eq!(why, "path escapes root: ../../x"),
        other => panic!("{other:?}"),
    }
}

#[test]
fn only_the_system_and_the_gateway_reach_the_network() {
    for (text, network) in [
        ("[agent]\nname = \"a\"\n", false),
        ("[agent]\nname = \"a\"\ntrust = \"system\"\n", true),
        ("[agent]\nname = \"llm_gateway\"\n", true),
    ] {
        let m = manifest_of(text);
        assert_eq!(build_view_from_manifest(&m).unwrap().can_access_network(), network);
    }
    let m = manifest_of("[agent]\nname = \"a\"\n[[mounts]]\nvirtual = \"/..\"\nreal = \"/x\"\n");
    assert!(matches!(build_view_from_manifest(&m), Err(VfsError::InvalidPath(_))));
}

#[test]
fn outputs_are_written_or_made() {
    let mut vfs = Vfs::new();
    vfs.mkdir_p(&p("/agents/echo")).unwrap();
    match store_output(&mut vfs, &p("/agents/echo"), b"one".to_vec()).unwrap() {
        OutputStep::Stored(Some(ev)) => assert_eq!(ev.bytes_len, 3),
        other => panic!("{other:?}"),
    }
    match store_output(&mut vfs, &p("/agents/echo"), b"four".to_vec()).unwrap() {
        OutputStep::Stored(Some(ev)) => {
            assert_eq!(ev.path, p("/agents/echo/output"));
            assert_ne!(ev.node, vfs.root_id());
        }
        other => panic!("{other:?}"),
    }
    match vfs.read(&Capability::root(), &p("/agents/echo/output")).unwrap() {
        ReadStep::File(b) => assert_eq!(&b[..], b"four"),
        other => panic!("{other:?}"),
    }
    assert!(matches!(
        store_output(&mut vfs, &p("/agents/nobody"), Vec::new()),
        Err(VfsError::NotFound)
    ));
}

#[test]
fn the_scan_finds_manifests() {
    let mut scan = LoadScan::start(p("/agents"), "/host/agents");
    assert_eq!(scan.next_dir().unwrap(), "/host/agents");
    assert!(scan.visit("/host/agents/a", true).unwrap().is_none());
    assert!(scan.visit("/host/agents/b", true).unwrap().is_none());
    assert!(scan.visit("/host/agents/readme.md", false).unwrap().is_none());
    assert_eq!(scan.next_dir().unwrap(), "/host/agents/b");
    assert_eq!(
        scan.visit("/host/agents/b/manifest.toml", false).unwrap().unwrap(),
        p("/agents/b/manifest.toml")
    );
    assert!(matches!(
        scan.visit("/elsewhere/manifest.toml", false),
        Err(ScanError::Outside)
    ));
    assert_eq!(scan.next_dir().unwrap(), "/host/agents/a");
    assert!(scan.next_dir().is_none());
    assert_eq!(ScanError::Outside.message(), "prefix not found");
}

#[test]
fn host_paths_get_places_in_the_filesystem() {
    assert_eq!(host_to_vfs_path(&p("/r"), "/h", "/h/x/y").unwrap(), p("/r/x/y"));
    assert_eq!(host_to_vfs_path(&p("/r"), "/h", "/h").unwrap(), p("/r"));
    assert_eq!(host_to_vfs_path(&p("/r").join(".."), "/h", "/h/../x").unwrap(), p("/r/x"));
    assert!(matches!(host_to_vfs_path(&p("/r"), "/h", "/hx"), Err(ScanError::Outside)));
    let vfs = Vfs::new();
    let ev = found_event(p("/a"), vfs.root_id(), 4);
    assert_eq!(ev.node, vfs.root_id());
    assert_eq!(ev.writer, CapabilityId(0));
}
