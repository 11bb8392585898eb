use bytes::Bytes;
use v9r::cap::{HostCapability, MountMode, NamespaceView};
use v9r::vfs::{
    accept_host_path, merge_listing, outcome_event, DirEntry, EntryKind, HostListing, ReadStep,
    StatStep, Vfs, WriteOutcome, WriteStep,
};
use v9r::vfs_path::{Capability, CapabilityId, VfsError, VfsPath};

fn p(s: &str) -> VfsPath {
    VfsPath::parse(s).unwrap()
}

fn fixture() -> Vfs {
    let mut vfs = Vfs::new();
    for d in ["/agents/echo", "/agents/other", "/tools", "/secret"] {
        vfs.mkdir_p(&p(d)).unwrap();
    }
    vfs.create_file(&p("/agents/echo/input"), Bytes::new()).unwrap();
    vfs.create_file(&p("/agents/echo/output"), Bytes::new()).unwrap();
    vfs.create_file(&p("/tools/grep"), Bytes::from_static(b"grep-binary")).unwrap();
    vfs.create_file(&p("/secret/key"), Bytes::from_static(b"shh")).unwrap();
    vfs
}

fn echo_view() -> NamespaceView {
    NamespaceView::builder(Capability::root())
        .mount(VfsPath::root(), p("/agents/echo"), MountMode::Rw)
        .mount(p("/tools"), p("/tools"), MountMode::Ro)
        .build()
}

fn contents(step: ReadStep) -> Vec<u8> {
    match step {
        ReadStep::File(b) => b.to_vec(),
        other => panic!("{other:?}"),
    }
}

fn names(entries: &[DirEntry]) -> Vec<&str> {
    entries.iter().map(|e| e.name.as_str()).collect()
}

#[test]
fn host_capabilities_are_explicit() {
    let user = NamespaceView::builder(Capability::root()).build();
    let system = NamespaceView::builder(Capability::root())
        .host_capability(HostCapability::CanAccessNetwork)
        .build();

    assert!(!user.can_access_network());
    assert!(system.can_access_network());
}

#[test]
fn resolve_root_mount() {
    let (real, mode) = echo_view().resolve(&p("/input")).unwrap();
    assert_eq!(real, p("/agents/echo/input"));
    assert_eq!(mode, MountMode::Rw);
}

#[test]
fn resolve_longest_prefix() {
    let (real, mode) = echo_view().resolve(&p("/tools/grep")).unwrap();
    assert_eq!(real, p("/tools/grep"));
    assert_eq!(mode, MountMode::Ro);
}

#[test]
fn resolve_root_itself() {
    let (real, _) = echo_view().resolve(&VfsPath::root()).unwrap();
    assert_eq!(real, p("/agents/echo"));
}

#[test]
fn unmounted_path_denied() {
    let view = NamespaceView::builder(Capability::root())
        .mount(p("/tools"), p("/tools"), MountMode::Ro)
        .build();
    let err = view.resolve(&p("/secret/key")).unwrap_err();
    assert!(matches!(err, VfsError::PermissionDenied));
}

#[test]
fn write_to_ro_mount_denied() {
    let mut vfs = fixture();
    let err = echo_view()
        .write(&mut vfs, &p("/tools/grep"), Bytes::from_static(b"hax"))
        .unwrap_err();
    assert!(matches!(err, VfsError::PermissionDenied));
}

#[test]
fn read_through_view_round_trips() {
    let mut vfs = fixture();
    vfs.write(&Capability::root(), &p("/agents/echo/input"), Bytes::from_static(b"hello")).unwrap();
    let step = echo_view().read(&vfs, &p("/input")).unwrap();
    assert_eq!(contents(step), b"hello");
}

#[test]
fn list_through_view() {
    let vfs = fixture();
    let entries = echo_view().list(&vfs, &VfsPath::root(), HostListing::Nowhere).unwrap();
    assert_eq!(names(&entries), vec!["input", "output"]);
}

#[test]
fn agent_cannot_reach_sibling() {
    let vfs = fixture();
    // The real path would be /agents/echo/agents/other, which is nowhere: not
    // in memory, and no directory of the host is mounted.
    let step = echo_view().read(&vfs, &p("/agents/other")).unwrap();
    assert!(matches!(step, ReadStep::Host));
    let (real, _) = echo_view().resolve(&p("/agents/other")).unwrap();
    assert_eq!(real, p("/agents/echo/agents/other"));
    assert!(vfs.host_path_for(&real).is_none());
}

#[test]
fn the_last_of_two_equal_mounts_wins() {
    let view = NamespaceView::builder(Capability::root())
        .mount(p("/a"), p("/first"), MountMode::Rw)
        .mount(p("/a"), p("/second"), MountMode::Ro)
        .build();
    let (real, mode) = view.resolve(&p("/a/x")).unwrap();
    assert_eq!(real, p("/second/x"));
    assert_eq!(mode, MountMode::Ro);
}

#[test]
fn climbing_segments_lead_nowhere() {
    let (real, _) = echo_view().resolve(&p("/x").join("..")).unwrap();
    assert_eq!(real, p("/agents/echo/x"));
}

#[test]
fn views_tell_what_they_hold() {
    let view = echo_view();
    assert_eq!(view.mounts().len(), 2);
    assert_eq!(view.mounts()[1].real_path, p("/tools"));
    assert_eq!(view.capability().id(), CapabilityId(0));
    assert!(!view.has_host_capability(HostCapability::CanAccessNetwork));
    assert!(MountMode::Ro.allows_read() && MountMode::Rw.allows_read());
    assert!(!MountMode::Ro.allows_write() && MountMode::Rw.allows_write());
}

#[test]
fn mkdir_and_list() {
    let mut vfs = Vfs::new();
    vfs.mkdir_p(&p("/agents/echo")).unwrap();
    let entries = vfs.list(&p("/agents"), HostListing::Nowhere).unwrap();
    assert_eq!(entries.len(), 1);
    assert_eq!(entries[0].name, "echo");
    assert_eq!(entries[0].kind, EntryKind::Dir);
}

#[test]
fn write_emits_event() {
    let mut vfs = Vfs::new();
    let cap = Capability::root();
    vfs.mkdir_p(&p("/a")).unwrap();
    let made = vfs.create_file(&p("/a/f"), Bytes::new()).unwrap();
    assert!(made.event.is_none());

    match vfs.write(&cap, &p("/a/f"), Bytes::from_static(b"hi")).unwrap() {
        WriteStep::Stored(ev) => {
            assert_eq!(ev.path, p("/a/f"));
            assert_eq!(ev.bytes_len, 2);
            assert_eq!(ev.node, made.node);
            assert_eq!(ev.writer, CapabilityId(0));
        }
        other => panic!("{other:?}"),
    }
}

#[test]
fn creating_a_file_with_contents_is_announced() {
    let mut vfs = Vfs::new();
    let made = vfs.create_file(&p("/f"), Bytes::from_static(b"abc")).unwrap();
    let ev = made.event.unwrap();
    assert_eq!(ev.path, p("/f"));
    assert_eq!(ev.bytes_len, 3);
    assert_eq!(ev.writer, CapabilityId(0));
}

#[test]
fn a_read_gives_back_what_was_written() {
    let mut vfs = fixture();
    let cap = Capability::new(9);
    vfs.write(&cap, &p("/secret/key"), Bytes::from_static(b"new")).unwrap();
    assert_eq!(contents(vfs.read(&cap, &p("/secret/key")).unwrap()), b"new");
    assert_eq!(contents(vfs.read(&cap, &p("/tools/grep")).unwrap()), b"grep-binary");
}

#[test]
fn refusals_of_the_filesystem() {
    let mut vfs = fixture();
    let cap = Capability::root();
    assert!(matches!(vfs.read(&cap, &p("/tools")), Err(VfsError::IsDir)));
    assert!(matches!(vfs.read(&cap, &p("/tools/grep/x")), Err(VfsError::NotADir)));
    assert!(matches!(vfs.read(&cap, &p("/nowhere")), Ok(ReadStep::Host)));
    assert!(matches!(
        vfs.write(&cap, &p("/nowhere"), Bytes::new()),
        Err(VfsError::NotFound)
    ));
    assert!(matches!(vfs.write(&cap, &p("/tools"), Bytes::new()), Err(VfsError::IsDir)));
    assert!(matches!(
        vfs.create_file(&p("/tools/grep"), Bytes::new()),
        Err(VfsError::AlreadyExists)
    ));
    assert!(matches!(vfs.create_file(&p("/no/file"), Bytes::new()), Err(VfsError::NotFound)));
    assert!(matches!(
        vfs.create_file(&p("/tools/grep/x"), Bytes::new()),
        Err(VfsError::NotADir)
    ));
    match vfs.create_file(&VfsPath::root(), Bytes::new()) {
        Err(VfsError::InvalidPath(m)) => assert_eq!(m, "/"),
        other => panic!("{other:?}"),
    }
    assert!(matches!(vfs.mkdir_p(&p("/tools/grep/x")), Err(VfsError::NotADir)));
    assert!(matches!(
        vfs.list(&p("/tools/grep"), HostListing::Nowhere),
        Err(VfsError::NotADir)
    ));
    assert!(matches!(vfs.list(&p("/void"), HostListing::Nowhere), Err(VfsError::NotFound)));
    assert!(matches!(vfs.create_synthetic(&p("/tools/grep"), 1), Err(VfsError::AlreadyExists)));
    assert!(matches!(vfs.upsert_synthetic(&p("/tools"), 1), Err(VfsError::IsDir)));
}

#[test]
fn synthetic_files_are_handed_to_their_code() {
    let mut vfs = fixture();
    let cap = Capability::new(3);
    vfs.create_synthetic(&p("/agents/echo/ctl"), 42).unwrap();
    match vfs.read(&cap, &p("/agents/echo/ctl")).unwrap() {
        ReadStep::Synthetic { handle, ctx } => {
            assert_eq!(handle, 42);
            assert_eq!(ctx.path, p("/agents/echo/ctl"));
            assert_eq!(ctx.writer, CapabilityId(3));
        }
        other => panic!("{other:?}"),
    }
    vfs.upsert_synthetic(&p("/agents/echo/ctl"), 43).unwrap();
    match vfs.write(&cap, &p("/agents/echo/ctl"), Bytes::from_static(b"go")).unwrap() {
        WriteStep::Synthetic { handle, ctx, data } => {
            assert_eq!(handle, 43);
            assert_eq!(ctx.path, p("/agents/echo/ctl"));
            assert_eq!(&data[..], b"go");
        }
        other => panic!("{other:?}"),
    }
}

#[test]
fn stat_tells_what_stands_there() {
    let vfs = fixture();
    match vfs.stat(&p("/tools/grep")).unwrap() {
        StatStep::Known(s) => {
            assert_eq!(s.kind, EntryKind::File);
            assert_eq!(s.len, 11);
        }
        other => panic!("{other:?}"),
    }
    match vfs.stat(&p("/tools")).unwrap() {
        StatStep::Known(s) => assert_eq!(s.kind, EntryKind::Dir),
        other => panic!("{other:?}"),
    }
    assert!(matches!(vfs.stat(&p("/nope")), Ok(StatStep::Host)));
}

#[test]
fn listings_are_sorted_by_name() {
    let mut vfs = Vfs::new();
    for n in ["/b", "/a", "/c"] {
        vfs.create_file(&p(n), Bytes::new()).unwrap();
    }
    let entries = vfs.list(&VfsPath::root(), HostListing::Nowhere).unwrap();
    assert_eq!(names(&entries), vec!["a", "b", "c"]);
}

#[test]
fn host_entries_fill_the_gaps() {
    let base = vec![DirEntry { name: "b".to_string(), kind: EntryKind::Dir }];
    let host = HostListing::Dir(vec![
        DirEntry { name: "c".to_string(), kind: EntryKind::File },
        DirEntry { name: "b".to_string(), kind: EntryKind::File },
        DirEntry { name: "a".to_string(), kind: EntryKind::File },
    ]);
    let merged = merge_listing(base, host).unwrap();
    assert_eq!(names(&merged), vec!["a", "b", "c"]);
    assert_eq!(merged[1].kind, EntryKind::Dir);
}

#[test]
fn the_deepest_host_mount_covers_a_path() {
    let mut vfs = Vfs::new();
    vfs.mount_host(&p("/data"), "/srv/data".to_string()).unwrap();
    vfs.mount_host(&p("/data/deep"), "/srv/deep".to_string()).unwrap();
    let c = vfs.host_path_for(&p("/data/deep/x/y")).unwrap();
    assert_eq!(c.root, "/srv/deep");
    assert_eq!(c.path, "/srv/deep/x/y");
    let c = vfs.host_path_for(&p("/data/z")).unwrap();
    assert_eq!(c.path, "/srv/data/z");
    assert!(vfs.host_path_for(&p("/elsewhere")).is_none());
    assert!(accept_host_path(&c, "/srv/data/z"));
    assert!(!accept_host_path(&c, "/srv/database"));
}

#[test]
fn outcomes_of_synthetic_writes() {
    assert!(outcome_event(WriteOutcome::Stored).is_none());
}

#[test]
fn room_shrinks_with_each_node() {
    let mut vfs = Vfs::new();
    let before = vfs.room();
    vfs.mkdir_p(&p("/a/b")).unwrap();
    assert_eq!(vfs.room(), before - 2);
    assert_eq!(before, 0xffff_fffd);
}

#[test]
fn synthetic_drop_lock_before_await() {
    let mut vfs = Vfs::new();
    let cap = Capability::root();
    vfs.mkdir_p(&p("/x")).unwrap();
    vfs.create_synthetic(&p("/x/sink"), 4).unwrap();
    vfs.create_file(&p("/x/f"), Bytes::new()).unwrap();
    let mut seen: Vec<Bytes> = Vec::new();
    let step = vfs.write(&cap, &p("/x/sink"), Bytes::from_static(b"hi")).unwrap();
    // The filesystem can be used while the code behind the file is at work.
    assert!(vfs.write(&cap, &p("/x/f"), Bytes::from_static(b"meanwhile")).is_ok());
    match step {
        WriteStep::Synthetic { handle, ctx, data } => {
            assert_eq!(handle, 4);
            assert_eq!(ctx.path, p("/x/sink"));
            seen.push(data);
        }
        other => panic!("{other:?}"),
    }
    assert!(outcome_event(WriteOutcome::Stored).is_none());
    assert_eq!(seen.len(), 1);
    assert_eq!(&seen[0][..], b"hi");
}

#[test]
fn what_is_added_leaves_the_nodes_of_the_rest_alone() {
    let mut vfs = Vfs::new();
    let cap = Capability::root();
    let made = vfs.create_file(&p("/a"), Bytes::from_static(b"1")).unwrap();
    let log = vfs.create_synthetic(&p("/log"), 1).unwrap();
    assert_eq!(vfs.upsert_synthetic(&p("/log"), 2).unwrap(), log);
    assert_ne!(vfs.upsert_synthetic(&p("/other"), 3).unwrap(), log);
    vfs.mount_host(&p("/m/n"), "/host".to_string()).unwrap();
    match vfs.write(&cap, &p("/a"), Bytes::from_static(b"2")).unwrap() {
        WriteStep::Stored(ev) => assert_eq!(ev.node, made.node),
        other => panic!("{other:?}"),
    }
    let view = NamespaceView::builder(Capability::new(7))
        .mount(VfsPath::root(), VfsPath::root(), MountMode::Rw)
        .build();
    match view.write(&mut vfs, &p("/a"), Bytes::from_static(b"3")).unwrap() {
        WriteStep::Stored(ev) => {
            assert_eq!(ev.node, made.node);
            assert_eq!(ev.writer, CapabilityId(7));
        }
        other => panic!("{other:?}"),
    }
}
