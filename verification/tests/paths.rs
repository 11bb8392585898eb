use v9r::host_path::{
    components, file_name, is_absolute, join_path, normalize_path, parent_dirs, path_before,
    path_starts_with, resolve_task_path, same_path, strip_prefix,
};
use v9r::vfs_path::{Capability, CapabilityId, VfsError, VfsPath};

fn p(s: &str) -> VfsPath {
    VfsPath::parse(s).unwrap()
}

#[test]
fn parse_root() {
    assert!(VfsPath::parse("/").unwrap().is_root());
    assert!(VfsPath::parse("").unwrap().is_root());
}

#[test]
fn parse_segments() {
    let p = VfsPath::parse("/agents/echo/input").unwrap();
    assert_eq!(p.segments(), &["agents", "echo", "input"]);
    assert_eq!(p.last(), Some("input"));
    assert_eq!(p.parent().unwrap().segments(), &["agents", "echo"]);
}

#[test]
fn parse_dotdot() {
    let p = VfsPath::parse("/a/b/../c").unwrap();
    assert_eq!(p.segments(), &["a", "c"]);
    assert!(VfsPath::parse("/..").is_err());
}

#[test]
fn display_round_trip() {
    let p = VfsPath::parse("/a/b/c").unwrap();
    assert_eq!(p.display(), "/a/b/c");
    assert_eq!(VfsPath::root().display(), "/");
    assert_eq!(VfsPath::parse(&p.display()).unwrap(), p);
}

#[test]
fn from_segments_rejects_dotdot() {
    assert!(VfsPath::from_segments(vec!["..".to_string()]).is_err());
    assert!(VfsPath::from_segments(vec![".".to_string()]).is_err());
    assert!(VfsPath::from_segments(vec!["a/b".to_string()]).is_err());
    assert!(VfsPath::from_segments(vec![String::new()]).is_err());
    let ok = VfsPath::from_segments(vec!["a".to_string(), "b".to_string()]).unwrap();
    assert_eq!(ok.segments(), &["a", "b"]);
}

#[test]
fn dotdot_cannot_escape_at_parse() {
    assert!(VfsPath::parse("/../escape").is_err());
    assert!(VfsPath::parse("/input/../../escape").is_err());
    let p = VfsPath::parse("/a/b/../c").unwrap();
    assert_eq!(p.segments(), &["a", "c"]);
}

#[test]
fn dotdot_cannot_escape_via_segments() {
    let r = VfsPath::from_segments(vec!["..".to_string()]);
    assert!(r.is_err());
}

#[test]
fn refused_paths_are_named() {
    match VfsPath::parse("/a/../../b") {
        Err(VfsError::InvalidPath(m)) => assert_eq!(m, "path escapes root: /a/../../b"),
        other => panic!("{other:?}"),
    }
    match VfsPath::from_segments(vec!["ok".to_string(), "a/b".to_string()]) {
        Err(VfsError::InvalidPath(m)) => assert_eq!(m, "bad segment: \"a/b\""),
        other => panic!("{other:?}"),
    }
}

#[test]
fn parsing_is_idempotent() {
    for s in ["/a//b/./c", "a/b/../c/", "///", "x"] {
        let once = p(s);
        assert_eq!(p(&once.display()), once);
    }
}

#[test]
fn join_takes_one_segment() {
    let joined = p("/a").join("b..");
    assert_eq!(joined.segments(), &["a", "b.."]);
    assert_eq!(joined.depth(), 2);
    assert_eq!(joined.segment(1), "b..");
    for none in ["", ".", "..", "/", "b/c", "../b"] {
        assert_eq!(p("/a").join(none), p("/a"), "{none:?}");
        assert_eq!(VfsPath::root().join(none), VfsPath::root());
    }
    assert_eq!(p("/a/b").clone(), p("/a/b"));
}

#[test]
fn prefixes_are_whole_segments() {
    assert!(p("/a/b").starts_with(&p("/a")));
    assert!(p("/a/b").starts_with(&VfsPath::root()));
    assert!(!p("/ab").starts_with(&p("/a")));
    assert!(p("/a/b").same_as(&p("/a//b")));
    assert!(!p("/a/b").same_as(&p("/a")));
    assert_eq!(p("/a/b").copy(), p("/a/b"));
}

#[test]
fn root_has_no_parent_and_no_name() {
    assert!(VfsPath::root().parent().is_none());
    assert!(VfsPath::root().last().is_none());
}

#[test]
fn error_messages() {
    assert_eq!(VfsError::NotFound.message(), "path not found");
    assert_eq!(VfsError::IsDir.message(), "is a directory");
    assert_eq!(VfsError::NotADir.message(), "not a directory");
    assert_eq!(VfsError::AlreadyExists.message(), "already exists");
    assert_eq!(VfsError::PermissionDenied.message(), "permission denied");
    assert_eq!(VfsError::InvalidPath("x".to_string()).message(), "invalid path: x");
    assert_eq!(
        VfsError::Synthetic("no".to_string()).message(),
        "synthetic node refused operation: no"
    );
    assert_eq!(VfsError::Io("disk".to_string()).message(), "io: disk");
}

#[test]
fn capabilities_carry_their_number() {
    assert_eq!(Capability::root().id(), CapabilityId(0));
    assert_eq!(Capability::new(7).id(), CapabilityId(7));
}

#[test]
fn host_paths_agree_with_std() {
    for s in [
        "", "/", ".", "..", "a", "/a", "a/b", "a//b/", "./a", "a/./b", "a/../b", "/../a", "/a/..",
        "../../x", "a/.", "./.", "/./a",
    ] {
        let path = std::path::Path::new(s);
        let parts: Vec<String> = path
            .components()
            .map(|c| c.as_os_str().to_string_lossy().to_string())
            .collect();
        assert_eq!(components(s), parts, "components of {s:?}");
        assert_eq!(is_absolute(s), path.is_absolute(), "{s:?}");
        assert_eq!(
            file_name(s),
            path.file_name().map(|n| n.to_string_lossy().to_string()),
            "name of {s:?}"
        );
        for t in ["", "/", "a", "/a", "b/c", "./b"] {
            let other = std::path::Path::new(t);
            assert_eq!(
                join_path(s, t),
                path.join(other).to_string_lossy().to_string(),
                "{s:?} join {t:?}"
            );
            assert_eq!(path_starts_with(s, t), path.starts_with(other), "{s:?} under {t:?}");
            assert_eq!(same_path(s, t), path == other, "{s:?} is {t:?}");
            assert_eq!(path_before(s, t), path < other, "{s:?} before {t:?}");
            match (strip_prefix(s, t), path.strip_prefix(other)) {
                (Some(a), Ok(b)) => assert!(std::path::Path::new(&a) == b, "{s:?} minus {t:?}"),
                (None, Err(_)) => {}
                (a, b) => panic!("{s:?} minus {t:?}: {a:?} {b:?}"),
            }
        }
    }
}

#[test]
fn normalizing_resolves_dots() {
    assert_eq!(normalize_path("/a/./b/../c"), "/a/c");
    assert_eq!(normalize_path("/../a"), "/a");
    assert_eq!(normalize_path("../a"), "a");
    assert_eq!(normalize_path("a/.."), "");
    assert_eq!(normalize_path(&normalize_path("/x/../y/./z")), "/y/z");
}

#[test]
fn task_paths_are_relative_to_the_workdir() {
    assert_eq!(resolve_task_path("/w", "a/../b"), "/w/b");
    assert_eq!(resolve_task_path("/w", "/etc/x"), "/etc/x");
}

#[test]
fn directories_above_end_at_the_root() {
    assert_eq!(parent_dirs("/a/b/c"), vec!["/a/b", "/a", "/"]);
    assert_eq!(parent_dirs("a/b"), vec!["a", ""]);
    assert!(parent_dirs("/").is_empty());
}
