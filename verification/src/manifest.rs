//! What a task may touch, and how much it may do.

use vstd::prelude::*;

use crate::host_path::{file_name, normalize_path, path_starts_with, resolve_task_path};
use crate::text::{clone_texts, same_text};

verus! {

#[derive(Clone, Copy, Debug, PartialEq, Eq, Structural)]
pub enum AccessType {
    Read,
    Write,
    Exec,
}

/// The limits a task runs under. Paths are text.
#[derive(Clone, Debug, PartialEq, Eq)]
pub struct Manifest {
    pub allow_read: Vec<String>,
    pub allow_write: Vec<String>,
    pub allow_exec: Vec<String>,
    pub token_limit: u32,
    pub max_steps: usize,
    pub timeout_ms: u64,
    pub mandatory_artifacts: Vec<String>,
    pub test_commands: Vec<String>,
}

/// The contents of a manifest.
pub struct ManifestModel {
    pub allow_read: Seq<Seq<char>>,
    pub allow_write: Seq<Seq<char>>,
    pub allow_exec: Seq<Seq<char>>,
    pub token_limit: u32,
    pub max_steps: usize,
    pub timeout_ms: u64,
    pub mandatory_artifacts: Seq<Seq<char>>,
    pub test_commands: Seq<Seq<char>>,
}

impl View for Manifest {
    type V = ManifestModel;

    open spec fn view(&self) -> ManifestModel {
        ManifestModel {
            allow_read: crate::text::texts(self.allow_read@),
            allow_write: crate::text::texts(self.allow_write@),
            allow_exec: crate::text::texts(self.allow_exec@),
            token_limit: self.token_limit,
            max_steps: self.max_steps,
            timeout_ms: self.timeout_ms,
            mandatory_artifacts: crate::text::texts(self.mandatory_artifacts@),
            test_commands: crate::text::texts(self.test_commands@),
        }
    }
}

/// The normal form of `path` lies under the normal form of one of `roots`,
/// component by component.
pub open spec fn path_allowed(path: Seq<char>, roots: Seq<Seq<char>>) -> bool {
    exists|i: int|
        0 <= i < roots.len() && crate::host_path::is_under(
            crate::host_path::normalized(path),
            crate::host_path::normalized(#[trigger] roots[i]),
        )
}

/// One of `allowed` is the whole command or its file name.
pub open spec fn exec_allowed(path: Seq<char>, allowed: Seq<Seq<char>>) -> bool {
    exists|i: int|
        0 <= i < allowed.len() && (#[trigger] allowed[i] == path || crate::host_path::name_of(path)
            == Some(allowed[i]))
}

impl ManifestModel {
    /// Whether the manifest grants `access` to `path`.
    pub open spec fn allows(self, path: Seq<char>, access: AccessType) -> bool {
        match access {
            AccessType::Read => path_allowed(path, self.allow_read),
            AccessType::Write => path_allowed(path, self.allow_write),
            AccessType::Exec => exec_allowed(path, self.allow_exec),
        }
    }
}

impl Manifest {
    /// Whether the manifest grants `access` to `path`.
    pub fn is_allowed(&self, path: &str, access: AccessType) -> (r: bool)
        ensures
            r == self@.allows(path@, access),
    {
        match access {
            AccessType::Read => is_path_allowed(path, &self.allow_read),
            AccessType::Write => is_path_allowed(path, &self.allow_write),
            AccessType::Exec => is_exec_allowed(path, &self.allow_exec),
        }
    }

    /// A manifest with the same contents.
    pub fn copy(&self) -> (r: Manifest)
        ensures
            r@ == self@,
    {
        Manifest {
            allow_read: clone_texts(&self.allow_read),
            allow_write: clone_texts(&self.allow_write),
            allow_exec: clone_texts(&self.allow_exec),
            token_limit: self.token_limit,
            max_steps: self.max_steps,
            timeout_ms: self.timeout_ms,
            mandatory_artifacts: clone_texts(&self.mandatory_artifacts),
            test_commands: clone_texts(&self.test_commands),
        }
    }
}

fn is_path_allowed(path: &str, allowed_roots: &Vec<String>) -> (r: bool)
    ensures
        r == path_allowed(path@, crate::text::texts(allowed_roots@)),
{
    let normal = normalize_path(path);
    let ghost roots = crate::text::texts(allowed_roots@);
    let mut i: usize = 0;
    while i < allowed_roots.len()
        invariant
            i <= allowed_roots.len(),
            roots == crate::text::texts(allowed_roots@),
            normal@ == crate::host_path::normalized(path@),
            forall|j: int|
                0 <= j < i ==> !crate::host_path::is_under(
                    normal@,
                    crate::host_path::normalized(#[trigger] roots[j]),
                ),
        decreases allowed_roots.len() - i,
    {
        let root = normalize_path(allowed_roots[i].as_str());
        proof {
            assert(roots[i as int] == allowed_roots@[i as int]@);
        }
        if path_starts_with(normal.as_str(), root.as_str()) {
            return true;
        }
        i = i + 1;
    }
    false
}

fn is_exec_allowed(path: &str, allowed: &Vec<String>) -> (r: bool)
    ensures
        r == exec_allowed(path@, crate::text::texts(allowed@)),
{
    let name = file_name(path);
    let ghost list = crate::text::texts(allowed@);
    let mut i: usize = 0;
    while i < allowed.len()
        invariant
            i <= allowed.len(),
            list == crate::text::texts(allowed@),
            match name {
                Some(n) => crate::host_path::name_of(path@) == Some(n@),
                None => crate::host_path::name_of(path@) is None,
            },
            forall|j: int|
                0 <= j < i ==> #[trigger] list[j] != path@ && crate::host_path::name_of(path@)
                    != Some(list[j]),
        decreases allowed.len() - i,
    {
        let candidate = allowed[i].as_str();
        proof {
            assert(list[i as int] == candidate@);
        }
        if same_text(candidate, path) {
            return true;
        }
        if let Some(n) = &name {
            if same_text(candidate, n.as_str()) {
                return true;
            }
        }
        i = i + 1;
    }
    false
}

/// Paths as they stand under a working directory.
pub open spec fn paths_under(workdir: Seq<char>, paths: Seq<Seq<char>>) -> Seq<Seq<char>> {
    paths.map_values(|p: Seq<char>| crate::host_path::task_path(workdir, p))
}

fn resolve_paths(workdir: &str, paths: &Vec<String>) -> (r: Vec<String>)
    ensures
        crate::text::texts(r@) == paths_under(workdir@, crate::text::texts(paths@)),
{
    let mut out: Vec<String> = Vec::new();
    let mut i: usize = 0;
    while i < paths.len()
        invariant
            i <= paths.len(),
            out@.len() == i,
            forall|k: int|
                0 <= k < i ==> (#[trigger] out@[k])@ == crate::host_path::task_path(
                    workdir@,
                    paths@[k]@,
                ),
        decreases paths.len() - i,
    {
        out.push(resolve_task_path(workdir, paths[i].as_str()));
        i = i + 1;
    }
    proof {
        assert(crate::text::texts(out@) =~= paths_under(workdir@, crate::text::texts(paths@)));
    }
    out
}

/// A manifest with its paths as they stand under a working directory.
pub fn normalize_manifest_paths(manifest: Manifest, workdir: &str) -> (r: Manifest)
    ensures
        r@ == (ManifestModel {
            allow_read: paths_under(workdir@, manifest@.allow_read),
            allow_write: paths_under(workdir@, manifest@.allow_write),
            mandatory_artifacts: paths_under(workdir@, manifest@.mandatory_artifacts),
            ..manifest@
        }),
{
    Manifest {
        allow_read: resolve_paths(workdir, &manifest.allow_read),
        allow_write: resolve_paths(workdir, &manifest.allow_write),
        allow_exec: manifest.allow_exec,
        token_limit: manifest.token_limit,
        max_steps: manifest.max_steps,
        timeout_ms: manifest.timeout_ms,
        mandatory_artifacts: resolve_paths(workdir, &manifest.mandatory_artifacts),
        test_commands: manifest.test_commands,
    }
}

/// Whether a manifest grants reading or writing depends on the normal form of
/// the path alone: `a/./b` and `a/c/../b` are treated alike.
pub proof fn lemma_access_is_lexical(
    m: ManifestModel,
    p: Seq<char>,
    q: Seq<char>,
    access: AccessType,
)
    requires
        access is Read || access is Write,
        crate::host_path::normalized(p) == crate::host_path::normalized(q),
    ensures
        m.allows(p, access) == m.allows(q, access),
{
}

/// A grant on a directory covers everything below it.
pub proof fn lemma_grant_covers_below(m: ManifestModel, p: Seq<char>, q: Seq<char>)
    requires
        crate::host_path::is_under(
            crate::host_path::normalized(q),
            crate::host_path::normalized(p),
        ),
    ensures
        m.allows(p, AccessType::Write) ==> m.allows(q, AccessType::Write),
        m.allows(p, AccessType::Read) ==> m.allows(q, AccessType::Read),
{
    lemma_roots_cover_below(m.allow_write, p, q);
    lemma_roots_cover_below(m.allow_read, p, q);
}

proof fn lemma_roots_cover_below(roots: Seq<Seq<char>>, p: Seq<char>, q: Seq<char>)
    requires
        crate::host_path::is_under(
            crate::host_path::normalized(q),
            crate::host_path::normalized(p),
        ),
    ensures
        path_allowed(p, roots) ==> path_allowed(q, roots),
{
    if path_allowed(p, roots) {
        let i = choose|i: int|
            0 <= i < roots.len() && crate::host_path::is_under(
                crate::host_path::normalized(p),
                crate::host_path::normalized(#[trigger] roots[i]),
            );
        let a = crate::host_path::path_parts(crate::host_path::normalized(roots[i]));
        let b = crate::host_path::path_parts(crate::host_path::normalized(p));
        let c = crate::host_path::path_parts(crate::host_path::normalized(q));
        assert(a =~= c.subrange(0, a.len() as int)) by {
            assert forall|k: int| 0 <= k < a.len() implies a[k] == c[k] by {
                assert(a[k] == b.subrange(0, a.len() as int)[k]);
                assert(b[k] == c.subrange(0, b.len() as int)[k]);
            }
        }
    }
}

} // verus!
