//! Finding the agents that stand on the host already.

use vstd::prelude::*;

use crate::arena::NodeId;
use crate::host_path::{components, file_name, path_starts_with};
use crate::text::{owned, same_text};
use crate::vfs::WriteEvent;
use crate::vfs_path::{CapabilityId, VfsError, VfsPath};

verus! {

/// Why a path of the host has no place in the filesystem.
#[derive(Debug)]
pub enum ScanError {
    /// It does not lie below the directory that is searched.
    Outside,
    Vfs(VfsError),
}

impl ScanError {
    /// The message shown for this error.
    pub open spec fn text(&self) -> Seq<char> {
        match self {
            ScanError::Outside => "prefix not found"@,
            ScanError::Vfs(e) => e.text(),
        }
    }

    /// The message shown for this error.
    pub fn message(&self) -> (r: String)
        ensures
            r@ == self.text(),
    {
        match self {
            ScanError::Outside => owned("prefix not found"),
            ScanError::Vfs(e) => e.message(),
        }
    }
}

/// Where a path of the host stands in the filesystem: its entries below
/// `host_root`, behind `root`.
pub open spec fn segments_for(
    root: Seq<Seq<char>>,
    host_root: Seq<char>,
    host_path: Seq<char>,
) -> Seq<Seq<char>> {
    let below = crate::host_path::path_parts(host_path).skip(
        crate::host_path::path_parts(host_root).len() as int,
    );
    root + below.filter(|p: Seq<char>| crate::host_path::is_normal(p))
}

fn is_entry(part: &str) -> (r: bool)
    ensures
        r == crate::host_path::is_normal(part@),
{
    !same_text(part, "/") && !same_text(part, ".") && !same_text(part, "..")
}

/// Where a path of the host stands in the filesystem.
pub fn host_to_vfs_path(root: &VfsPath, host_root: &str, host_path: &str) -> (r: Result<
    VfsPath,
    ScanError,
>)
    ensures
        if !crate::host_path::is_under(host_path@, host_root@) {
            r matches Err(ScanError::Outside)
        } else {
            let segs = segments_for(root@, host_root@, host_path@);
            r matches Ok(p) && crate::vfs_path::canonical(segs) && p@ == segs
        },
{
    if !path_starts_with(host_path, host_root) {
        return Err(ScanError::Outside);
    }
    let parts = components(host_path);
    let skipped = components(host_root);
    let ghost all = crate::host_path::path_parts(host_path@);
    let ghost n = crate::host_path::path_parts(host_root@).len() as int;
    let ghost below = all.skip(n);
    let ghost keep = |p: Seq<char>| crate::host_path::is_normal(p);
    let mut segments: Vec<String> = Vec::new();
    let mut k: usize = 0;
    while k < root.depth()
        invariant
            k <= root@.len(),
            crate::text::texts(segments@) == root@.take(k as int),
        decreases root@.len() - k,
    {
        let ghost before = crate::text::texts(segments@);
        segments.push(owned(root.segment(k)));
        proof {
            assert(crate::text::texts(segments@) =~= before.push(root@[k as int]));
            assert(root@.take(k + 1) =~= root@.take(k as int).push(root@[k as int]));
        }
        k = k + 1;
    }
    proof {
        reveal(Seq::filter);
        assert(all.len() == parts@.len());
        assert(n == skipped@.len());
        assert(root@.take(root@.len() as int) =~= root@);
        assert(below.take(0).filter(keep) =~= Seq::empty());
        assert(crate::text::texts(segments@) =~= root@ + below.take(0).filter(keep));
    }
    let mut i: usize = skipped.len();
    while i < parts.len()
        invariant
            n <= i <= parts.len(),
            0 <= n,
            all == crate::text::texts(parts@),
            below == all.skip(n),
            keep == |p: Seq<char>| crate::host_path::is_normal(p),
            crate::text::texts(segments@) == root@ + below.take(i - n).filter(keep),
        decreases parts.len() - i,
    {
        let part = parts[i].as_str();
        let ghost before = crate::text::texts(segments@);
        proof {
            reveal(Seq::filter);
            assert(below[i - n] == part@);
            assert(below.take(i - n + 1).drop_last() =~= below.take(i - n));
            assert(below.take(i - n + 1).last() == part@);
        }
        if is_entry(part) {
            segments.push(owned(part));
            proof {
                assert(crate::text::texts(segments@) =~= before.push(part@));
                assert(root@ + below.take(i - n).filter(keep).push(part@) =~= before.push(part@));
            }
        }
        i = i + 1;
    }
    proof {
        assert(below.take(below.len() as int) =~= below);
    }
    let ghost segs = segments_for(root@, host_root@, host_path@);
    proof {
        use_type_invariant(root);
        lemma_found_below(root@, host_root@, host_path@);
        if exists|i: int|
            0 <= i < segments@.len() && !crate::vfs_path::valid_segment(
                #[trigger] segments@[i]@,
            ) {
            let i = choose|i: int|
                0 <= i < segments@.len() && !crate::vfs_path::valid_segment(
                    #[trigger] segments@[i]@,
                );
            assert(segs[i] == segments@[i]@);
        }
    }
    match VfsPath::from_segments(segments) {
        Ok(p) => Ok(p),
        Err(e) => Err(ScanError::Vfs(e)),
    }
}

/// A search for manifests below a directory of the host, depth first.
pub struct LoadScan {
    root: VfsPath,
    host_root: String,
    stack: Vec<String>,
}

/// Where a search stands.
pub ghost struct ScanModel {
    pub root: Seq<Seq<char>>,
    pub host_root: Seq<char>,
    pub stack: Seq<Seq<char>>,
}

impl View for LoadScan {
    type V = ScanModel;

    closed spec fn view(&self) -> ScanModel {
        ScanModel {
            root: self.root@,
            host_root: self.host_root@,
            stack: crate::text::texts(self.stack@),
        }
    }
}

impl LoadScan {
    /// Begins at a directory of the host, which stands at `root` in the
    /// filesystem.
    pub fn start(root: VfsPath, host_root: &str) -> (r: LoadScan)
        ensures
            r@ == (ScanModel { root: root@, host_root: host_root@, stack: seq![host_root@] }),
    {
        let mut stack: Vec<String> = Vec::new();
        stack.push(owned(host_root));
        proof {
            assert(crate::text::texts(stack@) =~= seq![host_root@]);
        }
        LoadScan { root, host_root: owned(host_root), stack }
    }

    /// The directory to read next: the one found last.
    pub fn next_dir(&mut self) -> (r: Option<String>)
        ensures
            match r {
                Some(d) => old(self)@.stack.len() > 0 && d@ == old(self)@.stack.last()
                    && final(self)@ == (ScanModel {
                    stack: old(self)@.stack.drop_last(),
                    ..old(self)@
                }),
                None => old(self)@.stack.len() == 0 && final(self)@ == old(self)@,
            },
    {
        let ghost before = self@.stack;
        let r = self.stack.pop();
        proof {
            if r is Some {
                assert(self@.stack =~= before.drop_last());
            }
        }
        r
    }

    /// Takes an entry of the directory: a directory is searched in its turn,
    /// a `manifest.toml` is loaded from the path that is returned, and
    /// anything else is passed over.
    pub fn visit(&mut self, host_path: &str, is_dir: bool) -> (r: Result<
        Option<VfsPath>,
        ScanError,
    >)
        ensures
            if is_dir {
                r matches Ok(None) && final(self)@ == (ScanModel {
                    stack: old(self)@.stack.push(host_path@),
                    ..old(self)@
                })
            } else {
                final(self)@ == old(self)@ && if crate::host_path::name_of(host_path@) != Some(
                    "manifest.toml"@,
                ) {
                    r matches Ok(None)
                } else if !crate::host_path::is_under(host_path@, old(self)@.host_root) {
                    r matches Err(ScanError::Outside)
                } else {
                    let segs = segments_for(old(self)@.root, old(self)@.host_root, host_path@);
                    r matches Ok(Some(p)) && crate::vfs_path::canonical(segs) && p@ == segs
                }
            },
    {
        if is_dir {
            let ghost before = self@.stack;
            self.stack.push(owned(host_path));
            proof {
                assert(self@.stack =~= before.push(host_path@));
            }
            return Ok(None);
        }
        let wanted = match file_name(host_path) {
            Some(n) => same_text(n.as_str(), "manifest.toml"),
            None => false,
        };
        if !wanted {
            return Ok(None);
        }
        match host_to_vfs_path(&self.root, self.host_root.as_str(), host_path) {
            Ok(p) => Ok(Some(p)),
            Err(e) => Err(e),
        }
    }
}

/// The event that stands for a manifest which is there already.
pub fn found_event(path: VfsPath, root: NodeId, bytes_len: usize) -> (r: WriteEvent)
    ensures
        r.path == path,
        r.node == root,
        r.bytes_len == bytes_len,
        r.writer == CapabilityId(0),
{
    WriteEvent { path, node: root, bytes_len, writer: CapabilityId(0) }
}

/// A manifest that a search finds has a path of its own below the directory
/// where the search began.
pub proof fn lemma_found_below(root: Seq<Seq<char>>, host_root: Seq<char>, host_path: Seq<char>)
    requires
        crate::vfs_path::canonical(root),
        crate::host_path::is_under(host_path, host_root),
    ensures
        crate::vfs_path::canonical(segments_for(root, host_root, host_path)),
        root.is_prefix_of(segments_for(root, host_root, host_path)),
{
    let keep = |p: Seq<char>| crate::host_path::is_normal(p);
    let all = crate::host_path::path_parts(host_path);
    let n = crate::host_path::path_parts(host_root).len() as int;
    let below = all.skip(n);
    let rest = below.filter(keep);
    let segs = segments_for(root, host_root, host_path);
    assert(root =~= segs.subrange(0, root.len() as int));
    crate::host_path::lemma_parts_shape(host_path);
    assert forall|i: int| 0 <= i < segs.len() implies crate::vfs_path::valid_segment(
        #[trigger] segs[i],
    ) by {
        if i < root.len() {
            assert(segs[i] == root[i]);
        } else {
            let k = i - root.len();
            assert(segs[i] == rest[k]);
            below.lemma_filter_pred(keep, k);
            assert(rest.contains(rest[k]));
            below.lemma_filter_contains_rev(keep, rest[k]);
            let j = choose|j: int| 0 <= j < below.len() && below[j] == rest[k];
            assert(below[j] == all[j + n]);
        }
    }
}

} // verus!
