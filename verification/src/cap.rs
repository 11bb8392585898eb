//! Namespaces: what an agent sees of the filesystem.

use bytes::Bytes;
use vstd::prelude::*;

use crate::text::owned;
use crate::vfs::{DirEntry, EntryModel, HostListing, Lookup, ReadStep, Vfs, WriteStep};
use crate::vfs_path::{Capability, VfsError, VfsPath, VfsResult};

verus! {

#[derive(Clone, Copy, Debug, PartialEq, Eq, Structural)]
pub enum HostCapability {
    CanAccessNetwork,
}

#[derive(Clone, Copy, Debug, PartialEq, Eq, Structural)]
pub enum MountMode {
    /// Read-only.
    Ro,
    /// Read-write.
    Rw,
}

impl MountMode {
    pub fn allows_read(&self) -> (r: bool)
        ensures
            r,
    {
        match self {
            MountMode::Ro => true,
            MountMode::Rw => true,
        }
    }

    pub fn allows_write(&self) -> (r: bool)
        ensures
            r == (*self == MountMode::Rw),
    {
        match self {
            MountMode::Ro => false,
            MountMode::Rw => true,
        }
    }
}

/// A part of the filesystem, seen at another path.
#[derive(Clone, Debug)]
pub struct MountPoint {
    pub virtual_path: VfsPath,
    pub real_path: VfsPath,
    pub mode: MountMode,
}

/// The contents of a `MountPoint`.
pub struct MountModel {
    pub virtual_path: Seq<Seq<char>>,
    pub real_path: Seq<Seq<char>>,
    pub mode: MountMode,
}

impl View for MountPoint {
    type V = MountModel;

    open spec fn view(&self) -> MountModel {
        MountModel {
            virtual_path: self.virtual_path@,
            real_path: self.real_path@,
            mode: self.mode,
        }
    }
}

pub open spec fn mount_views(s: Seq<MountPoint>) -> Seq<MountModel> {
    s.map_values(|m: MountPoint| m@)
}

/// An agent's view of the filesystem: what is mounted where, and what it may
/// do to the host.
#[derive(Debug)]
pub struct NamespaceView {
    cap: Capability,
    mounts: Vec<MountPoint>,
    host_capabilities: Vec<HostCapability>,
}

/// The contents of a `NamespaceView`.
pub struct ViewModel {
    pub cap: u64,
    pub mounts: Seq<MountModel>,
    pub host_capabilities: Seq<HostCapability>,
}

impl View for NamespaceView {
    type V = ViewModel;

    closed spec fn view(&self) -> ViewModel {
        ViewModel {
            cap: self.cap@,
            mounts: mount_views(self.mounts@),
            host_capabilities: self.host_capabilities@,
        }
    }
}

/// Builds a `NamespaceView`.
pub struct NamespaceViewBuilder {
    cap: Capability,
    mounts: Vec<MountPoint>,
    host_capabilities: Vec<HostCapability>,
}

impl View for NamespaceViewBuilder {
    type V = ViewModel;

    closed spec fn view(&self) -> ViewModel {
        ViewModel {
            cap: self.cap@,
            mounts: mount_views(self.mounts@),
            host_capabilities: self.host_capabilities@,
        }
    }
}

/// The mount that covers a path among the first `n`: the one with the longest
/// virtual path, and the last of those of equal length.
pub open spec fn best_mount(mounts: Seq<MountModel>, path: Seq<Seq<char>>, n: int) -> Option<int>
    decreases n,
{
    if n <= 0 {
        None
    } else {
        let before = best_mount(mounts, path, n - 1);
        if !mounts[n - 1].virtual_path.is_prefix_of(path) {
            before
        } else {
            match before {
                Some(i) => if mounts[i].virtual_path.len() > mounts[n - 1].virtual_path.len() {
                    before
                } else {
                    Some(n - 1)
                },
                None => Some(n - 1),
            }
        }
    }
}

/// The mount that a path goes through.
pub open spec fn mount_for(mounts: Seq<MountModel>, path: Seq<Seq<char>>) -> Option<MountModel> {
    match best_mount(mounts, path, mounts.len() as int) {
        Some(i) => Some(mounts[i]),
        None => None,
    }
}

/// Where a path goes through a mount: the rest of it behind the mount's real
/// path.
pub open spec fn through(m: MountModel, path: Seq<Seq<char>>) -> Seq<Seq<char>> {
    m.real_path + path.skip(m.virtual_path.len() as int)
}

/// The real path and the mode of a path; none where no mount covers it.
pub open spec fn resolved_through(mounts: Seq<MountModel>, path: Seq<Seq<char>>) -> Option<
    (Seq<Seq<char>>, MountMode),
> {
    match mount_for(mounts, path) {
        None => None,
        Some(m) => Some((through(m, path), m.mode)),
    }
}

impl NamespaceView {
    /// Starts a view under the given capability, with nothing mounted.
    pub fn builder(cap: Capability) -> (r: NamespaceViewBuilder)
        ensures
            r@.cap == cap@,
            r@.mounts.len() == 0,
            r@.host_capabilities.len() == 0,
    {
        NamespaceViewBuilder { cap, mounts: Vec::new(), host_capabilities: Vec::new() }
    }

    pub fn capability(&self) -> (r: &Capability)
        ensures
            r@ == self@.cap,
    {
        &self.cap
    }

    pub fn mounts(&self) -> (r: &[MountPoint])
        ensures
            mount_views(r@) == self@.mounts,
    {
        self.mounts.as_slice()
    }

    pub fn has_host_capability(&self, capability: HostCapability) -> (r: bool)
        ensures
            r == self@.host_capabilities.contains(capability),
    {
        holds_capability(&self.host_capabilities, capability)
    }

    pub fn can_access_network(&self) -> (r: bool)
        ensures
            r == self@.host_capabilities.contains(HostCapability::CanAccessNetwork),
    {
        self.has_host_capability(HostCapability::CanAccessNetwork)
    }

    /// The real path of a virtual one, and what may be done there. The mount
    /// with the longest virtual path wins; a path that no mount covers is
    /// denied.
    pub fn resolve(&self, virtual_path: &VfsPath) -> (r: VfsResult<(VfsPath, MountMode)>)
        ensures
            match r {
                Ok((target, mode)) => resolved_through(self@.mounts, virtual_path@) == Some(
                    (target@, mode),
                ) && crate::vfs_path::canonical(target@),
                Err(e) => resolved_through(self@.mounts, virtual_path@) is None
                    && e is PermissionDenied,
            },
    {
        let ghost mounts = self@.mounts;
        let mut best: Option<usize> = None;
        let mut i: usize = 0;
        while i < self.mounts.len()
            invariant
                i <= self.mounts.len(),
                mounts == mount_views(self.mounts@),
                mounts == self@.mounts,
                match best {
                    Some(b) => b < i && best_mount(mounts, virtual_path@, i as int) == Some(
                        b as int,
                    ) && mounts[b as int].virtual_path.is_prefix_of(virtual_path@),
                    None => best_mount(mounts, virtual_path@, i as int) is None,
                },
            decreases self.mounts.len() - i,
        {
            let m = &self.mounts[i];
            proof {
                assert(mounts[i as int] == m@);
            }
            if virtual_path.starts_with(&m.virtual_path) {
                match best {
                    Some(b) => {
                        proof {
                            assert(mounts[b as int] == self.mounts@[b as int]@);
                        }
                        if self.mounts[b].virtual_path.depth() <= m.virtual_path.depth() {
                            best = Some(i);
                        }
                    },
                    None => {
                        best = Some(i);
                    },
                }
            }
            i = i + 1;
        }
        let m = match best {
            None => {
                return Err(VfsError::PermissionDenied);
            },
            Some(b) => &self.mounts[b],
        };
        let from: usize = m.virtual_path.depth();
        let mut combined: Vec<String> = Vec::new();
        let mut k: usize = 0;
        let ghost goal = through(m@, virtual_path@);
        while k < m.real_path.depth()
            invariant
                k <= m.real_path@.len(),
                crate::text::texts(combined@) == m.real_path@.take(k as int),
            decreases m.real_path@.len() - k,
        {
            let ghost before = crate::text::texts(combined@);
            combined.push(owned(m.real_path.segment(k)));
            proof {
                assert(crate::text::texts(combined@) =~= before.push(m.real_path@[k as int]));
                assert(m.real_path@.take(k + 1) =~= m.real_path@.take(k as int).push(
                    m.real_path@[k as int],
                ));
            }
            k = k + 1;
        }
        let mut j: usize = from;
        proof {
            assert(m.real_path@.take(m.real_path@.len() as int) =~= m.real_path@);
            assert(crate::text::texts(combined@) =~= m.real_path@ + virtual_path@.subrange(
                from as int,
                from as int,
            ));
        }
        while j < virtual_path.depth()
            invariant
                from <= j <= virtual_path@.len(),
                crate::text::texts(combined@) == m.real_path@ + virtual_path@.subrange(
                    from as int,
                    j as int,
                ),
            decreases virtual_path@.len() - j,
        {
            let ghost before = crate::text::texts(combined@);
            combined.push(owned(virtual_path.segment(j)));
            proof {
                let next = virtual_path@[j as int];
                assert(crate::text::texts(combined@) =~= before.push(next));
                assert(m.real_path@ + virtual_path@.subrange(from as int, j + 1) =~= before.push(
                    next,
                ));
            }
            j = j + 1;
        }
        proof {
            assert(virtual_path@.subrange(from as int, virtual_path@.len() as int)
                =~= virtual_path@.skip(from as int));
            assert(crate::text::texts(combined@) =~= goal);
        }
        proof {
            use_type_invariant(virtual_path);
            use_type_invariant(&m.real_path);
            lemma_through_canonical(m@, virtual_path@);
            if exists|i: int|
                0 <= i < combined@.len() && !crate::vfs_path::valid_segment(
                    #[trigger] combined@[i]@,
                ) {
                let i = choose|i: int|
                    0 <= i < combined@.len() && !crate::vfs_path::valid_segment(
                        #[trigger] combined@[i]@,
                    );
                assert(goal[i] == combined@[i]@);
            }
        }
        let target = VfsPath::from_segments(combined)?;
        Ok((target, m.mode))
    }

    /// Reads through the view.
    pub fn read(&self, vfs: &Vfs, virtual_path: &VfsPath) -> (r: VfsResult<ReadStep>)
        requires
            vfs.wf(),
        ensures
            match resolved_through(self@.mounts, virtual_path@) {
                None => r matches Err(VfsError::PermissionDenied),
                Some((target, mode)) => match crate::vfs::lookup(vfs@.tree, target) {
                    Lookup::Found(EntryModel::File(bytes)) => r matches Ok(ReadStep::File(b))
                        && crate::arena::bytes_contents(b) == bytes,
                    Lookup::Found(EntryModel::Synthetic(h)) => r matches Ok(
                        ReadStep::Synthetic { handle, ctx },
                    ) && handle == h && ctx.path@ == target && ctx.writer.0 == self@.cap,
                    Lookup::Found(EntryModel::Dir) => r matches Err(VfsError::IsDir),
                    Lookup::NotFound => r matches Ok(ReadStep::Host),
                    Lookup::NotADir => r matches Err(VfsError::NotADir),
                },
            },
    {
        let (target, mode) = self.resolve(virtual_path)?;
        if !mode.allows_read() {
            return Err(VfsError::PermissionDenied);
        }
        vfs.read(&self.cap, &target)
    }

    /// Writes through the view; a read-only mount denies it.
    pub fn write(&self, vfs: &mut Vfs, virtual_path: &VfsPath, data: Bytes) -> (r: VfsResult<
        WriteStep,
    >)
        requires
            old(vfs).wf(),
        ensures
            final(vfs).wf(),
            final(vfs)@.mounts == old(vfs)@.mounts,
            final(vfs).node_count() == old(vfs).node_count(),
            match resolved_through(self@.mounts, virtual_path@) {
                None => final(vfs)@ == old(vfs)@ && (r matches Err(VfsError::PermissionDenied)),
                Some((target, mode)) => if mode == MountMode::Ro {
                    final(vfs)@ == old(vfs)@ && (r matches Err(VfsError::PermissionDenied))
                } else {
                    match crate::vfs::lookup(old(vfs)@.tree, target) {
                        Lookup::Found(EntryModel::File(_)) => {
                            let bytes = crate::arena::bytes_contents(data);
                            &&& final(vfs)@.tree == old(vfs)@.tree.insert(
                                target,
                                EntryModel::File(bytes),
                            )
                            &&& r matches Ok(WriteStep::Stored(ev))
                            &&& ev.path@ == target
                            &&& old(vfs).node_at(target) == Some(ev.node.0)
                            &&& ev.bytes_len == bytes.len()
                            &&& ev.writer.0 == self@.cap
                        },
                        Lookup::Found(EntryModel::Synthetic(h)) => final(vfs)@.tree
                            == old(vfs)@.tree && (r matches Ok(
                            WriteStep::Synthetic { handle, ctx, data: d },
                        ) && handle == h && ctx.path@ == target && ctx.writer.0 == self@.cap && d
                            == data),
                        Lookup::Found(EntryModel::Dir) => final(vfs)@.tree == old(vfs)@.tree && (
                        r matches Err(VfsError::IsDir)),
                        Lookup::NotFound => final(vfs)@.tree == old(vfs)@.tree && (r matches Err(
                            VfsError::NotFound,
                        )),
                        Lookup::NotADir => final(vfs)@.tree == old(vfs)@.tree && (r matches Err(
                            VfsError::NotADir,
                        )),
                    }
                },
            },
    {
        let (target, mode) = self.resolve(virtual_path)?;
        if !mode.allows_write() {
            return Err(VfsError::PermissionDenied);
        }
        vfs.write(&self.cap, &target, data)
    }

    /// Lists through the view, with what the host has at the real path.
    pub fn list(&self, vfs: &Vfs, virtual_path: &VfsPath, host: HostListing) -> (r: VfsResult<
        Vec<DirEntry>,
    >)
        requires
            vfs.wf(),
        ensures
            match resolved_through(self@.mounts, virtual_path@) {
                None => r matches Err(VfsError::PermissionDenied),
                Some((target, mode)) => match crate::vfs::lookup(vfs@.tree, target) {
                    Lookup::Found(EntryModel::Dir) => exists|base: Seq<crate::vfs::EntryView>|
                        #[trigger] crate::vfs::arena_listing(base, vfs@.tree, target)
                            && crate::vfs::listing_of(r, base, host),
                    Lookup::NotFound => crate::vfs::listing_of(r, Seq::empty(), host),
                    _ => r matches Err(VfsError::NotADir),
                },
            },
    {
        let (target, mode) = self.resolve(virtual_path)?;
        if !mode.allows_read() {
            return Err(VfsError::PermissionDenied);
        }
        vfs.list(&target, host)
    }
}

fn holds_capability(list: &Vec<HostCapability>, capability: HostCapability) -> (r: bool)
    ensures
        r == list@.contains(capability),
{
    let mut i: usize = 0;
    while i < list.len()
        invariant
            i <= list.len(),
            forall|j: int| 0 <= j < i ==> list@[j] != capability,
        decreases list.len() - i,
    {
        if list[i] == capability {
            proof {
                assert(list@[i as int] == capability);
            }
            return true;
        }
        i = i + 1;
    }
    false
}

impl NamespaceViewBuilder {
    /// Adds a mount.
    pub fn mount(self, virtual_path: VfsPath, real_path: VfsPath, mode: MountMode) -> (r: Self)
        ensures
            r@ == (ViewModel {
                mounts: self@.mounts.push(
                    MountModel { virtual_path: virtual_path@, real_path: real_path@, mode },
                ),
                ..self@
            }),
    {
        let mut b = self;
        let ghost before = b@.mounts;
        let m = MountPoint { virtual_path, real_path, mode };
        let ghost added = m@;
        b.mounts.push(m);
        proof {
            assert(b@.mounts =~= before.push(added));
        }
        b
    }

    /// Grants a capability, once.
    pub fn host_capability(self, capability: HostCapability) -> (r: Self)
        ensures
            r@ == (ViewModel {
                host_capabilities: if self@.host_capabilities.contains(capability) {
                    self@.host_capabilities
                } else {
                    self@.host_capabilities.push(capability)
                },
                ..self@
            }),
    {
        let mut b = self;
        if !holds_capability(&b.host_capabilities, capability) {
            b.host_capabilities.push(capability);
        }
        b
    }

    /// The finished view.
    pub fn build(self) -> (r: NamespaceView)
        ensures
            r@ == self@,
    {
        NamespaceView {
            cap: self.cap,
            mounts: self.mounts,
            host_capabilities: self.host_capabilities,
        }
    }
}

proof fn lemma_best_mount(mounts: Seq<MountModel>, path: Seq<Seq<char>>, n: int)
    requires
        0 <= n <= mounts.len(),
    ensures
        match best_mount(mounts, path, n) {
            Some(i) => 0 <= i < n && mounts[i].virtual_path.is_prefix_of(path) && forall|j: int|
                0 <= j < n && (#[trigger] mounts[j]).virtual_path.is_prefix_of(path)
                    ==> mounts[j].virtual_path.len() <= mounts[i].virtual_path.len(),
            None => forall|j: int|
                0 <= j < n ==> !(#[trigger] mounts[j]).virtual_path.is_prefix_of(path),
        },
    decreases n,
{
    if n > 0 {
        lemma_best_mount(mounts, path, n - 1);
    }
}

/// The longest prefix wins: no mount that covers a path has a longer virtual
/// path than the one it goes through, and a path is denied only where none
/// covers it.
pub proof fn lemma_longest_prefix_wins(mounts: Seq<MountModel>, path: Seq<Seq<char>>)
    ensures
        match mount_for(mounts, path) {
            Some(m) => m.virtual_path.is_prefix_of(path) && mounts.contains(m) && forall|j: int|
                0 <= j < mounts.len() && (#[trigger] mounts[j]).virtual_path.is_prefix_of(path)
                    ==> mounts[j].virtual_path.len() <= m.virtual_path.len(),
            None => forall|j: int|
                0 <= j < mounts.len() ==> !(#[trigger] mounts[j]).virtual_path.is_prefix_of(path),
        },
{
    lemma_best_mount(mounts, path, mounts.len() as int);
}

proof fn lemma_through_canonical(m: MountModel, path: Seq<Seq<char>>)
    requires
        crate::vfs_path::canonical(m.real_path),
        crate::vfs_path::canonical(path),
        m.virtual_path.is_prefix_of(path),
    ensures
        crate::vfs_path::canonical(through(m, path)),
{
    let out = through(m, path);
    assert forall|i: int| 0 <= i < out.len() implies crate::vfs_path::valid_segment(
        #[trigger] out[i],
    ) by {
        if i < m.real_path.len() {
            assert(out[i] == m.real_path[i]);
        } else {
            assert(out[i] == path[i - m.real_path.len() + m.virtual_path.len()]);
        }
    }
}

/// A path never leaves the mount it goes through: its real path lies below
/// the mount's.
pub proof fn lemma_resolution_is_contained(mounts: Seq<MountModel>, path: Seq<Seq<char>>)
    ensures
        resolved_through(mounts, path) matches Some((target, mode)) ==> {
            &&& mount_for(mounts, path) matches Some(m)
            &&& m.real_path.is_prefix_of(target)
            &&& mode == m.mode
        },
{
    if let Some((target, mode)) = resolved_through(mounts, path) {
        let m = mount_for(mounts, path)->0;
        assert(m.real_path =~= target.subrange(0, m.real_path.len() as int));
    }
}

/// Through canonical mounts, and all are, a canonical path has a real path
/// with no segment that could climb.
pub proof fn lemma_canonical_paths_resolve(mounts: Seq<MountModel>, path: Seq<Seq<char>>)
    requires
        crate::vfs_path::canonical(path),
        forall|j: int|
            0 <= j < mounts.len() ==> crate::vfs_path::canonical((#[trigger] mounts[j]).real_path),
    ensures
        resolved_through(mounts, path) matches Some((target, mode)) ==> crate::vfs_path::canonical(
            target,
        ),
{
    lemma_best_mount(mounts, path, mounts.len() as int);
    if let Some(m) = mount_for(mounts, path) {
        lemma_through_canonical(m, path);
    }
}

} // verus!
