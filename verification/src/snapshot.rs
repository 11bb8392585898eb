//! Snapshots of a working directory: what goes into one, and what has to be
//! done to bring the directory back to it.

use vstd::prelude::*;

use crate::host_path::{components, join_path, path_before, same_path, strip_prefix};
use crate::order::{sort_stable, Ordered, Ranked};
use crate::task_fs::{safe_relative_path, TransactionError};
use crate::text::{cat, owned, same_text};

verus! {

/// FNV-1a over 64 bits: each byte is mixed in by exclusive or, then the state
/// is multiplied by the prime.
pub open spec fn fnv64_of(bytes: Seq<u8>) -> u64
    decreases bytes.len(),
{
    if bytes.len() == 0 {
        0xcbf29ce484222325u64
    } else {
        ((fnv64_of(bytes.drop_last()) ^ (bytes.last() as u64)) * 0x100000001b3 % 0x1_0000_0000_0000_0000) as u64
    }
}

/// The 64-bit FNV-1a hash of `bytes`.
pub fn fnv64(bytes: &[u8]) -> (r: u64)
    ensures
        r == fnv64_of(bytes@),
{
    let mut hash: u64 = 0xcbf29ce484222325u64;
    let mut i: usize = 0;
    while i < bytes.len()
        invariant
            i <= bytes.len(),
            hash == fnv64_of(bytes@.take(i as int)),
        decreases bytes.len() - i,
    {
        proof {
            assert(bytes@.take(i + 1).drop_last() =~= bytes@.take(i as int));
        }
        hash = hash ^ (bytes[i] as u64);
        hash = hash.wrapping_mul(0x100000001b3);
        i = i + 1;
    }
    proof {
        assert(bytes@.take(bytes@.len() as int) =~= bytes@);
    }
    hash
}

/// A file in a snapshot: where it stood, its size and its hash.
#[derive(Clone, Debug, PartialEq, Eq)]
pub struct SnapshotFile {
    pub relative_path: String,
    pub bytes: u64,
    pub fnv64: u64,
}

/// The files and directories in a snapshot.
#[derive(Clone, Debug, PartialEq, Eq)]
pub struct SnapshotManifest {
    pub files: Vec<SnapshotFile>,
    pub dirs: Vec<String>,
}

/// A file of the working directory as it is now. The contents of a file that
/// the snapshot does not hold are not looked at.
#[derive(Clone, Debug, PartialEq, Eq)]
pub struct CurrentFile {
    pub relative_path: String,
    pub bytes: Vec<u8>,
}

/// One step towards the snapshot.
#[derive(Clone, Debug, PartialEq, Eq)]
pub enum RollbackOp {
    /// Remove a file.
    Remove(String),
    /// Copy a file back from the snapshot.
    Restore(String),
    /// Remove a directory, if it is empty.
    RemoveDir(String),
    /// Make a directory, with those above it.
    MakeDir(String),
}

/// The contents of a `SnapshotFile`.
pub struct FileModel {
    pub path: Seq<char>,
    pub bytes: u64,
    pub fnv64: u64,
}

/// The contents of a `CurrentFile`.
pub struct CurrentModel {
    pub path: Seq<char>,
    pub bytes: Seq<u8>,
}

/// The contents of a `RollbackOp`.
pub enum OpModel {
    Remove(Seq<char>),
    Restore(Seq<char>),
    RemoveDir(Seq<char>),
    MakeDir(Seq<char>),
}

impl View for SnapshotFile {
    type V = FileModel;

    open spec fn view(&self) -> FileModel {
        FileModel { path: self.relative_path@, bytes: self.bytes, fnv64: self.fnv64 }
    }
}

impl View for CurrentFile {
    type V = CurrentModel;

    open spec fn view(&self) -> CurrentModel {
        CurrentModel { path: self.relative_path@, bytes: self.bytes@ }
    }
}

impl View for RollbackOp {
    type V = OpModel;

    open spec fn view(&self) -> OpModel {
        match self {
            RollbackOp::Remove(p) => OpModel::Remove(p@),
            RollbackOp::Restore(p) => OpModel::Restore(p@),
            RollbackOp::RemoveDir(p) => OpModel::RemoveDir(p@),
            RollbackOp::MakeDir(p) => OpModel::MakeDir(p@),
        }
    }
}

pub open spec fn file_models(s: Seq<SnapshotFile>) -> Seq<FileModel> {
    s.map_values(|f: SnapshotFile| f@)
}

pub open spec fn current_models(s: Seq<CurrentFile>) -> Seq<CurrentModel> {
    s.map_values(|f: CurrentFile| f@)
}

pub open spec fn op_models(s: Seq<RollbackOp>) -> Seq<OpModel> {
    s.map_values(|o: RollbackOp| o@)
}

impl Ordered for FileModel {
    open spec fn before(self, other: Self) -> bool {
        crate::host_path::path_lt(self.path, other.path)
    }
}

impl Ordered for SnapshotFile {
    open spec fn before(self, other: Self) -> bool {
        self@.before(other@)
    }
}

impl Ranked for SnapshotFile {
    fn comes_before(&self, other: &Self) -> (r: bool) {
        path_before(self.relative_path.as_str(), other.relative_path.as_str())
    }
}

/// A path, ordered component by component.
pub struct PathKey {
    pub path: Seq<char>,
}

/// A path, ordered by its number of components, deepest first.
pub struct DepthKey {
    pub path: Seq<char>,
}

impl Ordered for PathKey {
    open spec fn before(self, other: Self) -> bool {
        crate::host_path::path_lt(self.path, other.path)
    }
}

impl Ordered for DepthKey {
    open spec fn before(self, other: Self) -> bool {
        crate::host_path::path_parts(self.path).len() > crate::host_path::path_parts(
            other.path,
        ).len()
    }
}

struct PathEntry {
    path: String,
}

struct DepthEntry {
    path: String,
}

impl Ordered for PathEntry {
    closed spec fn before(self, other: Self) -> bool {
        (PathKey { path: self.path@ }).before(PathKey { path: other.path@ })
    }
}

impl Ranked for PathEntry {
    fn comes_before(&self, other: &Self) -> (r: bool) {
        path_before(self.path.as_str(), other.path.as_str())
    }
}

impl Ordered for DepthEntry {
    closed spec fn before(self, other: Self) -> bool {
        (DepthKey { path: self.path@ }).before(DepthKey { path: other.path@ })
    }
}

impl Ranked for DepthEntry {
    fn comes_before(&self, other: &Self) -> (r: bool) {
        let a = components(self.path.as_str());
        let b = components(other.path.as_str());
        proof {
            assert(a@.len() == crate::host_path::path_parts(self.path@).len());
            assert(b@.len() == crate::host_path::path_parts(other.path@).len());
        }
        a.len() > b.len()
    }
}

pub open spec fn path_keys(s: Seq<Seq<char>>) -> Seq<PathKey> {
    s.map_values(|p: Seq<char>| PathKey { path: p })
}

pub open spec fn depth_keys(s: Seq<Seq<char>>) -> Seq<DepthKey> {
    s.map_values(|p: Seq<char>| DepthKey { path: p })
}

/// Paths in the order of their components.
pub open spec fn paths_sorted(s: Seq<Seq<char>>) -> Seq<Seq<char>> {
    crate::order::sorted(path_keys(s)).map_values(|k: PathKey| k.path)
}

/// Paths by their number of components, deepest first.
pub open spec fn deepest_first(s: Seq<Seq<char>>) -> Seq<Seq<char>> {
    crate::order::sorted(depth_keys(s)).map_values(|k: DepthKey| k.path)
}

fn sort_paths(v: Vec<String>) -> (r: Vec<String>)
    ensures
        crate::text::texts(r@) == paths_sorted(crate::text::texts(v@)),
{
    let mut entries: Vec<PathEntry> = Vec::new();
    let mut i: usize = 0;
    while i < v.len()
        invariant
            i <= v.len(),
            entries@.len() == i,
            forall|j: int| 0 <= j < i ==> (#[trigger] entries@[j]).path@ == v@[j]@,
        decreases v.len() - i,
    {
        entries.push(PathEntry { path: owned(v[i].as_str()) });
        i = i + 1;
    }
    let ghost f = |e: PathEntry| PathKey { path: e.path@ };
    proof {
        crate::order::lemma_sorted_map(entries@, f);
        assert(entries@.map_values(f) =~= path_keys(crate::text::texts(v@)));
    }
    let ordered = sort_stable(entries);
    let mut r: Vec<String> = Vec::new();
    let mut k: usize = 0;
    while k < ordered.len()
        invariant
            k <= ordered.len(),
            r@.len() == k,
            forall|j: int| 0 <= j < k ==> (#[trigger] r@[j])@ == ordered@[j].path@,
        decreases ordered.len() - k,
    {
        r.push(owned(ordered[k].path.as_str()));
        k = k + 1;
    }
    proof {
        let want = crate::order::sorted(path_keys(crate::text::texts(v@)));
        assert forall|j: int| 0 <= j < r@.len() implies want[j].path == (#[trigger] r@[j])@ by {
            assert(ordered@.map_values(f)[j] == f(ordered@[j]));
        }
        assert(crate::text::texts(r@) =~= paths_sorted(crate::text::texts(v@)));
    }
    r
}

fn sort_by_depth(v: Vec<String>) -> (r: Vec<String>)
    ensures
        crate::text::texts(r@) == deepest_first(crate::text::texts(v@)),
{
    let mut entries: Vec<DepthEntry> = Vec::new();
    let mut i: usize = 0;
    while i < v.len()
        invariant
            i <= v.len(),
            entries@.len() == i,
            forall|j: int| 0 <= j < i ==> (#[trigger] entries@[j]).path@ == v@[j]@,
        decreases v.len() - i,
    {
        entries.push(DepthEntry { path: owned(v[i].as_str()) });
        i = i + 1;
    }
    let ghost f = |e: DepthEntry| DepthKey { path: e.path@ };
    proof {
        crate::order::lemma_sorted_map(entries@, f);
        assert(entries@.map_values(f) =~= depth_keys(crate::text::texts(v@)));
    }
    let ordered = sort_stable(entries);
    let mut r: Vec<String> = Vec::new();
    let mut k: usize = 0;
    while k < ordered.len()
        invariant
            k <= ordered.len(),
            r@.len() == k,
            forall|j: int| 0 <= j < k ==> (#[trigger] r@[j])@ == ordered@[j].path@,
        decreases ordered.len() - k,
    {
        r.push(owned(ordered[k].path.as_str()));
        k = k + 1;
    }
    proof {
        let want = crate::order::sorted(depth_keys(crate::text::texts(v@)));
        assert forall|j: int| 0 <= j < r@.len() implies want[j].path == (#[trigger] r@[j])@ by {
            assert(ordered@.map_values(f)[j] == f(ordered@[j]));
        }
        assert(crate::text::texts(r@) =~= deepest_first(crate::text::texts(v@)));
    }
    r
}

/// What an entry of a directory is.
#[derive(Clone, Copy, Debug, PartialEq, Eq, Structural)]
pub enum EntryClass {
    Symlink,
    Dir,
    File,
    Other,
}

/// What to do with an entry met on a walk.
#[derive(Clone, Debug, PartialEq, Eq)]
pub enum Visit {
    Skip,
    /// A directory at this path below the root: note it and walk it.
    Descend(String),
    /// A file at this path below the root: take it.
    Take(String),
}

/// The path of an entry below the root of the walk.
pub open spec fn relative_to(root: Seq<char>, path: Seq<char>) -> Option<Seq<char>> {
    if crate::host_path::is_under(path, root) {
        Some(
            crate::host_path::rendered(
                crate::host_path::path_parts(path).skip(
                    crate::host_path::path_parts(root).len() as int,
                ),
            ),
        )
    } else {
        None
    }
}

/// The entry belongs to the runtime's own directory.
pub open spec fn is_reserved(rel: Seq<char>) -> bool {
    let parts = crate::host_path::path_parts(rel);
    parts.len() > 0 && parts[0] == ".v9r"@
}

/// What to do with an entry that lies at `rel` below the root.
pub open spec fn visit_of(v: Visit, rel: Seq<char>, class: EntryClass) -> bool {
    if is_reserved(rel) {
        v is Skip
    } else {
        match class {
            EntryClass::Dir => v matches Visit::Descend(p) && p@ == rel,
            EntryClass::File => v matches Visit::Take(p) && p@ == rel,
            _ => v is Skip,
        }
    }
}

fn is_reserved_path(rel: &str) -> (r: bool)
    ensures
        r == is_reserved(rel@),
{
    let parts = components(rel);
    let ghost all = crate::host_path::path_parts(rel@);
    if parts.len() == 0 {
        return false;
    }
    proof {
        assert(all[0] == parts@[0]@);
    }
    same_text(parts[0].as_str(), ".v9r")
}

/// What to do with an entry while a snapshot is taken. A symbolic link cannot
/// be kept in one and stops it; the runtime's own directory is left out.
pub fn visit_for_backup(root: &str, path: &str, class: EntryClass) -> (r: Result<
    Visit,
    TransactionError,
>)
    ensures
        match r {
            Ok(v) => class != EntryClass::Symlink && (relative_to(root@, path@) matches Some(rel)
                && visit_of(v, rel, class)),
            Err(e) => if class == EntryClass::Symlink {
                e matches TransactionError::SymlinkUnsupported(p) && p@ == path@
            } else {
                relative_to(root@, path@) is None && (e matches TransactionError::Safety(m) && m@
                    == "path escaped snapshot root: "@ + path@)
            },
        },
{
    if class == EntryClass::Symlink {
        return Err(TransactionError::SymlinkUnsupported(owned(path)));
    }
    match strip_prefix(path, root) {
        None => Err(TransactionError::Safety(cat("path escaped snapshot root: ", path))),
        Some(rel) => {
            if is_reserved_path(rel.as_str()) {
                return Ok(Visit::Skip);
            }
            Ok(
                match class {
                    EntryClass::Dir => Visit::Descend(rel),
                    EntryClass::File => Visit::Take(rel),
                    _ => Visit::Skip,
                },
            )
        },
    }
}

/// What to do with an entry while the current state is listed. Symbolic links
/// are passed over.
pub fn visit_for_rollback(root: &str, path: &str, class: EntryClass) -> (r: Result<
    Visit,
    TransactionError,
>)
    ensures
        match r {
            Ok(v) => relative_to(root@, path@) matches Some(rel) && visit_of(v, rel, class),
            Err(e) => relative_to(root@, path@) is None && (e matches TransactionError::Safety(m)
                && m@ == "path escaped rollback root: "@ + path@),
        },
{
    match strip_prefix(path, root) {
        None => Err(TransactionError::Safety(cat("path escaped rollback root: ", path))),
        Some(rel) => {
            if is_reserved_path(rel.as_str()) {
                return Ok(Visit::Skip);
            }
            Ok(
                match class {
                    EntryClass::Dir => Visit::Descend(rel),
                    EntryClass::File => Visit::Take(rel),
                    _ => Visit::Skip,
                },
            )
        },
    }
}

/// The entry of a snapshot for a file with the given contents.
pub open spec fn fingerprint(path: Seq<char>, bytes: Seq<u8>) -> FileModel {
    FileModel { path, bytes: bytes.len() as u64, fnv64: fnv64_of(bytes) }
}

impl SnapshotManifest {
    /// A snapshot without entries.
    pub fn new() -> (r: SnapshotManifest)
        ensures
            r.files@.len() == 0,
            r.dirs@.len() == 0,
    {
        SnapshotManifest { files: Vec::new(), dirs: Vec::new() }
    }

    /// Notes a file and its contents.
    pub fn add_file(&mut self, relative_path: String, bytes: &[u8])
        ensures
            file_models(final(self).files@) == file_models(old(self).files@).push(
                fingerprint(relative_path@, bytes@),
            ),
            final(self).dirs == old(self).dirs,
    {
        let entry = SnapshotFile { relative_path, bytes: bytes.len() as u64, fnv64: fnv64(bytes) };
        let ghost added = entry@;
        self.files.push(entry);
        proof {
            assert(file_models(self.files@) =~= file_models(old(self).files@).push(added));
        }
    }

    /// Notes a directory.
    pub fn add_dir(&mut self, relative_path: String)
        ensures
            crate::text::texts(final(self).dirs@) == crate::text::texts(old(self).dirs@).push(
                relative_path@,
            ),
            final(self).files == old(self).files,
    {
        let ghost added = relative_path@;
        self.dirs.push(relative_path);
        proof {
            assert(crate::text::texts(self.dirs@) =~= crate::text::texts(old(self).dirs@).push(
                added,
            ));
        }
    }

    /// The snapshot with its files and directories in the order of their
    /// paths.
    pub fn finish(self) -> (r: SnapshotManifest)
        ensures
            file_models(r.files@) == crate::order::sorted(file_models(self.files@)),
            crate::text::texts(r.dirs@) == paths_sorted(crate::text::texts(self.dirs@)),
    {
        proof {
            crate::order::lemma_sorted_map(self.files@, |f: SnapshotFile| f@);
        }
        SnapshotManifest { files: sort_stable(self.files), dirs: sort_paths(self.dirs) }
    }

    /// Whether the snapshot holds a file at this path.
    pub fn holds_file(&self, relative_path: &str) -> (r: bool)
        ensures
            r == (held_at(file_models(self.files@), crate::host_path::path_parts(relative_path@), 0)
                is Some),
    {
        self.file_at(relative_path).is_some()
    }

    fn file_at(&self, relative_path: &str) -> (r: Option<usize>)
        ensures
            match r {
                Some(i) => i < self.files@.len() && held_at(
                    file_models(self.files@),
                    crate::host_path::path_parts(relative_path@),
                    0,
                ) == Some(self.files@[i as int]@),
                None => held_at(
                    file_models(self.files@),
                    crate::host_path::path_parts(relative_path@),
                    0,
                ) is None,
            },
    {
        let ghost models = file_models(self.files@);
        let ghost parts = crate::host_path::path_parts(relative_path@);
        let mut i: usize = 0;
        while i < self.files.len()
            invariant
                i <= self.files.len(),
                models == file_models(self.files@),
                parts == crate::host_path::path_parts(relative_path@),
                held_at(models, parts, 0) == held_at(models, parts, i as int),
            decreases self.files.len() - i,
        {
            proof {
                assert(models[i as int] == self.files@[i as int]@);
            }
            if same_path(self.files[i].relative_path.as_str(), relative_path) {
                return Some(i);
            }
            i = i + 1;
        }
        None
    }
}

/// The first file from index `i` on that a snapshot holds at the given
/// components.
pub open spec fn held_at(files: Seq<FileModel>, parts: Seq<Seq<char>>, i: int) -> Option<FileModel>
    decreases files.len() - i,
{
    if i < 0 || i >= files.len() {
        None
    } else if crate::host_path::path_parts(files[i].path) == parts {
        Some(files[i])
    } else {
        held_at(files, parts, i + 1)
    }
}

/// The step that one current file calls for: none, if it is as the snapshot
/// has it.
pub open spec fn file_op(files: Seq<FileModel>, cur: CurrentModel) -> Option<OpModel> {
    match held_at(files, crate::host_path::path_parts(cur.path), 0) {
        None => Some(OpModel::Remove(cur.path)),
        Some(f) => if cur.bytes.len() != f.bytes || fnv64_of(cur.bytes) != f.fnv64 {
            Some(OpModel::Restore(cur.path))
        } else {
            None
        },
    }
}

/// The steps that the current files call for, in their order.
pub open spec fn file_ops(files: Seq<FileModel>, current: Seq<CurrentModel>) -> Seq<OpModel>
    decreases current.len(),
{
    if current.len() == 0 {
        Seq::empty()
    } else {
        let before = file_ops(files, current.drop_last());
        match file_op(files, current.last()) {
            Some(op) => before.push(op),
            None => before,
        }
    }
}

/// Every file of the snapshot that is missing is copied back.
pub open spec fn missing_ops(files: Seq<FileModel>, exists: Seq<bool>) -> Seq<OpModel>
    decreases files.len(),
{
    if files.len() == 0 {
        Seq::empty()
    } else {
        let before = missing_ops(files.drop_last(), exists.drop_last());
        if exists.last() {
            before
        } else {
            before.push(OpModel::Restore(files.last().path))
        }
    }
}

/// One of `dirs` has the same components as `dir`.
pub open spec fn dir_known(dirs: Seq<Seq<char>>, dir: Seq<char>) -> bool {
    exists|i: int|
        0 <= i < dirs.len() && crate::host_path::path_parts(#[trigger] dirs[i])
            == crate::host_path::path_parts(dir)
}

/// Every directory that the snapshot does not hold is removed.
pub open spec fn dir_ops(dirs: Seq<Seq<char>>, current: Seq<Seq<char>>) -> Seq<OpModel>
    decreases current.len(),
{
    if current.len() == 0 {
        Seq::empty()
    } else {
        let before = dir_ops(dirs, current.drop_last());
        if dir_known(dirs, current.last()) {
            before
        } else {
            before.push(OpModel::RemoveDir(current.last()))
        }
    }
}

/// A directory that the snapshot does not hold stands at `path`.
pub open spec fn displaced(path: Seq<char>, dirs: Seq<Seq<char>>, current: Seq<Seq<char>>) -> bool {
    dir_known(current, path) && !dir_known(dirs, path)
}

/// For each file of the snapshot, that no new directory stands in its place.
pub open spec fn in_place(
    files: Seq<FileModel>,
    dirs: Seq<Seq<char>>,
    current: Seq<Seq<char>>,
) -> Seq<bool> {
    Seq::new(files.len(), |i: int| !displaced(files[i].path, dirs, current))
}

/// Every directory of the snapshot that is missing is made again.
pub open spec fn make_ops(dirs: Seq<Seq<char>>, current: Seq<Seq<char>>) -> Seq<OpModel>
    decreases dirs.len(),
{
    if dirs.len() == 0 {
        Seq::empty()
    } else {
        let before = make_ops(dirs.drop_last(), current);
        if dir_known(current, dirs.last()) {
            before
        } else {
            before.push(OpModel::MakeDir(dirs.last()))
        }
    }
}

/// Why the first unusable path among `paths` is unusable.
pub open spec fn first_bad(paths: Seq<Seq<char>>) -> Option<Seq<char>>
    decreases paths.len(),
{
    if paths.len() == 0 {
        None
    } else {
        match first_bad(paths.drop_last()) {
            Some(m) => Some(m),
            None => crate::task_fs::bad_snapshot_path(paths.last()),
        }
    }
}

pub open spec fn paths_of(files: Seq<FileModel>) -> Seq<Seq<char>> {
    files.map_values(|f: FileModel| f.path)
}

pub open spec fn current_paths(files: Seq<CurrentModel>) -> Seq<Seq<char>> {
    files.map_values(|f: CurrentModel| f.path)
}

/// The steps from the current state to the snapshot, or why one of the paths
/// cannot be used: those of the snapshot are looked at first, files before
/// directories, then the current files and the current directories.
pub open spec fn rollback_plan(
    files: Seq<FileModel>,
    dirs: Seq<Seq<char>>,
    current: Seq<CurrentModel>,
    exists: Seq<bool>,
    current_dirs: Seq<Seq<char>>,
) -> Result<Seq<OpModel>, Seq<char>> {
    let deep = deepest_first(current_dirs);
    match first_bad(paths_of(files)) {
        Some(m) => Err(m),
        None => match first_bad(dirs) {
            Some(m) => Err(m),
            None => match first_bad(current_paths(current)) {
                Some(m) => Err(m),
                None => match first_bad(deep) {
                    Some(m) => Err(m),
                    None => Ok(
                        file_ops(files, current) + missing_ops(files, exists) + dir_ops(dirs, deep)
                            + missing_ops(files, in_place(files, dirs, deep)) + make_ops(
                            dirs,
                            deep,
                        ),
                    ),
                },
            },
        },
    }
}

proof fn lemma_first_bad_persists(paths: Seq<Seq<char>>, n: int)
    requires
        0 <= n <= paths.len(),
        first_bad(paths.take(n)) is Some,
    ensures
        first_bad(paths) == first_bad(paths.take(n)),
    decreases paths.len() - n,
{
    if n < paths.len() {
        assert(paths.take(n + 1).drop_last() =~= paths.take(n));
        lemma_first_bad_persists(paths, n + 1);
    } else {
        assert(paths.take(n) =~= paths);
    }
}

fn check_paths(paths: &Vec<String>) -> (r: Result<(), TransactionError>)
    ensures
        match r {
            Ok(_) => first_bad(crate::text::texts(paths@)) is None,
            Err(e) => e matches TransactionError::Safety(m) && first_bad(crate::text::texts(paths@))
                == Some(m@),
        },
{
    let ghost all = crate::text::texts(paths@);
    let mut i: usize = 0;
    while i < paths.len()
        invariant
            i <= paths.len(),
            all == crate::text::texts(paths@),
            first_bad(all.take(i as int)) is None,
        decreases paths.len() - i,
    {
        proof {
            assert(all.take(i + 1).drop_last() =~= all.take(i as int));
            assert(all.take(i + 1).last() == paths@[i as int]@);
        }
        match safe_relative_path(paths[i].as_str()) {
            Ok(_) => {},
            Err(e) => {
                proof {
                    lemma_first_bad_persists(all, i + 1);
                }
                return Err(e);
            },
        }
        i = i + 1;
    }
    proof {
        assert(all.take(all.len() as int) =~= all);
    }
    Ok(())
}

/// The steps that bring a working directory back to a snapshot.
///
/// `exists[i]` says whether anything stands at the path of the snapshot's
/// `i`-th file. Changed files are restored and new ones removed; files that
/// are gone are restored; directories that are new are removed, deepest
/// first; files whose place such a directory had taken are restored; and
/// directories that are gone are made again. Every path is checked before the
/// first step.
pub fn selective_rollback(
    manifest: &SnapshotManifest,
    current: &Vec<CurrentFile>,
    exists: &Vec<bool>,
    current_dirs: Vec<String>,
) -> (r: Result<Vec<RollbackOp>, TransactionError>)
    requires
        exists@.len() == manifest.files@.len(),
    ensures
        match r {
            Ok(ops) => rollback_plan(
                file_models(manifest.files@),
                crate::text::texts(manifest.dirs@),
                current_models(current@),
                exists@,
                crate::text::texts(current_dirs@),
            ) == Ok::<Seq<OpModel>, Seq<char>>(op_models(ops@)),
            Err(e) => e matches TransactionError::Safety(m) && rollback_plan(
                file_models(manifest.files@),
                crate::text::texts(manifest.dirs@),
                current_models(current@),
                exists@,
                crate::text::texts(current_dirs@),
            ) == Err::<Seq<OpModel>, Seq<char>>(m@),
        },
{
    let ghost files = file_models(manifest.files@);
    let ghost cur = current_models(current@);
    let file_paths = snapshot_paths(&manifest.files);
    check_paths(&file_paths)?;
    check_paths(&manifest.dirs)?;
    let now_paths = present_paths(current);
    check_paths(&now_paths)?;
    let deep = sort_by_depth(current_dirs);
    check_paths(&deep)?;
    let mut ops: Vec<RollbackOp> = Vec::new();
    let mut i: usize = 0;
    proof {
        assert(op_models(ops@) =~= file_ops(files, cur.take(0)));
    }
    while i < current.len()
        invariant
            i <= current.len(),
            files == file_models(manifest.files@),
            cur == current_models(current@),
            op_models(ops@) == file_ops(files, cur.take(i as int)),
        decreases current.len() - i,
    {
        let ghost before = op_models(ops@);
        let file = &current[i];
        proof {
            assert(cur.take(i + 1).drop_last() =~= cur.take(i as int));
            assert(cur.take(i + 1).last() == file@);
        }
        match manifest.file_at(file.relative_path.as_str()) {
            None => {
                ops.push(RollbackOp::Remove(owned(file.relative_path.as_str())));
                proof {
                    assert(op_models(ops@) =~= before.push(OpModel::Remove(file.relative_path@)));
                }
            },
            Some(k) => {
                let held = &manifest.files[k];
                if file.bytes.len() as u64 != held.bytes || fnv64(file.bytes.as_slice())
                    != held.fnv64 {
                    ops.push(RollbackOp::Restore(owned(file.relative_path.as_str())));
                    proof {
                        assert(op_models(ops@) =~= before.push(
                            OpModel::Restore(file.relative_path@),
                        ));
                    }
                }
            },
        }
        i = i + 1;
    }
    proof {
        assert(cur.take(cur.len() as int) =~= cur);
    }
    restore_missing(&mut ops, &manifest.files, exists);
    let ghost second = op_models(ops@);
    let ghost known = crate::text::texts(manifest.dirs@);
    let ghost deep_paths = crate::text::texts(deep@);
    let mut d: usize = 0;
    proof {
        assert(second + dir_ops(known, deep_paths.take(0)) =~= second);
    }
    while d < deep.len()
        invariant
            d <= deep.len(),
            deep_paths == crate::text::texts(deep@),
            known == crate::text::texts(manifest.dirs@),
            op_models(ops@) == second + dir_ops(known, deep_paths.take(d as int)),
        decreases deep.len() - d,
    {
        let ghost before = op_models(ops@);
        proof {
            assert(deep_paths.take(d + 1).drop_last() =~= deep_paths.take(d as int));
            assert(deep_paths.take(d + 1).last() == deep@[d as int]@);
        }
        if !is_known_dir(&manifest.dirs, deep[d].as_str()) {
            ops.push(RollbackOp::RemoveDir(owned(deep[d].as_str())));
            proof {
                let op = OpModel::RemoveDir(deep@[d as int]@);
                assert(op_models(ops@) =~= before.push(op));
                assert(before.push(op) =~= second + dir_ops(
                    known,
                    deep_paths.take(d as int),
                ).push(op));
            }
        }
        d = d + 1;
    }
    proof {
        assert(deep_paths.take(deep_paths.len() as int) =~= deep_paths);
    }
    let free = files_in_place(manifest, &deep);
    restore_missing(&mut ops, &manifest.files, &free);
    make_missing(&mut ops, &manifest.dirs, &deep);
    Ok(ops)
}

/// Adds the steps that copy missing files back.
fn restore_missing(ops: &mut Vec<RollbackOp>, list: &Vec<SnapshotFile>, exists: &Vec<bool>)
    requires
        exists@.len() == list@.len(),
    ensures
        op_models(final(ops)@) == op_models(old(ops)@) + missing_ops(
            file_models(list@),
            exists@,
        ),
{
    let ghost files = file_models(list@);
    let ghost first = op_models(ops@);
    let mut k: usize = 0;
    proof {
        assert(first + missing_ops(files.take(0), exists@.take(0)) =~= first);
    }
    while k < list.len()
        invariant
            k <= list.len(),
            exists@.len() == list@.len(),
            files == file_models(list@),
            op_models(ops@) == first + missing_ops(files.take(k as int), exists@.take(k as int)),
        decreases list.len() - k,
    {
        let ghost before = op_models(ops@);
        proof {
            assert(files.take(k + 1).drop_last() =~= files.take(k as int));
            assert(exists@.take(k + 1).drop_last() =~= exists@.take(k as int));
            assert(files.take(k + 1).last() == list@[k as int]@);
        }
        if !exists[k] {
            ops.push(RollbackOp::Restore(owned(list[k].relative_path.as_str())));
            proof {
                let op = OpModel::Restore(list@[k as int].relative_path@);
                assert(op_models(ops@) =~= before.push(op));
                assert(before.push(op) =~= first + missing_ops(
                    files.take(k as int),
                    exists@.take(k as int),
                ).push(op));
            }
        }
        k = k + 1;
    }
    proof {
        assert(files.take(files.len() as int) =~= files);
        assert(exists@.take(exists@.len() as int) =~= exists@);
    }
}

/// Adds the steps that make missing directories again.
fn make_missing(ops: &mut Vec<RollbackOp>, dirs: &Vec<String>, current: &Vec<String>)
    ensures
        op_models(final(ops)@) == op_models(old(ops)@) + make_ops(
            crate::text::texts(dirs@),
            crate::text::texts(current@),
        ),
{
    let ghost all = crate::text::texts(dirs@);
    let ghost now = crate::text::texts(current@);
    let ghost first = op_models(ops@);
    let mut k: usize = 0;
    proof {
        assert(first + make_ops(all.take(0), now) =~= first);
    }
    while k < dirs.len()
        invariant
            k <= dirs.len(),
            all == crate::text::texts(dirs@),
            now == crate::text::texts(current@),
            op_models(ops@) == first + make_ops(all.take(k as int), now),
        decreases dirs.len() - k,
    {
        let ghost before = op_models(ops@);
        proof {
            assert(all.take(k + 1).drop_last() =~= all.take(k as int));
            assert(all.take(k + 1).last() == dirs@[k as int]@);
        }
        if !is_known_dir(current, dirs[k].as_str()) {
            ops.push(RollbackOp::MakeDir(owned(dirs[k].as_str())));
            proof {
                let op = OpModel::MakeDir(dirs@[k as int]@);
                assert(op_models(ops@) =~= before.push(op));
                assert(before.push(op) =~= first + make_ops(all.take(k as int), now).push(op));
            }
        }
        k = k + 1;
    }
    proof {
        assert(all.take(all.len() as int) =~= all);
    }
}

/// For each file of the snapshot, whether no new directory stands in its
/// place.
fn files_in_place(manifest: &SnapshotManifest, current: &Vec<String>) -> (r: Vec<bool>)
    ensures
        r@ == in_place(
            file_models(manifest.files@),
            crate::text::texts(manifest.dirs@),
            crate::text::texts(current@),
        ),
{
    let ghost want = in_place(
        file_models(manifest.files@),
        crate::text::texts(manifest.dirs@),
        crate::text::texts(current@),
    );
    let mut r: Vec<bool> = Vec::new();
    let mut i: usize = 0;
    while i < manifest.files.len()
        invariant
            i <= manifest.files.len(),
            want == in_place(
                file_models(manifest.files@),
                crate::text::texts(manifest.dirs@),
                crate::text::texts(current@),
            ),
            r@ == want.take(i as int),
        decreases manifest.files.len() - i,
    {
        let path = manifest.files[i].relative_path.as_str();
        let displaced = is_known_dir(current, path) && !is_known_dir(&manifest.dirs, path);
        r.push(!displaced);
        proof {
            assert(file_models(manifest.files@)[i as int].path == path@);
            assert(want.take(i + 1) =~= want.take(i as int).push(!displaced));
        }
        i = i + 1;
    }
    proof {
        assert(want.take(want.len() as int) =~= want);
    }
    r
}

fn is_known_dir(dirs: &Vec<String>, dir: &str) -> (r: bool)
    ensures
        r == dir_known(crate::text::texts(dirs@), dir@),
{
    let ghost all = crate::text::texts(dirs@);
    let mut i: usize = 0;
    while i < dirs.len()
        invariant
            i <= dirs.len(),
            all == crate::text::texts(dirs@),
            forall|j: int|
                0 <= j < i ==> crate::host_path::path_parts(#[trigger] all[j])
                    != crate::host_path::path_parts(dir@),
        decreases dirs.len() - i,
    {
        proof {
            assert(all[i as int] == dirs@[i as int]@);
        }
        if same_path(dirs[i].as_str(), dir) {
            return true;
        }
        i = i + 1;
    }
    false
}

fn snapshot_paths(files: &Vec<SnapshotFile>) -> (r: Vec<String>)
    ensures
        crate::text::texts(r@) == paths_of(file_models(files@)),
{
    let mut r: Vec<String> = Vec::new();
    let mut i: usize = 0;
    while i < files.len()
        invariant
            i <= files.len(),
            r@.len() == i,
            forall|j: int| 0 <= j < i ==> (#[trigger] r@[j])@ == files@[j].relative_path@,
        decreases files.len() - i,
    {
        r.push(owned(files[i].relative_path.as_str()));
        i = i + 1;
    }
    proof {
        assert(crate::text::texts(r@) =~= paths_of(file_models(files@)));
    }
    r
}

fn present_paths(files: &Vec<CurrentFile>) -> (r: Vec<String>)
    ensures
        crate::text::texts(r@) == current_paths(current_models(files@)),
{
    let mut r: Vec<String> = Vec::new();
    let mut i: usize = 0;
    while i < files.len()
        invariant
            i <= files.len(),
            r@.len() == i,
            forall|j: int| 0 <= j < i ==> (#[trigger] r@[j])@ == files@[j].relative_path@,
        decreases files.len() - i,
    {
        r.push(owned(files[i].relative_path.as_str()));
        i = i + 1;
    }
    proof {
        assert(crate::text::texts(r@) =~= current_paths(current_models(files@)));
    }
    r
}

/// The regular files of a directory tree, by the components of their paths.
pub type FileState = Map<Seq<Seq<char>>, Seq<u8>>;

/// `files` is a snapshot of `state`: it holds exactly the files of `state`,
/// each with its size and hash.
pub open spec fn is_snapshot_of(files: Seq<FileModel>, state: FileState) -> bool {
    &&& forall|i: int|
        0 <= i < files.len() ==> {
            let key = crate::host_path::path_parts((#[trigger] files[i]).path);
            state.dom().contains(key) && state[key].len() <= u64::MAX && files[i] == fingerprint(
                files[i].path,
                state[key],
            )
        }
    &&& forall|key: Seq<Seq<char>>| #[trigger]
        state.dom().contains(key) ==> exists|i: int|
            0 <= i < files.len() && crate::host_path::path_parts((#[trigger] files[i]).path) == key
}

/// `current` lists exactly the files of `state` with their contents.
pub open spec fn is_listing_of(current: Seq<CurrentModel>, state: FileState) -> bool {
    &&& forall|i: int|
        0 <= i < current.len() ==> {
            let key = crate::host_path::path_parts((#[trigger] current[i]).path);
            state.dom().contains(key) && state[key] == current[i].bytes
        }
    &&& forall|key: Seq<Seq<char>>| #[trigger]
        state.dom().contains(key) ==> exists|i: int|
            0 <= i < current.len() && crate::host_path::path_parts((#[trigger] current[i]).path)
                == key
}

/// `exists` tells at which places of the snapshot's files something stands: a
/// file or a directory.
pub open spec fn is_presence_in(
    exists: Seq<bool>,
    files: Seq<FileModel>,
    state: FileState,
    current_dirs: Seq<Seq<char>>,
) -> bool {
    &&& exists.len() == files.len()
    &&& forall|i: int|
        0 <= i < files.len() ==> #[trigger] exists[i] == (state.dom().contains(
            crate::host_path::path_parts(files[i].path),
        ) || dir_known(current_dirs, files[i].path))
}

/// No file has the place of a directory.
pub open spec fn are_apart(files: Seq<FileModel>, dirs: Seq<Seq<char>>) -> bool {
    forall|i: int| 0 <= i < files.len() ==> !dir_known(dirs, (#[trigger] files[i]).path)
}

/// No file has the size and the hash of its saved version without being equal
/// to it.
pub open spec fn no_collision(state: FileState, saved: FileState) -> bool {
    forall|key: Seq<Seq<char>>| #[trigger]
        state.dom().contains(key) && saved.dom().contains(key) && state[key].len()
            == saved[key].len() && fnv64_of(state[key]) == fnv64_of(saved[key]) ==> state[key]
            == saved[key]
}

/// The files after one step, with `saved` to copy from.
pub open spec fn apply_op(state: FileState, saved: FileState, op: OpModel) -> FileState {
    match op {
        OpModel::Remove(p) => state.remove(crate::host_path::path_parts(p)),
        OpModel::Restore(p) => state.insert(
            crate::host_path::path_parts(p),
            saved[crate::host_path::path_parts(p)],
        ),
        OpModel::RemoveDir(_) => state,
        OpModel::MakeDir(_) => state,
    }
}

/// The files after all steps, in order.
pub open spec fn apply_ops(state: FileState, saved: FileState, ops: Seq<OpModel>) -> FileState
    decreases ops.len(),
{
    if ops.len() == 0 {
        state
    } else {
        apply_op(apply_ops(state, saved, ops.drop_last()), saved, ops.last())
    }
}

proof fn lemma_apply_concat(state: FileState, saved: FileState, a: Seq<OpModel>, b: Seq<OpModel>)
    ensures
        apply_ops(state, saved, a + b) == apply_ops(apply_ops(state, saved, a), saved, b),
    decreases b.len(),
{
    if b.len() == 0 {
        assert(a + b =~= a);
    } else {
        lemma_apply_concat(state, saved, a, b.drop_last());
        assert((a + b).drop_last() =~= a + b.drop_last());
    }
}

proof fn lemma_held_at(files: Seq<FileModel>, parts: Seq<Seq<char>>, i: int)
    requires
        0 <= i,
    ensures
        match held_at(files, parts, i) {
            Some(f) => crate::host_path::path_parts(f.path) == parts && files.contains(f),
            None => forall|j: int|
                i <= j < files.len() ==> crate::host_path::path_parts((#[trigger] files[j]).path)
                    != parts,
        },
    decreases files.len() - i,
{
    if i < files.len() && crate::host_path::path_parts(files[i].path) != parts {
        lemma_held_at(files, parts, i + 1);
    }
}

/// Some listed file among the first `n` has these components.
spec fn seen(current: Seq<CurrentModel>, n: int, key: Seq<Seq<char>>) -> bool {
    exists|i: int|
        0 <= i < n && crate::host_path::path_parts((#[trigger] current[i]).path) == key
}

proof fn lemma_file_ops_effect(
    files: Seq<FileModel>,
    current: Seq<CurrentModel>,
    n: int,
    state: FileState,
    saved: FileState,
    key: Seq<Seq<char>>,
)
    requires
        is_snapshot_of(files, saved),
        is_listing_of(current, state),
        no_collision(state, saved),
        0 <= n <= current.len(),
    ensures
        ({
            let out = apply_ops(state, saved, file_ops(files, current.take(n)));
            if seen(current, n, key) {
                &&& out.dom().contains(key) == saved.dom().contains(key)
                &&& saved.dom().contains(key) ==> out[key] == saved[key]
            } else {
                &&& out.dom().contains(key) == state.dom().contains(key)
                &&& state.dom().contains(key) ==> out[key] == state[key]
            }
        }),
    decreases n,
{
    if n > 0 {
        lemma_file_ops_effect(files, current, n - 1, state, saved, key);
        let head = current.take(n);
        assert(head.drop_last() =~= current.take(n - 1));
        let cur = current[n - 1];
        let here = crate::host_path::path_parts(cur.path);
        assert(head.last() == cur);
        lemma_held_at(files, here, 0);
        let before = file_ops(files, current.take(n - 1));
        let ops = file_ops(files, head);
        match file_op(files, cur) {
            Some(op) => {
                assert(ops.drop_last() =~= before);
                assert(ops.last() == op);
            },
            None => {
                assert(ops == before);
            },
        }
        if here == key {
            assert(seen(current, n, key));
            match held_at(files, here, 0) {
                None => {
                    assert(!saved.dom().contains(key));
                },
                Some(f) => {
                    let j = choose|j: int| 0 <= j < files.len() && files[j] == f;
                    assert(saved.dom().contains(crate::host_path::path_parts(files[j].path)));
                    assert(f == fingerprint(f.path, saved[key]));
                    assert(state.dom().contains(key));
                },
            }
        } else {
            assert(seen(current, n, key) == seen(current, n - 1, key)) by {
                if seen(current, n, key) {
                    let i = choose|i: int|
                        0 <= i < n && crate::host_path::path_parts((#[trigger] current[i]).path)
                            == key;
                    assert(i < n - 1);
                }
                if seen(current, n - 1, key) {
                    let i = choose|i: int|
                        0 <= i < n - 1 && crate::host_path::path_parts(
                            (#[trigger] current[i]).path,
                        ) == key;
                    assert(i < n);
                }
            }
        }
    } else {
        assert(current.take(0) =~= Seq::<CurrentModel>::empty());
        assert(!seen(current, 0, key));
    }
}

proof fn lemma_missing_ops_effect(
    files: Seq<FileModel>,
    exists: Seq<bool>,
    n: int,
    state: FileState,
    saved: FileState,
    key: Seq<Seq<char>>,
)
    requires
        is_snapshot_of(files, saved),
        exists.len() == files.len(),
        0 <= n <= files.len(),
    ensures
        ({
            let out = apply_ops(state, saved, missing_ops(files.take(n), exists.take(n)));
            if exists|i: int|
                0 <= i < n && !exists[i] && crate::host_path::path_parts((#[trigger] files[i]).path)
                    == key {
                out.dom().contains(key) && saved.dom().contains(key) && out[key] == saved[key]
            } else {
                &&& out.dom().contains(key) == state.dom().contains(key)
                &&& state.dom().contains(key) ==> out[key] == state[key]
            }
        }),
    decreases n,
{
    if n > 0 {
        lemma_missing_ops_effect(files, exists, n - 1, state, saved, key);
        assert(files.take(n).drop_last() =~= files.take(n - 1));
        assert(exists.take(n).drop_last() =~= exists.take(n - 1));
        let before = missing_ops(files.take(n - 1), exists.take(n - 1));
        let ops = missing_ops(files.take(n), exists.take(n));
        let here = crate::host_path::path_parts(files[n - 1].path);
        assert(saved.dom().contains(here));
        if !exists[n - 1] {
            assert(ops.drop_last() =~= before);
            assert(ops.last() == OpModel::Restore(files[n - 1].path));
        } else {
            assert(ops == before);
        }
        let hit_before = exists|i: int|
            0 <= i < n - 1 && !exists[i] && crate::host_path::path_parts(
                (#[trigger] files[i]).path,
            ) == key;
        let hit = exists|i: int|
            0 <= i < n && !exists[i] && crate::host_path::path_parts((#[trigger] files[i]).path)
                == key;
        assert(hit == (hit_before || (!exists[n - 1] && here == key))) by {
            if hit {
                let i = choose|i: int|
                    0 <= i < n && !exists[i] && crate::host_path::path_parts(
                        (#[trigger] files[i]).path,
                    ) == key;
                if i < n - 1 {
                    assert(hit_before);
                }
            }
            if hit_before {
                let i = choose|i: int|
                    0 <= i < n - 1 && !exists[i] && crate::host_path::path_parts(
                        (#[trigger] files[i]).path,
                    ) == key;
                assert(i < n);
            }
        }
    } else {
        assert(files.take(0) =~= Seq::<FileModel>::empty());
    }
}

proof fn lemma_dir_ops_keep_files(
    state: FileState,
    saved: FileState,
    dirs: Seq<Seq<char>>,
    current: Seq<Seq<char>>,
)
    ensures
        apply_ops(state, saved, dir_ops(dirs, current)) == state,
    decreases current.len(),
{
    if current.len() > 0 {
        lemma_dir_ops_keep_files(state, saved, dirs, current.drop_last());
        let before = dir_ops(dirs, current.drop_last());
        if !dir_known(dirs, current.last()) {
            assert(dir_ops(dirs, current).drop_last() =~= before);
        }
    }
}

proof fn lemma_make_ops_keep_files(
    state: FileState,
    saved: FileState,
    dirs: Seq<Seq<char>>,
    current: Seq<Seq<char>>,
)
    ensures
        apply_ops(state, saved, make_ops(dirs, current)) == state,
    decreases dirs.len(),
{
    if dirs.len() > 0 {
        lemma_make_ops_keep_files(state, saved, dirs.drop_last(), current);
        let before = make_ops(dirs.drop_last(), current);
        if !dir_known(current, dirs.last()) {
            assert(make_ops(dirs, current).drop_last() =~= before);
        }
    }
}

/// Sorting directories by depth leaves them the same directories.
proof fn lemma_deepest_first_knows(dirs: Seq<Seq<char>>, p: Seq<char>)
    ensures
        dir_known(deepest_first(dirs), p) == dir_known(dirs, p),
{
    let deep = deepest_first(dirs);
    let keys = depth_keys(dirs);
    let out = crate::order::sorted(keys);
    if dir_known(deep, p) {
        let i = choose|i: int|
            0 <= i < deep.len() && crate::host_path::path_parts(#[trigger] deep[i])
                == crate::host_path::path_parts(p);
        assert(out.contains(out[i]));
        crate::order::lemma_sorted_contains(keys, out[i]);
        let j = choose|j: int| 0 <= j < keys.len() && keys[j] == out[i];
        assert(dirs[j] == deep[i]);
    }
    if dir_known(dirs, p) {
        let j = choose|j: int|
            0 <= j < dirs.len() && crate::host_path::path_parts(#[trigger] dirs[j])
                == crate::host_path::path_parts(p);
        assert(keys.contains(keys[j]));
        crate::order::lemma_sorted_contains(keys, keys[j]);
        let i = choose|i: int| 0 <= i < out.len() && out[i] == keys[j];
        assert(deep[i] == dirs[j]);
    }
}

/// A rollback brings back exactly the files of the snapshot: changed and
/// deleted ones with their saved contents, those that became directories too,
/// and no others.
pub proof fn lemma_rollback_restores_snapshot(
    files: Seq<FileModel>,
    dirs: Seq<Seq<char>>,
    current: Seq<CurrentModel>,
    exists: Seq<bool>,
    current_dirs: Seq<Seq<char>>,
    state: FileState,
    saved: FileState,
)
    requires
        is_snapshot_of(files, saved),
        are_apart(files, dirs),
        is_listing_of(current, state),
        is_presence_in(exists, files, state, current_dirs),
        no_collision(state, saved),
    ensures
        rollback_plan(files, dirs, current, exists, current_dirs) matches Ok(ops) ==> apply_ops(
            state,
            saved,
            ops,
        ) == saved,
{
    let deep = deepest_first(current_dirs);
    let free = in_place(files, dirs, deep);
    let a = file_ops(files, current);
    let b = missing_ops(files, exists);
    let c = dir_ops(dirs, deep);
    let d = missing_ops(files, free);
    let e = make_ops(dirs, deep);
    let one = apply_ops(state, saved, a);
    let two = apply_ops(one, saved, b);
    let last = apply_ops(two, saved, d);
    lemma_apply_concat(state, saved, a, b);
    lemma_apply_concat(state, saved, a + b, c);
    lemma_apply_concat(state, saved, a + b + c, d);
    lemma_apply_concat(state, saved, a + b + c + d, e);
    lemma_dir_ops_keep_files(two, saved, dirs, deep);
    lemma_make_ops_keep_files(last, saved, dirs, deep);
    assert(current.take(current.len() as int) =~= current);
    assert(files.take(files.len() as int) =~= files);
    assert(exists.take(exists.len() as int) =~= exists);
    assert(free.take(free.len() as int) =~= free);
    assert forall|key: Seq<Seq<char>>|
        #![trigger last.dom().contains(key)]
        #![trigger last[key]]
        last.dom().contains(key) == saved.dom().contains(key) && (saved.dom().contains(key)
            ==> last[key] == saved[key]) by {
        lemma_file_ops_effect(files, current, current.len() as int, state, saved, key);
        lemma_missing_ops_effect(files, exists, files.len() as int, one, saved, key);
        lemma_missing_ops_effect(files, free, files.len() as int, two, saved, key);
        if state.dom().contains(key) {
            let i = choose|i: int|
                0 <= i < current.len() && crate::host_path::path_parts(
                    (#[trigger] current[i]).path,
                ) == key;
            assert(seen(current, current.len() as int, key));
        } else {
            if seen(current, current.len() as int, key) {
                let i = choose|i: int|
                    0 <= i < current.len() && crate::host_path::path_parts(
                        (#[trigger] current[i]).path,
                    ) == key;
                assert(state.dom().contains(key));
            }
            if saved.dom().contains(key) {
                let i = choose|i: int|
                    0 <= i < files.len() && crate::host_path::path_parts((#[trigger] files[i]).path)
                        == key;
                if exists[i] {
                    lemma_deepest_first_knows(current_dirs, files[i].path);
                    assert(displaced(files[i].path, dirs, deep));
                    assert(!free[i]);
                }
            }
        }
    }
    assert(last.dom() =~= saved.dom());
    assert(last =~= saved);
}

/// Each directory of `list` is one of `dirs`, by its components.
#[verifier::opaque]
pub open spec fn covers(dirs: Seq<Seq<char>>, list: Seq<Seq<char>>) -> bool {
    forall|i: int| 0 <= i < list.len() ==> dir_known(dirs, #[trigger] list[i])
}

/// Rolling back a directory that is at the snapshot already does nothing.
pub proof fn lemma_rollback_idempotent(
    files: Seq<FileModel>,
    dirs: Seq<Seq<char>>,
    current: Seq<CurrentModel>,
    exists: Seq<bool>,
    current_dirs: Seq<Seq<char>>,
    saved: FileState,
)
    requires
        is_snapshot_of(files, saved),
        is_listing_of(current, saved),
        is_presence_in(exists, files, saved, current_dirs),
        covers(dirs, current_dirs),
        covers(current_dirs, dirs),
    ensures
        rollback_plan(files, dirs, current, exists, current_dirs) matches Ok(ops) ==> ops.len()
            == 0,
{
    let free = in_place(files, dirs, deepest_first(current_dirs));
    assert(current.take(current.len() as int) =~= current);
    assert(files.take(files.len() as int) =~= files);
    assert(exists.take(exists.len() as int) =~= exists);
    assert(free.take(free.len() as int) =~= free);
    assert forall|i: int| 0 <= i < exists.len() implies #[trigger] exists[i] by {
        assert(saved.dom().contains(crate::host_path::path_parts(files[i].path)));
    }
    lemma_no_file_ops(files, current, current.len() as int, saved);
    lemma_no_missing_ops(files, exists, files.len() as int);
    lemma_no_new_dirs(files, dirs, current_dirs);
    lemma_no_missing_ops(files, free, files.len() as int);
    lemma_no_missing_dirs(dirs, current_dirs);
}

proof fn lemma_no_new_dirs(
    files: Seq<FileModel>,
    dirs: Seq<Seq<char>>,
    current_dirs: Seq<Seq<char>>,
)
    requires
        covers(dirs, current_dirs),
    ensures
        dir_ops(dirs, deepest_first(current_dirs)).len() == 0,
        forall|i: int|
            0 <= i < files.len() ==> #[trigger] in_place(
                files,
                dirs,
                deepest_first(current_dirs),
            )[i],
{
    let deep = deepest_first(current_dirs);
    assert forall|i: int| 0 <= i < deep.len() implies dir_known(dirs, #[trigger] deep[i]) by {
        assert(dir_known(deep, deep[i]));
        lemma_known_through(dirs, current_dirs, deep[i]);
    }
    assert forall|i: int| 0 <= i < files.len() implies #[trigger] in_place(files, dirs, deep)[i] by {
        if dir_known(deep, files[i].path) {
            lemma_known_through(dirs, current_dirs, files[i].path);
        }
    }
    lemma_no_dir_ops(dirs, deep);
}

proof fn lemma_no_missing_dirs(dirs: Seq<Seq<char>>, current_dirs: Seq<Seq<char>>)
    requires
        covers(current_dirs, dirs),
    ensures
        make_ops(dirs, deepest_first(current_dirs)).len() == 0,
{
    reveal(covers);
    let deep = deepest_first(current_dirs);
    assert forall|i: int| 0 <= i < dirs.len() implies dir_known(deep, #[trigger] dirs[i]) by {
        lemma_deepest_first_knows(current_dirs, dirs[i]);
    }
    lemma_no_make_ops(dirs, deep);
}

proof fn lemma_known_through(
    dirs: Seq<Seq<char>>,
    current_dirs: Seq<Seq<char>>,
    p: Seq<char>,
)
    requires
        covers(dirs, current_dirs),
        dir_known(deepest_first(current_dirs), p),
    ensures
        dir_known(dirs, p),
{
    reveal(covers);
    lemma_deepest_first_knows(current_dirs, p);
    let i = choose|i: int|
        0 <= i < current_dirs.len() && crate::host_path::path_parts(#[trigger] current_dirs[i])
            == crate::host_path::path_parts(p);
    assert(dir_known(dirs, current_dirs[i]));
    let j = choose|j: int|
        0 <= j < dirs.len() && crate::host_path::path_parts(#[trigger] dirs[j])
            == crate::host_path::path_parts(current_dirs[i]);
    assert(crate::host_path::path_parts(dirs[j]) == crate::host_path::path_parts(p));
}

proof fn lemma_no_dir_ops(dirs: Seq<Seq<char>>, current: Seq<Seq<char>>)
    requires
        forall|i: int| 0 <= i < current.len() ==> dir_known(dirs, #[trigger] current[i]),
    ensures
        dir_ops(dirs, current).len() == 0,
    decreases current.len(),
{
    if current.len() > 0 {
        let rest = current.drop_last();
        assert forall|i: int| 0 <= i < rest.len() implies dir_known(dirs, #[trigger] rest[i]) by {
            assert(rest[i] == current[i]);
        }
        lemma_no_dir_ops(dirs, rest);
        assert(dir_known(dirs, current[current.len() - 1]));
    }
}

proof fn lemma_no_make_ops(dirs: Seq<Seq<char>>, current: Seq<Seq<char>>)
    requires
        forall|i: int| 0 <= i < dirs.len() ==> dir_known(current, #[trigger] dirs[i]),
    ensures
        make_ops(dirs, current).len() == 0,
    decreases dirs.len(),
{
    if dirs.len() > 0 {
        let rest = dirs.drop_last();
        assert forall|i: int| 0 <= i < rest.len() implies dir_known(current, #[trigger] rest[i]) by {
            assert(rest[i] == dirs[i]);
        }
        lemma_no_make_ops(rest, current);
        assert(dir_known(current, dirs[dirs.len() - 1]));
    }
}

proof fn lemma_no_file_ops(
    files: Seq<FileModel>,
    current: Seq<CurrentModel>,
    n: int,
    saved: FileState,
)
    requires
        is_snapshot_of(files, saved),
        is_listing_of(current, saved),
        0 <= n <= current.len(),
    ensures
        file_ops(files, current.take(n)).len() == 0,
    decreases n,
{
    if n > 0 {
        lemma_no_file_ops(files, current, n - 1, saved);
        assert(current.take(n).drop_last() =~= current.take(n - 1));
        let cur = current[n - 1];
        let here = crate::host_path::path_parts(cur.path);
        lemma_held_at(files, here, 0);
        assert(saved.dom().contains(here));
        let f = held_at(files, here, 0)->0;
        let j = choose|j: int| 0 <= j < files.len() && files[j] == f;
        assert(saved.dom().contains(crate::host_path::path_parts(files[j].path)));
    }
}

proof fn lemma_no_missing_ops(files: Seq<FileModel>, exists: Seq<bool>, n: int)
    requires
        exists.len() == files.len(),
        0 <= n <= files.len(),
        forall|i: int| 0 <= i < exists.len() ==> #[trigger] exists[i],
    ensures
        missing_ops(files.take(n), exists.take(n)).len() == 0,
    decreases n,
{
    if n > 0 {
        lemma_no_missing_ops(files, exists, n - 1);
        assert(files.take(n).drop_last() =~= files.take(n - 1));
        assert(exists.take(n).drop_last() =~= exists.take(n - 1));
        assert(exists[n - 1]);
    }
}

/// Sorting the entries of a snapshot leaves it a snapshot of the same files.
pub proof fn lemma_finished_is_snapshot(files: Seq<FileModel>, state: FileState)
    requires
        is_snapshot_of(files, state),
    ensures
        is_snapshot_of(crate::order::sorted(files), state),
{
    let out = crate::order::sorted(files);
    assert forall|i: int| 0 <= i < out.len() implies {
        let key = crate::host_path::path_parts((#[trigger] out[i]).path);
        state.dom().contains(key) && state[key].len() <= u64::MAX && out[i] == fingerprint(
            out[i].path,
            state[key],
        )
    } by {
        crate::order::lemma_sorted_contains(files, out[i]);
        let j = choose|j: int| 0 <= j < files.len() && files[j] == out[i];
        assert(state.dom().contains(crate::host_path::path_parts(files[j].path)));
    }
    assert forall|key: Seq<Seq<char>>| #[trigger] state.dom().contains(key) implies exists|i: int|
        0 <= i < out.len() && crate::host_path::path_parts((#[trigger] out[i]).path) == key by {
        let j = choose|j: int|
            0 <= j < files.len() && crate::host_path::path_parts((#[trigger] files[j]).path) == key;
        crate::order::lemma_sorted_contains(files, files[j]);
        let i = choose|i: int| 0 <= i < out.len() && out[i] == files[j];
        assert(crate::host_path::path_parts(out[i].path) == key);
    }
}

/// The path that a step is about.
pub open spec fn op_path(op: OpModel) -> Seq<char> {
    match op {
        OpModel::Remove(p) => p,
        OpModel::Restore(p) => p,
        OpModel::RemoveDir(p) => p,
        OpModel::MakeDir(p) => p,
    }
}

proof fn lemma_first_bad_none(paths: Seq<Seq<char>>)
    ensures
        first_bad(paths) is None <==> forall|i: int|
            0 <= i < paths.len() ==> crate::task_fs::bad_snapshot_path(#[trigger] paths[i]) is None,
    decreases paths.len(),
{
    if paths.len() > 0 {
        let rest = paths.drop_last();
        lemma_first_bad_none(rest);
        if first_bad(paths) is None {
            assert forall|i: int| 0 <= i < paths.len() implies crate::task_fs::bad_snapshot_path(
                #[trigger] paths[i],
            ) is None by {
                if i < rest.len() {
                    assert(paths[i] == rest[i]);
                }
            }
        } else if forall|i: int|
            0 <= i < paths.len() ==> crate::task_fs::bad_snapshot_path(#[trigger] paths[i]) is None {
            assert forall|i: int| 0 <= i < rest.len() implies crate::task_fs::bad_snapshot_path(
                #[trigger] rest[i],
            ) is None by {
                assert(paths[i] == rest[i]);
            }
            assert(crate::task_fs::bad_snapshot_path(paths[paths.len() - 1]) is None);
        }
    }
}

/// Where every path names entries alone, there is a way back.
pub proof fn lemma_usable_paths_roll_back(
    files: Seq<FileModel>,
    dirs: Seq<Seq<char>>,
    current: Seq<CurrentModel>,
    exists: Seq<bool>,
    current_dirs: Seq<Seq<char>>,
)
    requires
        forall|i: int|
            0 <= i < files.len() ==> crate::task_fs::bad_snapshot_path(
                (#[trigger] files[i]).path,
            ) is None,
        forall|i: int|
            0 <= i < dirs.len() ==> crate::task_fs::bad_snapshot_path(#[trigger] dirs[i]) is None,
        forall|i: int|
            0 <= i < current.len() ==> crate::task_fs::bad_snapshot_path(
                (#[trigger] current[i]).path,
            ) is None,
        forall|i: int|
            0 <= i < current_dirs.len() ==> crate::task_fs::bad_snapshot_path(
                #[trigger] current_dirs[i],
            ) is None,
    ensures
        rollback_plan(files, dirs, current, exists, current_dirs) is Ok,
{
    let deep = deepest_first(current_dirs);
    lemma_first_bad_none(paths_of(files));
    lemma_first_bad_none(dirs);
    lemma_first_bad_none(current_paths(current));
    lemma_first_bad_none(deep);
    let keys = depth_keys(current_dirs);
    let out = crate::order::sorted(keys);
    assert forall|i: int| 0 <= i < deep.len() implies crate::task_fs::bad_snapshot_path(
        #[trigger] deep[i],
    ) is None by {
        assert(out.contains(out[i]));
        crate::order::lemma_sorted_contains(keys, out[i]);
        let j = choose|j: int| 0 <= j < keys.len() && keys[j] == out[i];
        assert(current_dirs[j] == deep[i]);
    }
}

/// An entry that a walk reaches from the root by names alone has a path that
/// a snapshot can use.
pub proof fn lemma_walked_paths_are_usable(root: Seq<char>, path: Seq<char>)
    requires
        crate::host_path::is_under(path, root),
        crate::host_path::path_parts(root).len() < crate::host_path::path_parts(path).len(),
        crate::vfs_path::canonical(
            crate::host_path::path_parts(path).skip(
                crate::host_path::path_parts(root).len() as int,
            ),
        ),
    ensures
        relative_to(root, path) matches Some(rel) && crate::task_fs::bad_snapshot_path(rel) is None,
{
    reveal_strlit("/");
    assert("/"@[0] == '/');
    let below = crate::host_path::path_parts(path).skip(
        crate::host_path::path_parts(root).len() as int,
    );
    assert(crate::vfs_path::valid_segment(below[0]));
    assert(below[0] == "/"@ ==> below[0].contains('/'));
    crate::host_path::lemma_parts_of_rendered(below);
    let rel = crate::host_path::rendered(below);
    if rel.len() == 0 {
        assert(rel =~= Seq::<char>::empty());
        crate::host_path::lemma_empty_has_no_parts();
    }
    lemma_names_are_not_odd(below, 0);
}

proof fn lemma_names_are_not_odd(parts: Seq<Seq<char>>, i: int)
    requires
        crate::vfs_path::canonical(parts),
        0 <= i,
    ensures
        crate::task_fs::first_odd_part(parts, i) is None,
    decreases parts.len() - i,
{
    if i < parts.len() {
        reveal_strlit("/");
        assert("/"@[0] == '/');
        assert(crate::vfs_path::valid_segment(parts[i]));
        assert(parts[i] == "/"@ ==> parts[i].contains('/'));
        lemma_names_are_not_odd(parts, i + 1);
    }
}

proof fn lemma_usable_path_is_plain(p: Seq<char>, i: int)
    requires
        0 <= i,
        crate::task_fs::first_odd_part(crate::host_path::path_parts(p), i) is None,
    ensures
        forall|k: int|
            i <= k < crate::host_path::path_parts(p).len() ==> crate::host_path::is_normal(
                #[trigger] crate::host_path::path_parts(p)[k],
            ),
    decreases crate::host_path::path_parts(p).len() - i,
{
    if i < crate::host_path::path_parts(p).len() {
        lemma_usable_path_is_plain(p, i + 1);
    }
}

proof fn lemma_file_ops_origin(files: Seq<FileModel>, current: Seq<CurrentModel>, k: int)
    requires
        0 <= k < file_ops(files, current).len(),
    ensures
        exists|i: int|
            0 <= i < current.len() && file_op(files, #[trigger] current[i]) == Some(
                file_ops(files, current)[k],
            ),
    decreases current.len(),
{
    let rest = current.drop_last();
    let before = file_ops(files, rest);
    if k < before.len() {
        lemma_file_ops_origin(files, rest, k);
        let i = choose|i: int|
            0 <= i < rest.len() && file_op(files, #[trigger] rest[i]) == Some(before[k]);
        assert(current[i] == rest[i]);
    } else {
        assert(current[current.len() - 1] == current.last());
    }
}

proof fn lemma_missing_ops_origin(files: Seq<FileModel>, exists: Seq<bool>, k: int)
    requires
        0 <= k < missing_ops(files, exists).len(),
    ensures
        exists|i: int|
            0 <= i < files.len() && missing_ops(files, exists)[k] == OpModel::Restore(
                (#[trigger] files[i]).path,
            ),
    decreases files.len(),
{
    let rest = files.drop_last();
    let before = missing_ops(rest, exists.drop_last());
    if k < before.len() {
        lemma_missing_ops_origin(rest, exists.drop_last(), k);
        let i = choose|i: int|
            0 <= i < rest.len() && before[k] == OpModel::Restore((#[trigger] rest[i]).path);
        assert(files[i] == rest[i]);
    } else {
        assert(files[files.len() - 1] == files.last());
    }
}

proof fn lemma_dir_ops_origin(dirs: Seq<Seq<char>>, current: Seq<Seq<char>>, k: int)
    requires
        0 <= k < dir_ops(dirs, current).len(),
    ensures
        exists|i: int|
            0 <= i < current.len() && !dir_known(dirs, current[i]) && dir_ops(dirs, current)[k]
                == OpModel::RemoveDir(#[trigger] current[i]),
    decreases current.len(),
{
    let rest = current.drop_last();
    let before = dir_ops(dirs, rest);
    if k < before.len() {
        lemma_dir_ops_origin(dirs, rest, k);
        let i = choose|i: int|
            0 <= i < rest.len() && !dir_known(dirs, rest[i]) && before[k] == OpModel::RemoveDir(
                #[trigger] rest[i],
            );
        assert(current[i] == rest[i]);
    } else {
        assert(current[current.len() - 1] == current.last());
    }
}

proof fn lemma_make_ops_origin(dirs: Seq<Seq<char>>, current: Seq<Seq<char>>, k: int)
    requires
        0 <= k < make_ops(dirs, current).len(),
    ensures
        exists|i: int|
            0 <= i < dirs.len() && make_ops(dirs, current)[k] == OpModel::MakeDir(
                #[trigger] dirs[i],
            ),
    decreases dirs.len(),
{
    let rest = dirs.drop_last();
    let before = make_ops(rest, current);
    if k < before.len() {
        lemma_make_ops_origin(rest, current, k);
        let i = choose|i: int|
            0 <= i < rest.len() && before[k] == OpModel::MakeDir(#[trigger] rest[i]);
        assert(dirs[i] == rest[i]);
    } else {
        assert(dirs[dirs.len() - 1] == dirs.last());
    }
}

/// The files of the snapshot have one with the components of `p`.
pub open spec fn file_known(files: Seq<FileModel>, p: Seq<char>) -> bool {
    exists|j: int|
        0 <= j < files.len() && crate::host_path::path_parts((#[trigger] files[j]).path)
            == crate::host_path::path_parts(p)
}

/// A rollback removes no file and no directory of the snapshot, and brings
/// back only files and directories of the snapshot.
pub proof fn lemma_rollback_spares_the_snapshot(
    files: Seq<FileModel>,
    dirs: Seq<Seq<char>>,
    current: Seq<CurrentModel>,
    exists: Seq<bool>,
    current_dirs: Seq<Seq<char>>,
    k: int,
)
    requires
        rollback_plan(files, dirs, current, exists, current_dirs) is Ok,
        0 <= k < (rollback_plan(files, dirs, current, exists, current_dirs)->Ok_0).len(),
    ensures
        match (rollback_plan(files, dirs, current, exists, current_dirs)->Ok_0)[k] {
            OpModel::Remove(p) => !file_known(files, p),
            OpModel::Restore(p) => file_known(files, p),
            OpModel::RemoveDir(p) => !dir_known(dirs, p),
            OpModel::MakeDir(p) => dir_known(dirs, p),
        },
        crate::task_fs::bad_snapshot_path(
            op_path((rollback_plan(files, dirs, current, exists, current_dirs)->Ok_0)[k]),
        ) is None,
{
    let deep = deepest_first(current_dirs);
    let free = in_place(files, dirs, deep);
    let a = file_ops(files, current);
    let b = missing_ops(files, exists);
    let c = dir_ops(dirs, deep);
    let d = missing_ops(files, free);
    let e = make_ops(dirs, deep);
    let ops = a + b + c + d + e;
    let p = op_path(ops[k]);
    lemma_first_bad_none(paths_of(files));
    lemma_first_bad_none(dirs);
    lemma_first_bad_none(current_paths(current));
    lemma_first_bad_none(deep);
    let ab: int = (a.len() + b.len()) as int;
    let abc: int = ab + c.len();
    let abcd: int = abc + d.len();
    if k < a.len() {
        lemma_file_ops_origin(files, current, k);
        assert(ops[k] == a[k]);
        let i = choose|i: int|
            0 <= i < current.len() && file_op(files, #[trigger] current[i]) == Some(a[k]);
        assert(current_paths(current)[i] == p);
        let parts = crate::host_path::path_parts(current[i].path);
        lemma_held_at(files, parts, 0);
        if let Some(f) = held_at(files, parts, 0) {
            let j = choose|j: int| 0 <= j < files.len() && files[j] == f;
            assert(crate::host_path::path_parts(files[j].path) == parts);
        }
    } else if k < ab {
        lemma_missing_ops_origin(files, exists, k - a.len());
        assert(ops[k] == b[k - a.len()]);
        let i = choose|i: int|
            0 <= i < files.len() && b[k - a.len()] == OpModel::Restore((#[trigger] files[i]).path);
        assert(paths_of(files)[i] == p);
    } else if k < abc {
        lemma_dir_ops_origin(dirs, deep, k - ab);
        assert(ops[k] == c[k - ab]);
        let i = choose|i: int|
            0 <= i < deep.len() && !dir_known(dirs, deep[i]) && c[k - ab] == OpModel::RemoveDir(
                #[trigger] deep[i],
            );
        assert(deep[i] == p);
    } else if k < abcd {
        lemma_missing_ops_origin(files, free, k - abc);
        assert(ops[k] == d[k - abc]);
        let i = choose|i: int|
            0 <= i < files.len() && d[k - abc] == OpModel::Restore((#[trigger] files[i]).path);
        assert(paths_of(files)[i] == p);
    } else {
        lemma_make_ops_origin(dirs, deep, k - abcd);
        assert(ops[k] == e[k - abcd]);
        let i = choose|i: int|
            0 <= i < dirs.len() && e[k - abcd] == OpModel::MakeDir(#[trigger] dirs[i]);
        assert(dirs[i] == p);
    }
}

/// Whatever a manifest or a directory holds, each step of a rollback is about
/// a path below the working directory.
pub proof fn lemma_rollback_stays_below(
    files: Seq<FileModel>,
    dirs: Seq<Seq<char>>,
    current: Seq<CurrentModel>,
    exists: Seq<bool>,
    current_dirs: Seq<Seq<char>>,
    workdir: Seq<char>,
    k: int,
)
    requires
        rollback_plan(files, dirs, current, exists, current_dirs) is Ok,
        0 <= k < (rollback_plan(files, dirs, current, exists, current_dirs)->Ok_0).len(),
    ensures
        ({
            let p = op_path((rollback_plan(files, dirs, current, exists, current_dirs)->Ok_0)[k]);
            crate::host_path::is_under(
                crate::host_path::normalized(crate::host_path::joined(workdir, p)),
                crate::host_path::normalized(workdir),
            )
        }),
{
    let p = op_path((rollback_plan(files, dirs, current, exists, current_dirs)->Ok_0)[k]);
    lemma_rollback_spares_the_snapshot(files, dirs, current, exists, current_dirs, k);
    assert(crate::task_fs::bad_snapshot_path(p) is None);
    lemma_usable_path_is_plain(p, 0);
    crate::host_path::lemma_parts_shape(p);
    if crate::host_path::is_rooted(p) {
        assert(crate::host_path::is_normal(crate::host_path::path_parts(p)[0]));
    }
    assert forall|i: int| 0 <= i < crate::host_path::path_parts(p).len() implies (
    #[trigger] crate::host_path::path_parts(p)[i]) != ".."@ by {
        assert(crate::host_path::is_normal(crate::host_path::path_parts(p)[i]));
    }
    crate::host_path::lemma_join_stays_below(workdir, p);
}

/// Where the checkpoint in `dir` keeps its copy of a file.
pub open spec fn kept_path(dir: Seq<char>, rel: Seq<char>) -> Seq<char> {
    crate::host_path::joined(crate::host_path::joined(dir, "files"@), rel)
}

/// Where the checkpoint in `dir` keeps its copy of a file.
pub fn kept_file(dir: &str, relative_path: &str) -> (r: String)
    ensures
        r@ == kept_path(dir@, relative_path@),
{
    let files = join_path(dir, "files");
    join_path(files.as_str(), relative_path)
}

/// Where the checkpoint in `dir` keeps its manifest: beside the copies, not
/// among them.
pub open spec fn index_path(dir: Seq<char>) -> Seq<char> {
    crate::host_path::joined(dir, "index.json"@)
}

/// Where the checkpoint in `dir` keeps its manifest.
pub fn index_file(dir: &str) -> (r: String)
    ensures
        r@ == index_path(dir@),
{
    join_path(dir, "index.json")
}

/// The files of the host after copies were kept in `dir`.
pub open spec fn with_copies(
    host: FileState,
    dir: Seq<char>,
    copies: Seq<CurrentModel>,
) -> FileState
    decreases copies.len(),
{
    if copies.len() == 0 {
        host
    } else {
        with_copies(host, dir, copies.drop_last()).insert(
            crate::host_path::path_parts(kept_path(dir, copies.last().path)),
            copies.last().bytes,
        )
    }
}

/// The files of the host after a checkpoint was made in `dir`: the copies, and
/// then the manifest.
pub open spec fn with_checkpoint(
    host: FileState,
    dir: Seq<char>,
    copies: Seq<CurrentModel>,
    index: Seq<u8>,
) -> FileState {
    with_copies(host, dir, copies).insert(crate::host_path::path_parts(index_path(dir)), index)
}

/// A name joined to a directory is one more component.
pub proof fn lemma_name_appends(dir: Seq<char>, name: Seq<char>)
    requires
        crate::vfs_path::valid_segment(name),
    ensures
        crate::host_path::path_parts(crate::host_path::joined(dir, name))
            == crate::host_path::path_parts(dir).push(name),
{
    reveal_strlit(".");
    crate::host_path::lemma_segment_parts(name);
    if dir.len() == 0 {
        assert(dir =~= Seq::<char>::empty());
        crate::host_path::lemma_empty_has_no_parts();
        assert(crate::host_path::joined(dir, name) =~= name);
        assert(crate::host_path::path_parts(dir).push(name) =~= seq![name]);
    } else {
        crate::host_path::lemma_joined_parts(dir, name);
        crate::host_path::lemma_plain_parts(name);
        assert(crate::host_path::path_parts(dir) + seq![name] =~= crate::host_path::path_parts(
            dir,
        ).push(name));
    }
}

/// The components of the path of a copy.
proof fn lemma_kept_parts(dir: Seq<char>, rel: Seq<char>)
    requires
        crate::task_fs::bad_snapshot_path(rel) is None,
    ensures
        crate::host_path::path_parts(kept_path(dir, rel)) == crate::host_path::path_parts(dir).push(
            "files"@,
        ) + crate::host_path::path_parts(rel),
        crate::host_path::path_parts(index_path(dir)) == crate::host_path::path_parts(dir).push(
            "index.json"@,
        ),
        "files"@ != "index.json"@,
{
    reveal_strlit("files");
    reveal_strlit("index.json");
    reveal_strlit(".");
    reveal_strlit("..");
    reveal_strlit("/");
    assert("files"@.len() == 5 && "index.json"@.len() == 10);
    assert("."@.len() == 1 && ".."@.len() == 2);
    assert forall|i: int| 0 <= i < 5 implies "files"@[i] != '/' by {
    }
    assert forall|i: int| 0 <= i < 10 implies "index.json"@[i] != '/' by {
    }
    lemma_name_appends(dir, "files"@);
    lemma_name_appends(dir, "index.json"@);
    let base = crate::host_path::joined(dir, "files"@);
    let parts = crate::host_path::path_parts(rel);
    crate::host_path::lemma_parts_shape(rel);
    if crate::host_path::is_rooted(rel) {
        assert(crate::host_path::is_normal(parts[0]));
    }
    crate::host_path::lemma_joined_parts(base, rel);
    if parts.len() > 0 {
        assert(crate::host_path::is_normal(parts[0]));
    }
    crate::host_path::lemma_plain_parts(rel);
}

/// The manifest of a checkpoint is no copy that it keeps, nor are copies kept
/// below it, whatever a file of the working directory is called.
pub proof fn lemma_index_is_no_copy(dir: Seq<char>, rel: Seq<char>)
    requires
        crate::task_fs::bad_snapshot_path(rel) is None,
    ensures
        index_path(dir) != kept_path(dir, rel),
        !crate::host_path::is_under(kept_path(dir, rel), index_path(dir)),
        !crate::host_path::is_under(index_path(dir), kept_path(dir, rel)),
{
    lemma_kept_parts(dir, rel);
    let n = crate::host_path::path_parts(dir).len() as int;
    let copy = crate::host_path::path_parts(kept_path(dir, rel));
    let index = crate::host_path::path_parts(index_path(dir));
    assert(copy[n] == "files"@ && index[n] == "index.json"@);
    assert(copy.subrange(0, n + 1)[n] == copy[n]);
    if copy.len() == index.len() {
        assert(index.subrange(0, n + 1)[n] == index[n]);
    }
}

/// A checkpoint gives back what it keeps: once it is made, the copy of each
/// file holds what the file held, and the manifest what was written as it.
pub proof fn lemma_checkpoint_keeps_files(
    host: FileState,
    dir: Seq<char>,
    copies: Seq<CurrentModel>,
    index: Seq<u8>,
    saved: FileState,
    rel: Seq<char>,
)
    requires
        is_listing_of(copies, saved),
        forall|i: int|
            0 <= i < copies.len() ==> crate::task_fs::bad_snapshot_path(
                (#[trigger] copies[i]).path,
            ) is None,
        crate::task_fs::bad_snapshot_path(rel) is None,
        saved.dom().contains(crate::host_path::path_parts(rel)),
    ensures
        ({
            let kept = with_checkpoint(host, dir, copies, index);
            let copy = crate::host_path::path_parts(kept_path(dir, rel));
            let place = crate::host_path::path_parts(index_path(dir));
            &&& kept.dom().contains(copy) && kept[copy] == saved[crate::host_path::path_parts(rel)]
            &&& kept.dom().contains(place) && kept[place] == index
        }),
{
    lemma_index_is_no_copy(dir, rel);
    let copy = crate::host_path::path_parts(kept_path(dir, rel));
    let place = crate::host_path::path_parts(index_path(dir));
    if copy == place {
        assert(copy =~= copy.subrange(0, copy.len() as int));
    }
    let i = choose|i: int|
        0 <= i < copies.len() && crate::host_path::path_parts((#[trigger] copies[i]).path)
            == crate::host_path::path_parts(rel);
    assert(copies.take(copies.len() as int) =~= copies);
    lemma_copy_stands(host, dir, copies, saved, rel, i, copies.len() as int);
}

proof fn lemma_copy_stands(
    host: FileState,
    dir: Seq<char>,
    copies: Seq<CurrentModel>,
    saved: FileState,
    rel: Seq<char>,
    i: int,
    n: int,
)
    requires
        is_listing_of(copies, saved),
        forall|i: int|
            0 <= i < copies.len() ==> crate::task_fs::bad_snapshot_path(
                (#[trigger] copies[i]).path,
            ) is None,
        crate::task_fs::bad_snapshot_path(rel) is None,
        0 <= i < n <= copies.len(),
        crate::host_path::path_parts(copies[i].path) == crate::host_path::path_parts(rel),
    ensures
        ({
            let kept = with_copies(host, dir, copies.take(n));
            let copy = crate::host_path::path_parts(kept_path(dir, rel));
            kept.dom().contains(copy) && kept[copy] == saved[crate::host_path::path_parts(rel)]
        }),
    decreases n,
{
    let last = copies[n - 1];
    assert(copies.take(n).drop_last() =~= copies.take(n - 1));
    assert(copies.take(n).last() == last);
    lemma_kept_parts(dir, rel);
    lemma_kept_parts(dir, last.path);
    let lead = crate::host_path::path_parts(dir).push("files"@);
    let mine = crate::host_path::path_parts(rel);
    let theirs = crate::host_path::path_parts(last.path);
    if lead + mine == lead + theirs {
        assert(mine =~= (lead + mine).skip(lead.len() as int));
        assert(theirs =~= (lead + theirs).skip(lead.len() as int));
    }
    if i < n - 1 {
        lemma_copy_stands(host, dir, copies, saved, rel, i, n - 1);
    }
}

/// The files after all steps, in order, with the copies in `dir` to restore
/// from.
pub open spec fn restored_from(
    state: FileState,
    kept: FileState,
    dir: Seq<char>,
    ops: Seq<OpModel>,
) -> FileState
    decreases ops.len(),
{
    if ops.len() == 0 {
        state
    } else {
        let before = restored_from(state, kept, dir, ops.drop_last());
        match ops.last() {
            OpModel::Remove(p) => before.remove(crate::host_path::path_parts(p)),
            OpModel::Restore(p) => before.insert(
                crate::host_path::path_parts(p),
                kept[crate::host_path::path_parts(kept_path(dir, p))],
            ),
            OpModel::RemoveDir(_) => before,
            OpModel::MakeDir(_) => before,
        }
    }
}

/// What a checkpoint keeps, a rollback gives back: the steps of a rollback,
/// with each file restored from its copy, lead to exactly the files that the
/// checkpoint was made of, whatever they are called.
pub proof fn lemma_rollback_from_copies(
    host: FileState,
    dir: Seq<char>,
    copies: Seq<CurrentModel>,
    index: Seq<u8>,
    files: Seq<FileModel>,
    dirs: Seq<Seq<char>>,
    current: Seq<CurrentModel>,
    exists: Seq<bool>,
    current_dirs: Seq<Seq<char>>,
    state: FileState,
    saved: FileState,
)
    requires
        is_listing_of(copies, saved),
        forall|i: int|
            0 <= i < copies.len() ==> crate::task_fs::bad_snapshot_path(
                (#[trigger] copies[i]).path,
            ) is None,
        is_snapshot_of(files, saved),
        are_apart(files, dirs),
        is_listing_of(current, state),
        is_presence_in(exists, files, state, current_dirs),
        no_collision(state, saved),
    ensures
        rollback_plan(files, dirs, current, exists, current_dirs) matches Ok(ops) ==> restored_from(
            state,
            with_checkpoint(host, dir, copies, index),
            dir,
            ops,
        ) == saved,
{
    let kept = with_checkpoint(host, dir, copies, index);
    if let Ok(ops) = rollback_plan(files, dirs, current, exists, current_dirs) {
        assert forall|k: int| 0 <= k < ops.len() implies match #[trigger] ops[k] {
            OpModel::Restore(p) => kept[crate::host_path::path_parts(kept_path(dir, p))]
                == saved[crate::host_path::path_parts(p)],
            _ => true,
        } by {
            if let OpModel::Restore(p) = ops[k] {
                lemma_restores_are_saved(files, dirs, current, exists, current_dirs, saved, k);
                lemma_checkpoint_keeps_files(host, dir, copies, index, saved, p);
            }
        }
        lemma_same_restores(state, kept, dir, saved, ops);
        lemma_rollback_restores_snapshot(
            files,
            dirs,
            current,
            exists,
            current_dirs,
            state,
            saved,
        );
    }
}

proof fn lemma_same_restores(
    state: FileState,
    kept: FileState,
    dir: Seq<char>,
    saved: FileState,
    ops: Seq<OpModel>,
)
    requires
        forall|k: int|
            0 <= k < ops.len() ==> match #[trigger] ops[k] {
                OpModel::Restore(p) => kept[crate::host_path::path_parts(kept_path(dir, p))]
                    == saved[crate::host_path::path_parts(p)],
                _ => true,
            },
    ensures
        restored_from(state, kept, dir, ops) == apply_ops(state, saved, ops),
    decreases ops.len(),
{
    if ops.len() > 0 {
        let rest = ops.drop_last();
        assert forall|k: int| 0 <= k < rest.len() implies match #[trigger] rest[k] {
            OpModel::Restore(p) => kept[crate::host_path::path_parts(kept_path(dir, p))]
                == saved[crate::host_path::path_parts(p)],
            _ => true,
        } by {
            assert(rest[k] == ops[k]);
        }
        lemma_same_restores(state, kept, dir, saved, rest);
        assert(ops.last() == ops[ops.len() - 1]);
    }
}

proof fn lemma_restores_are_saved(
    files: Seq<FileModel>,
    dirs: Seq<Seq<char>>,
    current: Seq<CurrentModel>,
    exists: Seq<bool>,
    current_dirs: Seq<Seq<char>>,
    saved: FileState,
    k: int,
)
    requires
        is_snapshot_of(files, saved),
        rollback_plan(files, dirs, current, exists, current_dirs) is Ok,
        0 <= k < (rollback_plan(files, dirs, current, exists, current_dirs)->Ok_0).len(),
        (rollback_plan(files, dirs, current, exists, current_dirs)->Ok_0)[k] is Restore,
    ensures
        ({
            let p = op_path((rollback_plan(files, dirs, current, exists, current_dirs)->Ok_0)[k]);
            &&& crate::task_fs::bad_snapshot_path(p) is None
            &&& saved.dom().contains(crate::host_path::path_parts(p))
        }),
{
    let p = op_path((rollback_plan(files, dirs, current, exists, current_dirs)->Ok_0)[k]);
    lemma_rollback_spares_the_snapshot(files, dirs, current, exists, current_dirs, k);
    let j = choose|j: int|
        0 <= j < files.len() && crate::host_path::path_parts((#[trigger] files[j]).path)
            == crate::host_path::path_parts(p);
    assert(saved.dom().contains(crate::host_path::path_parts(files[j].path)));
}

/// One of `dirs` has these components.
pub open spec fn dir_at(dirs: Seq<Seq<char>>, key: Seq<Seq<char>>) -> bool {
    exists|i: int| 0 <= i < dirs.len() && crate::host_path::path_parts(#[trigger] dirs[i]) == key
}

/// The components of a directory above an entry, itself below the root.
pub open spec fn is_above(key: Seq<Seq<char>>, parts: Seq<Seq<char>>) -> bool {
    0 < key.len() < parts.len() && key.is_prefix_of(parts)
}

/// Whether a directory stands at `key` after all steps, in order, where those
/// of `current` stood before. To copy a file back makes the directories above
/// it; `emptied` says of each step that removes a directory whether it was
/// empty, and so whether it is gone.
pub open spec fn stands_after(
    current: Seq<Seq<char>>,
    ops: Seq<OpModel>,
    emptied: Seq<bool>,
    key: Seq<Seq<char>>,
) -> bool
    decreases ops.len(),
{
    if ops.len() == 0 {
        dir_at(current, key)
    } else {
        let before = stands_after(current, ops.drop_last(), emptied, key);
        match ops.last() {
            OpModel::Remove(_) => before,
            OpModel::Restore(p) => before || is_above(key, crate::host_path::path_parts(p)),
            OpModel::RemoveDir(p) => before && !(emptied[ops.len() - 1] && key
                == crate::host_path::path_parts(p)),
            OpModel::MakeDir(p) => before || is_above(key, crate::host_path::path_parts(p)) || key
                == crate::host_path::path_parts(p),
        }
    }
}

proof fn lemma_dir_ops_complete(dirs: Seq<Seq<char>>, current: Seq<Seq<char>>, i: int)
    requires
        0 <= i < current.len(),
        !dir_known(dirs, current[i]),
    ensures
        dir_ops(dirs, current).contains(OpModel::RemoveDir(current[i])),
    decreases current.len(),
{
    let op = OpModel::RemoveDir(current[i]);
    let rest = current.drop_last();
    let before = dir_ops(dirs, rest);
    let ops = dir_ops(dirs, current);
    if i < rest.len() {
        assert(rest[i] == current[i]);
        lemma_dir_ops_complete(dirs, rest, i);
        let k = choose|k: int| 0 <= k < before.len() && before[k] == op;
        assert(ops[k] == op);
    } else {
        assert(ops[ops.len() - 1] == op);
    }
}

proof fn lemma_make_ops_complete(dirs: Seq<Seq<char>>, current: Seq<Seq<char>>, i: int)
    requires
        0 <= i < dirs.len(),
        !dir_known(current, dirs[i]),
    ensures
        make_ops(dirs, current).contains(OpModel::MakeDir(dirs[i])),
    decreases dirs.len(),
{
    let op = OpModel::MakeDir(dirs[i]);
    let rest = dirs.drop_last();
    let before = make_ops(rest, current);
    let ops = make_ops(dirs, current);
    if i < rest.len() {
        assert(rest[i] == dirs[i]);
        lemma_make_ops_complete(rest, current, i);
        let k = choose|k: int| 0 <= k < before.len() && before[k] == op;
        assert(ops[k] == op);
    } else {
        assert(ops[ops.len() - 1] == op);
    }
}

proof fn lemma_keeps_standing(
    current: Seq<Seq<char>>,
    ops: Seq<OpModel>,
    emptied: Seq<bool>,
    key: Seq<Seq<char>>,
    made: int,
    n: int,
)
    requires
        -1 <= made < n <= ops.len(),
        made == -1 ==> dir_at(current, key),
        made >= 0 ==> (ops[made] matches OpModel::MakeDir(p) && crate::host_path::path_parts(p)
            == key),
        forall|k: int|
            0 <= k < ops.len() ==> (#[trigger] ops[k] matches OpModel::RemoveDir(p)
                ==> crate::host_path::path_parts(p) != key),
    ensures
        stands_after(current, ops.take(n), emptied, key),
    decreases n,
{
    if n > 0 {
        let head = ops.take(n);
        assert(head.drop_last() =~= ops.take(n - 1));
        assert(head.last() == ops[n - 1]);
        if made < n - 1 {
            lemma_keeps_standing(current, ops, emptied, key, made, n - 1);
        }
    }
}

/// After a rollback every directory of the snapshot stands, one that was
/// deleted and empty too, whichever of the new directories could be removed.
pub proof fn lemma_rollback_restores_directories(
    files: Seq<FileModel>,
    dirs: Seq<Seq<char>>,
    current: Seq<CurrentModel>,
    exists: Seq<bool>,
    current_dirs: Seq<Seq<char>>,
    emptied: Seq<bool>,
    i: int,
)
    requires
        0 <= i < dirs.len(),
    ensures
        rollback_plan(files, dirs, current, exists, current_dirs) matches Ok(ops) ==> stands_after(
            current_dirs,
            ops,
            emptied,
            crate::host_path::path_parts(dirs[i]),
        ),
{
    let key = crate::host_path::path_parts(dirs[i]);
    let deep = deepest_first(current_dirs);
    if let Ok(ops) = rollback_plan(files, dirs, current, exists, current_dirs) {
        assert forall|k: int| 0 <= k < ops.len() implies (#[trigger] ops[k] matches
            OpModel::RemoveDir(p) ==> crate::host_path::path_parts(p) != key) by {
            lemma_rollback_spares_the_snapshot(files, dirs, current, exists, current_dirs, k);
            if let OpModel::RemoveDir(p) = ops[k] {
                if crate::host_path::path_parts(p) == key {
                    assert(dir_known(dirs, p));
                }
            }
        }
        lemma_deepest_first_knows(current_dirs, dirs[i]);
        let made: int = if dir_known(deep, dirs[i]) {
            -1
        } else {
            let e = make_ops(dirs, deep);
            let k = choose|k: int| 0 <= k < e.len() && e[k] == OpModel::MakeDir(dirs[i]);
            ops.len() - e.len() + k
        };
        if !dir_known(deep, dirs[i]) {
            lemma_make_ops_complete(dirs, deep, i);
            assert(ops[made] == OpModel::MakeDir(dirs[i]));
        }
        assert(ops.take(ops.len() as int) =~= ops);
        lemma_keeps_standing(current_dirs, ops, emptied, key, made, ops.len() as int);
    }
}

/// The directories above each file and each directory of a snapshot are in it.
pub open spec fn holds_its_parents(files: Seq<FileModel>, dirs: Seq<Seq<char>>) -> bool {
    &&& forall|i: int, key: Seq<Seq<char>>|
        0 <= i < files.len() && #[trigger] is_above(
            key,
            crate::host_path::path_parts(files[i].path),
        ) ==> dir_at(dirs, key)
    &&& forall|i: int, key: Seq<Seq<char>>|
        0 <= i < dirs.len() && #[trigger] is_above(key, crate::host_path::path_parts(dirs[i]))
            ==> dir_at(dirs, key)
}

proof fn lemma_stays_gone(
    current: Seq<Seq<char>>,
    ops: Seq<OpModel>,
    emptied: Seq<bool>,
    key: Seq<Seq<char>>,
    gone: int,
    n: int,
)
    requires
        -1 <= gone < n <= ops.len() || (gone == -1 && n == 0),
        gone == -1 ==> !dir_at(current, key),
        gone >= 0 ==> emptied[gone] && (ops[gone] matches OpModel::RemoveDir(p)
            && crate::host_path::path_parts(p) == key),
        forall|k: int|
            0 <= k < ops.len() ==> match #[trigger] ops[k] {
                OpModel::Restore(p) => !is_above(key, crate::host_path::path_parts(p)),
                OpModel::MakeDir(p) => !is_above(key, crate::host_path::path_parts(p)) && key
                    != crate::host_path::path_parts(p),
                _ => true,
            },
    ensures
        !stands_after(current, ops.take(n), emptied, key),
    decreases n,
{
    if n > 0 {
        let head = ops.take(n);
        assert(head.drop_last() =~= ops.take(n - 1));
        assert(head.last() == ops[n - 1]);
        if gone < n - 1 || gone == -1 {
            lemma_stays_gone(current, ops, emptied, key, gone, n - 1);
        }
    }
}

/// Where each new directory was empty when its turn came, no directory stands
/// after a rollback but those of the snapshot.
pub proof fn lemma_rollback_leaves_no_new_directories(
    files: Seq<FileModel>,
    dirs: Seq<Seq<char>>,
    current: Seq<CurrentModel>,
    exists: Seq<bool>,
    current_dirs: Seq<Seq<char>>,
    emptied: Seq<bool>,
    key: Seq<Seq<char>>,
)
    requires
        holds_its_parents(files, dirs),
        rollback_plan(files, dirs, current, exists, current_dirs) matches Ok(ops) ==> emptied.len()
            == ops.len(),
        forall|k: int| 0 <= k < emptied.len() ==> #[trigger] emptied[k],
        !dir_at(dirs, key),
    ensures
        rollback_plan(files, dirs, current, exists, current_dirs) matches Ok(ops) ==> !stands_after(
            current_dirs,
            ops,
            emptied,
            key,
        ),
{
    let deep = deepest_first(current_dirs);
    if let Ok(ops) = rollback_plan(files, dirs, current, exists, current_dirs) {
        assert forall|k: int| 0 <= k < ops.len() implies match #[trigger] ops[k] {
            OpModel::Restore(p) => !is_above(key, crate::host_path::path_parts(p)),
            OpModel::MakeDir(p) => !is_above(key, crate::host_path::path_parts(p)) && key
                != crate::host_path::path_parts(p),
            _ => true,
        } by {
            lemma_rollback_spares_the_snapshot(files, dirs, current, exists, current_dirs, k);
            match ops[k] {
                OpModel::Restore(p) => {
                    let j = choose|j: int|
                        0 <= j < files.len() && crate::host_path::path_parts(
                            (#[trigger] files[j]).path,
                        ) == crate::host_path::path_parts(p);
                    if is_above(key, crate::host_path::path_parts(files[j].path)) {
                        assert(dir_at(dirs, key));
                    }
                },
                OpModel::MakeDir(p) => {
                    let j = choose|j: int|
                        0 <= j < dirs.len() && crate::host_path::path_parts(#[trigger] dirs[j])
                            == crate::host_path::path_parts(p);
                    if is_above(key, crate::host_path::path_parts(dirs[j])) {
                        assert(dir_at(dirs, key));
                    }
                },
                _ => {},
            }
        }
        assert(ops.take(ops.len() as int) =~= ops);
        if dir_at(current_dirs, key) {
            let i = choose|i: int|
                0 <= i < current_dirs.len() && crate::host_path::path_parts(
                    #[trigger] current_dirs[i],
                ) == key;
            assert(dir_known(current_dirs, current_dirs[i]));
            lemma_deepest_first_knows(current_dirs, current_dirs[i]);
            let j = choose|j: int|
                0 <= j < deep.len() && crate::host_path::path_parts(#[trigger] deep[j]) == key;
            if dir_known(dirs, deep[j]) {
                assert(dir_at(dirs, key));
            }
            lemma_dir_ops_complete(dirs, deep, j);
            let a = file_ops(files, current) + missing_ops(files, exists);
            let c = dir_ops(dirs, deep);
            let k = choose|k: int| 0 <= k < c.len() && c[k] == OpModel::RemoveDir(deep[j]);
            let gone: int = a.len() + k;
            assert(ops[gone] == c[k]);
            assert(emptied[gone]);
            lemma_stays_gone(current_dirs, ops, emptied, key, gone, ops.len() as int);
        } else {
            lemma_stays_gone(current_dirs, ops, emptied, key, -1, ops.len() as int);
        }
    }
}

} // verus!
