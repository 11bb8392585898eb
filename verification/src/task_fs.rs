//! Which working directory belongs to which task, whether it is blocked, and
//! whether a directory may be used as one.

use std::collections::HashMap;

use vstd::prelude::*;

use crate::host_path::{components, join_path};
use crate::ids::{CheckpointId, TaskId};
use crate::text::{cat, cat3, is_empty_text, owned, same_text, text_in};
use crate::trace::TraceError;

verus! {

broadcast use vstd::std_specs::hash::group_hash_axioms;

/// Why an operation on a task's files was refused or failed.
#[derive(Clone, Debug, PartialEq, Eq)]
pub enum TransactionError {
    UnknownTask(TaskId),
    FilesystemBlocked(TaskId),
    SymlinkUnsupported(String),
    Safety(String),
    Io { path: String, source: String },
    Join(String),
    Trace(TraceError),
}

impl TransactionError {
    /// The message shown for this error.
    pub open spec fn text(&self) -> Seq<char> {
        match self {
            TransactionError::UnknownTask(id) => "unknown task: "@ + crate::ids::hyphenated(id.0),
            TransactionError::FilesystemBlocked(id) => "task filesystem is blocked: "@
                + crate::ids::hyphenated(id.0),
            TransactionError::SymlinkUnsupported(p) =>
                "symbolic links are not supported in task snapshots: "@ + p@,
            TransactionError::Safety(m) => m@,
            TransactionError::Io { path, source } => "io at "@ + path@ + ": "@ + source@,
            TransactionError::Join(m) => "checkpoint worker failed: "@ + m@,
            TransactionError::Trace(e) => "trace: "@ + e.text(),
        }
    }

    /// The message shown for this error.
    pub fn message(&self) -> (r: String)
        ensures
            r@ == self.text(),
    {
        match self {
            TransactionError::UnknownTask(id) => {
                let t = id.text();
                cat("unknown task: ", t.as_str())
            },
            TransactionError::FilesystemBlocked(id) => {
                let t = id.text();
                cat("task filesystem is blocked: ", t.as_str())
            },
            TransactionError::SymlinkUnsupported(p) => cat(
                "symbolic links are not supported in task snapshots: ",
                p.as_str(),
            ),
            TransactionError::Safety(m) => owned(m.as_str()),
            TransactionError::Io { path, source } => {
                let mut r = cat3("io at ", path.as_str(), ": ");
                r.append(source.as_str());
                r
            },
            TransactionError::Join(m) => cat("checkpoint worker failed: ", m.as_str()),
            TransactionError::Trace(e) => {
                let t = e.message();
                cat("trace: ", t.as_str())
            },
        }
    }
}

struct TaskFsState {
    workdir: String,
    blocked: bool,
}

/// What is known of one task's files.
pub struct FsModel {
    pub workdir: Seq<char>,
    pub blocked: bool,
}

/// The tasks whose files are managed.
pub struct TaskTable {
    states: HashMap<u128, TaskFsState>,
}

impl View for TaskTable {
    type V = Map<u128, FsModel>;

    closed spec fn view(&self) -> Map<u128, FsModel> {
        self.states@.map_values(
            |s: TaskFsState| FsModel { workdir: s.workdir@, blocked: s.blocked },
        )
    }
}

/// The table with a task's working directory set; a task that was blocked
/// stays blocked.
pub open spec fn registered(
    table: Map<u128, FsModel>,
    id: TaskId,
    workdir: Seq<char>,
) -> Map<u128, FsModel> {
    table.insert(
        id.0,
        FsModel { workdir, blocked: table.dom().contains(id.0) && table[id.0].blocked },
    )
}

/// The table with a known task blocked.
pub open spec fn blocked(table: Map<u128, FsModel>, id: TaskId) -> Map<u128, FsModel> {
    if table.dom().contains(id.0) {
        table.insert(id.0, FsModel { blocked: true, ..table[id.0] })
    } else {
        table
    }
}

/// A table without tasks.
pub fn empty_table() -> (r: TaskTable)
    ensures
        r@ == Map::<u128, FsModel>::empty(),
{
    let r = TaskTable { states: HashMap::new() };
    proof {
        assert(r@ =~= Map::<u128, FsModel>::empty());
    }
    r
}

/// Sets the working directory of a task. A task that was blocked stays
/// blocked.
pub fn register_task(tasks: &mut TaskTable, task_id: TaskId, workdir: String)
    ensures
        final(tasks)@ == registered(old(tasks)@, task_id, workdir@),
{
    let was_blocked = match tasks.states.get(&task_id.0) {
        Some(state) => state.blocked,
        None => false,
    };
    let ghost w = workdir@;
    tasks.states.insert(task_id.0, TaskFsState { workdir, blocked: was_blocked });
    proof {
        assert(tasks@ =~= registered(old(tasks)@, task_id, w));
    }
}

/// Blocks a task's files from now on. An unknown task is left alone.
pub fn block_task_fs(tasks: &mut TaskTable, task_id: TaskId)
    ensures
        final(tasks)@ == blocked(old(tasks)@, task_id),
{
    let workdir = match tasks.states.get(&task_id.0) {
        Some(state) => owned(state.workdir.as_str()),
        None => {
            return ;
        },
    };
    tasks.states.insert(task_id.0, TaskFsState { workdir, blocked: true });
    proof {
        assert(tasks@ =~= blocked(old(tasks)@, task_id));
    }
}

/// Whether a task may still touch its files.
pub fn ensure_task_fs_unblocked(tasks: &TaskTable, task_id: TaskId) -> (r: Result<
    (),
    TransactionError,
>)
    ensures
        match r {
            Ok(_) => tasks@.dom().contains(task_id.0) && !tasks@[task_id.0].blocked,
            Err(e) => if tasks@.dom().contains(task_id.0) {
                tasks@[task_id.0].blocked && e == TransactionError::FilesystemBlocked(task_id)
            } else {
                e == TransactionError::UnknownTask(task_id)
            },
        },
{
    match tasks.states.get(&task_id.0) {
        None => Err(TransactionError::UnknownTask(task_id)),
        Some(state) => {
            if state.blocked {
                Err(TransactionError::FilesystemBlocked(task_id))
            } else {
                Ok(())
            }
        },
    }
}

/// The working directory of a task; where `require_unblocked` is set, only of
/// one that is not blocked.
pub fn registered_workdir(tasks: &TaskTable, task_id: TaskId, require_unblocked: bool) -> (r:
    Result<String, TransactionError>)
    ensures
        match r {
            Ok(w) => tasks@.dom().contains(task_id.0) && w@ == tasks@[task_id.0].workdir && !(
            require_unblocked && tasks@[task_id.0].blocked),
            Err(e) => if tasks@.dom().contains(task_id.0) {
                require_unblocked && tasks@[task_id.0].blocked && e
                    == TransactionError::FilesystemBlocked(task_id)
            } else {
                e == TransactionError::UnknownTask(task_id)
            },
        },
{
    match tasks.states.get(&task_id.0) {
        None => Err(TransactionError::UnknownTask(task_id)),
        Some(state) => {
            if require_unblocked && state.blocked {
                Err(TransactionError::FilesystemBlocked(task_id))
            } else {
                Ok(owned(state.workdir.as_str()))
            }
        },
    }
}

/// Once blocked, a task stays blocked, whatever is registered or blocked
/// after that, for it or for any other task.
pub proof fn lemma_block_is_permanent(
    table: Map<u128, FsModel>,
    id: TaskId,
    other: TaskId,
    workdir: Seq<char>,
)
    requires
        table.dom().contains(id.0),
        table[id.0].blocked,
    ensures
        registered(table, other, workdir).dom().contains(id.0),
        registered(table, other, workdir)[id.0].blocked,
        blocked(table, other).dom().contains(id.0),
        blocked(table, other)[id.0].blocked,
{
}

/// Blocking one task leaves every other one as it was.
pub proof fn lemma_block_is_local(table: Map<u128, FsModel>, id: TaskId, other: TaskId)
    requires
        id != other,
    ensures
        blocked(table, id).dom().contains(other.0) == table.dom().contains(other.0),
        table.dom().contains(other.0) ==> blocked(table, id)[other.0] == table[other.0],
{
}

/// The names that mark a directory as the root of a project.
pub open spec fn is_project_marker(name: Seq<char>) -> bool {
    ||| name == ".git"@
    ||| name == ".hg"@
    ||| name == ".svn"@
    ||| name == "Cargo.toml"@
    ||| name == "Cargo.lock"@
    ||| name == "package.json"@
    ||| name == "pyproject.toml"@
    ||| name == "go.mod"@
    ||| name == "pom.xml"@
    ||| name == "build.gradle"@
    ||| name == "build.gradle.kts"@
}

/// The names that mark a directory as the root of a project.
pub fn project_markers() -> (r: Vec<String>)
    ensures
        forall|name: Seq<char>|
            crate::text::texts(r@).contains(name) <==> #[trigger] is_project_marker(name),
{
    let mut r: Vec<String> = Vec::new();
    r.push(owned(".git"));
    r.push(owned(".hg"));
    r.push(owned(".svn"));
    r.push(owned("Cargo.toml"));
    r.push(owned("Cargo.lock"));
    r.push(owned("package.json"));
    r.push(owned("pyproject.toml"));
    r.push(owned("go.mod"));
    r.push(owned("pom.xml"));
    r.push(owned("build.gradle"));
    r.push(owned("build.gradle.kts"));
    proof {
        let t = crate::text::texts(r@);
        assert(t.len() == 11);
        assert forall|name: Seq<char>| t.contains(name) <==> #[trigger] is_project_marker(name) by {
            if is_project_marker(name) {
                assert(t[0] == ".git"@ && t[1] == ".hg"@ && t[2] == ".svn"@ && t[3]
                    == "Cargo.toml"@ && t[4] == "Cargo.lock"@ && t[5] == "package.json"@ && t[6]
                    == "pyproject.toml"@ && t[7] == "go.mod"@ && t[8] == "pom.xml"@ && t[9]
                    == "build.gradle"@ && t[10] == "build.gradle.kts"@);
            }
        }
    }
    r
}

/// What was found in one directory.
#[derive(Debug)]
pub struct DirProbe {
    /// The names of the entries that exist there.
    pub names: Vec<String>,
    /// The names of those that are regular files.
    pub files: Vec<String>,
}

/// One of the entries marks the root of a project.
pub open spec fn has_marker(names: Seq<Seq<char>>) -> bool {
    exists|i: int| 0 <= i < names.len() && is_project_marker(#[trigger] names[i])
}

/// A directory is safe to change when it is not itself the root of a project,
/// and either holds the opt-in file or lies in no project.
pub open spec fn safe_directory(dir: DirProbe, above: Seq<DirProbe>) -> bool {
    &&& !has_marker(crate::text::texts(dir.names@))
    &&& crate::text::texts(dir.files@).contains(".v9r-workdir"@) || forall|i: int|
        0 <= i < above.len() ==> !has_marker(crate::text::texts((#[trigger] above[i]).names@))
}

fn has_marker_at(dir: &DirProbe) -> (r: bool)
    ensures
        r == has_marker(crate::text::texts(dir.names@)),
{
    let markers = project_markers();
    let ghost names = crate::text::texts(dir.names@);
    let mut i: usize = 0;
    while i < dir.names.len()
        invariant
            i <= dir.names.len(),
            names == crate::text::texts(dir.names@),
            forall|name: Seq<char>|
                crate::text::texts(markers@).contains(name) <==> #[trigger] is_project_marker(name),
            forall|j: int| 0 <= j < i ==> !is_project_marker(#[trigger] names[j]),
        decreases dir.names.len() - i,
    {
        proof {
            assert(names[i as int] == dir.names@[i as int]@);
            assert(crate::text::texts(markers@).contains(names[i as int]) <==> is_project_marker(
                names[i as int],
            ));
        }
        if text_in(dir.names[i].as_str(), &markers) {
            return true;
        }
        i = i + 1;
    }
    false
}

fn ancestor_has_marker(above: &Vec<DirProbe>) -> (r: bool)
    ensures
        r == exists|i: int|
            0 <= i < above@.len() && has_marker(crate::text::texts((#[trigger] above@[i]).names@)),
{
    let mut i: usize = 0;
    while i < above.len()
        invariant
            i <= above.len(),
            forall|j: int|
                0 <= j < i ==> !has_marker(crate::text::texts((#[trigger] above@[j]).names@)),
        decreases above.len() - i,
    {
        if has_marker_at(&above[i]) {
            return true;
        }
        i = i + 1;
    }
    false
}

/// Whether a directory is safe to use as a working directory, given what was
/// found in it and in the directories above it.
pub fn is_safe_directory(workdir: &DirProbe, above: &Vec<DirProbe>) -> (r: bool)
    ensures
        r == safe_directory(*workdir, above@),
{
    if has_marker_at(workdir) {
        return false;
    }
    if text_in(".v9r-workdir", &workdir.files) {
        return true;
    }
    !ancestor_has_marker(above)
}

/// The message that refuses an unsafe working directory.
pub open spec fn safety_message() -> Seq<char> {
    "Safety Error: Cannot use a project root (or a subfolder of one) as a mutable workdir. Place the workdir somewhere outside any version-controlled tree, or opt in by creating a `.v9r-workdir` file inside it."@
}

/// Refuses a directory that is not safe to use as a working directory.
pub fn ensure_safe_directory(workdir: &DirProbe, above: &Vec<DirProbe>) -> (r: Result<
    (),
    TransactionError,
>)
    ensures
        match r {
            Ok(_) => safe_directory(*workdir, above@),
            Err(e) => !safe_directory(*workdir, above@) && (e matches TransactionError::Safety(m)
                && m@ == safety_message()),
        },
{
    if is_safe_directory(workdir, above) {
        Ok(())
    } else {
        Err(
            TransactionError::Safety(
                owned(
                    "Safety Error: Cannot use a project root (or a subfolder of one) as a mutable workdir. Place the workdir somewhere outside any version-controlled tree, or opt in by creating a `.v9r-workdir` file inside it.",
                ),
            ),
        )
    }
}

/// A directory that is itself the root of a project is refused even where it
/// holds the opt-in file.
pub proof fn lemma_opt_in_does_not_cover_roots(dir: DirProbe, above: Seq<DirProbe>)
    requires
        has_marker(crate::text::texts(dir.names@)),
    ensures
        !safe_directory(dir, above),
{
}

/// Where the files of a checkpoint are kept.
pub open spec fn backup_path(
    workdir: Seq<char>,
    task_id: TaskId,
    checkpoint: CheckpointId,
) -> Seq<char> {
    crate::host_path::joined(
        crate::host_path::joined(
            crate::host_path::joined(crate::host_path::joined(workdir, ".v9r"@), "backups"@),
            crate::ids::hyphenated(task_id.0),
        ),
        crate::ids::hyphenated(checkpoint.0),
    )
}

/// Where the files of a checkpoint are kept.
pub fn backup_dir(workdir: &str, task_id: TaskId, checkpoint: CheckpointId) -> (r: String)
    ensures
        r@ == backup_path(workdir@, task_id, checkpoint),
{
    let base = join_path(workdir, ".v9r");
    let base = join_path(base.as_str(), "backups");
    let task = task_id.text();
    let base = join_path(base.as_str(), task.as_str());
    let point = checkpoint.text();
    join_path(base.as_str(), point.as_str())
}

/// Where the files of a checkpoint are gathered before it counts.
pub open spec fn staging_path(
    workdir: Seq<char>,
    task_id: TaskId,
    checkpoint: CheckpointId,
) -> Seq<char> {
    crate::host_path::joined(
        crate::host_path::joined(
            crate::host_path::joined(crate::host_path::joined(workdir, ".v9r"@), "backups"@),
            crate::ids::hyphenated(task_id.0),
        ),
        ".tmp-"@ + crate::ids::hyphenated(checkpoint.0),
    )
}

/// Where the files of a checkpoint are gathered before it counts.
pub fn staging_dir(workdir: &str, task_id: TaskId, checkpoint: CheckpointId) -> (r: String)
    ensures
        r@ == staging_path(workdir@, task_id, checkpoint),
{
    let base = join_path(workdir, ".v9r");
    let base = join_path(base.as_str(), "backups");
    let task = task_id.text();
    let base = join_path(base.as_str(), task.as_str());
    let point = checkpoint.text();
    let name = cat(".tmp-", point.as_str());
    join_path(base.as_str(), name.as_str())
}

/// Where a checkpoint is made: gathered in one directory, then moved to the
/// other.
#[derive(Debug)]
pub struct CheckpointPlan {
    pub workdir: String,
    pub staging: String,
    pub backup: String,
}

/// A checkpoint is made of a known task that is not blocked, in a directory
/// that is safe.
pub open spec fn may_checkpoint(
    table: Map<u128, FsModel>,
    id: TaskId,
    found: DirProbe,
    above: Seq<DirProbe>,
) -> bool {
    table.dom().contains(id.0) && !table[id.0].blocked && safe_directory(found, above)
}

/// Begins a checkpoint of a task, given what was found in its working
/// directory and in the directories above it.
pub fn checkpoint(
    tasks: &TaskTable,
    task_id: TaskId,
    id: CheckpointId,
    found: &DirProbe,
    above: &Vec<DirProbe>,
) -> (r: Result<CheckpointPlan, TransactionError>)
    ensures
        r is Ok <==> may_checkpoint(tasks@, task_id, *found, above@),
        match r {
            Ok(p) => {
                let workdir = tasks@[task_id.0].workdir;
                &&& p.workdir@ == workdir
                &&& p.staging@ == staging_path(workdir, task_id, id)
                &&& p.backup@ == backup_path(workdir, task_id, id)
            },
            Err(e) => if !tasks@.dom().contains(task_id.0) {
                e == TransactionError::UnknownTask(task_id)
            } else if tasks@[task_id.0].blocked {
                e == TransactionError::FilesystemBlocked(task_id)
            } else {
                e matches TransactionError::Safety(m) && m@ == safety_message()
            },
        },
{
    let workdir = registered_workdir(tasks, task_id, true)?;
    ensure_safe_directory(found, above)?;
    let staging = staging_dir(workdir.as_str(), task_id, id);
    let backup = backup_dir(workdir.as_str(), task_id, id);
    Ok(CheckpointPlan { workdir, staging, backup })
}

/// Where a rollback takes place, and where its files come from.
#[derive(Debug)]
pub struct RollbackPlan {
    pub workdir: String,
    pub backup: String,
}

/// A known task is rolled back, blocked or not, where its directory is still
/// safe and the checkpoint is there.
pub open spec fn may_roll_back(
    table: Map<u128, FsModel>,
    id: TaskId,
    found: DirProbe,
    above: Seq<DirProbe>,
    backup_found: bool,
) -> bool {
    table.dom().contains(id.0) && safe_directory(found, above) && backup_found
}

/// Begins the rollback of a task, given what was found in its working
/// directory and in the directories above it, and whether the directory of the
/// checkpoint is there.
pub fn rollback(
    tasks: &TaskTable,
    task_id: TaskId,
    id: CheckpointId,
    found: &DirProbe,
    above: &Vec<DirProbe>,
    backup_found: bool,
) -> (r: Result<RollbackPlan, TransactionError>)
    ensures
        r is Ok <==> may_roll_back(tasks@, task_id, *found, above@, backup_found),
        match r {
            Ok(p) => {
                let workdir = tasks@[task_id.0].workdir;
                p.workdir@ == workdir && p.backup@ == backup_path(workdir, task_id, id)
            },
            Err(e) => if !tasks@.dom().contains(task_id.0) {
                e == TransactionError::UnknownTask(task_id)
            } else if !safe_directory(*found, above@) {
                e matches TransactionError::Safety(m) && m@ == safety_message()
            } else {
                e matches TransactionError::Io { path, source } && path@ == backup_path(
                    tasks@[task_id.0].workdir,
                    task_id,
                    id,
                ) && source@ == "checkpoint not found"@
            },
        },
{
    let workdir = registered_workdir(tasks, task_id, false)?;
    ensure_safe_directory(found, above)?;
    let backup = backup_dir(workdir.as_str(), task_id, id);
    if !backup_found {
        return Err(
            TransactionError::Io { path: backup, source: owned("checkpoint not found") },
        );
    }
    Ok(RollbackPlan { workdir, backup })
}

/// A task that was blocked gets no more checkpoints, and can still be rolled
/// back to one that was made before.
pub proof fn lemma_blocked_tasks_roll_back(
    table: Map<u128, FsModel>,
    id: TaskId,
    found: DirProbe,
    above: Seq<DirProbe>,
)
    requires
        may_checkpoint(table, id, found, above),
    ensures
        !may_checkpoint(blocked(table, id), id, found, above),
        may_roll_back(blocked(table, id), id, found, above, true),
{
}

/// A directory that has become the root of a project is neither kept nor
/// rolled back.
pub proof fn lemma_project_roots_are_left_alone(
    table: Map<u128, FsModel>,
    id: TaskId,
    found: DirProbe,
    above: Seq<DirProbe>,
    backup_found: bool,
)
    requires
        has_marker(crate::text::texts(found.names@)),
    ensures
        !may_checkpoint(table, id, found, above),
        !may_roll_back(table, id, found, above, backup_found),
{
}

/// How a component that is not an entry's name is called.
pub open spec fn component_label(part: Seq<char>) -> Seq<char> {
    if part == "/"@ {
        "RootDir"@
    } else if part == "."@ {
        "CurDir"@
    } else {
        "ParentDir"@
    }
}

/// The first component from `i` on that does not name an entry.
pub open spec fn first_odd_part(parts: Seq<Seq<char>>, i: int) -> Option<Seq<char>>
    decreases parts.len() - i,
{
    if i < 0 || i >= parts.len() {
        None
    } else if !crate::host_path::is_normal(parts[i]) {
        Some(parts[i])
    } else {
        first_odd_part(parts, i + 1)
    }
}

/// Why a path out of a snapshot cannot be used, where it cannot: it is empty,
/// or a component does not name an entry.
pub open spec fn bad_snapshot_path(p: Seq<char>) -> Option<Seq<char>> {
    if p.len() == 0 {
        Some("snapshot manifest contained an empty path"@)
    } else {
        match first_odd_part(crate::host_path::path_parts(p), 0) {
            Some(part) => Some(
                "snapshot manifest path is not relative-normal: "@ + component_label(part) + " in "@
                    + p,
            ),
            None => None,
        }
    }
}

/// Refuses a path out of a snapshot that is anything but ordinary components.
pub fn safe_relative_path(rel: &str) -> (r: Result<(), TransactionError>)
    ensures
        match r {
            Ok(_) => bad_snapshot_path(rel@) is None,
            Err(e) => e matches TransactionError::Safety(m) && bad_snapshot_path(rel@) == Some(m@),
        },
{
    if is_empty_text(rel) {
        return Err(TransactionError::Safety(owned("snapshot manifest contained an empty path")));
    }
    let parts = components(rel);
    let ghost all = crate::host_path::path_parts(rel@);
    let mut i: usize = 0;
    while i < parts.len()
        invariant
            i <= parts.len(),
            rel@.len() > 0,
            all == crate::text::texts(parts@),
            all == crate::host_path::path_parts(rel@),
            first_odd_part(all, 0) == first_odd_part(all, i as int),
        decreases parts.len() - i,
    {
        let part = parts[i].as_str();
        proof {
            assert(all[i as int] == part@);
        }
        let label: &str = if same_text(part, "/") {
            "RootDir"
        } else if same_text(part, ".") {
            "CurDir"
        } else if same_text(part, "..") {
            "ParentDir"
        } else {
            ""
        };
        if same_text(part, "/") || same_text(part, ".") || same_text(part, "..") {
            let mut m = cat3("snapshot manifest path is not relative-normal: ", label, " in ");
            m.append(rel);
            return Err(TransactionError::Safety(m));
        }
        i = i + 1;
    }
    Ok(())
}

} // verus!
