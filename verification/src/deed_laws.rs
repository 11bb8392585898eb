//! What each operation of a task does by itself: what it counts, what it
//! gathers, where it keeps things and what it finds again.

use vstd::prelude::*;

use crate::adapter::{
    is_max_steps_error, is_security_violation, parse_actions, resolve_write, AdapterError,
    LlmAction, WriteTarget,
};
use crate::arena::NodeId;
use crate::args::RunArgs;
use crate::bundle::{task_from_bundle, write_trace, ArtifactRead, ImportPlan};
use crate::cap::{
    HostCapability, MountMode, MountModel, NamespaceView, NamespaceViewBuilder,
};
use crate::context::{FileCollector, FileSnapshot, TaskSnapshot};
use crate::execution::{EffectModel, ExecutionError};
use crate::guard::{reply_actions, step_prompt, ArtifactProbe, GuardState, ReplyRun, StateModel};
use crate::handlers::{Handler, HandlerModel};
use crate::host_path::{file_name, join_path, normalize_path, path_starts_with, resolve_task_path};
use crate::ids::{CheckpointId, TaskId};
use crate::manifest::{normalize_manifest_paths, Manifest};
use crate::orchestrator::{LoadScan, ScanError};
use crate::run::{
    required_args, script_event, RequiredArgs, Run, RunAction, RunActionModel, RunEvent,
    RunEventModel,
};
use crate::snapshot::{selective_rollback, CurrentFile, RollbackOp, SnapshotManifest};
use crate::task::{ArtifactHash, Task, TaskStatus};
use crate::task_fs::{
    checkpoint, ensure_safe_directory, rollback, CheckpointPlan, DirProbe, RollbackPlan, TaskTable,
    TransactionError,
};
use crate::vfs::{
    accept_host_path, EntryKind, HostCandidate, StatStep, Vfs,
};
use crate::vfs_path::{Capability, VfsPath, VfsResult};
use crate::watch::WatchTable;
use crate::xml::{escape_xml, unescape_xml};

verus! {

/// A tool call counts as a step, up to the limit and no further.
pub proof fn lemma_tool_calls_are_counted(task: &mut Task, r: Result<(), String>)
    requires
        call_ensures(Task::record_tool_call, (task,), r),
    ensures
        r is Ok <==> old(task).steps_used < old(task).manifest.max_steps,
        r is Ok ==> final(task).steps_used == old(task).steps_used + 1,
        r is Err ==> final(task).steps_used == old(task).steps_used,
        final(task).status == old(task).status,
        final(task).tokens_used == old(task).tokens_used,
        final(task)@.manifest == old(task)@.manifest,
{
    assert(final(task)@.steps_used == final(task).steps_used);
    assert(final(task)@.status == final(task).status);
    assert(final(task)@.tokens_used == final(task).tokens_used);
}

/// Tokens add up, and nothing else of the task changes.
pub proof fn lemma_tokens_add_up(task: &mut Task, tokens: u64)
    requires
        call_ensures(Task::record_tokens, (task, tokens), ()),
    ensures
        old(task).tokens_used + tokens <= u64::MAX ==> final(task).tokens_used == old(
            task
        ).tokens_used + tokens,
        old(task).tokens_used + tokens > u64::MAX ==> final(task).tokens_used == u64::MAX,
        final(task).steps_used == old(task).steps_used,
        final(task).status == old(task).status,
        final(task)@.manifest == old(task)@.manifest,
{
    assert(final(task)@.steps_used == final(task).steps_used);
    assert(final(task)@.status == final(task).status);
    assert(final(task)@.tokens_used == final(task).tokens_used);
}

/// What is escaped can be read back.
pub proof fn lemma_escapes_are_read_back(value: &str, text: &str, escaped: String, r: String)
    requires
        call_ensures(escape_xml, (value,), escaped),
        text@ == escaped@,
        call_ensures(unescape_xml, (text,), r),
    ensures
        r@ == value@,
        !escaped@.contains('<') && !escaped@.contains('>') && !escaped@.contains('"'),
{
    crate::xml::lemma_escape_round_trip(value@);
    crate::xml::lemma_escaped_is_inert(value@);
}

/// A directory that was made is there.
pub proof fn lemma_new_directories_are_there(
    vfs: &mut Vfs,
    path: &VfsPath,
    r: VfsResult<NodeId>,
    s: VfsResult<StatStep>,
)
    requires
        call_ensures(Vfs::mkdir_p, (vfs, path), r),
        crate::vfs::is_closed(old(vfs)@.tree),
        r is Ok,
        !old(vfs)@.tree.dom().contains(path@),
        call_ensures(Vfs::stat, (&*final(vfs), path), s),
    ensures
        s matches Ok(StatStep::Known(k)) && k.kind == EntryKind::Dir,
        forall|q: Seq<Seq<char>>| #[trigger]
            old(vfs)@.tree.dom().contains(q) ==> final(vfs)@.tree.dom().contains(q) && final(
                vfs
            )@.tree[q] == old(vfs)@.tree[q],
{
    crate::vfs::lemma_mkdir_makes_path(old(vfs)@.tree, path@);
    crate::vfs::lemma_lookup_finds(final(vfs)@.tree, path@);
}

/// A path leads to the host through the deepest mount above it.
pub proof fn lemma_paths_lead_to_the_host(
    vfs: &Vfs,
    path: &VfsPath,
    r: Option<HostCandidate>,
    i: int,
)
    requires
        call_ensures(Vfs::host_path_for, (vfs, path), r),
        crate::order::in_order(vfs@.mounts),
        0 <= i < vfs@.mounts.len(),
        vfs@.mounts[i].at.is_prefix_of(path@),
    ensures
        r is Some,
        exists|k: int|
            0 <= k < vfs@.mounts.len() && (#[trigger] vfs@.mounts[k]).at.is_prefix_of(path@)
                && vfs@.mounts[k].at.len() >= vfs@.mounts[i].at.len() && r->Some_0.root@
                == vfs@.mounts[k].host,
{
    crate::vfs::lemma_deepest_mount_wins(vfs@.mounts, path@, i);
    lemma_covering_is_one(vfs@.mounts, path@, 0);
}

proof fn lemma_covering_is_one(
    mounts: Seq<crate::vfs::HostMountModel>,
    path: Seq<Seq<char>>,
    from: int,
)
    requires
        0 <= from <= mounts.len(),
    ensures
        crate::vfs::covering_mount(mounts, path, from) matches Some(m) ==> mounts.contains(m),
    decreases mounts.len() - from,
{
    if from < mounts.len() {
        lemma_covering_is_one(mounts, path, from + 1);
    }
}

/// A path of the host is let through exactly where its components begin with
/// those of the mounted directory.
pub proof fn lemma_host_paths_stay_below(candidate: &HostCandidate, canonical: &str, r: bool)
    requires
        call_ensures(accept_host_path, (candidate, canonical), r),
    ensures
        r <==> crate::host_path::path_parts(candidate.root@).is_prefix_of(
            crate::host_path::path_parts(canonical@),
        ),
{
}

/// A view that is built holds what it was given, and nothing else.
pub proof fn lemma_views_hold_what_they_are_given(
    cap: Capability,
    at: VfsPath,
    target: VfsPath,
    mode: MountMode,
    granted: HostCapability,
    empty: NamespaceViewBuilder,
    mounted: NamespaceViewBuilder,
    full: NamespaceViewBuilder,
    r: NamespaceView,
)
    requires
        call_ensures(NamespaceView::builder, (cap,), empty),
        call_ensures(NamespaceViewBuilder::mount, (empty, at, target, mode), mounted),
        call_ensures(NamespaceViewBuilder::host_capability, (mounted, granted), full),
        call_ensures(NamespaceViewBuilder::build, (full,), r),
    ensures
        r@.cap == cap@,
        r@.mounts == seq![MountModel { virtual_path: at@, real_path: target@, mode }],
        r@.host_capabilities == seq![granted],
{
    assert(empty@.mounts =~= Seq::empty());
    assert(r@.mounts =~= seq![MountModel { virtual_path: at@, real_path: target@, mode }]);
    assert(r@.host_capabilities =~= seq![granted]);
}

/// A label that was taken back has no route any more, and every other label
/// still has its own.
pub proof fn lemma_labels_are_taken_back(
    watch: &mut WatchTable<Handler>,
    label: &str,
    r: bool,
    route: crate::watch::RouteModel<HandlerModel>,
)
    requires
        call_ensures(WatchTable::<Handler>::unregister, (watch, label), r),
    ensures
        final(watch)@.contains(route) <==> old(watch)@.contains(route) && route.label != label@,
{
    let keep = |x: crate::watch::RouteModel<HandlerModel>| x.label != label@;
    lemma_filtered_routes(old(watch)@, keep, route);
}

proof fn lemma_filtered_routes(
    s: Seq<crate::watch::RouteModel<HandlerModel>>,
    keep: spec_fn(crate::watch::RouteModel<HandlerModel>) -> bool,
    w: crate::watch::RouteModel<HandlerModel>,
)
    ensures
        s.filter(keep).contains(w) <==> s.contains(w) && keep(w),
    decreases s.len(),
{
    reveal(Seq::filter);
    if s.len() > 0 {
        let less = s.drop_last();
        let kept = less.filter(keep);
        lemma_filtered_routes(less, keep, w);
        assert(s.last() == s[s.len() - 1]);
        if less.contains(w) {
            let k = choose|k: int| 0 <= k < less.len() && less[k] == w;
            assert(s[k] == w);
        }
        if kept.contains(w) {
            let k = choose|k: int| 0 <= k < kept.len() && kept[k] == w;
            assert(kept.push(s.last())[k] == w);
        }
        assert(kept.push(s.last())[kept.len() as int] == s.last());
        if s.contains(w) && !less.contains(w) {
            let k = choose|k: int| 0 <= k < s.len() && s[k] == w;
            if k < less.len() {
                assert(less[k] == w);
            }
        }
    }
}

/// A rollback is what its laws speak of.
pub proof fn lemma_rollbacks_follow_their_plan(
    manifest: &SnapshotManifest,
    current: &Vec<CurrentFile>,
    exists_there: &Vec<bool>,
    dirs: Vec<String>,
    r: Result<Vec<RollbackOp>, TransactionError>,
)
    requires
        call_ensures(selective_rollback, (manifest, current, exists_there, dirs), r),
    ensures
        ({
            let plan = crate::snapshot::rollback_plan(
                crate::snapshot::file_models(manifest.files@),
                crate::text::texts(manifest.dirs@),
                crate::snapshot::current_models(current@),
                exists_there@,
                crate::text::texts(dirs@),
            );
            &&& r is Ok <==> plan is Ok
            &&& r matches Ok(ops) ==> crate::snapshot::op_models(ops@) == plan->Ok_0
        }),
{
}

/// A rollback looks for a checkpoint where the checkpoint was put.
pub proof fn lemma_checkpoints_are_found_again(
    tasks: &TaskTable,
    task: TaskId,
    id: CheckpointId,
    found: &DirProbe,
    above: &Vec<DirProbe>,
    p: Result<CheckpointPlan, TransactionError>,
    q: Result<RollbackPlan, TransactionError>,
)
    requires
        call_ensures(checkpoint, (tasks, task, id, found, above), p),
        call_ensures(rollback, (tasks, task, id, found, above, true), q),
        p is Ok,
    ensures
        q is Ok,
        q->Ok_0.backup@ == p->Ok_0.backup@,
        q->Ok_0.workdir@ == p->Ok_0.workdir@,
        p->Ok_0.workdir@ == tasks@[task.0].workdir,
{
}

/// A checkpoint stands below the working directory under its own identifier
/// and that of its task, and is gathered beside the place where it will stand.
pub proof fn lemma_checkpoints_have_their_place(
    tasks: &TaskTable,
    task: TaskId,
    id: CheckpointId,
    found: &DirProbe,
    above: &Vec<DirProbe>,
    p: Result<CheckpointPlan, TransactionError>,
)
    requires
        call_ensures(checkpoint, (tasks, task, id, found, above), p),
        p is Ok,
        tasks@[task.0].workdir.len() > 0,
        tasks@[task.0].workdir.last() != '/',
    ensures
        ({
            let home = tasks@[task.0].workdir + "/.v9r/backups/"@ + crate::ids::hyphenated(task.0)
                + "/"@;
            &&& p->Ok_0.backup@ == home + crate::ids::hyphenated(id.0)
            &&& p->Ok_0.staging@ == home + ".tmp-"@ + crate::ids::hyphenated(id.0)
        }),
{
    reveal_strlit("/");
    reveal_strlit(".v9r");
    reveal_strlit("backups");
    reveal_strlit("/.v9r/backups/");
    reveal_strlit(".tmp-");
    lemma_identifier_is_plain(task.0);
    lemma_identifier_is_plain(id.0);
    let workdir = tasks@[task.0].workdir;
    let t = crate::ids::hyphenated(task.0);
    let c = crate::ids::hyphenated(id.0);
    let home = workdir + "/.v9r/backups/"@ + t + "/"@;
    let a = crate::host_path::joined(workdir, ".v9r"@);
    assert(a == workdir + "/"@ + ".v9r"@);
    assert(a.last() == 'r');
    let b = crate::host_path::joined(a, "backups"@);
    assert(b == a + "/"@ + "backups"@);
    assert(b.last() == 's');
    let d = crate::host_path::joined(b, t);
    assert(d == b + "/"@ + t);
    assert(d.last() == t[35]);
    assert(d + "/"@ =~= home);
    assert(crate::host_path::joined(d, c) == d + "/"@ + c);
    let gathered = ".tmp-"@ + c;
    assert(gathered[0] == '.');
    assert(crate::host_path::joined(d, gathered) == d + "/"@ + gathered);
    assert(d + "/"@ + gathered =~= home + ".tmp-"@ + c);
}

proof fn lemma_identifier_is_plain(v: u128)
    ensures
        crate::ids::hyphenated(v).len() == 36,
        crate::ids::hyphenated(v)[0] != '/',
        crate::ids::hyphenated(v)[35] != '/',
{
    assert(crate::ids::hex_at(v, 0) != '/');
    assert(crate::ids::hex_at(v, 31) != '/');
}

/// A checkpoint is made of a known task that is not blocked and whose
/// directory is safe, and of no other.
pub proof fn lemma_checkpoints_need_a_safe_task(
    tasks: &TaskTable,
    task: TaskId,
    id: CheckpointId,
    found: &DirProbe,
    above: &Vec<DirProbe>,
    safe: Result<(), TransactionError>,
    p: Result<CheckpointPlan, TransactionError>,
)
    requires
        call_ensures(checkpoint, (tasks, task, id, found, above), p),
        call_ensures(ensure_safe_directory, (found, above), safe),
    ensures
        p is Ok <==> tasks@.dom().contains(task.0) && !tasks@[task.0].blocked && safe is Ok,
{
}

/// A directory is safe to work in exactly where the law of safe directories
/// says so.
pub proof fn lemma_unsafe_directories_are_refused(
    found: &DirProbe,
    above: &Vec<DirProbe>,
    r: Result<(), TransactionError>,
    b: bool,
)
    requires
        call_ensures(ensure_safe_directory, (found, above), r),
        call_ensures(crate::task_fs::is_safe_directory, (found, above), b),
    ensures
        r is Ok <==> b,
        r matches Err(e) ==> e is Safety,
{
}

/// The context of a task is the context of a snapshot of it.
pub proof fn lemma_contexts_are_snapshots(
    task: &Task,
    files: Vec<FileSnapshot>,
    history: Vec<String>,
    direct: String,
    snapshot: TaskSnapshot,
    r: String,
)
    requires
        call_ensures(Task::xml_snapshot, (task, files, history), direct),
        call_ensures(TaskSnapshot::collect, (task, files, history), snapshot),
        call_ensures(TaskSnapshot::to_xml, (&snapshot,), r),
    ensures
        r@ == direct@,
        snapshot.manifest@ == task@.manifest,
        snapshot.status == task.status,
        snapshot.files@ == files@,
        snapshot.execution_history@ == history@,
{
}

/// A collection starts with all that the manifest allows to read.
pub proof fn lemma_collections_start(task: &Task, r: FileCollector, i: int)
    requires
        call_ensures(FileCollector::start, (task,), r),
        0 <= i < task@.manifest.allow_read.len(),
    ensures
        r@.stack.len() == task@.manifest.allow_read.len(),
        r@.stack[i] == crate::host_path::task_path(task@.workdir, task@.manifest.allow_read[i]),
        r@.seen.len() == 0 && r@.files.len() == 0,
{
}

/// A collection goes on with a path that it has not seen, as long as there is
/// one; what is put in is kept until it is its turn.
pub proof fn lemma_collections_go_on(c: &mut FileCollector, r: Option<String>, i: int)
    requires
        call_ensures(FileCollector::next_path, (c,), r),
    ensures
        r matches Some(p) ==> !old(c)@.seen.contains(p@) && final(c)@.seen == old(c)@.seen.push(
            p@,
        ) && final(c)@.files == old(c)@.files,
        r matches Some(p) ==> (0 <= i < old(c)@.stack.len() && !old(c)@.seen.contains(
            crate::host_path::normalized(old(c)@.stack[i]),
        ) ==> final(c)@.stack.contains(old(c)@.stack[i]) || p@ == crate::host_path::normalized(
            old(c)@.stack[i],
        )),
        r is None && 0 <= i < old(c)@.stack.len() ==> old(c)@.seen.contains(
            crate::host_path::normalized(old(c)@.stack[i]),
        ),
{
    crate::context::lemma_next_is_new(old(c)@.stack, old(c)@.seen);
    if 0 <= i < old(c)@.stack.len() {
        lemma_next_keeps(old(c)@.stack, old(c)@.seen, i);
    }
}

proof fn lemma_next_keeps(stack: Seq<Seq<char>>, seen: Seq<Seq<char>>, i: int)
    requires
        0 <= i < stack.len(),
    ensures
        match crate::context::next_unseen(stack, seen) {
            None => seen.contains(crate::host_path::normalized(stack[i])),
            Some((p, rest)) => seen.contains(crate::host_path::normalized(stack[i]))
                || rest.contains(stack[i]) || p == crate::host_path::normalized(stack[i]),
        },
    decreases stack.len(),
{
    let less = stack.drop_last();
    if i < less.len() {
        assert(less[i] == stack[i]);
        if seen.contains(crate::host_path::normalized(stack.last())) {
            lemma_next_keeps(less, seen, i);
        }
    }
}

/// What a collection is given it holds.
pub proof fn lemma_collections_hold_what_they_get(
    c: &mut FileCollector,
    path: String,
    file: FileSnapshot,
    is_file: bool,
)
    requires
        if is_file {
            call_ensures(FileCollector::add_file, (c, file), ())
        } else {
            call_ensures(FileCollector::push_path, (c, path), ())
        },
    ensures
        is_file ==> final(c)@.files == old(c)@.files.push(file@) && final(c)@.stack == old(
            c
        )@.stack,
        !is_file ==> final(c)@.stack == old(c)@.stack.push(path@) && final(c)@.files == old(
            c
        )@.files,
        final(c)@.seen == old(c)@.seen,
{
}

/// A prompt ends in the context of the task.
pub proof fn lemma_prompts_hold_the_context(context: &str, r: String)
    requires
        call_ensures(step_prompt, (context,), r),
    ensures
        context@.is_suffix_of(r@),
        crate::guard::SYSTEM_PROMPT@.is_prefix_of(r@),
{
    assert(context@ =~= r@.subrange(r@.len() - context@.len(), r@.len() as int));
    assert(crate::guard::SYSTEM_PROMPT@ =~= r@.subrange(
        0,
        crate::guard::SYSTEM_PROMPT@.len() as int,
    ));
}

/// A reply is carried out by the actions that it holds, all of them; one that
/// holds none is an error.
pub proof fn lemma_replies_are_carried_out(
    response: &str,
    parsed: Result<Vec<LlmAction>, AdapterError>,
    r: Result<Vec<LlmAction>, AdapterError>,
    run: Result<ReplyRun, AdapterError>,
)
    requires
        call_ensures(parse_actions, (response,), parsed),
        call_ensures(reply_actions, (response,), r),
        call_ensures(ReplyRun::begin, (response,), run),
    ensures
        r is Ok <==> parsed is Ok && parsed->Ok_0@.len() > 0,
        r is Ok <==> run is Ok,
        r matches Ok(actions) ==> crate::adapter::action_models(actions@)
            == crate::adapter::action_models(parsed->Ok_0@) && run->Ok_0@
            == crate::adapter::action_models(parsed->Ok_0@),
{
    if let Ok(actions) = parsed {
        assert(crate::adapter::action_models(actions@).len() == actions@.len());
    }
}

/// The outcome of a run is what its laws speak of.
pub proof fn lemma_outcomes_are_validated(
    task: &Task,
    probes: &Vec<ArtifactProbe>,
    reads: &Vec<ArtifactRead>,
    r: Result<Vec<ArtifactHash>, String>,
)
    requires
        call_ensures(Task::validate_outcome, (task, probes, reads), r),
    ensures
        r is Ok <==> crate::guard::outcome(task@, probes@, reads@) is Ok,
        r matches Ok(hashes) ==> crate::guard::outcome(task@, probes@, reads@)->Ok_0
            == crate::guard::hash_models(hashes@),
{
}

/// A guarded run begins with a checkpoint, of a task that is running and
/// registered with its directory.
pub proof fn lemma_guarded_runs_begin(task: &mut Task, tasks: &mut TaskTable, r: GuardState)
    requires
        call_ensures(Task::begin_guarded_run, (task, tasks), r),
    ensures
        r@ == StateModel::Checkpointing,
        final(task).status is Running,
        final(task).steps_used == old(task).steps_used,
        final(tasks)@.dom().contains(old(task).id.0),
        final(tasks)@[old(task).id.0].workdir == old(task).workdir@,
        !old(tasks)@.dom().contains(old(task).id.0) ==> !final(tasks)@[old(task).id.0].blocked,
{
    assert(final(task)@.status is Running);
    assert(final(task)@.steps_used == final(task).steps_used);
}

/// A file is written below the directory that its path leads to, under its
/// own name, as long as that directory lies in the working directory; where it
/// does not, the write is a violation.
pub proof fn lemma_writes_stay_inside(
    resolved: &str,
    parent: &str,
    workdir: &str,
    r: (Vec<crate::execution::Effect>, WriteTarget),
)
    requires
        call_ensures(resolve_write, (resolved, parent, workdir), r),
    ensures
        !crate::host_path::path_parts(workdir@).is_prefix_of(crate::host_path::path_parts(parent@))
            ==> (r.1 matches WriteTarget::Refuse(AdapterError::Violation(m)))
            && crate::execution::effect_models(r.0@).contains(EffectModel::BlockFs)
            && crate::execution::effect_models(r.0@).contains(
            EffectModel::SetStatus(TaskStatus::Violation),
        ),
        crate::host_path::path_parts(workdir@).is_prefix_of(crate::host_path::path_parts(parent@))
            ==> r.0@.len() == 0 && (crate::host_path::name_of(resolved@) matches Some(name) ==> (
        r.1 matches WriteTarget::File(p) && p@ == crate::host_path::joined(parent@, name))),
{
    let done = crate::execution::effect_models(r.0@);
    if !crate::host_path::is_under(parent@, workdir@) {
        assert(done[0] == EffectModel::SetStatus(TaskStatus::Violation));
        assert(done[2] == EffectModel::BlockFs);
    }
}

/// What stops a task, and what does not.
pub proof fn lemma_errors_are_told_apart(e: &AdapterError, violation: bool, steps: bool)
    requires
        call_ensures(is_security_violation, (e,), violation),
        call_ensures(is_max_steps_error, (e,), steps),
    ensures
        violation <==> (e matches AdapterError::Violation(m)) || (e matches AdapterError::Execution(
            ExecutionError::Violation(m),
        )),
        steps <==> (e matches AdapterError::MaxStepsExceeded(n)) || (
        e matches AdapterError::Execution(ExecutionError::MaxStepsExceeded(n))),
{
}

/// A trace is handed over whole, with the event on a line of its own behind
/// it.
pub proof fn lemma_traces_are_handed_over(trace: Vec<u8>, event: Vec<u8>, r: Vec<u8>)
    requires
        call_ensures(write_trace, (trace, event), r),
    ensures
        trace@.len() == 0 || trace@.last() == 10u8 ==> r@ == trace@ + event@ + seq![10u8],
        trace@.len() > 0 && trace@.last() != 10u8 ==> r@ == trace@ + seq![10u8] + event@ + seq![
            10u8,
        ],
{
    if trace@.len() == 0 || trace@.last() == 10u8 {
        assert(r@ =~= trace@ + event@ + seq![10u8]);
    } else {
        assert(r@ =~= trace@ + seq![10u8] + event@ + seq![10u8]);
    }
}

/// A task out of a bundle starts anew in the directory of the bundle, and is
/// registered there.
pub proof fn lemma_bundled_tasks_start_anew(
    manifest: Manifest,
    plan: &ImportPlan,
    tasks: &mut TaskTable,
    r: Task,
)
    requires
        call_ensures(task_from_bundle, (manifest, plan, tasks), r),
    ensures
        r.status is Idle && r.steps_used == 0 && r.tokens_used == 0,
        r.manifest@ == manifest@ && r.workdir@ == plan.workdir@,
        final(tasks)@.dom().contains(r.id.0),
        final(tasks)@[r.id.0].workdir == plan.workdir@,
{
    assert(r@.status is Idle);
    assert(r@.steps_used == 0 && r@.tokens_used == 0);
}

/// A run begins with the manifest that it was given, in the directory that it
/// was given or else in the current one.
pub proof fn lemma_runs_begin(
    args: RunArgs,
    needed: Result<RequiredArgs, String>,
    stdin_is_pipe: bool,
    stdout_is_pipe: bool,
    cwd: &str,
    r: (Run, RunAction),
)
    requires
        call_ensures(required_args, (&args,), needed),
        needed is Ok,
        call_ensures(Run::begin, (args, needed->Ok_0, stdin_is_pipe, stdout_is_pipe, cwd), r),
    ensures
        args@.manifest matches Some(m) && r.1@ == RunActionModel::LoadManifest(m),
        args@.task == Some(r.0@.task_text),
        args@.workdir matches Some(d) ==> r.0@.workdir == crate::host_path::normalized(d),
        args@.workdir is None ==> r.0@.workdir == crate::host_path::normalized(cwd@),
        r.0@.stdin_is_pipe == stdin_is_pipe && r.0@.stdout_is_pipe == stdout_is_pipe,
{
}

/// A script has passed exactly where it exited with 0 and its outcome is good.
pub proof fn lemma_scripts_pass(code: Option<i32>, outcome: Result<(), String>, r: RunEvent)
    requires
        call_ensures(script_event, (code, outcome), r),
    ensures
        r@ is ScriptPassed <==> code == Some(0i32) && outcome is Ok,
        !(r@ is ScriptPassed) ==> r@ is ScriptFailed,
        code == Some(0i32) && outcome is Err ==> r@ == RunEventModel::ScriptFailed(
            outcome->Err_0@,
        ),
{
}

/// A directory that is found is looked into next, and a manifest that is found
/// is taken.
pub proof fn lemma_scans_go_down(
    scan: &mut LoadScan,
    path: &str,
    is_dir: bool,
    r: Result<Option<VfsPath>, ScanError>,
)
    requires
        call_ensures(LoadScan::visit, (scan, path, is_dir), r),
    ensures
        is_dir ==> final(scan)@.stack == old(scan)@.stack.push(path@) && (r matches Ok(None)),
        !is_dir ==> final(scan)@.stack == old(scan)@.stack,
        !is_dir && crate::host_path::name_of(path@) == Some("manifest.toml"@)
            && crate::host_path::path_parts(old(scan)@.host_root).is_prefix_of(
            crate::host_path::path_parts(path@),
        ) ==> (r matches Ok(Some(p))),
        !is_dir && crate::host_path::name_of(path@) != Some("manifest.toml"@) ==> (r matches Ok(
            None,
        )),
{
}

/// A scan takes the directories that it found, the last one first, until none
/// is left.
pub proof fn lemma_scans_take_what_they_found(scan: &mut LoadScan, r: Option<String>)
    requires
        call_ensures(LoadScan::next_dir, (scan,), r),
    ensures
        r is None <==> old(scan)@.stack.len() == 0,
        r matches Some(d) ==> old(scan)@.stack == final(scan)@.stack.push(d@),
{
    if let Some(d) = r {
        assert(old(scan)@.stack =~= final(scan)@.stack.push(d@));
    }
}

/// A snapshot holds the files that were put into it.
pub proof fn lemma_snapshots_hold_their_files(
    m: &mut SnapshotManifest,
    path: String,
    bytes: &[u8],
    same: &str,
    r: bool,
)
    requires
        call_ensures(SnapshotManifest::add_file, (m, path, bytes), ()),
        same@ == path@,
        call_ensures(SnapshotManifest::holds_file, (&*final(m), same), r),
    ensures
        r,
        final(m).files@.len() == old(m).files@.len() + 1,
        final(m).files@.last().relative_path@ == path@,
        final(m).files@.last().fnv64 == crate::snapshot::fnv64_of(bytes@),
{
    let before = crate::snapshot::file_models(old(m).files@);
    let now = crate::snapshot::file_models(final(m).files@);
    assert(now.len() == final(m).files@.len() && before.len() == old(m).files@.len());
    assert(now[before.len() as int] == final(m).files@.last()@);
    lemma_held_at(now, crate::host_path::path_parts(path@), 0, before.len() as int);
}

proof fn lemma_held_at(
    files: Seq<crate::snapshot::FileModel>,
    parts: Seq<Seq<char>>,
    from: int,
    i: int,
)
    requires
        0 <= from <= i < files.len(),
        crate::host_path::path_parts(files[i].path) == parts,
    ensures
        crate::snapshot::held_at(files, parts, from) is Some,
    decreases i - from,
{
    if from < i {
        lemma_held_at(files, parts, from + 1, i);
    }
}

/// The paths of a manifest are taken below the working directory, and nothing
/// else of it changes.
pub proof fn lemma_manifest_paths_are_resolved(manifest: Manifest, workdir: &str, r: Manifest, i: int)
    requires
        call_ensures(normalize_manifest_paths, (manifest, workdir), r),
    ensures
        r@.allow_read.len() == manifest@.allow_read.len(),
        r@.allow_write.len() == manifest@.allow_write.len(),
        r@.mandatory_artifacts.len() == manifest@.mandatory_artifacts.len(),
        0 <= i < manifest@.allow_read.len() ==> r@.allow_read[i] == crate::host_path::task_path(
            workdir@,
            manifest@.allow_read[i],
        ),
        0 <= i < manifest@.allow_write.len() ==> r@.allow_write[i] == crate::host_path::task_path(
            workdir@,
            manifest@.allow_write[i],
        ),
        0 <= i < manifest@.mandatory_artifacts.len() ==> r@.mandatory_artifacts[i]
            == crate::host_path::task_path(workdir@, manifest@.mandatory_artifacts[i]),
        r@.allow_exec == manifest@.allow_exec,
        r@.test_commands == manifest@.test_commands,
        r@.max_steps == manifest@.max_steps,
        r@.timeout_ms == manifest@.timeout_ms,
        r@.token_limit == manifest@.token_limit,
{
}

/// Names that are joined to a directory lead below it, to a file of the last
/// name; a path of a task is that path in its normal form.
pub proof fn lemma_paths_are_joined(
    base: &str,
    p: &str,
    text: &str,
    names: Seq<Seq<char>>,
    joined: String,
    normal: String,
    resolved: String,
    below: bool,
    named: Option<String>,
)
    requires
        names.len() > 0,
        crate::vfs_path::canonical(names),
        p@ == crate::text::joined_with(names, "/"@),
        call_ensures(join_path, (base, p), joined),
        text@ == joined@,
        call_ensures(normalize_path, (text,), normal),
        call_ensures(resolve_task_path, (base, p), resolved),
        call_ensures(path_starts_with, (text, base), below),
        call_ensures(file_name, (text,), named),
    ensures
        normal@ == resolved@,
        below,
        named matches Some(n) && n@ == names.last(),
{
    reveal_strlit("/");
    reveal_strlit(".");
    assert("/"@[0] == '/');
    assert(crate::vfs_path::valid_segment(names[0]));
    assert(names[0] == "/"@ ==> names[0].contains('/'));
    crate::host_path::lemma_parts_of_rendered(names);
    crate::host_path::lemma_joined_first(names);
    crate::host_path::lemma_plain_parts(p@);
    assert(p@.len() > 0);
    assert(p@[0] == names[0][0]);
    assert(names[0].contains(names[0][0]));
    assert(!crate::host_path::is_rooted(p@));
    let whole = crate::host_path::path_parts(joined@);
    let above = crate::host_path::path_parts(base@);
    if base@.len() == 0 {
        assert(joined@ =~= p@);
        assert(base@ =~= Seq::<char>::empty());
        crate::host_path::lemma_empty_has_no_parts();
        assert(whole =~= above + names);
    } else {
        crate::host_path::lemma_joined_parts(base@, p@);
    }
    assert(whole == above + names);
    assert(above =~= whole.subrange(0, above.len() as int));
    assert(whole.last() == names.last());
    assert(crate::vfs_path::valid_segment(names[names.len() - 1]));
    assert(names.last() == "/"@ ==> names.last().contains('/'));
}

} // verus!
