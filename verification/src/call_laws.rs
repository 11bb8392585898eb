//! What the operations do that change something, call by call: what one call
//! leaves is what the next one finds.

use vstd::prelude::*;

use bytes::Bytes;

use crate::adapter::{apply_write, parse_action_command, AdapterError, WriteDecision, WritePlan};
use crate::execution::{
    apply_effect, finish_task_step, run_script_step, run_task_step, CommandSpec, Effect,
    EffectModel, ExecutionError, StepDecision, StepPlan,
};
use crate::guard::{ActionStep, GuardAction, GuardEvent, GuardState, ReplyRun, StateModel};
use crate::ids::{CheckpointId, TaskId};
use crate::log::LogBuffer;
use crate::manifest::AccessType;
use crate::repl::{ReplSession, ReplStep};
use crate::run::{Run, RunEvent, RunTurn};
use crate::task::{Task, TaskModel, TaskStatus};
use crate::task_fs::{
    block_task_fs, ensure_task_fs_unblocked, register_task, TaskTable, TransactionError,
};
use crate::trace::EventModel;
use crate::vfs::{Created, EntryModel, ReadStep, Vfs, WriteStep};
use crate::vfs_path::{Capability, VfsPath, VfsResult};

verus! {

/// A turn of a guarded run is told by the state, the event and the task alone.
/// While the limits allow it, the next step is run for the time that is left.
pub proof fn lemma_guarded_runs_go_on(
    task: &mut Task,
    snapshot: CheckpointId,
    ms: u64,
    r: (GuardState, GuardAction),
)
    requires
        call_ensures(
            Task::run_with_guards,
            (task, GuardState::Checking { snapshot }, GuardEvent::Elapsed(ms)),
            r,
        ),
        old(task).steps_used < old(task).manifest.max_steps,
        ms < old(task).manifest.timeout_ms,
        old(task).tokens_used <= old(task).manifest.token_limit,
    ensures
        r.0@ == (StateModel::Stepping { snapshot }),
        r.1 matches GuardAction::RunStep { remaining_ms } && remaining_ms + ms
            == old(task).manifest.timeout_ms,
        final(task)@ == old(task)@,
{
}

/// Every turn of a guarded run is the one that its laws speak of.
pub proof fn lemma_guarded_turns(
    task: &mut Task,
    state: GuardState,
    event: GuardEvent,
    r: (GuardState, GuardAction),
)
    requires
        call_ensures(Task::run_with_guards, (task, state, event), r),
    ensures
        r.0@ == crate::guard::turn(state@, event@, old(task)@).state,
        r.1@ == crate::guard::turn(state@, event@, old(task)@).action,
        final(task)@ == crate::guard::turn(state@, event@, old(task)@).task,
{
}

/// A command that stays inside and that the manifest grants is started in the
/// working directory, with its program and its arguments, and counts as a
/// step.
pub proof fn lemma_granted_commands_are_spawned(
    task: &mut Task,
    tasks: &mut TaskTable,
    command: &CommandSpec,
    r: StepPlan,
)
    requires
        call_ensures(run_task_step, (task, tasks, command), r),
        old(task).steps_used < old(task).manifest.max_steps,
        !(old(tasks)@.dom().contains(old(task).id.0) && old(tasks)@[old(task).id.0].blocked),
        crate::step_laws::stays_inside(command@),
        command@.cwd is None,
        old(task)@.manifest.allows(command@.program, AccessType::Exec),
        forall|i: int|
            0 <= i < command@.reads.len() ==> old(task)@.manifest.allows(
                crate::host_path::task_path(old(task)@.workdir, #[trigger] command@.reads[i]),
                AccessType::Read,
            ),
        forall|i: int|
            0 <= i < command@.writes.len() ==> old(task)@.manifest.allows(
                crate::host_path::task_path(old(task)@.workdir, #[trigger] command@.writes[i]),
                AccessType::Write,
            ),
    ensures
        r.decision matches StepDecision::Spawn { program, args, cwd } && program@
            == command@.program && crate::text::texts(args@) == command@.args && cwd@
            == crate::host_path::normalized(old(task)@.workdir),
        final(task)@ == (TaskModel { steps_used: (old(task).steps_used + 1) as usize, ..old(task)@ }),
        final(tasks)@.dom().contains(old(task).id.0),
{
    crate::step_laws::lemma_granted_commands_start(
        crate::execution::stepped(old(task)@),
        command@,
    );
}

/// A command that names a directory below the working directory is started
/// there.
pub proof fn lemma_commands_are_spawned_in_their_directory(
    task: &mut Task,
    tasks: &mut TaskTable,
    command: &CommandSpec,
    names: Seq<Seq<char>>,
    r: StepPlan,
)
    requires
        call_ensures(run_task_step, (task, tasks, command), r),
        old(task).steps_used < old(task).manifest.max_steps,
        !(old(tasks)@.dom().contains(old(task).id.0) && old(tasks)@[old(task).id.0].blocked),
        crate::step_laws::stays_inside(command@),
        names.len() > 0,
        crate::vfs_path::canonical(names),
        command@.cwd == Some(crate::text::joined_with(names, "/"@)),
        command@.reads.len() == 0,
        command@.writes.len() == 0,
        old(task)@.manifest.allows(command@.program, AccessType::Exec),
    ensures
        r.decision matches StepDecision::Spawn { program, args, cwd }
            && crate::host_path::path_parts(cwd@) == crate::host_path::path_parts(
            crate::host_path::normalized(old(task)@.workdir),
        ) + names,
{
    crate::step_laws::lemma_commands_start_in_their_directory(
        crate::execution::stepped(old(task)@),
        command@,
        names,
    );
}

/// A command that does not stay inside, or whose program or declared paths the
/// manifest does not grant, is refused as a violation.
pub proof fn lemma_other_commands_are_refused(
    task: &mut Task,
    tasks: &mut TaskTable,
    command: &CommandSpec,
    r: StepPlan,
)
    requires
        call_ensures(run_task_step, (task, tasks, command), r),
        old(task).steps_used < old(task).manifest.max_steps,
        !(old(tasks)@.dom().contains(old(task).id.0) && old(tasks)@[old(task).id.0].blocked),
        !crate::step_laws::stays_inside(command@) || !old(task)@.manifest.allows(
            command@.program,
            AccessType::Exec,
        ) || (exists|i: int|
            0 <= i < command@.reads.len() && !old(task)@.manifest.allows(
                crate::host_path::task_path(old(task)@.workdir, #[trigger] command@.reads[i]),
                AccessType::Read,
            )) || (exists|i: int|
            0 <= i < command@.writes.len() && !old(task)@.manifest.allows(
                crate::host_path::task_path(old(task)@.workdir, #[trigger] command@.writes[i]),
                AccessType::Write,
            )),
    ensures
        r.decision matches StepDecision::Refuse(ExecutionError::Violation(m)),
        crate::execution::effect_models(r.effects@).contains(EffectModel::BlockFs),
        crate::execution::effect_models(r.effects@).contains(
            EffectModel::SetStatus(TaskStatus::Violation),
        ),
{
    crate::step_laws::lemma_other_commands_are_violations(
        crate::execution::stepped(old(task)@),
        command@,
    );
}

/// Without steps left nothing is started, neither a command nor a script, and
/// nothing is written.
pub proof fn lemma_steps_run_out(
    task: &mut Task,
    tasks: &mut TaskTable,
    command: &CommandSpec,
    content: &str,
    a: StepPlan,
)
    requires
        call_ensures(run_task_step, (task, tasks, command), a) || call_ensures(
            run_script_step,
            (task, tasks, content),
            a,
        ),
        old(task).steps_used >= old(task).manifest.max_steps,
    ensures
        a.decision matches StepDecision::Refuse(ExecutionError::MaxStepsExceeded(n)) && n
            == old(task).manifest.max_steps,
        a.effects@.len() == 0,
        final(task)@ == old(task)@,
{
}

/// A script of the operator is started exactly where the manifest grants `sh`,
/// with its whole content, in the working directory.
pub proof fn lemma_granted_scripts_are_spawned(
    task: &mut Task,
    tasks: &mut TaskTable,
    content: &str,
    r: StepPlan,
)
    requires
        call_ensures(run_script_step, (task, tasks, content), r),
        old(task).steps_used < old(task).manifest.max_steps,
        !(old(tasks)@.dom().contains(old(task).id.0) && old(tasks)@[old(task).id.0].blocked),
    ensures
        r.decision is Spawn <==> old(task)@.manifest.allows("sh"@, AccessType::Exec),
        r.decision matches StepDecision::Spawn { program, args, cwd } ==> program@ == "sh"@
            && crate::text::texts(args@) == seq!["-c"@, content@] && cwd@
            == crate::host_path::normalized(old(task)@.workdir),
        final(task).steps_used == old(task).steps_used + 1,
{
    assert(final(task)@.steps_used == old(task).steps_used + 1);
}

/// A finished command is recorded with its exit code, the task succeeds where
/// it is 0 and fails otherwise, and a test that it ran has that exit code.
pub proof fn lemma_finished_commands_are_recorded(
    task: &mut Task,
    command: &CommandSpec,
    code: Option<i32>,
    r: Vec<Effect>,
)
    requires
        call_ensures(finish_task_step, (task, command, code), r),
    ensures
        ({
            let done = crate::execution::effect_models(r@);
            let line = crate::text::joined_with(
                seq![command@.program] + command@.args,
                " "@,
            );
            let exit_code: i32 = match code {
                Some(c) => c,
                None => -1i32,
            };
            let status = if code == Some(0i32) {
                TaskStatus::Success
            } else {
                TaskStatus::Failed
            };
            &&& done.len() == 3
            &&& done[0] == EffectModel::Log(
                EventModel::CommandExecuted { command: line, exit_code },
            )
            &&& done[1] == EffectModel::SetStatus(status)
            &&& done[2] == EffectModel::Log(EventModel::TaskFinished { status })
            &&& forall|i: int|
                0 <= i < old(task)@.manifest.test_commands.len() && is_test(
                    #[trigger] old(task)@.manifest.test_commands[i],
                    line,
                ) ==> final(task)@.ran_test_command && final(task)@.last_test_exit_code == Some(
                    exit_code,
                ) && final(task)@.test_exit_codes[i] == Some(exit_code)
        }),
        final(task)@.steps_used == old(task)@.steps_used,
        final(task)@.manifest == old(task)@.manifest,
{
    let line = crate::execution::rendered_command(command@);
    let tests = old(task)@.manifest.test_commands;
    assert forall|i: int| 0 <= i < tests.len() && is_test(
        #[trigger] tests[i],
        line,
    ) implies final(task)@.ran_test_command && final(task)@.last_test_exit_code == Some(
        crate::execution::recorded_code(code),
    ) && final(task)@.test_exit_codes[i] == Some(crate::execution::recorded_code(code)) by {
        crate::text::lemma_trimmed_bare(tests[i]);
        assert(crate::task::runs_test(tests[i], line));
    }
}

/// The line begins with the test, which has no white space at its ends.
pub open spec fn is_test(test: Seq<char>, line: Seq<char>) -> bool {
    &&& test.len() > 0
    &&& !crate::text::is_space(test[0])
    &&& !crate::text::is_space(test.last())
    &&& test.is_prefix_of(line)
}

/// A write to a path by names below the working directory that the manifest
/// grants goes on to that path, and counts as a step; where the manifest does
/// not grant it, it is a violation.
pub proof fn lemma_granted_writes_go_on(
    task: &mut Task,
    tasks: &TaskTable,
    path: &str,
    names: Seq<Seq<char>>,
    r: WritePlan,
)
    requires
        call_ensures(apply_write, (task, tasks, path), r),
        old(task).steps_used < old(task).manifest.max_steps,
        tasks@.dom().contains(old(task).id.0),
        !tasks@[old(task).id.0].blocked,
        names.len() > 0,
        crate::vfs_path::canonical(names),
        path@ == crate::text::joined_with(names, "/"@),
        !crate::step_laws::leads_out(names[0][0]),
    ensures
        ({
            let target = crate::host_path::normalized(
                crate::host_path::joined(old(task)@.workdir, path@),
            );
            if old(task)@.manifest.allows(target, AccessType::Write) {
                r.decision matches WriteDecision::Resolve(p) && p@ == target
            } else {
                r.decision is Refuse && crate::execution::effect_models(r.effects@).contains(
                    EffectModel::BlockFs,
                )
            }
        }),
        final(task)@ == (TaskModel { steps_used: (old(task).steps_used + 1) as usize, ..old(task)@ }),
{
    reveal_strlit("/");
    reveal_strlit(".");
    reveal_strlit("..");
    assert("/"@[0] == '/');
    assert(crate::vfs_path::valid_segment(names[0]));
    assert(names[0] == "/"@ ==> names[0].contains('/'));
    crate::host_path::lemma_parts_of_rendered(names);
    crate::host_path::lemma_joined_first(names);
    if names.contains(".."@) {
        let k = choose|k: int| 0 <= k < names.len() && names[k] == ".."@;
        assert(crate::vfs_path::valid_segment(names[k]));
    }
    let target = crate::adapter::action_target(old(task)@.workdir, path@);
    let done = crate::execution::effect_models(r.effects@);
    if !old(task)@.manifest.allows(target, AccessType::Write) {
        assert(done[3] == EffectModel::BlockFs);
    }
}

/// What an effect says is done: a status is set, a block is put on the task's
/// files and on no others, and a record changes nothing here.
pub proof fn lemma_effects_are_done(
    task: &mut Task,
    tasks: &mut TaskTable,
    effect: &Effect,
    other: TaskId,
)
    requires
        call_ensures(apply_effect, (task, tasks, effect), ()),
        other != old(task).id,
    ensures
        effect matches Effect::SetStatus(s) ==> final(task).status == s && final(tasks)@ == old(tasks)@,
        effect is Log ==> final(task)@ == old(task)@ && final(tasks)@ == old(tasks)@,
        effect is BlockFs && old(tasks)@.dom().contains(old(task).id.0) ==> final(tasks)@[
            old(task).id.0
        ].blocked,
        effect is BlockFs ==> final(task)@ == old(task)@,
        old(tasks)@.dom().contains(other.0) ==> final(tasks)@.dom().contains(other.0)
            && final(tasks)@[other.0] == old(tasks)@[other.0],
{
    if let Effect::SetStatus(s) = effect {
        assert(final(task)@.status == *s);
    }
}

/// A task that is registered anew may touch the files below its directory.
pub proof fn lemma_new_tasks_are_unblocked(
    tasks: &mut TaskTable,
    id: TaskId,
    workdir: String,
    r: Result<(), TransactionError>,
)
    requires
        call_ensures(register_task, (tasks, id, workdir), ()),
        !old(tasks)@.dom().contains(id.0),
        call_ensures(ensure_task_fs_unblocked, (&*final(tasks), id), r),
    ensures
        r is Ok,
        final(tasks)@[id.0].workdir == workdir@,
{
}

/// A task that was blocked may not touch its files any more.
pub proof fn lemma_blocks_take_hold(
    tasks: &mut TaskTable,
    id: TaskId,
    r: Result<(), TransactionError>,
)
    requires
        call_ensures(block_task_fs, (tasks, id), ()),
        old(tasks)@.dom().contains(id.0),
        call_ensures(ensure_task_fs_unblocked, (&*final(tasks), id), r),
    ensures
        r matches Err(TransactionError::FilesystemBlocked(b)) && b == id,
        final(tasks)@[id.0].workdir == old(tasks)@[id.0].workdir,
{
}

/// The actions of a reply are taken one by one, in their order; a write as it
/// is, and nothing behind the action that finishes the task.
pub proof fn lemma_replies_are_taken_in_order(
    run: &mut ReplyRun,
    task: &mut Task,
    carried_out: bool,
    r: Option<ActionStep>,
)
    requires
        call_ensures(ReplyRun::next, (run, task, carried_out), r),
    ensures
        old(run)@.len() == 0 ==> r is None,
        old(run)@.len() > 0 ==> r is Some,
        old(run)@.len() > 0 && (old(run)@[0] matches crate::adapter::ActionModel::Write {
            path,
            content,
        }) ==> (r matches Some(ActionStep::Write { path: p, content: c }) && p@
            == old(run)@[0]->Write_path && c@ == old(run)@[0]->Write_content) && final(run)@
            == old(run)@.skip(1),
        old(run)@.len() > 0 && old(run)@[0] is Finish ==> (r matches Some(ActionStep::Finish(_)))
            && final(run)@.len() == 0,
        carried_out && !(old(task).status is Violation) ==> final(task).status is Running,
        !carried_out || old(task).status is Violation ==> final(task)@ == old(task)@,
{
    if old(run)@.len() > 0 {
        assert(old(run)@.drop_first() =~= old(run)@.skip(1));
    }
    if carried_out && !(old(task).status is Violation) {
        assert(final(task)@.status is Running);
    }
}

/// A command of a reply is run as it is read from its line, and the actions
/// behind it follow; one that cannot be read ends the reply.
pub proof fn lemma_replied_commands_are_run(
    run: &mut ReplyRun,
    task: &mut Task,
    carried_out: bool,
    line: &str,
    parsed: Result<CommandSpec, AdapterError>,
    r: Option<ActionStep>,
)
    requires
        call_ensures(ReplyRun::next, (run, task, carried_out), r),
        old(run)@.len() > 0,
        old(run)@[0] == crate::adapter::ActionModel::Execute(line@),
        call_ensures(parse_action_command, (line,), parsed),
    ensures
        parsed matches Ok(c) ==> (r matches Some(ActionStep::Execute(s)) && s@ == c@) && final(
            run
        )@ == old(run)@.skip(1),
        parsed is Err ==> (r matches Some(ActionStep::Fail(e)) && e is InvalidAction) && final(
            run
        )@.len() == 0,
{
    assert(old(run)@.drop_first() =~= old(run)@.skip(1));
}

/// A file that was written is read back with what was written to it.
pub proof fn lemma_files_are_read_back(
    vfs: &mut Vfs,
    writer: &Capability,
    reader: &Capability,
    path: &VfsPath,
    data: Bytes,
    w: VfsResult<WriteStep>,
    r: VfsResult<ReadStep>,
)
    requires
        old(vfs).wf(),
        call_ensures(Vfs::write, (vfs, writer, path, data), w),
        w matches Ok(WriteStep::Stored(ev)),
        call_ensures(Vfs::read, (&*final(vfs), reader, path), r),
    ensures
        r matches Ok(ReadStep::File(b)) && crate::arena::bytes_contents(b)
            == crate::arena::bytes_contents(data),
{
    let tree = old(vfs)@.tree;
    if let crate::vfs::Lookup::Found(EntryModel::File(was)) = crate::vfs::lookup(tree, path@) {
        crate::vfs::lemma_read_after_write(
            tree,
            path@,
            was,
            crate::arena::bytes_contents(data),
            path@,
        );
    }
}

/// A file that was made is read back with what it was made with.
pub proof fn lemma_new_files_are_read_back(
    vfs: &mut Vfs,
    reader: &Capability,
    path: &VfsPath,
    data: Bytes,
    w: VfsResult<Created>,
    r: VfsResult<ReadStep>,
)
    requires
        call_ensures(Vfs::create_file, (vfs, path, data), w),
        w is Ok,
        call_ensures(Vfs::read, (&*final(vfs), reader, path), r),
    ensures
        r matches Ok(ReadStep::File(b)) && crate::arena::bytes_contents(b)
            == crate::arena::bytes_contents(data),
{
    crate::vfs::lemma_read_after_create(
        old(vfs)@.tree,
        path@,
        crate::arena::bytes_contents(data),
    );
}

/// What is appended to a log stands at its end, and what it holds is read.
pub proof fn lemma_logs_show_what_was_appended(
    log: &mut LogBuffer,
    data: &[u8],
    r: Bytes,
)
    requires
        call_ensures(LogBuffer::append, (log, data), ()),
        data@.len() <= old(log).capacity(),
        call_ensures(LogBuffer::snapshot, (&*final(log),), r),
    ensures
        data@.is_suffix_of(crate::arena::bytes_contents(r)),
        old(log)@.len() + data@.len() <= old(log).capacity() ==> crate::arena::bytes_contents(r)
            == old(log)@ + data@,
{
    let all = old(log)@ + data@;
    let kept = crate::arena::bytes_contents(r);
    assert(kept == crate::log::tail(all, old(log).capacity() as int));
    assert(data@ =~= kept.subrange(kept.len() - data@.len(), kept.len() as int));
}

/// A run goes through its stages as its laws say.
pub proof fn lemma_run_turns(run: &mut Run, event: RunEvent, r: Result<RunTurn, String>)
    requires
        call_ensures(Run::step, (run, event), r),
    ensures
        r matches Ok(t) ==> crate::run::run_turn(old(run)@, event@) is Ok && t.action@
            == crate::run::run_turn(old(run)@, event@)->Ok_0.action && final(run)@.stage
            == crate::run::run_turn(old(run)@, event@)->Ok_0.stage,
        r is Err ==> crate::run::run_turn(old(run)@, event@) is Err,
        final(run)@.workdir == old(run)@.workdir,
{
}

/// A line typed into a session does what its laws say.
pub proof fn lemma_session_lines(session: &mut ReplSession, raw: &str, r: Result<ReplStep, String>)
    requires
        call_ensures(ReplSession::execute, (session, raw), r),
    ensures
        r matches Ok(step) ==> crate::repl::executed(old(session)@, raw@) == Ok::<
            (crate::repl::SessionModel, crate::repl::StepModel),
            Seq<char>,
        >((final(session)@, step@)),
        r matches Err(m) ==> crate::repl::executed(old(session)@, raw@) == Err::<
            (crate::repl::SessionModel, crate::repl::StepModel),
            Seq<char>,
        >(m@) && final(session)@ == old(session)@,
{
}

} // verus!
