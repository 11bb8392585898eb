//! What a guarded run comes to: it goes on while its limits allow it, it is
//! judged by what was found, and it ends well where all is well.

use vstd::prelude::*;

use crate::adapter::AdapterError;
use crate::bundle::ArtifactRead;
use crate::execution::ExecutionError;
use crate::guard::{
    ArtifactProbe, GuardActionModel, GuardEventModel, HashModel, RunInputs, StateModel,
};
use crate::ids::CheckpointId;
use crate::task::{TaskErrorType, TaskModel, TaskStatus};

verus! {

/// Steps, time and tokens are left.
pub open spec fn within_limits(task: TaskModel, ms: u64) -> bool {
    &&& task.steps_used < task.manifest.max_steps
    &&& ms < task.manifest.timeout_ms
    &&& task.tokens_used <= task.manifest.token_limit
}

/// Limits are the only reason to stop before a step: while steps, time and
/// tokens are left, the next step is run, for exactly the time that is left,
/// and the task is as it was.
pub proof fn lemma_limits_are_the_only_reason_to_stop(
    snapshot: CheckpointId,
    ms: u64,
    task: TaskModel,
)
    requires
        within_limits(task, ms),
    ensures
        ({
            let t = crate::guard::turn(
                StateModel::Checking { snapshot },
                GuardEventModel::Elapsed(ms),
                task,
            );
            &&& t.state == StateModel::Stepping { snapshot }
            &&& t.action matches GuardActionModel::RunStep { remaining_ms }
            &&& remaining_ms + ms == task.manifest.timeout_ms
            &&& t.task == task
        }),
{
}

/// A limit that is reached is named in the report, with its value: the steps
/// first, then the time, then the tokens.
pub proof fn lemma_limits_are_named(snapshot: CheckpointId, ms: u64, task: TaskModel)
    requires
        !within_limits(task, ms),
    ensures
        ({
            let t = crate::guard::turn(
                StateModel::Checking { snapshot },
                GuardEventModel::Elapsed(ms),
                task,
            );
            &&& t.action == GuardActionModel::Rollback(snapshot)
            &&& t.task == task
            &&& t.state matches StateModel::RollingBack { error_type, message }
            &&& if task.steps_used >= task.manifest.max_steps {
                error_type == TaskErrorType::MaxStepsExceeded && message == "max_steps exceeded: "@
                    + crate::text::decimal(task.manifest.max_steps as nat)
            } else if ms >= task.manifest.timeout_ms {
                error_type == TaskErrorType::Timeout && message == "timeout_ms exceeded: "@
                    + crate::text::decimal(task.manifest.timeout_ms as nat)
            } else {
                error_type == TaskErrorType::TokenLimitExceeded && message
                    == "token_limit exceeded: "@ + crate::text::decimal(
                    task.manifest.token_limit as nat,
                )
            }
        }),
{
}

/// A checkpoint that stands is the one that everything later goes back to, and
/// the limits are looked at next; without a checkpoint nothing is started.
pub proof fn lemma_runs_begin_with_their_checkpoint(
    made: Result<CheckpointId, Seq<char>>,
    task: TaskModel,
)
    ensures
        ({
            let t = crate::guard::turn(
                StateModel::Checkpointing,
                GuardEventModel::Checkpointed(made),
                task,
            );
            match made {
                Ok(snapshot) => t.state == (StateModel::Checking { snapshot }) && t.action
                    is ReadClock && t.task == task,
                Err(m) => t.state is Done && (t.action matches GuardActionModel::Finish(r)
                    && r.error_type == Some(TaskErrorType::ExecutionFailed) && r.message == Some(
                    "checkpoint failed: "@ + m,
                ) && r.status == TaskStatus::Failed && r.task_id == task.id && r.steps_used
                    == task.steps_used && r.artifact_hashes.len() == 0),
            }
        }),
{
}

/// After a step that used no more tokens than granted: where its agent has
/// finished, the outcome is looked at, and what the agent said is kept;
/// otherwise the run goes on under the same checkpoint.
pub proof fn lemma_steps_lead_on(snapshot: CheckpointId, task: TaskModel)
    requires
        task.tokens_used <= task.manifest.token_limit,
    ensures
        ({
            let t = crate::guard::turn(
                StateModel::Stepping { snapshot },
                GuardEventModel::StepDone,
                task,
            );
            if task.status is Success || task.status is Failed {
                &&& t.state == (StateModel::Validating { snapshot, finished: task.status })
                &&& t.action is Validate
                &&& t.task.status is Verifying
                &&& t.task == (TaskModel { status: t.task.status, ..task })
            } else {
                t.state == (StateModel::Checking { snapshot }) && t.action is ReadClock && t.task
                    == task
            }
        }),
{
}

/// Why a run is given up is told by what happened in its step: a violation, a
/// step too many, time that ran out, tokens that ran out, or anything else.
pub proof fn lemma_failed_steps_are_told_apart(
    snapshot: CheckpointId,
    e: AdapterError,
    task: TaskModel,
)
    ensures
        ({
            let t = crate::guard::turn(
                StateModel::Stepping { snapshot },
                GuardEventModel::StepFailed(e),
                task,
            );
            &&& t.action == GuardActionModel::Rollback(snapshot)
            &&& t.task == task
            &&& t.state matches StateModel::RollingBack { error_type, message }
            &&& message == e.text()
            &&& match e {
                AdapterError::Violation(_) => error_type is SecurityViolation,
                AdapterError::MaxStepsExceeded(_) => error_type is MaxStepsExceeded,
                AdapterError::Execution(ExecutionError::Violation(_)) => error_type
                    is SecurityViolation,
                AdapterError::Execution(ExecutionError::MaxStepsExceeded(_)) => error_type
                    is MaxStepsExceeded,
                _ => error_type is ExecutionFailed,
            }
        }),
        ({
            let t = crate::guard::turn(
                StateModel::Stepping { snapshot },
                GuardEventModel::StepTimedOut,
                task,
            );
            &&& t.action == GuardActionModel::Rollback(snapshot)
            &&& t.task == task
            &&& t.state matches StateModel::RollingBack { error_type, message }
            &&& error_type is Timeout
            &&& message == "timeout_ms exceeded: "@ + crate::text::decimal(
                task.manifest.timeout_ms as nat,
            )
        }),
        task.tokens_used > task.manifest.token_limit ==> ({
            let t = crate::guard::turn(
                StateModel::Stepping { snapshot },
                GuardEventModel::StepDone,
                task,
            );
            &&& t.action == GuardActionModel::Rollback(snapshot)
            &&& t.task == task
            &&& t.state matches StateModel::RollingBack { error_type, message }
            &&& error_type is TokenLimitExceeded
        }),
{
}

/// Once the directory is back, the report says why the run was given up; where
/// it could not be brought back, it says both.
pub proof fn lemma_rollbacks_are_reported(
    error_type: TaskErrorType,
    message: Seq<char>,
    undone: Result<(), Seq<char>>,
    task: TaskModel,
)
    ensures
        ({
            let t = crate::guard::turn(
                StateModel::RollingBack { error_type, message },
                GuardEventModel::RolledBack(undone),
                task,
            );
            &&& t.state is Done
            &&& t.task.status is Failed
            &&& t.task == (TaskModel { status: t.task.status, ..task })
            &&& t.action matches GuardActionModel::Finish(r)
            &&& r.status is Failed
            &&& r.task_id == task.id
            &&& r.steps_used == task.steps_used
            &&& r.artifact_hashes.len() == 0
            &&& match undone {
                Ok(_) => r.error_type == Some(error_type) && r.message == Some(message),
                Err(m) => r.error_type == Some(TaskErrorType::RollbackFailed) && r.message == Some(
                    message + "; rollback failed: "@ + m,
                ),
            }
        }),
{
}

/// What a task had to bring about is there: each artifact is a file that is
/// not empty and was read, each test that is not blank has ended with 0, and
/// so has the last one that was run.
pub open spec fn all_is_well(
    task: TaskModel,
    probes: Seq<ArtifactProbe>,
    reads: Seq<ArtifactRead>,
) -> bool {
    &&& probes.len() == task.manifest.mandatory_artifacts.len()
    &&& reads.len() == task.manifest.mandatory_artifacts.len()
    &&& forall|i: int|
        0 <= i < probes.len() ==> (#[trigger] probes[i] matches ArtifactProbe::Found {
            is_file,
            len,
        } && is_file && len > 0)
    &&& forall|i: int|
        0 <= i < reads.len() ==> (#[trigger] reads[i] matches ArtifactRead::Bytes(b) && b@.len()
            > 0)
    &&& forall|i: int|
        0 <= i < task.manifest.test_commands.len() && !is_white(
            #[trigger] task.manifest.test_commands[i],
        ) ==> task.ran_test_command && i < task.test_exit_codes.len() && task.test_exit_codes[i]
            == Some(0i32)
    &&& task.ran_test_command ==> task.last_test_exit_code == Some(0i32)
}

/// Nothing but white space.
pub open spec fn is_white(s: Seq<char>) -> bool {
    forall|i: int| 0 <= i < s.len() ==> crate::text::is_space(#[trigger] s[i])
}

proof fn lemma_white_is_blank(s: Seq<char>)
    ensures
        crate::task::is_blank(s) == is_white(s),
{
    crate::text::lemma_trimmed_empty(s);
}

proof fn lemma_no_artifact_is_missing(
    workdir: Seq<char>,
    artifacts: Seq<Seq<char>>,
    probes: Seq<ArtifactProbe>,
    from: int,
)
    requires
        0 <= from <= artifacts.len(),
        forall|i: int|
            from <= i < artifacts.len() ==> (#[trigger] probes[i] matches ArtifactProbe::Found {
                is_file,
                len,
            } && is_file && len > 0),
    ensures
        crate::guard::artifact_failure(workdir, artifacts, probes, from) is None,
    decreases artifacts.len() - from,
{
    if from < artifacts.len() {
        assert(probes[from] is Found);
        lemma_no_artifact_is_missing(workdir, artifacts, probes, from + 1);
    }
}

proof fn lemma_no_test_is_open(task: TaskModel, from: int)
    requires
        0 <= from,
        forall|i: int|
            from <= i < task.manifest.test_commands.len() && !is_white(
                #[trigger] task.manifest.test_commands[i],
            ) ==> task.ran_test_command && i < task.test_exit_codes.len() && task.test_exit_codes[i]
                == Some(0i32),
    ensures
        crate::guard::test_failure(task, from) is None,
    decreases task.manifest.test_commands.len() - from,
{
    if from < task.manifest.test_commands.len() {
        lemma_white_is_blank(task.manifest.test_commands[from]);
        lemma_no_test_is_open(task, from + 1);
    }
}

/// The entry of a report on an artifact: its path in the working directory,
/// its size and its hash.
pub open spec fn entry_on(workdir: Seq<char>, artifact: Seq<char>, b: Seq<u8>) -> HashModel {
    HashModel {
        path: crate::host_path::task_path(workdir, artifact),
        bytes: b.len() as u64,
        fnv64: crate::snapshot::fnv64_of(b),
    }
}

/// One entry for each artifact that was read.
pub open spec fn entries_on(
    workdir: Seq<char>,
    artifacts: Seq<Seq<char>>,
    reads: Seq<ArtifactRead>,
) -> Seq<HashModel> {
    Seq::new(reads.len(), |i: int| entry_on(workdir, artifacts[i], reads[i]->Bytes_0@))
}

proof fn lemma_each_artifact_is_hashed(
    workdir: Seq<char>,
    artifacts: Seq<Seq<char>>,
    reads: Seq<ArtifactRead>,
    n: int,
)
    requires
        0 <= n <= reads.len(),
        forall|i: int|
            0 <= i < reads.len() ==> (#[trigger] reads[i] matches ArtifactRead::Bytes(b)
                && b@.len() > 0),
    ensures
        crate::bundle::artifact_hashes(workdir, artifacts, reads, n) == Ok::<
            Seq<HashModel>,
            crate::bundle::ArtifactFault,
        >(entries_on(workdir, artifacts, reads).take(n)),
    decreases n,
{
    let all = entries_on(workdir, artifacts, reads);
    if n > 0 {
        lemma_each_artifact_is_hashed(workdir, artifacts, reads, n - 1);
        assert(reads[n - 1] is Bytes);
        assert(all.take(n) =~= all.take(n - 1).push(all[n - 1]));
    } else {
        assert(all.take(0) =~= Seq::<HashModel>::empty());
    }
}

/// An outcome counts wherever all is well, with one entry for each mandatory
/// artifact: its path, its size and its hash.
pub proof fn lemma_good_outcomes_count(
    task: TaskModel,
    probes: Seq<ArtifactProbe>,
    reads: Seq<ArtifactRead>,
)
    requires
        all_is_well(task, probes, reads),
    ensures
        crate::guard::outcome(task, probes, reads) matches Ok(hashes) && hashes.to_multiset()
            == entries_on(task.workdir, task.manifest.mandatory_artifacts, reads).to_multiset()
            && hashes.len() == task.manifest.mandatory_artifacts.len(),
{
    let artifacts = task.manifest.mandatory_artifacts;
    let all = entries_on(task.workdir, artifacts, reads);
    lemma_no_artifact_is_missing(task.workdir, artifacts, probes, 0);
    lemma_no_test_is_open(task, 0);
    lemma_each_artifact_is_hashed(task.workdir, artifacts, reads, reads.len() as int);
    assert(all.take(reads.len() as int) =~= all);
    crate::order::lemma_sorted_same_elements(all);
}

/// A run whose agent calls it a success, and where all is well, is reported as
/// a success, with what was found of its artifacts and without an error.
pub proof fn lemma_good_outcomes_are_reported(
    snapshot: CheckpointId,
    task: TaskModel,
    probes: Seq<ArtifactProbe>,
    reads: Seq<ArtifactRead>,
)
    requires
        all_is_well(task, probes, reads),
    ensures
        ({
            let t = crate::guard::turn(
                StateModel::Validating { snapshot, finished: TaskStatus::Success },
                GuardEventModel::Examined { probes, reads },
                task,
            );
            &&& t.state is Done
            &&& t.task.status is Success
            &&& t.task == (TaskModel { status: t.task.status, ..task })
            &&& t.action matches GuardActionModel::Finish(r)
            &&& r.error_type is None
            &&& r.message is None
            &&& r.status is Success
            &&& r.task_id == task.id
            &&& r.steps_used == task.steps_used
            &&& r.artifact_hashes.len() == task.manifest.mandatory_artifacts.len()
            &&& crate::guard::outcome(task, probes, reads) == Ok::<Seq<HashModel>, Seq<char>>(
                r.artifact_hashes,
            )
        }),
{
    lemma_good_outcomes_count(task, probes, reads);
}

/// Where the artifact at `i` is the first that does not stand, it is the one
/// that is named, and the run is rolled back.
pub proof fn lemma_missing_artifacts_are_named(
    snapshot: CheckpointId,
    finished: TaskStatus,
    task: TaskModel,
    probes: Seq<ArtifactProbe>,
    reads: Seq<ArtifactRead>,
    i: int,
)
    requires
        0 <= i < task.manifest.mandatory_artifacts.len(),
        probes.len() == task.manifest.mandatory_artifacts.len(),
        forall|j: int|
            0 <= j < i ==> (#[trigger] probes[j] matches ArtifactProbe::Found { is_file, len }
                && is_file && len > 0),
        probes[i] matches ArtifactProbe::Found { is_file, len } ==> !is_file || len == 0,
    ensures
        ({
            let t = crate::guard::turn(
                StateModel::Validating { snapshot, finished },
                GuardEventModel::Examined { probes, reads },
                task,
            );
            let path = crate::host_path::task_path(
                task.workdir,
                task.manifest.mandatory_artifacts[i],
            );
            &&& t.action == GuardActionModel::Rollback(snapshot)
            &&& t.state matches StateModel::RollingBack { error_type, message }
            &&& error_type is ValidationFailed
            &&& message == (if probes[i] is Missing {
                "mandatory artifact missing: "@ + path
            } else {
                "mandatory artifact missing or empty: "@ + path
            })
        }),
{
    lemma_artifact_named(task.workdir, task.manifest.mandatory_artifacts, probes, 0, i);
}

proof fn lemma_artifact_named(
    workdir: Seq<char>,
    artifacts: Seq<Seq<char>>,
    probes: Seq<ArtifactProbe>,
    from: int,
    i: int,
)
    requires
        0 <= from <= i < artifacts.len(),
        forall|j: int|
            from <= j < i ==> (#[trigger] probes[j] matches ArtifactProbe::Found { is_file, len }
                && is_file && len > 0),
        probes[i] matches ArtifactProbe::Found { is_file, len } ==> !is_file || len == 0,
    ensures
        crate::guard::artifact_failure(workdir, artifacts, probes, from) == Some(
            (if probes[i] is Missing {
                "mandatory artifact missing: "@
            } else {
                "mandatory artifact missing or empty: "@
            }) + crate::host_path::task_path(workdir, artifacts[i]),
        ),
    decreases i - from,
{
    if from < i {
        assert(probes[from] is Found);
        lemma_artifact_named(workdir, artifacts, probes, from + 1, i);
    }
}

/// A run that stays within its limits: a checkpoint, then steps with the clock
/// read before each, the last of which the agent calls a success, then a look
/// at the outcome.
pub open spec fn is_good_run(inputs: RunInputs, id: CheckpointId, steps: int) -> bool {
    &&& steps > 0
    &&& inputs.len() == 2 * steps + 2
    &&& inputs[0].0 == GuardEventModel::Checkpointed(Ok::<CheckpointId, Seq<char>>(id))
    &&& forall|k: int|
        0 <= k < steps ==> (#[trigger] inputs[2 * k + 1].0 matches GuardEventModel::Elapsed(ms)
            && within_limits(inputs[2 * k + 1].1, ms))
    &&& forall|k: int|
        0 <= k < steps ==> #[trigger] inputs[2 * k + 2].0 is StepDone && inputs[2 * k
            + 2].1.tokens_used <= inputs[2 * k + 2].1.manifest.token_limit && (if k == steps - 1 {
            inputs[2 * k + 2].1.status is Success
        } else {
            !(inputs[2 * k + 2].1.status is Success) && !(inputs[2 * k + 2].1.status is Failed)
        })
    &&& inputs.last().0 matches GuardEventModel::Examined { probes, reads }
    &&& all_is_well(inputs.last().1, probes, reads)
}

proof fn lemma_good_run_proceeds(inputs: RunInputs, id: CheckpointId, steps: int, k: int)
    requires
        is_good_run(inputs, id, steps),
        0 <= k < steps,
    ensures
        crate::guard::reached(inputs.take(2 * k + 1)) == (StateModel::Checking { snapshot: id }),
        crate::guard::reached(inputs.take(2 * k + 2)) == (StateModel::Stepping { snapshot: id }),
    decreases k,
{
    let a = inputs.take(2 * k + 1);
    let b = inputs.take(2 * k + 2);
    assert(b.drop_last() =~= a);
    assert(b.last() == inputs[2 * k + 1]);
    assert(a.last() == inputs[2 * k]);
    if k == 0 {
        assert(a.drop_last() =~= inputs.take(0));
        assert(crate::guard::reached(inputs.take(0)) is Checkpointing);
    } else {
        lemma_good_run_proceeds(inputs, id, steps, k - 1);
        assert(a.drop_last() =~= inputs.take(2 * (k - 1) + 2));
        assert(inputs[2 * (k - 1) + 2].0 is StepDone);
        assert(a.last() == inputs[2 * (k - 1) + 2]);
    }
    assert(inputs[2 * k + 1].0 is Elapsed);
}

/// A run that stays within its limits and comes to a good outcome ends with a
/// report of success, and is nowhere rolled back.
pub proof fn lemma_good_runs_succeed(inputs: RunInputs, id: CheckpointId, steps: int)
    requires
        is_good_run(inputs, id, steps),
    ensures
        crate::guard::asked(inputs, inputs.len() - 1) matches GuardActionModel::Finish(r)
            && r.error_type is None && r.status is Success && r.artifact_hashes.len()
            == inputs.last().1.manifest.mandatory_artifacts.len(),
        forall|k: int|
            0 <= k < inputs.len() ==> !(#[trigger] crate::guard::asked(inputs, k) is Rollback),
{
    let n = inputs.len() - 1;
    lemma_good_run_proceeds(inputs, id, steps, steps - 1);
    let last = inputs.take(n);
    assert(last.drop_last() =~= inputs.take(2 * (steps - 1) + 2));
    assert(inputs[2 * (steps - 1) + 2].0 is StepDone);
    assert(last.last() == inputs[2 * (steps - 1) + 2]);
    assert(crate::guard::reached(last) == (StateModel::Validating {
        snapshot: id,
        finished: TaskStatus::Success,
    }));
    if let GuardEventModel::Examined { probes, reads } = inputs[n].0 {
        lemma_good_outcomes_are_reported(id, inputs[n].1, probes, reads);
    }
    assert forall|k: int| 0 <= k < inputs.len() implies !(#[trigger] crate::guard::asked(
        inputs,
        k,
    ) is Rollback) by {
        if k == 0 {
            assert(inputs.take(0).len() == 0);
        } else if k < n {
            let j = (k - 1) / 2;
            lemma_good_run_proceeds(inputs, id, steps, j);
            if k == 2 * j + 1 {
                assert(inputs[2 * j + 1].0 is Elapsed);
            } else {
                assert(inputs[2 * j + 2].0 is StepDone);
                assert(k == 2 * j + 2);
            }
        }
    }
}

/// A command notes its exit code for each configured test that it runs, that
/// is, whose text it begins with once the white space around it is gone, and
/// for no other.
pub proof fn lemma_test_runs_are_noted(
    task: TaskModel,
    test: Seq<char>,
    more: Seq<char>,
    exit_code: i32,
    i: int,
)
    requires
        0 <= i < task.manifest.test_commands.len(),
        task.manifest.test_commands[i] == test,
        test.len() > 0,
        !crate::text::is_space(test[0]),
        !crate::text::is_space(test.last()),
    ensures
        ({
            let after = task.after_command(test + more, exit_code);
            &&& after.ran_test_command
            &&& after.last_test_exit_code == Some(exit_code)
            &&& after.test_exit_codes.len() == task.manifest.test_commands.len()
            &&& after.test_exit_codes[i] == Some(exit_code)
            &&& after == (TaskModel {
                ran_test_command: after.ran_test_command,
                last_test_exit_code: after.last_test_exit_code,
                test_exit_codes: after.test_exit_codes,
                ..task
            })
        }),
{
    crate::text::lemma_trimmed_bare(test);
    assert(test =~= (test + more).subrange(0, test.len() as int));
    assert(crate::task::runs_test(task.manifest.test_commands[i], test + more));
}

/// A command that begins with no configured test leaves the task as it was.
pub proof fn lemma_other_commands_are_no_tests(
    task: TaskModel,
    command: Seq<char>,
    exit_code: i32,
)
    requires
        forall|i: int|
            0 <= i < task.manifest.test_commands.len() ==> is_white(
                #[trigger] task.manifest.test_commands[i],
            ) || !crate::text::trimmed(task.manifest.test_commands[i]).is_prefix_of(command),
    ensures
        task.after_command(command, exit_code) == task,
{
    assert forall|i: int| 0 <= i < task.manifest.test_commands.len() implies !crate::task::runs_test(
        #[trigger] task.manifest.test_commands[i],
        command,
    ) by {
        lemma_white_is_blank(task.manifest.test_commands[i]);
    }
}

/// What a model does after a turn, and the clock, cannot undo the checkpoint:
/// every turn leaves the identity, the manifest and the counts of the task.
pub proof fn lemma_turns_change_the_status_alone(
    state: StateModel,
    event: GuardEventModel,
    task: TaskModel,
)
    ensures
        crate::guard::turn(state, event, task).task == (TaskModel {
            status: crate::guard::turn(state, event, task).task.status,
            ..task
        }),
{
}

} // verus!
