//! A guarded run of a task: checkpoint, steps within limits, validation, and
//! rollback where anything goes wrong.

use vstd::prelude::*;

use crate::adapter::{
    is_max_steps_error, is_security_violation, parse_action_command, parse_actions, AdapterError,
    LlmAction,
};
use crate::bundle::{compute_mandatory_artifact_hashes, ArtifactRead};
use crate::execution::{CommandSpec, Effect, EffectModel};
use crate::host_path::resolve_task_path;
use crate::ids::{CheckpointId, TaskId};
use crate::task::{
    ArtifactHash, Task, TaskErrorType, TaskModel, TaskReport, TaskStatus,
};
use crate::task_fs::{register_task, TaskTable};
use crate::text::{cat, cat3, decimal_text, is_empty_text, owned, signed_text, trim};
use crate::trace::{EventModel, TaskEvent};

verus! {

/// What every prompt begins with.
pub const SYSTEM_PROMPT: &'static str = "You are operating inside v9r, a task-centric autonomous work runtime.\nYou must respond only with XML action tags, optionally followed by short text inside <finish>.\n\nAllowed actions:\n<execute>program arg1 arg2 ...</execute>\nRun a command. The runtime spawns the program DIRECTLY via execve — there is no\nshell. So:\n  - No pipes, redirects, command substitution, globs, `;`, `&&`, `||`, `$VAR`, `~`.\n  - Use double quotes (\"...\") only for args that contain literal spaces.\n  - Paths must be relative to the workdir. Absolute paths and `..` are refused.\n  - Shell interpreters (sh, bash, zsh, dash, …) are denied unconditionally.\nThe runtime executes commands sequentially and checks the task manifest first.\n\n<write path=\"relative/or/absolute/path\">file content</write>\nWrite file content. Paths outside allow_write are violations.\n\n<finish status=\"Success\">brief reason</finish>\n<finish status=\"Failed\">brief reason</finish>\nFinish the task when no more actions are needed.\n\nRules:\n- Do not use Markdown code fences.\n- Do not describe commands outside XML tags.\n- Use only paths visible in <environment_files> or allowed by <system_manifest>.\n- Prefer minimal edits and verify with <execute> when possible.\n- If blocked by permissions or missing information, use <finish status=\"Failed\">reason</finish>.\n";

/// How many lines of its trace a task shows.
pub const SNAPSHOT_HISTORY_LIMIT: usize = 32;

/// The prompt for one step: the rules, then the context of the task.
pub fn step_prompt(context: &str) -> (r: String)
    ensures
        r@ == SYSTEM_PROMPT@ + "\n\n"@ + context@,
{
    cat3(SYSTEM_PROMPT, "\n\n", context)
}

/// The actions of a reply; a reply without any is refused.
pub fn reply_actions(response: &str) -> (r: Result<Vec<LlmAction>, AdapterError>)
    ensures
        match r {
            Ok(actions) => actions@.len() > 0 && crate::adapter::actions_of(response@) == Ok::<
                Seq<crate::adapter::ActionModel>,
                Seq<char>,
            >(crate::adapter::action_models(actions@)),
            Err(e) => e matches AdapterError::InvalidAction(m) && match crate::adapter::actions_of(
                response@,
            ) {
                Ok(actions) => actions.len() == 0 && m@
                    == "LLM response contained no v9r XML action tags"@,
                Err(reason) => m@ == reason,
            },
        },
{
    let actions = parse_actions(response)?;
    if actions.len() == 0 {
        proof {
            assert(crate::adapter::action_models(actions@).len() == 0);
        }
        return Err(
            AdapterError::InvalidAction(owned("LLM response contained no v9r XML action tags")),
        );
    }
    Ok(actions)
}

/// What one action of a reply comes to.
#[derive(Debug)]
pub enum ActionStep {
    Fail(AdapterError),
    Execute(CommandSpec),
    Write { path: String, content: String },
    /// Record these and take no further action of the reply.
    Finish(Vec<Effect>),
}

/// What finishing a task comes to: its status, a record of it, and a record of
/// the reason where one is given.
pub open spec fn finish_effects(status: TaskStatus, reason: Seq<char>) -> Seq<EffectModel> {
    let head = seq![
        EffectModel::SetStatus(status),
        EffectModel::Log(EventModel::TaskFinished { status }),
    ];
    if crate::text::trimmed(reason).len() == 0 {
        head
    } else {
        head.push(
            EffectModel::Log(
                EventModel::CommandExecuted {
                    command: "finish: "@ + reason,
                    exit_code: if status == TaskStatus::Success {
                        0i32
                    } else {
                        1i32
                    },
                },
            ),
        )
    }
}

fn finish_action(status: TaskStatus, reason: &str) -> (r: Vec<Effect>)
    ensures
        crate::execution::effect_models(r@) == finish_effects(status, reason@),
{
    let mut effects: Vec<Effect> = Vec::new();
    effects.push(Effect::SetStatus(status));
    effects.push(Effect::Log(TaskEvent::TaskFinished { status }));
    let ghost head = seq![
        EffectModel::SetStatus(status),
        EffectModel::Log(EventModel::TaskFinished { status }),
    ];
    proof {
        assert(crate::execution::effect_models(effects@) =~= head);
    }
    let bare = trim(reason);
    if !is_empty_text(bare.as_str()) {
        let exit_code: i32 = if status == TaskStatus::Success {
            0
        } else {
            1
        };
        let event = TaskEvent::CommandExecuted { command: cat("finish: ", reason), exit_code };
        let ghost last = EffectModel::Log(event@);
        effects.push(Effect::Log(event));
        proof {
            assert(crate::execution::effect_models(effects@) =~= head.push(last));
        }
    }
    effects
}

/// What one action of a reply comes to.
pub fn action_step(action: LlmAction) -> (r: ActionStep)
    ensures
        is_step_of(r, action@),
{
    match action {
        LlmAction::Execute(command) => match parse_action_command(command.as_str()) {
            Ok(c) => ActionStep::Execute(c),
            Err(e) => ActionStep::Fail(e),
        },
        LlmAction::Write { path, content } => ActionStep::Write { path, content },
        LlmAction::Finish { status, reason } => ActionStep::Finish(
            finish_action(status, reason.as_str()),
        ),
    }
}

/// The actions of a reply that are still to be taken.
pub struct ReplyRun {
    rest: Vec<LlmAction>,
}

impl View for ReplyRun {
    type V = Seq<crate::adapter::ActionModel>;

    closed spec fn view(&self) -> Seq<crate::adapter::ActionModel> {
        crate::adapter::action_models(self.rest@)
    }
}

/// A task after an action of its model was carried out: it goes on, unless
/// the action violated its manifest.
pub open spec fn resumed(task: TaskModel, carried_out: bool) -> TaskModel {
    if carried_out && task.status != TaskStatus::Violation {
        task.with_status(TaskStatus::Running)
    } else {
        task
    }
}

/// Nothing is taken behind this action.
pub open spec fn ends_reply(a: crate::adapter::ActionModel) -> bool {
    match a {
        crate::adapter::ActionModel::Finish { .. } => true,
        crate::adapter::ActionModel::Execute(command) => crate::adapter::action_command(
            command,
        ) is Err,
        crate::adapter::ActionModel::Write { .. } => false,
    }
}

/// What an action comes to.
pub open spec fn is_step_of(step: ActionStep, a: crate::adapter::ActionModel) -> bool {
    match a {
        crate::adapter::ActionModel::Execute(command) => match crate::adapter::action_command(
            command,
        ) {
            Ok(c) => step matches ActionStep::Execute(s) && s@ == c,
            Err(reason) => step matches ActionStep::Fail(e) && (
            e matches AdapterError::InvalidAction(m) && m@ == reason),
        },
        crate::adapter::ActionModel::Write { path, content } => step matches ActionStep::Write {
            path: p,
            content: c,
        } && p@ == path && c@ == content,
        crate::adapter::ActionModel::Finish {
            status,
            reason,
        } => step matches ActionStep::Finish(effects) && crate::execution::effect_models(effects@)
            == finish_effects(status, reason),
    }
}

impl ReplyRun {
    /// Reads the actions of a reply.
    pub fn begin(response: &str) -> (r: Result<ReplyRun, AdapterError>)
        ensures
            match crate::adapter::actions_of(response@) {
                Ok(actions) => if actions.len() == 0 {
                    r matches Err(AdapterError::InvalidAction(m)) && m@
                        == "LLM response contained no v9r XML action tags"@
                } else {
                    r matches Ok(run) && run@ == actions
                },
                Err(reason) => r matches Err(AdapterError::InvalidAction(m)) && m@ == reason,
            },
    {
        let rest = reply_actions(response)?;
        proof {
            assert(crate::adapter::action_models(rest@).len() == rest@.len());
        }
        Ok(ReplyRun { rest })
    }

    /// The next action, in the order of the reply. `carried_out` says that the
    /// one before it was. An action that finishes the task, or that cannot be
    /// read, is the last.
    pub fn next(&mut self, task: &mut Task, carried_out: bool) -> (r: Option<ActionStep>)
        ensures
            final(task)@ == resumed(old(task)@, carried_out),
            if old(self)@.len() == 0 {
                r is None && final(self)@ == old(self)@
            } else {
                &&& r matches Some(step)
                &&& is_step_of(step, old(self)@[0])
                &&& final(self)@ == (if ends_reply(old(self)@[0]) {
                    Seq::empty()
                } else {
                    old(self)@.drop_first()
                })
            },
    {
        if carried_out && task.status != TaskStatus::Violation {
            task.status = TaskStatus::Running;
        }
        if self.rest.len() == 0 {
            return None;
        }
        let ghost before = self@;
        let action = self.rest.remove(0);
        proof {
            assert(before[0] == action@);
            assert(self@ =~= before.drop_first());
        }
        let step = action_step(action);
        let last = match &step {
            ActionStep::Fail(_) => true,
            ActionStep::Finish(_) => true,
            _ => false,
        };
        if last {
            self.rest = Vec::new();
            proof {
                assert(self@ =~= Seq::empty());
            }
        }
        Some(step)
    }
}

/// What was found at the path of a mandatory artifact.
#[derive(Clone, Copy, Debug, PartialEq, Eq, Structural)]
pub enum ArtifactProbe {
    Missing,
    Found { is_file: bool, len: u64 },
}

/// Why the artifacts from index `i` on do not count, where they do not.
pub open spec fn artifact_failure(
    workdir: Seq<char>,
    artifacts: Seq<Seq<char>>,
    probes: Seq<ArtifactProbe>,
    i: int,
) -> Option<Seq<char>>
    decreases artifacts.len() - i,
{
    if i < 0 || i >= artifacts.len() {
        None
    } else {
        let path = crate::host_path::task_path(workdir, artifacts[i]);
        match probes[i] {
            ArtifactProbe::Missing => Some("mandatory artifact missing: "@ + path),
            ArtifactProbe::Found { is_file, len } => if !is_file || len == 0 {
                Some("mandatory artifact missing or empty: "@ + path)
            } else {
                artifact_failure(workdir, artifacts, probes, i + 1)
            },
        }
    }
}

/// Why the configured test commands from index `i` on do not count, where they
/// do not: one never ran, or its last run failed. A blank one is passed over.
pub open spec fn test_failure(task: TaskModel, i: int) -> Option<Seq<char>>
    decreases task.manifest.test_commands.len() - i,
{
    if i < 0 || i >= task.manifest.test_commands.len() {
        None
    } else {
        let test = task.manifest.test_commands[i];
        if crate::task::is_blank(test) {
            test_failure(task, i + 1)
        } else {
            match crate::task::code_at(task.test_exit_codes, i) {
                None => Some("test command not run: "@ + test),
                Some(code) => if !task.ran_test_command {
                    Some("test command not run: "@ + test)
                } else if code != 0 {
                    Some(
                        "test command failed: "@ + test + ": exit_code="@
                            + crate::text::signed_decimal(code as int),
                    )
                } else {
                    test_failure(task, i + 1)
                },
            }
        }
    }
}

/// The configured test commands among the first `n` that have not run, in
/// their order, without the blank ones.
pub open spec fn tests_left(task: TaskModel, n: int) -> Seq<Seq<char>>
    decreases n,
{
    if n <= 0 {
        Seq::empty()
    } else if !crate::task::is_blank(task.manifest.test_commands[n - 1])
        && crate::task::code_at(task.test_exit_codes, n - 1) is None {
        tests_left(task, n - 1).push(task.manifest.test_commands[n - 1])
    } else {
        tests_left(task, n - 1)
    }
}

/// Why the outcome of a task does not count, where it does not: an artifact is
/// missing or empty, the last test command failed, or one of the configured
/// test commands has not passed.
pub open spec fn outcome_failure(task: TaskModel, probes: Seq<ArtifactProbe>) -> Option<Seq<char>> {
    match artifact_failure(task.workdir, task.manifest.mandatory_artifacts, probes, 0) {
        Some(m) => Some(m),
        None => if task.ran_test_command && task.last_test_exit_code != Some(0i32) {
            Some(
                "last test command failed: exit_code="@ + crate::text::signed_decimal(
                    crate::execution::recorded_code(task.last_test_exit_code) as int,
                ),
            )
        } else {
            test_failure(task, 0)
        },
    }
}

/// The hashes of the artifacts of an outcome that counts, or why it does not.
pub open spec fn outcome(
    task: TaskModel,
    probes: Seq<ArtifactProbe>,
    reads: Seq<ArtifactRead>,
) -> Result<Seq<HashModel>, Seq<char>> {
    match outcome_failure(task, probes) {
        Some(m) => Err(m),
        None => match crate::bundle::hashes_of(task, reads) {
            Ok(hashes) => Ok(hashes),
            Err(fault) => Err(fault.text()),
        },
    }
}

fn is_blank_text(test: &str) -> (r: bool)
    ensures
        r == crate::task::is_blank(test@),
{
    is_empty_text(trim(test).as_str())
}

impl Task {
    fn check_artifacts(&self, probes: &Vec<ArtifactProbe>) -> (r: Result<(), String>)
        requires
            probes@.len() == self.manifest.mandatory_artifacts@.len(),
        ensures
            ({
                let all = self@.manifest.mandatory_artifacts;
                match r {
                    Ok(_) => artifact_failure(self@.workdir, all, probes@, 0) is None,
                    Err(m) => artifact_failure(self@.workdir, all, probes@, 0) == Some(m@),
                }
            }),
    {
        let ghost all = self@.manifest.mandatory_artifacts;
        let mut i: usize = 0;
        while i < self.manifest.mandatory_artifacts.len()
            invariant
                i <= self.manifest.mandatory_artifacts.len(),
                probes@.len() == self.manifest.mandatory_artifacts@.len(),
                all == self@.manifest.mandatory_artifacts,
                artifact_failure(self@.workdir, all, probes@, 0) == artifact_failure(
                    self@.workdir,
                    all,
                    probes@,
                    i as int,
                ),
            decreases self.manifest.mandatory_artifacts.len() - i,
        {
            let path = resolve_task_path(
                self.workdir.as_str(),
                self.manifest.mandatory_artifacts[i].as_str(),
            );
            proof {
                assert(all[i as int] == self.manifest.mandatory_artifacts@[i as int]@);
            }
            match probes[i] {
                ArtifactProbe::Missing => {
                    return Err(cat("mandatory artifact missing: ", path.as_str()));
                },
                ArtifactProbe::Found { is_file, len } => {
                    if !is_file || len == 0 {
                        return Err(cat("mandatory artifact missing or empty: ", path.as_str()));
                    }
                },
            }
            i = i + 1;
        }
        Ok(())
    }

    fn check_tests(&self) -> (r: Result<(), String>)
        ensures
            match r {
                Ok(_) => test_failure(self@, 0) is None,
                Err(m) => test_failure(self@, 0) == Some(m@),
            },
    {
        let ghost all = self@.manifest.test_commands;
        let mut i: usize = 0;
        while i < self.manifest.test_commands.len()
            invariant
                i <= self.manifest.test_commands.len(),
                all == self@.manifest.test_commands,
                test_failure(self@, 0) == test_failure(self@, i as int),
            decreases self.manifest.test_commands.len() - i,
        {
            let test = self.manifest.test_commands[i].as_str();
            proof {
                assert(all[i as int] == test@);
            }
            let code: Option<i32> = if i < self.test_exit_codes.len() {
                self.test_exit_codes[i]
            } else {
                None
            };
            if !is_blank_text(test) {
                match code {
                    None => {
                        return Err(cat("test command not run: ", test));
                    },
                    Some(c) => {
                        if !self.ran_test_command {
                            return Err(cat("test command not run: ", test));
                        }
                        if c != 0 {
                            let mut m = cat3("test command failed: ", test, ": exit_code=");
                            m.append(signed_text(c as i64).as_str());
                            return Err(m);
                        }
                    },
                }
            }
            i = i + 1;
        }
        Ok(())
    }

    /// The configured test commands that have not run; blank ones are none.
    pub fn pending_tests(&self) -> (r: Vec<String>)
        ensures
            crate::text::texts(r@) == tests_left(
                self@,
                self@.manifest.test_commands.len() as int,
            ),
    {
        let mut left: Vec<String> = Vec::new();
        let mut i: usize = 0;
        proof {
            assert(crate::text::texts(left@) =~= Seq::<Seq<char>>::empty());
        }
        while i < self.manifest.test_commands.len()
            invariant
                i <= self.manifest.test_commands.len(),
                crate::text::texts(left@) == tests_left(self@, i as int),
            decreases self.manifest.test_commands.len() - i,
        {
            let ran = i < self.test_exit_codes.len() && self.test_exit_codes[i].is_some();
            if !ran && !is_blank_text(self.manifest.test_commands[i].as_str()) {
                let ghost before = crate::text::texts(left@);
                left.push(owned(self.manifest.test_commands[i].as_str()));
                proof {
                    assert(crate::text::texts(left@) =~= before.push(
                        self@.manifest.test_commands[i as int],
                    ));
                }
            }
            i = i + 1;
        }
        left
    }

    /// Whether the outcome of the task counts, and the hashes of its mandatory
    /// artifacts where it does. `probes` holds what was found at their paths,
    /// `reads` what reading each of them gave.
    pub fn validate_outcome(&self, probes: &Vec<ArtifactProbe>, reads: &Vec<ArtifactRead>) -> (r:
        Result<Vec<ArtifactHash>, String>)
        requires
            probes@.len() == self.manifest.mandatory_artifacts@.len(),
            reads@.len() == self.manifest.mandatory_artifacts@.len(),
        ensures
            match r {
                Ok(hashes) => outcome(self@, probes@, reads@) == Ok::<Seq<HashModel>, Seq<char>>(
                    hash_models(hashes@),
                ),
                Err(m) => outcome(self@, probes@, reads@) == Err::<Seq<HashModel>, Seq<char>>(m@),
            },
    {
        self.check_artifacts(probes)?;
        if self.ran_test_command {
            let code: i32 = match self.last_test_exit_code {
                Some(c) => c,
                None => -1,
            };
            let passed = match self.last_test_exit_code {
                Some(c) => c == 0,
                None => false,
            };
            if !passed {
                let digits = signed_text(code as i64);
                return Err(cat("last test command failed: exit_code=", digits.as_str()));
            }
        }
        self.check_tests()?;
        match compute_mandatory_artifact_hashes(self, reads) {
            Ok(hashes) => Ok(hashes),
            Err(e) => Err(e.message()),
        }
    }
}

/// The contents of an `ArtifactHash`.
pub struct HashModel {
    pub path: Seq<char>,
    pub bytes: u64,
    pub fnv64: u64,
}

impl View for ArtifactHash {
    type V = HashModel;

    open spec fn view(&self) -> HashModel {
        HashModel { path: self.path@, bytes: self.bytes, fnv64: self.fnv64 }
    }
}

pub open spec fn hash_models(s: Seq<ArtifactHash>) -> Seq<HashModel> {
    s.map_values(|h: ArtifactHash| h@)
}

/// The contents of a `TaskReport`.
pub struct ReportModel {
    pub task_id: TaskId,
    pub status: TaskStatus,
    pub error_type: Option<TaskErrorType>,
    pub message: Option<Seq<char>>,
    pub steps_used: usize,
    pub artifact_hashes: Seq<HashModel>,
}

impl View for TaskReport {
    type V = ReportModel;

    open spec fn view(&self) -> ReportModel {
        ReportModel {
            task_id: self.task_id,
            status: self.status,
            error_type: self.error_type,
            message: crate::text::text_option(self.message),
            steps_used: self.steps_used,
            artifact_hashes: hash_models(self.artifact_hashes@),
        }
    }
}

/// The report on a task: failed where there is an error.
pub open spec fn report_of(
    task: TaskModel,
    error_type: Option<TaskErrorType>,
    message: Option<Seq<char>>,
    hashes: Seq<HashModel>,
) -> ReportModel {
    ReportModel {
        task_id: task.id,
        status: if error_type is Some {
            TaskStatus::Failed
        } else {
            task.status
        },
        error_type,
        message,
        steps_used: task.steps_used,
        artifact_hashes: hashes,
    }
}

impl Task {
    fn report(
        &self,
        error_type: Option<TaskErrorType>,
        message: Option<String>,
        artifact_hashes: Vec<ArtifactHash>,
    ) -> (r: TaskReport)
        ensures
            r@ == report_of(
                self@,
                error_type,
                crate::text::text_option(message),
                hash_models(artifact_hashes@),
            ),
    {
        TaskReport {
            task_id: self.id,
            status: if error_type.is_some() {
                TaskStatus::Failed
            } else {
                self.status
            },
            error_type,
            message,
            steps_used: self.steps_used,
            artifact_hashes,
        }
    }
}

/// Where a guarded run stands.
#[derive(Debug)]
pub enum GuardState {
    /// The checkpoint is being taken.
    Checkpointing,
    /// The limits are about to be checked.
    Checking { snapshot: CheckpointId },
    /// A step is running.
    Stepping { snapshot: CheckpointId },
    /// The outcome is being validated.
    Validating { snapshot: CheckpointId, finished: TaskStatus },
    /// The working directory is being brought back.
    RollingBack { error_type: TaskErrorType, message: String },
    /// The report has been given.
    Done,
}

/// What happened outside.
#[derive(Debug)]
pub enum GuardEvent {
    Checkpointed(Result<CheckpointId, String>),
    Elapsed(u64),
    StepDone,
    StepFailed(AdapterError),
    StepTimedOut,
    /// The mandatory artifacts were looked at, and read.
    Examined { probes: Vec<ArtifactProbe>, reads: Vec<ArtifactRead> },
    RolledBack(Result<(), String>),
}

/// What to do next.
#[derive(Debug)]
pub enum GuardAction {
    /// Find out how many milliseconds the run has taken.
    ReadClock,
    /// Run one step, for at most this many milliseconds.
    RunStep { remaining_ms: u64 },
    /// Look at the mandatory artifacts, and read them.
    Validate,
    /// Roll back to the checkpoint.
    Rollback(CheckpointId),
    /// The run is over.
    Finish(TaskReport),
}

/// The contents of a `GuardState`.
pub enum StateModel {
    Checkpointing,
    Checking { snapshot: CheckpointId },
    Stepping { snapshot: CheckpointId },
    Validating { snapshot: CheckpointId, finished: TaskStatus },
    RollingBack { error_type: TaskErrorType, message: Seq<char> },
    Done,
}

/// The contents of a `GuardEvent`.
pub enum GuardEventModel {
    Checkpointed(Result<CheckpointId, Seq<char>>),
    Elapsed(u64),
    StepDone,
    StepFailed(AdapterError),
    StepTimedOut,
    Examined { probes: Seq<ArtifactProbe>, reads: Seq<ArtifactRead> },
    RolledBack(Result<(), Seq<char>>),
}

/// The contents of a `GuardAction`.
pub enum GuardActionModel {
    ReadClock,
    RunStep { remaining_ms: u64 },
    Validate,
    Rollback(CheckpointId),
    Finish(ReportModel),
}

impl View for GuardState {
    type V = StateModel;

    open spec fn view(&self) -> StateModel {
        match self {
            GuardState::Checkpointing => StateModel::Checkpointing,
            GuardState::Checking { snapshot } => StateModel::Checking { snapshot: *snapshot },
            GuardState::Stepping { snapshot } => StateModel::Stepping { snapshot: *snapshot },
            GuardState::Validating { snapshot, finished } => StateModel::Validating {
                snapshot: *snapshot,
                finished: *finished,
            },
            GuardState::RollingBack { error_type, message } => StateModel::RollingBack {
                error_type: *error_type,
                message: message@,
            },
            GuardState::Done => StateModel::Done,
        }
    }
}

impl View for GuardEvent {
    type V = GuardEventModel;

    open spec fn view(&self) -> GuardEventModel {
        match self {
            GuardEvent::Checkpointed(r) => GuardEventModel::Checkpointed(
                match r {
                    Ok(id) => Ok(*id),
                    Err(m) => Err(m@),
                },
            ),
            GuardEvent::Elapsed(ms) => GuardEventModel::Elapsed(*ms),
            GuardEvent::StepDone => GuardEventModel::StepDone,
            GuardEvent::StepFailed(e) => GuardEventModel::StepFailed(*e),
            GuardEvent::StepTimedOut => GuardEventModel::StepTimedOut,
            GuardEvent::Examined { probes, reads } => GuardEventModel::Examined {
                probes: probes@,
                reads: reads@,
            },
            GuardEvent::RolledBack(r) => GuardEventModel::RolledBack(
                match r {
                    Ok(_) => Ok(()),
                    Err(m) => Err(m@),
                },
            ),
        }
    }
}

impl View for GuardAction {
    type V = GuardActionModel;

    open spec fn view(&self) -> GuardActionModel {
        match self {
            GuardAction::ReadClock => GuardActionModel::ReadClock,
            GuardAction::RunStep { remaining_ms } => GuardActionModel::RunStep {
                remaining_ms: *remaining_ms,
            },
            GuardAction::Validate => GuardActionModel::Validate,
            GuardAction::Rollback(id) => GuardActionModel::Rollback(*id),
            GuardAction::Finish(r) => GuardActionModel::Finish(r@),
        }
    }
}

/// The event is one that the state waits for.
pub open spec fn awaited(state: StateModel, event: GuardEventModel) -> bool {
    match state {
        StateModel::Checkpointing => event is Checkpointed,
        StateModel::Checking { .. } => event is Elapsed,
        StateModel::Stepping { .. } => event is StepDone || event is StepFailed
            || event is StepTimedOut,
        StateModel::Validating { .. } => event is Examined,
        StateModel::RollingBack { .. } => event is RolledBack,
        StateModel::Done => false,
    }
}

/// Where a run goes: its next state, what to do, and the task.
pub struct Turn {
    pub state: StateModel,
    pub action: GuardActionModel,
    pub task: TaskModel,
}

/// Gives the run up: roll back, then report the error.
pub open spec fn give_up(
    snapshot: CheckpointId,
    error_type: TaskErrorType,
    message: Seq<char>,
    task: TaskModel,
) -> Turn {
    Turn {
        state: StateModel::RollingBack { error_type, message },
        action: GuardActionModel::Rollback(snapshot),
        task,
    }
}

pub open spec fn timeout_message(task: TaskModel) -> Seq<char> {
    "timeout_ms exceeded: "@ + crate::text::decimal(task.manifest.timeout_ms as nat)
}

pub open spec fn max_steps_message(task: TaskModel) -> Seq<char> {
    "max_steps exceeded: "@ + crate::text::decimal(task.manifest.max_steps as nat)
}

pub open spec fn token_message(task: TaskModel) -> Seq<char> {
    "token_limit exceeded: "@ + crate::text::decimal(task.manifest.token_limit as nat)
}

/// What an error of a step is reported as.
pub open spec fn step_error_type(e: AdapterError) -> TaskErrorType {
    if crate::adapter::is_violation(e) {
        TaskErrorType::SecurityViolation
    } else if crate::adapter::is_out_of_steps(e) {
        TaskErrorType::MaxStepsExceeded
    } else {
        TaskErrorType::ExecutionFailed
    }
}

/// The turn that an awaited event brings.
pub open spec fn turn(state: StateModel, event: GuardEventModel, task: TaskModel) -> Turn {
    match (state, event) {
        (StateModel::Checkpointing, GuardEventModel::Checkpointed(Ok(snapshot))) => Turn {
            state: StateModel::Checking { snapshot },
            action: GuardActionModel::ReadClock,
            task,
        },
        (StateModel::Checkpointing, GuardEventModel::Checkpointed(Err(m))) => {
            let failed = task.with_status(TaskStatus::Failed);
            Turn {
                state: StateModel::Done,
                action: GuardActionModel::Finish(
                    report_of(
                        failed,
                        Some(TaskErrorType::ExecutionFailed),
                        Some("checkpoint failed: "@ + m),
                        Seq::empty(),
                    ),
                ),
                task: failed,
            }
        },
        (
            StateModel::Checking { snapshot },
            GuardEventModel::Elapsed(ms),
        ) => if task.steps_used >= task.manifest.max_steps {
            give_up(snapshot, TaskErrorType::MaxStepsExceeded, max_steps_message(task), task)
        } else if ms >= task.manifest.timeout_ms {
            give_up(snapshot, TaskErrorType::Timeout, timeout_message(task), task)
        } else if task.out_of_tokens() {
            give_up(snapshot, TaskErrorType::TokenLimitExceeded, token_message(task), task)
        } else {
            Turn {
                state: StateModel::Stepping { snapshot },
                action: GuardActionModel::RunStep {
                    remaining_ms: (task.manifest.timeout_ms - ms) as u64,
                },
                task,
            }
        },
        (
            StateModel::Stepping { snapshot },
            GuardEventModel::StepDone,
        ) => if task.out_of_tokens() {
            give_up(snapshot, TaskErrorType::TokenLimitExceeded, token_message(task), task)
        } else if task.status == TaskStatus::Success || task.status == TaskStatus::Failed {
            Turn {
                state: StateModel::Validating { snapshot, finished: task.status },
                action: GuardActionModel::Validate,
                task: task.with_status(TaskStatus::Verifying),
            }
        } else {
            Turn {
                state: StateModel::Checking { snapshot },
                action: GuardActionModel::ReadClock,
                task,
            }
        },
        (StateModel::Stepping { snapshot }, GuardEventModel::StepFailed(e)) => give_up(
            snapshot,
            step_error_type(e),
            e.text(),
            task,
        ),
        (StateModel::Stepping { snapshot }, GuardEventModel::StepTimedOut) => give_up(
            snapshot,
            TaskErrorType::Timeout,
            timeout_message(task),
            task,
        ),
        (
            StateModel::Validating { snapshot, finished },
            GuardEventModel::Examined { probes, reads },
        ) => match outcome(task, probes, reads) {
            Err(m) => give_up(snapshot, TaskErrorType::ValidationFailed, m, task),
            Ok(hashes) => if finished == TaskStatus::Failed {
                give_up(
                    snapshot,
                    TaskErrorType::ExecutionFailed,
                    "agent finished with Failed status"@,
                    task,
                )
            } else {
                let done = task.with_status(TaskStatus::Success);
                Turn {
                    state: StateModel::Done,
                    action: GuardActionModel::Finish(report_of(done, None, None, hashes)),
                    task: done,
                }
            },
        },
        (
            StateModel::RollingBack { error_type, message },
            GuardEventModel::RolledBack(Ok(_)),
        ) => {
            let failed = task.with_status(TaskStatus::Failed);
            Turn {
                state: StateModel::Done,
                action: GuardActionModel::Finish(
                    report_of(failed, Some(error_type), Some(message), Seq::empty()),
                ),
                task: failed,
            }
        },
        (
            StateModel::RollingBack { error_type, message },
            GuardEventModel::RolledBack(Err(m)),
        ) => {
            let failed = task.with_status(TaskStatus::Failed);
            Turn {
                state: StateModel::Done,
                action: GuardActionModel::Finish(
                    report_of(
                        failed,
                        Some(TaskErrorType::RollbackFailed),
                        Some(message + "; rollback failed: "@ + m),
                        Seq::empty(),
                    ),
                ),
                task: failed,
            }
        },
        _ => Turn { state, action: GuardActionModel::ReadClock, task },
    }
}

impl Task {
    /// Begins a guarded run: the task is registered and running, and its
    /// checkpoint is to be taken.
    pub fn begin_guarded_run(&mut self, tasks: &mut TaskTable) -> (r: GuardState)
        ensures
            r@ == StateModel::Checkpointing,
            final(self)@ == old(self)@.with_status(TaskStatus::Running),
            final(tasks)@ == crate::task_fs::registered(
                old(tasks)@,
                old(self).id,
                old(self).workdir@,
            ),
    {
        register_task(tasks, self.id, owned(self.workdir.as_str()));
        self.status = TaskStatus::Running;
        GuardState::Checkpointing
    }

    fn give_up(
        &self,
        snapshot: CheckpointId,
        error_type: TaskErrorType,
        message: String,
    ) -> (r: (GuardState, GuardAction))
        ensures
            r.0@ == give_up(snapshot, error_type, message@, self@).state,
            r.1@ == give_up(snapshot, error_type, message@, self@).action,
    {
        (GuardState::RollingBack { error_type, message }, GuardAction::Rollback(snapshot))
    }

    fn out_of_tokens(&self, snapshot: CheckpointId) -> (r: (GuardState, GuardAction))
        ensures
            ({
                let t = give_up(
                    snapshot,
                    TaskErrorType::TokenLimitExceeded,
                    token_message(self@),
                    self@,
                );
                r.0@ == t.state && r.1@ == t.action
            }),
    {
        let n = decimal_text(self.manifest.token_limit as u64);
        self.give_up(
            snapshot,
            TaskErrorType::TokenLimitExceeded,
            cat("token_limit exceeded: ", n.as_str()),
        )
    }

    /// Takes a guarded run one turn further.
    pub fn run_with_guards(&mut self, state: GuardState, event: GuardEvent) -> (r: (
        GuardState,
        GuardAction,
    ))
        requires
            awaited(state@, event@),
            event matches GuardEvent::Examined { probes, reads } ==> probes@.len() == old(
                self,
            ).manifest.mandatory_artifacts@.len() && reads@.len() == old(
                self,
            ).manifest.mandatory_artifacts@.len(),
        ensures
            ({
                let t = turn(state@, event@, old(self)@);
                r.0@ == t.state && r.1@ == t.action && final(self)@ == t.task
            }),
    {
        match state {
            GuardState::Checkpointing => {
                if let GuardEvent::Checkpointed(result) = event {
                    match result {
                        Ok(snapshot) => {
                            return (GuardState::Checking { snapshot }, GuardAction::ReadClock);
                        },
                        Err(m) => {
                            self.status = TaskStatus::Failed;
                            let hashes: Vec<ArtifactHash> = Vec::new();
                            proof {
                                assert(hash_models(hashes@) =~= Seq::<HashModel>::empty());
                            }
                            let report = self.report(
                                Some(TaskErrorType::ExecutionFailed),
                                Some(cat("checkpoint failed: ", m.as_str())),
                                hashes,
                            );
                            return (GuardState::Done, GuardAction::Finish(report));
                        },
                    }
                }
            },
            GuardState::Checking { snapshot } => {
                if let GuardEvent::Elapsed(ms) = event {
                    if self.steps_used >= self.manifest.max_steps {
                        let n = decimal_text(self.manifest.max_steps as u64);
                        return self.give_up(
                            snapshot,
                            TaskErrorType::MaxStepsExceeded,
                            cat("max_steps exceeded: ", n.as_str()),
                        );
                    }
                    if ms >= self.manifest.timeout_ms {
                        let n = decimal_text(self.manifest.timeout_ms);
                        return self.give_up(
                            snapshot,
                            TaskErrorType::Timeout,
                            cat("timeout_ms exceeded: ", n.as_str()),
                        );
                    }
                    if self.tokens_used > self.manifest.token_limit as u64 {
                        return self.out_of_tokens(snapshot);
                    }
                    return (
                        GuardState::Stepping { snapshot },
                        GuardAction::RunStep { remaining_ms: self.manifest.timeout_ms - ms },
                    );
                }
            },
            GuardState::Stepping { snapshot } => {
                match event {
                    GuardEvent::StepDone => {
                        if self.tokens_used > self.manifest.token_limit as u64 {
                            return self.out_of_tokens(snapshot);
                        }
                        if self.status == TaskStatus::Success || self.status
                            == TaskStatus::Failed {
                            let finished = self.status;
                            self.status = TaskStatus::Verifying;
                            return (
                                GuardState::Validating { snapshot, finished },
                                GuardAction::Validate,
                            );
                        }
                        return (GuardState::Checking { snapshot }, GuardAction::ReadClock);
                    },
                    GuardEvent::StepFailed(err) => {
                        let error_type = if is_security_violation(&err) {
                            TaskErrorType::SecurityViolation
                        } else if is_max_steps_error(&err) {
                            TaskErrorType::MaxStepsExceeded
                        } else {
                            TaskErrorType::ExecutionFailed
                        };
                        return self.give_up(snapshot, error_type, err.message());
                    },
                    GuardEvent::StepTimedOut => {
                        let n = decimal_text(self.manifest.timeout_ms);
                        return self.give_up(
                            snapshot,
                            TaskErrorType::Timeout,
                            cat("timeout_ms exceeded: ", n.as_str()),
                        );
                    },
                    _ => {},
                }
            },
            GuardState::Validating { snapshot, finished } => {
                if let GuardEvent::Examined { probes, reads } = event {
                    match self.validate_outcome(&probes, &reads) {
                        Ok(hashes) => {
                            if finished == TaskStatus::Failed {
                                return self.give_up(
                                    snapshot,
                                    TaskErrorType::ExecutionFailed,
                                    owned("agent finished with Failed status"),
                                );
                            }
                            self.status = TaskStatus::Success;
                            let report = self.report(None, None, hashes);
                            return (GuardState::Done, GuardAction::Finish(report));
                        },
                        Err(m) => {
                            return self.give_up(snapshot, TaskErrorType::ValidationFailed, m);
                        },
                    }
                }
            },
            GuardState::RollingBack { error_type, message } => {
                if let GuardEvent::RolledBack(result) = event {
                    self.status = TaskStatus::Failed;
                    let hashes: Vec<ArtifactHash> = Vec::new();
                    proof {
                        assert(hash_models(hashes@) =~= Seq::<HashModel>::empty());
                    }
                    let report = match result {
                        Ok(_) => self.report(Some(error_type), Some(message), hashes),
                        Err(m) => {
                            let mut text = cat(message.as_str(), "; rollback failed: ");
                            text.append(m.as_str());
                            self.report(Some(TaskErrorType::RollbackFailed), Some(text), hashes)
                        },
                    };
                    return (GuardState::Done, GuardAction::Finish(report));
                }
            },
            GuardState::Done => {},
        }
        (GuardState::Done, GuardAction::ReadClock)
    }
}

/// A report says failed where it carries an error, and success where it
/// carries none.
pub proof fn lemma_report_status(state: StateModel, event: GuardEventModel, task: TaskModel)
    requires
        awaited(state, event),
    ensures
        turn(state, event, task).action matches GuardActionModel::Finish(r) ==> {
            &&& r.error_type is Some ==> r.status == TaskStatus::Failed
            &&& r.error_type is None ==> r.status == TaskStatus::Success
            &&& r.status == turn(state, event, task).task.status
        },
{
}

/// Once the checkpoint stands, a failed step, a step out of time, a limit
/// reached, an outcome that does not count and a failure that the model
/// reports all roll back to that checkpoint before anything is reported.
pub proof fn lemma_failures_roll_back(
    snapshot: CheckpointId,
    event: GuardEventModel,
    task: TaskModel,
    finished: TaskStatus,
)
    ensures
        event is StepFailed || event is StepTimedOut ==> turn(
            StateModel::Stepping { snapshot },
            event,
            task,
        ).action == GuardActionModel::Rollback(snapshot),
        event matches GuardEventModel::Elapsed(ms) ==> (task.steps_used >= task.manifest.max_steps
            || ms >= task.manifest.timeout_ms || task.out_of_tokens() ==> turn(
            StateModel::Checking { snapshot },
            event,
            task,
        ).action == GuardActionModel::Rollback(snapshot)),
        event is StepDone && task.out_of_tokens() ==> turn(
            StateModel::Stepping { snapshot },
            event,
            task,
        ).action == GuardActionModel::Rollback(snapshot),
        event matches GuardEventModel::Examined { probes, reads } ==> (outcome(
            task,
            probes,
            reads,
        ) is Err || finished == TaskStatus::Failed ==> turn(
            StateModel::Validating { snapshot, finished },
            event,
            task,
        ).action == GuardActionModel::Rollback(snapshot)),
{
}

/// A run reports an error only after a rollback, unless there was no
/// checkpoint to roll back to.
pub proof fn lemma_errors_follow_rollback(
    state: StateModel,
    event: GuardEventModel,
    task: TaskModel,
)
    requires
        awaited(state, event),
    ensures
        turn(state, event, task).action matches GuardActionModel::Finish(r) ==> (r.error_type is Some
            ==> state is RollingBack || state is Checkpointing),
{
}

/// A step is only started while steps, time and tokens are left, and gets
/// exactly the time that is left; nothing is validated that took too many
/// tokens.
pub proof fn lemma_steps_stay_within_limits(
    state: StateModel,
    event: GuardEventModel,
    task: TaskModel,
)
    requires
        awaited(state, event),
    ensures
        turn(state, event, task).action matches GuardActionModel::RunStep { remaining_ms } ==> {
            &&& task.steps_used < task.manifest.max_steps
            &&& event matches GuardEventModel::Elapsed(ms)
            &&& ms + remaining_ms == task.manifest.timeout_ms
            &&& remaining_ms > 0
            &&& task.tokens_used <= task.manifest.token_limit
        },
        turn(state, event, task).action is Validate ==> task.tokens_used
            <= task.manifest.token_limit,
{
}

/// An outcome that counts has every mandatory artifact as a file that is not
/// empty, and every configured test command that is not blank has been run and
/// ended with 0, as has the last one that was run.
pub proof fn lemma_valid_outcome_is_verified(
    task: TaskModel,
    probes: Seq<ArtifactProbe>,
    reads: Seq<ArtifactRead>,
)
    requires
        outcome(task, probes, reads) is Ok,
    ensures
        forall|i: int|
            0 <= i < task.manifest.mandatory_artifacts.len() ==> stands(#[trigger] probes[i]),
        forall|i: int|
            0 <= i < task.manifest.test_commands.len() && !crate::task::is_blank(
                #[trigger] task.manifest.test_commands[i],
            ) ==> task.ran_test_command && crate::task::code_at(task.test_exit_codes, i) == Some(
                0i32,
            ),
        task.ran_test_command ==> task.last_test_exit_code == Some(0i32),
{
    assert forall|i: int| 0 <= i < task.manifest.mandatory_artifacts.len() implies stands(
        #[trigger] probes[i],
    ) by {
        lemma_no_artifact_failure(task.workdir, task.manifest.mandatory_artifacts, probes, 0, i);
    }
    assert forall|i: int|
        0 <= i < task.manifest.test_commands.len() && !crate::task::is_blank(
            #[trigger] task.manifest.test_commands[i],
        ) implies task.ran_test_command && crate::task::code_at(task.test_exit_codes, i) == Some(
        0i32,
    ) by {
        lemma_no_test_failure(task, 0, i);
    }
}

proof fn lemma_no_test_failure(task: TaskModel, from: int, i: int)
    requires
        0 <= from <= i < task.manifest.test_commands.len(),
        test_failure(task, from) is None,
        !crate::task::is_blank(task.manifest.test_commands[i]),
    ensures
        task.ran_test_command,
        crate::task::code_at(task.test_exit_codes, i) == Some(0i32),
    decreases i - from,
{
    if from < i {
        lemma_no_test_failure(task, from + 1, i);
    }
}

/// An artifact is a file that is not empty.
pub open spec fn stands(probe: ArtifactProbe) -> bool {
    probe matches ArtifactProbe::Found { is_file, len } && is_file && len > 0
}

proof fn lemma_no_artifact_failure(
    workdir: Seq<char>,
    artifacts: Seq<Seq<char>>,
    probes: Seq<ArtifactProbe>,
    from: int,
    i: int,
)
    requires
        0 <= from <= i < artifacts.len(),
        artifact_failure(workdir, artifacts, probes, from) is None,
    ensures
        stands(probes[i]),
    decreases i - from,
{
    if from < i {
        lemma_no_artifact_failure(workdir, artifacts, probes, from + 1, i);
    }
}

/// What came back at each turn of a run, and the task as it stood then.
pub type RunInputs = Seq<(GuardEventModel, TaskModel)>;

/// The state that a run has reached.
pub open spec fn reached(inputs: RunInputs) -> StateModel
    decreases inputs.len(),
{
    if inputs.len() == 0 {
        StateModel::Checkpointing
    } else {
        turn(reached(inputs.drop_last()), inputs.last().0, inputs.last().1).state
    }
}

/// What a run asks for at its turn `k`.
pub open spec fn asked(inputs: RunInputs, k: int) -> GuardActionModel {
    turn(reached(inputs.take(k)), inputs[k].0, inputs[k].1).action
}

/// Each event of a run is one that was waited for.
pub open spec fn is_run(inputs: RunInputs) -> bool {
    forall|k: int|
        0 <= k < inputs.len() ==> awaited(reached(#[trigger] inputs.take(k)), inputs[k].0)
}

/// The state goes back to no other checkpoint.
pub open spec fn keeps(state: StateModel, id: CheckpointId) -> bool {
    match state {
        StateModel::Checkpointing => false,
        StateModel::Checking { snapshot } => snapshot == id,
        StateModel::Stepping { snapshot } => snapshot == id,
        StateModel::Validating { snapshot, finished } => snapshot == id,
        _ => true,
    }
}

proof fn lemma_run_keeps(inputs: RunInputs, id: CheckpointId, k: int)
    requires
        is_run(inputs),
        inputs.len() > 0,
        inputs[0].0 == GuardEventModel::Checkpointed(Ok::<CheckpointId, Seq<char>>(id)),
        0 < k <= inputs.len(),
    ensures
        keeps(reached(inputs.take(k)), id),
    decreases k,
{
    let here = inputs.take(k);
    assert(here.drop_last() =~= inputs.take(k - 1));
    assert(here.last() == inputs[k - 1]);
    assert(awaited(reached(inputs.take(k - 1)), inputs[k - 1].0));
    if k == 1 {
        assert(inputs.take(0).len() == 0);
    } else {
        lemma_run_keeps(inputs, id, k - 1);
    }
}

/// A run that is rolled back goes back to the checkpoint that it began with.
pub proof fn lemma_run_rolls_back_to_its_checkpoint(inputs: RunInputs, id: CheckpointId, k: int)
    requires
        is_run(inputs),
        inputs.len() > 0,
        inputs[0].0 == GuardEventModel::Checkpointed(Ok::<CheckpointId, Seq<char>>(id)),
        0 <= k < inputs.len(),
    ensures
        asked(inputs, k) matches GuardActionModel::Rollback(back) ==> back == id,
{
    assert(awaited(reached(inputs.take(k)), inputs[k].0));
    if k > 0 {
        lemma_run_keeps(inputs, id, k);
    } else {
        assert(inputs.take(0).len() == 0);
    }
}

/// A run with a checkpoint that reports an error has been rolled back to it
/// at the turn before.
pub proof fn lemma_failed_run_was_rolled_back(inputs: RunInputs, id: CheckpointId, k: int)
    requires
        is_run(inputs),
        inputs.len() > 0,
        inputs[0].0 == GuardEventModel::Checkpointed(Ok::<CheckpointId, Seq<char>>(id)),
        0 <= k < inputs.len(),
        asked(inputs, k) matches GuardActionModel::Finish(r) && r.error_type is Some,
    ensures
        inputs[k].0 is RolledBack,
        k > 0 && asked(inputs, k - 1) == GuardActionModel::Rollback(id),
{
    let here = inputs.take(k);
    assert(awaited(reached(here), inputs[k].0));
    if k == 0 {
        assert(here.len() == 0);
    } else {
        assert(here.drop_last() =~= inputs.take(k - 1));
        assert(here.last() == inputs[k - 1]);
        assert(awaited(reached(inputs.take(k - 1)), inputs[k - 1].0));
        lemma_run_keeps(inputs, id, k);
        lemma_run_rolls_back_to_its_checkpoint(inputs, id, k - 1);
    }
}

/// A run that reports no error was finished by its model as a success, its
/// outcome counts, and it reports the hashes of its mandatory artifacts as
/// they were read.
pub proof fn lemma_successful_run_was_validated(inputs: RunInputs, k: int)
    requires
        is_run(inputs),
        0 <= k < inputs.len(),
        asked(inputs, k) matches GuardActionModel::Finish(r) && r.error_type is None,
    ensures
        inputs[k].0 matches GuardEventModel::Examined { probes, reads } && outcome(
            inputs[k].1,
            probes,
            reads,
        ) == Ok::<Seq<HashModel>, Seq<char>>(asked(inputs, k)->Finish_0.artifact_hashes),
        reached(inputs.take(k)) matches StateModel::Validating { snapshot, finished } && finished
            == TaskStatus::Success,
{
    assert(awaited(reached(inputs.take(k)), inputs[k].0));
    lemma_validating_is_finished(inputs.take(k));
}

proof fn lemma_validating_is_finished(inputs: RunInputs)
    ensures
        reached(inputs) matches StateModel::Validating { snapshot, finished } ==> finished
            == TaskStatus::Success || finished == TaskStatus::Failed,
    decreases inputs.len(),
{
    if inputs.len() > 0 {
        lemma_validating_is_finished(inputs.drop_last());
    }
}

} // verus!
