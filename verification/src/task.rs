//! Tasks, their reports, and the bookkeeping of their steps.

use vstd::prelude::*;

use crate::ids::TaskId;
use crate::manifest::{Manifest, ManifestModel};
use crate::text::{begins_with, cat, decimal_text, is_empty_text, trim};

verus! {

#[derive(Clone, Copy, Debug, PartialEq, Eq, Structural)]
pub enum TaskStatus {
    Idle,
    Running,
    Verifying,
    Success,
    Failed,
    Violation,
}

#[derive(Clone, Copy, Debug, PartialEq, Eq, Structural)]
pub enum TaskErrorType {
    ValidationFailed,
    SecurityViolation,
    MaxStepsExceeded,
    TokenLimitExceeded,
    Timeout,
    ExecutionFailed,
    RollbackFailed,
}

/// A task: its limits, where it works, and how far it has come.
#[derive(Clone, Debug, PartialEq, Eq)]
pub struct Task {
    pub id: TaskId,
    pub manifest: Manifest,
    pub workdir: String,
    pub status: TaskStatus,
    pub steps_used: usize,
    pub tokens_used: u64,
    pub ran_test_command: bool,
    pub last_test_exit_code: Option<i32>,
    /// For each configured test command, how it ended when it was last run.
    pub test_exit_codes: Vec<Option<i32>>,
}

/// The contents of a task.
pub struct TaskModel {
    pub id: TaskId,
    pub manifest: ManifestModel,
    pub workdir: Seq<char>,
    pub status: TaskStatus,
    pub steps_used: usize,
    pub tokens_used: u64,
    pub ran_test_command: bool,
    pub last_test_exit_code: Option<i32>,
    pub test_exit_codes: Seq<Option<i32>>,
}

impl View for Task {
    type V = TaskModel;

    open spec fn view(&self) -> TaskModel {
        TaskModel {
            id: self.id,
            manifest: self.manifest@,
            workdir: self.workdir@,
            status: self.status,
            steps_used: self.steps_used,
            tokens_used: self.tokens_used,
            ran_test_command: self.ran_test_command,
            last_test_exit_code: self.last_test_exit_code,
            test_exit_codes: self.test_exit_codes@,
        }
    }
}

/// Size and hash of an artifact that a task had to leave behind.
#[derive(Clone, Debug, PartialEq, Eq)]
pub struct ArtifactHash {
    pub path: String,
    pub bytes: u64,
    pub fnv64: u64,
}

/// How a run ended.
#[derive(Clone, Debug, PartialEq, Eq)]
pub struct TaskReport {
    pub task_id: TaskId,
    pub status: TaskStatus,
    pub error_type: Option<TaskErrorType>,
    pub message: Option<String>,
    pub steps_used: usize,
    pub artifact_hashes: Vec<ArtifactHash>,
}

/// The text of a status, as `{:?}` prints it.
pub open spec fn status_text(s: TaskStatus) -> Seq<char> {
    match s {
        TaskStatus::Idle => "Idle"@,
        TaskStatus::Running => "Running"@,
        TaskStatus::Verifying => "Verifying"@,
        TaskStatus::Success => "Success"@,
        TaskStatus::Failed => "Failed"@,
        TaskStatus::Violation => "Violation"@,
    }
}

impl TaskStatus {
    /// The text of the status.
    pub fn text(&self) -> (r: &'static str)
        ensures
            r@ == status_text(*self),
    {
        match self {
            TaskStatus::Idle => "Idle",
            TaskStatus::Running => "Running",
            TaskStatus::Verifying => "Verifying",
            TaskStatus::Success => "Success",
            TaskStatus::Failed => "Failed",
            TaskStatus::Violation => "Violation",
        }
    }
}

/// Nothing but white space.
pub open spec fn is_blank(test: Seq<char>) -> bool {
    crate::text::trimmed(test).len() == 0
}

/// `command` is the configured test command, or begins with it. The
/// configured text counts without the white space around it, and not at all
/// where nothing is left.
pub open spec fn runs_test(test: Seq<char>, command: Seq<char>) -> bool {
    !is_blank(test) && crate::text::trimmed(test).is_prefix_of(command)
}

/// `command` runs one of the configured test commands.
pub open spec fn is_test_command(tests: Seq<Seq<char>>, command: Seq<char>) -> bool {
    exists|i: int| 0 <= i < tests.len() && runs_test(#[trigger] tests[i], command)
}

/// How a configured test command ended; nothing where it never ran.
pub open spec fn code_at(codes: Seq<Option<i32>>, i: int) -> Option<i32> {
    if 0 <= i < codes.len() {
        codes[i]
    } else {
        None
    }
}

impl TaskModel {
    /// How the configured test commands ended, after one more command.
    pub open spec fn codes_after(self, command: Seq<char>, exit_code: i32) -> Seq<Option<i32>> {
        Seq::new(
            self.manifest.test_commands.len(),
            |i: int|
                if runs_test(self.manifest.test_commands[i], command) {
                    Some(exit_code)
                } else {
                    code_at(self.test_exit_codes, i)
                },
        )
    }

    /// The task after a finished command: a test command leaves its exit code,
    /// any other one nothing.
    pub open spec fn after_command(self, command: Seq<char>, exit_code: i32) -> TaskModel {
        if is_test_command(self.manifest.test_commands, command) {
            TaskModel {
                ran_test_command: true,
                last_test_exit_code: Some(exit_code),
                test_exit_codes: self.codes_after(command, exit_code),
                ..self
            }
        } else {
            self
        }
    }

    /// The model has used more tokens than the manifest grants.
    pub open spec fn out_of_tokens(self) -> bool {
        self.tokens_used > self.manifest.token_limit
    }

    /// The task with another status.
    pub open spec fn with_status(self, status: TaskStatus) -> TaskModel {
        TaskModel { status, ..self }
    }
}

impl Task {
    /// A task that has not started, under a new random identifier.
    pub fn new(manifest: Manifest, workdir: String) -> (r: Task)
        ensures
            crate::ids::is_random_uuid(r.id.0),
            r@ == fresh_task(r.id, manifest@, workdir@),
    {
        Task::with_id(TaskId::random(), manifest, workdir)
    }

    /// A task that has not started, under the given identifier.
    pub fn with_id(id: TaskId, manifest: Manifest, workdir: String) -> (r: Task)
        ensures
            r@ == fresh_task(id, manifest@, workdir@),
    {
        Task {
            id,
            manifest,
            workdir,
            status: TaskStatus::Idle,
            steps_used: 0,
            tokens_used: 0,
            ran_test_command: false,
            last_test_exit_code: None,
            test_exit_codes: Vec::new(),
        }
    }

    /// Counts one tool call against `max_steps`.
    pub fn record_tool_call(&mut self) -> (r: Result<(), String>)
        ensures
            match r {
                Ok(_) => old(self).steps_used < old(self).manifest.max_steps && final(self)@ == (
                TaskModel { steps_used: (old(self).steps_used + 1) as usize, ..old(self)@ }),
                Err(m) => old(self).steps_used >= old(self).manifest.max_steps && final(self)@
                    == old(self)@ && m@ == "max_steps exceeded: "@ + crate::text::decimal(
                    old(self).manifest.max_steps as nat,
                ),
            },
    {
        if self.steps_used >= self.manifest.max_steps {
            let n = decimal_text(self.manifest.max_steps as u64);
            return Err(cat("max_steps exceeded: ", n.as_str()));
        }
        self.steps_used = self.steps_used + 1;
        Ok(())
    }

    /// Notes the exit code of a command that is one of the configured test
    /// commands, for each of them that it runs.
    pub fn record_test_command(&mut self, command: &str, exit_code: i32)
        ensures
            final(self)@ == old(self)@.after_command(command@, exit_code),
    {
        let ghost tests = self@.manifest.test_commands;
        let mut codes: Vec<Option<i32>> = Vec::new();
        let mut ran = false;
        let mut i: usize = 0;
        while i < self.manifest.test_commands.len()
            invariant
                i <= self.manifest.test_commands.len(),
                tests == self@.manifest.test_commands,
                codes@ == self@.codes_after(command@, exit_code).take(i as int),
                ran == exists|j: int| 0 <= j < i && runs_test(#[trigger] tests[j], command@),
            decreases self.manifest.test_commands.len() - i,
        {
            let test = trim(self.manifest.test_commands[i].as_str());
            let ghost had = ran;
            proof {
                assert(tests[i as int] == self.manifest.test_commands@[i as int]@);
            }
            if !is_empty_text(test.as_str()) && begins_with(command, test.as_str()) {
                codes.push(Some(exit_code));
                ran = true;
                proof {
                    assert(runs_test(tests[i as int], command@));
                }
            } else {
                let code = if i < self.test_exit_codes.len() {
                    self.test_exit_codes[i]
                } else {
                    None
                };
                codes.push(code);
                proof {
                    assert(!runs_test(tests[i as int], command@));
                    if exists|j: int| 0 <= j < i + 1 && runs_test(#[trigger] tests[j], command@) {
                        let j = choose|j: int|
                            0 <= j < i + 1 && runs_test(#[trigger] tests[j], command@);
                        assert(j < i);
                    }
                    if had {
                        let j = choose|j: int|
                            0 <= j < i && runs_test(#[trigger] tests[j], command@);
                        assert(j < i + 1);
                    }
                }
            }
            proof {
                assert(codes@ =~= self@.codes_after(command@, exit_code).take(i + 1));
            }
            i = i + 1;
        }
        if ran {
            proof {
                assert(codes@ =~= self@.codes_after(command@, exit_code));
            }
            self.ran_test_command = true;
            self.last_test_exit_code = Some(exit_code);
            self.test_exit_codes = codes;
        }
    }

    /// Counts tokens that the model has used.
    pub fn record_tokens(&mut self, tokens: u64)
        ensures
            final(self)@ == (TaskModel {
                tokens_used: if old(self).tokens_used + tokens <= u64::MAX {
                    (old(self).tokens_used + tokens) as u64
                } else {
                    u64::MAX
                },
                ..old(self)@
            }),
    {
        self.tokens_used = if tokens <= u64::MAX - self.tokens_used {
            self.tokens_used + tokens
        } else {
            u64::MAX
        };
    }
}

/// A task that has not started.
pub open spec fn fresh_task(id: TaskId, manifest: ManifestModel, workdir: Seq<char>) -> TaskModel {
    TaskModel {
        id,
        manifest,
        workdir,
        status: TaskStatus::Idle,
        steps_used: 0,
        tokens_used: 0,
        ran_test_command: false,
        last_test_exit_code: None,
        test_exit_codes: Seq::empty(),
    }
}

} // verus!
