//! One run of a task from the command line: what is done next, and what is
//! printed, for everything that can come back.

use vstd::prelude::*;

use crate::args::RunArgs;
use crate::host_path::normalize_path;
use crate::ids::{CheckpointId, TaskId};
use crate::manifest::{normalize_manifest_paths, Manifest};
use crate::output::{manifest_line, LogLevel, LogLine};
use crate::provider::ProviderKind;
use crate::runtime::text_bytes;
use crate::task::{TaskErrorType, TaskStatus};
use crate::text::{cat, cat3, chars_of, copied, decimal_text, owned, signed_text};

verus! {

/// What a run waits for.
#[derive(Debug)]
pub enum RunStage {
    /// The manifest, read from its file.
    Manifest,
    /// That the working directory is safe.
    Safety(Manifest),
    /// The bundle from the standard input.
    Bundle(Manifest),
    /// The task, with its directory and its text in place.
    Task { from_bundle: bool, timeout_ms: u64 },
    /// The trace.
    Trace { timeout_ms: u64 },
    /// The checkpoint before the script.
    Checkpoint { script: String, timeout_ms: u64 },
    /// The end of the script.
    Script { id: CheckpointId, timeout_ms: u64 },
    /// The end of the rollback.
    Rollback,
    /// The report of the run with a model.
    Report,
    /// Nothing.
    Done,
}

/// What came back.
#[derive(Debug)]
pub enum RunEvent {
    Manifest(Manifest),
    Safe,
    /// The standard input is empty.
    NoBundle,
    Bundle { source_task_id: TaskId, files: usize },
    Task(TaskId),
    TraceOpen,
    Checkpoint(CheckpointId),
    /// The script ran and its outcome holds.
    ScriptPassed,
    ScriptFailed(String),
    /// The script had not ended when its time was over.
    ScriptTimedOut,
    RolledBack,
    Report { error_type: Option<TaskErrorType>, message: Option<String> },
}

/// What to do next.
#[derive(Debug)]
pub enum RunAction {
    /// Read the manifest at this path.
    LoadManifest(String),
    /// Check that this directory is safe to work in.
    CheckDirectory(String),
    /// Read the bundle from the standard input.
    ReadBundle,
    /// Make the directory, print the line, write the text, and make the task:
    /// a new one, or one from the bundle.
    StartTask { manifest: Manifest, from_bundle: bool, line: LogLine, text: String },
    /// Open the trace; write its first event and show what the model is told,
    /// where asked to.
    OpenTrace { log_start: bool, show_xml: bool },
    Checkpoint,
    /// Run the script at this path, and stop it when its time is over.
    RunScript { path: String, timeout_ms: u64 },
    Rollback(CheckpointId),
    /// Run the task with this model.
    RunModel { provider: String, model: Option<String>, base_url: Option<String> },
    /// Show the trace and the status, pack the bundle or not, and write the
    /// output.
    Close { mark_failed: bool, export: bool, output: Output },
}

/// What a run writes to its standard output at its end.
#[derive(Clone, Copy, Debug, PartialEq, Eq, Structural)]
pub enum Output {
    /// The bytes of the bundle.
    Bundle,
    /// One line that sums the run up.
    Summary,
    Nothing,
}

/// The output of a run that ends: on a pipe the bundle where there is one, on
/// a terminal a line.
pub open spec fn closing(export: bool, stdout_is_pipe: bool) -> Output {
    if !stdout_is_pipe {
        Output::Summary
    } else if export {
        Output::Bundle
    } else {
        Output::Nothing
    }
}

/// The output of a run that ends.
pub fn closing_output(export: bool, stdout_is_pipe: bool) -> (r: Output)
    ensures
        stdout_is_pipe && export ==> r is Bundle,
        stdout_is_pipe && !export ==> r is Nothing,
        !stdout_is_pipe ==> r is Summary,
        r == closing(export, stdout_is_pipe),
{
    if !stdout_is_pipe {
        Output::Summary
    } else if export {
        Output::Bundle
    } else {
        Output::Nothing
    }
}

/// The bytes of an output: those of the bundle alone, or the line with a line
/// feed, or none.
pub fn closing_bytes(output: Output, packed: Vec<u8>, line: &str) -> (r: Vec<u8>)
    ensures
        r@ == match output {
            Output::Bundle => packed@,
            Output::Summary => vstd::utf8::encode_utf8(line@).push(10u8),
            Output::Nothing => Seq::<u8>::empty(),
        },
{
    match output {
        Output::Bundle => packed,
        Output::Summary => {
            let mut r = text_bytes(line);
            r.push(10u8);
            r
        },
        Output::Nothing => Vec::new(),
    }
}

pub ghost enum StageModel {
    Manifest,
    Safety(crate::manifest::ManifestModel),
    Bundle(crate::manifest::ManifestModel),
    Task { from_bundle: bool, timeout_ms: u64 },
    Trace { timeout_ms: u64 },
    Checkpoint { script: Seq<char>, timeout_ms: u64 },
    Script { id: CheckpointId, timeout_ms: u64 },
    Rollback,
    Report,
    Done,
}

pub ghost enum RunEventModel {
    Manifest(crate::manifest::ManifestModel),
    Safe,
    NoBundle,
    Bundle { source_task_id: TaskId, files: usize },
    Task(TaskId),
    TraceOpen,
    Checkpoint(CheckpointId),
    ScriptPassed,
    ScriptFailed(Seq<char>),
    ScriptTimedOut,
    RolledBack,
    Report { error_type: Option<TaskErrorType>, message: Option<Seq<char>> },
}

pub ghost enum RunActionModel {
    LoadManifest(Seq<char>),
    CheckDirectory(Seq<char>),
    ReadBundle,
    StartTask {
        manifest: crate::manifest::ManifestModel,
        from_bundle: bool,
        line: crate::output::LineModel,
        text: Seq<char>,
    },
    OpenTrace { log_start: bool, show_xml: bool },
    Checkpoint,
    RunScript { path: Seq<char>, timeout_ms: u64 },
    Rollback(CheckpointId),
    RunModel { provider: Seq<char>, model: Option<Seq<char>>, base_url: Option<Seq<char>> },
    Close { mark_failed: bool, export: bool, output: Output },
}

impl View for RunStage {
    type V = StageModel;

    open spec fn view(&self) -> StageModel {
        match self {
            RunStage::Manifest => StageModel::Manifest,
            RunStage::Safety(m) => StageModel::Safety(m@),
            RunStage::Bundle(m) => StageModel::Bundle(m@),
            RunStage::Task { from_bundle, timeout_ms } => StageModel::Task {
                from_bundle: *from_bundle,
                timeout_ms: *timeout_ms,
            },
            RunStage::Trace { timeout_ms } => StageModel::Trace { timeout_ms: *timeout_ms },
            RunStage::Checkpoint { script, timeout_ms } => StageModel::Checkpoint {
                script: script@,
                timeout_ms: *timeout_ms,
            },
            RunStage::Script { id, timeout_ms } => StageModel::Script {
                id: *id,
                timeout_ms: *timeout_ms,
            },
            RunStage::Rollback => StageModel::Rollback,
            RunStage::Report => StageModel::Report,
            RunStage::Done => StageModel::Done,
        }
    }
}

impl View for RunEvent {
    type V = RunEventModel;

    open spec fn view(&self) -> RunEventModel {
        match self {
            RunEvent::Manifest(m) => RunEventModel::Manifest(m@),
            RunEvent::Safe => RunEventModel::Safe,
            RunEvent::NoBundle => RunEventModel::NoBundle,
            RunEvent::Bundle { source_task_id, files } => RunEventModel::Bundle {
                source_task_id: *source_task_id,
                files: *files,
            },
            RunEvent::Task(id) => RunEventModel::Task(*id),
            RunEvent::TraceOpen => RunEventModel::TraceOpen,
            RunEvent::Checkpoint(id) => RunEventModel::Checkpoint(*id),
            RunEvent::ScriptPassed => RunEventModel::ScriptPassed,
            RunEvent::ScriptFailed(m) => RunEventModel::ScriptFailed(m@),
            RunEvent::ScriptTimedOut => RunEventModel::ScriptTimedOut,
            RunEvent::RolledBack => RunEventModel::RolledBack,
            RunEvent::Report { error_type, message } => RunEventModel::Report {
                error_type: *error_type,
                message: crate::text::text_option(*message),
            },
        }
    }
}

impl View for RunAction {
    type V = RunActionModel;

    open spec fn view(&self) -> RunActionModel {
        match self {
            RunAction::LoadManifest(p) => RunActionModel::LoadManifest(p@),
            RunAction::CheckDirectory(p) => RunActionModel::CheckDirectory(p@),
            RunAction::ReadBundle => RunActionModel::ReadBundle,
            RunAction::StartTask { manifest, from_bundle, line, text } => {
                RunActionModel::StartTask {
                    manifest: manifest@,
                    from_bundle: *from_bundle,
                    line: line@,
                    text: text@,
                }
            },
            RunAction::OpenTrace { log_start, show_xml } => RunActionModel::OpenTrace {
                log_start: *log_start,
                show_xml: *show_xml,
            },
            RunAction::Checkpoint => RunActionModel::Checkpoint,
            RunAction::RunScript { path, timeout_ms } => RunActionModel::RunScript {
                path: path@,
                timeout_ms: *timeout_ms,
            },
            RunAction::Rollback(id) => RunActionModel::Rollback(*id),
            RunAction::RunModel { provider, model, base_url } => RunActionModel::RunModel {
                provider: provider@,
                model: crate::text::text_option(*model),
                base_url: crate::text::text_option(*base_url),
            },
            RunAction::Close { mark_failed, export, output } => RunActionModel::Close {
                mark_failed: *mark_failed,
                export: *export,
                output: *output,
            },
        }
    }
}

/// One run.
pub struct Run {
    args: RunArgs,
    task_text: String,
    workdir: String,
    stdin_is_pipe: bool,
    stdout_is_pipe: bool,
    stage: RunStage,
}

/// Where a run stands.
pub ghost struct RunModel {
    pub args: crate::args::RunArgsModel,
    pub task_text: Seq<char>,
    pub workdir: Seq<char>,
    pub stdin_is_pipe: bool,
    pub stdout_is_pipe: bool,
    pub stage: StageModel,
}

impl View for Run {
    type V = RunModel;

    closed spec fn view(&self) -> RunModel {
        RunModel {
            args: self.args@,
            task_text: self.task_text@,
            workdir: self.workdir@,
            stdin_is_pipe: self.stdin_is_pipe,
            stdout_is_pipe: self.stdout_is_pipe,
            stage: self.stage@,
        }
    }
}

/// What to print, and what to do then.
#[derive(Debug)]
pub struct RunTurn {
    pub lines: Vec<LogLine>,
    pub action: RunAction,
}

pub ghost struct RunTurnModel {
    pub stage: StageModel,
    pub lines: Seq<crate::output::LineModel>,
    pub action: RunActionModel,
}

pub open spec fn error_type_text(e: TaskErrorType) -> Seq<char> {
    match e {
        TaskErrorType::ValidationFailed => "ValidationFailed"@,
        TaskErrorType::SecurityViolation => "SecurityViolation"@,
        TaskErrorType::MaxStepsExceeded => "MaxStepsExceeded"@,
        TaskErrorType::TokenLimitExceeded => "TokenLimitExceeded"@,
        TaskErrorType::Timeout => "Timeout"@,
        TaskErrorType::ExecutionFailed => "ExecutionFailed"@,
        TaskErrorType::RollbackFailed => "RollbackFailed"@,
    }
}

fn error_type_name(e: TaskErrorType) -> (r: &'static str)
    ensures
        r@ == error_type_text(e),
{
    match e {
        TaskErrorType::ValidationFailed => "ValidationFailed",
        TaskErrorType::SecurityViolation => "SecurityViolation",
        TaskErrorType::MaxStepsExceeded => "MaxStepsExceeded",
        TaskErrorType::TokenLimitExceeded => "TokenLimitExceeded",
        TaskErrorType::Timeout => "Timeout",
        TaskErrorType::ExecutionFailed => "ExecutionFailed",
        TaskErrorType::RollbackFailed => "RollbackFailed",
    }
}

/// A text on one line: each line feed is a space.
pub open spec fn on_one_line(s: Seq<char>) -> Seq<char> {
    s.map_values(
        |c: char|
            if c == '\n' {
                ' '
            } else {
                c
            },
    )
}

fn one_line(s: &str) -> (r: String)
    ensures
        r@ == on_one_line(s@),
{
    let cs = chars_of(s);
    let mut r: String = String::new();
    let mut i: usize = 0;
    while i < cs.len()
        invariant
            i <= cs.len(),
            cs@ == s@,
            r@.len() == i,
            forall|k: int|
                0 <= k < i ==> #[trigger] r@[k] == (if s@[k] == '\n' {
                    ' '
                } else {
                    s@[k]
                }),
        decreases cs.len() - i,
    {
        if cs[i] == '\n' {
            r.push(' ');
        } else {
            r.push(cs[i]);
        }
        i = i + 1;
    }
    proof {
        assert(r@ =~= on_one_line(s@));
    }
    r
}

pub open spec fn info(text: Seq<char>) -> crate::output::LineModel {
    crate::output::LineModel { level: LogLevel::Info, text }
}

pub open spec fn warn(text: Seq<char>) -> crate::output::LineModel {
    crate::output::LineModel { level: LogLevel::Warn, text }
}

/// The manifest with its paths as they stand under the working directory.
pub open spec fn placed(m: crate::manifest::ManifestModel, workdir: Seq<char>) ->
    crate::manifest::ManifestModel {
    crate::manifest::ManifestModel {
        allow_read: crate::manifest::paths_under(workdir, m.allow_read),
        allow_write: crate::manifest::paths_under(workdir, m.allow_write),
        mandatory_artifacts: crate::manifest::paths_under(workdir, m.mandatory_artifacts),
        ..m
    }
}

pub open spec fn start_of(r: RunModel, m: crate::manifest::ManifestModel, from_bundle: bool) ->
    RunActionModel {
    RunActionModel::StartTask {
        manifest: m,
        from_bundle,
        line: info("task: "@ + on_one_line(r.task_text)),
        text: r.task_text,
    }
}

/// The message of a report.
pub open spec fn message_or_empty(m: Option<Seq<char>>) -> Seq<char> {
    match m {
        Some(t) => t,
        None => Seq::empty(),
    }
}

/// The run waits for this.
pub open spec fn run_awaits(stage: StageModel, e: RunEventModel) -> bool {
    match stage {
        StageModel::Manifest => e is Manifest,
        StageModel::Safety(_) => e is Safe,
        StageModel::Bundle(_) => e is NoBundle || e is Bundle,
        StageModel::Task { .. } => e is Task,
        StageModel::Trace { .. } => e is TraceOpen,
        StageModel::Checkpoint { .. } => e is Checkpoint,
        StageModel::Script { .. } => e is ScriptPassed || e is ScriptFailed || e is ScriptTimedOut,
        StageModel::Rollback => e is RolledBack,
        StageModel::Report => e is Report,
        StageModel::Done => false,
    }
}

/// A run whose script did not pass goes back to the checkpoint before it.
pub open spec fn undone(id: CheckpointId, why: Seq<char>) -> RunTurnModel {
    RunTurnModel {
        stage: StageModel::Rollback,
        lines: seq![
            warn("run failed: "@ + why),
            warn("initiating rollback to checkpoint: "@ + crate::ids::hyphenated(id.0)),
        ],
        action: RunActionModel::Rollback(id),
    }
}

/// The end of a run.
pub open spec fn closed(r: RunModel, mark_failed: bool, export: bool) -> RunActionModel {
    RunActionModel::Close { mark_failed, export, output: closing(export, r.stdout_is_pipe) }
}

/// What follows on an event; an error ends the run.
pub open spec fn run_turn(r: RunModel, e: RunEventModel) -> Result<RunTurnModel, Seq<char>> {
    let silent = Seq::<crate::output::LineModel>::empty();
    match (r.stage, e) {
        (StageModel::Manifest, RunEventModel::Manifest(m)) => Ok(
            RunTurnModel {
                stage: StageModel::Safety(placed(m, r.workdir)),
                lines: silent,
                action: RunActionModel::CheckDirectory(r.workdir),
            },
        ),
        (StageModel::Safety(m), _) => if r.stdin_is_pipe {
            Ok(
                RunTurnModel {
                    stage: StageModel::Bundle(m),
                    lines: seq![
                        info(crate::output::manifest_text(m)),
                        info("stdin is a pipe: importing task bundle..."@),
                    ],
                    action: RunActionModel::ReadBundle,
                },
            )
        } else {
            Ok(
                RunTurnModel {
                    stage: StageModel::Task { from_bundle: false, timeout_ms: m.timeout_ms },
                    lines: seq![info(crate::output::manifest_text(m))],
                    action: start_of(r, m, false),
                },
            )
        },
        (StageModel::Bundle(m), RunEventModel::Bundle { source_task_id, files }) => Ok(
            RunTurnModel {
                stage: StageModel::Task { from_bundle: true, timeout_ms: m.timeout_ms },
                lines: seq![
                    info(
                        "bundle loaded: source_task_id="@ + crate::ids::hyphenated(
                            source_task_id.0,
                        ) + ", files="@ + crate::text::decimal(files as nat),
                    ),
                ],
                action: start_of(r, m, true),
            },
        ),
        (StageModel::Bundle(m), _) => Err("stdin pipe contained no task bundle"@),
        (StageModel::Task { from_bundle, timeout_ms }, RunEventModel::Task(id)) => Ok(
            RunTurnModel {
                stage: StageModel::Trace { timeout_ms },
                lines: seq![info("task started: task_id="@ + crate::ids::hyphenated(id.0))],
                action: RunActionModel::OpenTrace {
                    log_start: !from_bundle,
                    show_xml: r.args.debug_xml,
                },
            },
        ),
        (StageModel::Trace { timeout_ms }, _) => match r.args.script {
            Some(script) => Ok(
                RunTurnModel {
                    stage: StageModel::Checkpoint { script, timeout_ms },
                    lines: silent,
                    action: RunActionModel::Checkpoint,
                },
            ),
            None => Ok(
                RunTurnModel {
                    stage: StageModel::Report,
                    lines: silent,
                    action: RunActionModel::RunModel {
                        provider: match r.args.provider {
                            Some(p) => p,
                            None => "openai-compatible"@,
                        },
                        model: r.args.model,
                        base_url: r.args.base_url,
                    },
                },
            ),
        },
        (StageModel::Checkpoint { script, timeout_ms }, RunEventModel::Checkpoint(id)) => Ok(
            RunTurnModel {
                stage: StageModel::Script { id, timeout_ms },
                lines: seq![info("checkpoint created: id="@ + crate::ids::hyphenated(id.0))],
                action: RunActionModel::RunScript {
                    path: crate::host_path::normalized(script),
                    timeout_ms,
                },
            },
        ),
        (StageModel::Script { id, timeout_ms }, RunEventModel::ScriptFailed(why)) => Ok(
            undone(id, why),
        ),
        (StageModel::Script { id, timeout_ms }, RunEventModel::ScriptTimedOut) => Ok(
            undone(id, "timeout_ms exceeded: "@ + crate::text::decimal(timeout_ms as nat)),
        ),
        (StageModel::Script { .. }, _) => Ok(
            RunTurnModel {
                stage: StageModel::Done,
                lines: silent,
                action: closed(r, false, true),
            },
        ),
        (StageModel::Rollback, _) => Ok(
            RunTurnModel {
                stage: StageModel::Done,
                lines: seq![
                    warn(
                        "rollback completed: original files restored; unrelated pre-existing files preserved"@,
                    ),
                ],
                action: closed(r, true, false),
            },
        ),
        (StageModel::Report, RunEventModel::Report { error_type, message }) => match error_type {
            Some(t) => Ok(
                RunTurnModel {
                    stage: StageModel::Done,
                    lines: seq![
                        warn(
                            "task report: error_type="@ + error_type_text(t) + " message="@
                                + message_or_empty(message),
                        ),
                    ],
                    action: closed(r, false, false),
                },
            ),
            None => Ok(
                RunTurnModel {
                    stage: StageModel::Done,
                    lines: silent,
                    action: closed(r, false, true),
                },
            ),
        },
        (stage, _) => Ok(
            RunTurnModel {
                stage,
                lines: silent,
                action: closed(r, false, false),
            },
        ),
    }
}

/// The task and the manifest that a run cannot do without.
#[derive(Debug)]
pub struct RequiredArgs {
    pub task: String,
    pub manifest: String,
}

/// Takes out what a run cannot do without.
pub fn required_args(args: &RunArgs) -> (r: Result<RequiredArgs, String>)
    ensures
        match (args@.task, args@.manifest) {
            (None, _) => r matches Err(m) && m@ == "run: missing --task"@,
            (Some(_), None) => r matches Err(m) && m@ == "run: missing --manifest"@,
            (Some(t), Some(p)) => r matches Ok(q) && q.task@ == t && q.manifest@ == p,
        },
{
    match (&args.task, &args.manifest) {
        (None, _) => Err(owned("run: missing --task")),
        (Some(_), None) => Err(owned("run: missing --manifest")),
        (Some(t), Some(p)) => Ok(
            RequiredArgs { task: owned(t.as_str()), manifest: owned(p.as_str()) },
        ),
    }
}

fn one(line: LogLine) -> (r: Vec<LogLine>)
    ensures
        crate::output::line_models(r@) == seq![line@],
{
    let mut v: Vec<LogLine> = Vec::new();
    v.push(line);
    proof {
        assert(crate::output::line_models(v@) =~= seq![line@]);
    }
    v
}

fn two(a: LogLine, b: LogLine) -> (r: Vec<LogLine>)
    ensures
        crate::output::line_models(r@) == seq![a@, b@],
{
    let mut v: Vec<LogLine> = Vec::new();
    v.push(a);
    v.push(b);
    proof {
        assert(crate::output::line_models(v@) =~= seq![a@, b@]);
    }
    v
}

fn none() -> (r: Vec<LogLine>)
    ensures
        crate::output::line_models(r@) == Seq::<crate::output::LineModel>::empty(),
{
    let v: Vec<LogLine> = Vec::new();
    proof {
        assert(crate::output::line_models(v@) =~= Seq::<crate::output::LineModel>::empty());
    }
    v
}

fn info_line(text: String) -> (r: LogLine)
    ensures
        r@ == info(text@),
{
    LogLine::new(LogLevel::Info, text)
}

fn warn_line(text: String) -> (r: LogLine)
    ensures
        r@ == warn(text@),
{
    LogLine::new(LogLevel::Warn, text)
}

impl Run {
    /// Begins a run in the working directory that the arguments name, or in
    /// the current one.
    pub fn begin(
        args: RunArgs,
        needed: RequiredArgs,
        stdin_is_pipe: bool,
        stdout_is_pipe: bool,
        cwd: &str,
    ) -> (r: (Run, RunAction))
        ensures
            r.0@ == (RunModel {
                args: args@,
                task_text: needed.task@,
                workdir: crate::host_path::normalized(
                    match args@.workdir {
                        Some(d) => d,
                        None => cwd@,
                    },
                ),
                stdin_is_pipe,
                stdout_is_pipe,
                stage: StageModel::Manifest,
            }),
            r.1@ == RunActionModel::LoadManifest(needed.manifest@),
    {
        let workdir = match &args.workdir {
            Some(d) => normalize_path(d.as_str()),
            None => normalize_path(cwd),
        };
        (
            Run {
                args,
                task_text: needed.task,
                workdir,
                stdin_is_pipe,
                stdout_is_pipe,
                stage: RunStage::Manifest,
            },
            RunAction::LoadManifest(needed.manifest),
        )
    }

    /// The working directory.
    pub fn workdir(&self) -> (r: &str)
        ensures
            r@ == self@.workdir,
    {
        self.workdir.as_str()
    }

    fn start(&self, manifest: Manifest, from_bundle: bool) -> (r: RunAction)
        ensures
            r@ == start_of(self@, manifest@, from_bundle),
    {
        let shown = one_line(self.task_text.as_str());
        RunAction::StartTask {
            manifest,
            from_bundle,
            line: info_line(cat("task: ", shown.as_str())),
            text: owned(self.task_text.as_str()),
        }
    }

    fn undo(&mut self, id: CheckpointId, why: String) -> (r: RunTurn)
        ensures
            crate::output::line_models(r.lines@) == undone(id, why@).lines,
            r.action@ == undone(id, why@).action,
            final(self)@ == (RunModel { stage: undone(id, why@).stage, ..old(self)@ }),
    {
        let first = warn_line(cat("run failed: ", why.as_str()));
        let second = warn_line(cat("initiating rollback to checkpoint: ", id.text().as_str()));
        self.stage = RunStage::Rollback;
        RunTurn { lines: two(first, second), action: RunAction::Rollback(id) }
    }

    fn close(&self, mark_failed: bool, export: bool) -> (r: RunAction)
        ensures
            r@ == closed(self@, mark_failed, export),
    {
        RunAction::Close {
            mark_failed,
            export,
            output: closing_output(export, self.stdout_is_pipe),
        }
    }

    fn stage_out(&mut self) -> (r: RunStage)
        ensures
            r == old(self).stage,
            final(self)@ == (RunModel { stage: StageModel::Done, ..old(self)@ }),
            final(self).args == old(self).args,
    {
        let mut out = RunStage::Done;
        std::mem::swap(&mut out, &mut self.stage);
        out
    }

    /// Goes on with what came back.
    pub fn step(&mut self, event: RunEvent) -> (r: Result<RunTurn, String>)
        requires
            run_awaits(old(self)@.stage, event@),
        ensures
            match run_turn(old(self)@, event@) {
                Ok(t) => {
                    &&& r matches Ok(turn)
                    &&& crate::output::line_models(turn.lines@) == t.lines
                    &&& turn.action@ == t.action
                    &&& final(self)@ == (RunModel { stage: t.stage, ..old(self)@ })
                },
                Err(why) => r matches Err(m) && m@ == why && final(self)@ == (RunModel {
                    stage: StageModel::Done,
                    ..old(self)@
                }),
            },
    {
        let stage = self.stage_out();
        match (stage, event) {
            (RunStage::Manifest, RunEvent::Manifest(m)) => {
                let m = normalize_manifest_paths(m, self.workdir.as_str());
                self.stage = RunStage::Safety(m);
                let at = owned(self.workdir.as_str());
                Ok(RunTurn { lines: none(), action: RunAction::CheckDirectory(at) })
            },
            (RunStage::Safety(m), _) => {
                let shown = manifest_line(&m);
                if self.stdin_is_pipe {
                    self.stage = RunStage::Bundle(m);
                    let note = info_line(owned("stdin is a pipe: importing task bundle..."));
                    Ok(RunTurn { lines: two(shown, note), action: RunAction::ReadBundle })
                } else {
                    let timeout_ms: u64 = m.timeout_ms;
                    let action = self.start(m, false);
                    self.stage = RunStage::Task { from_bundle: false, timeout_ms };
                    Ok(RunTurn { lines: one(shown), action })
                }
            },
            (RunStage::Bundle(m), RunEvent::Bundle { source_task_id, files }) => {
                let mut text = cat3(
                    "bundle loaded: source_task_id=",
                    source_task_id.text().as_str(),
                    ", files=",
                );
                text.append(decimal_text(files as u64).as_str());
                let timeout_ms: u64 = m.timeout_ms;
                let action = self.start(m, true);
                self.stage = RunStage::Task { from_bundle: true, timeout_ms };
                Ok(RunTurn { lines: one(info_line(text)), action })
            },
            (RunStage::Bundle(m), _) => Err(owned("stdin pipe contained no task bundle")),
            (RunStage::Task { from_bundle, timeout_ms }, RunEvent::Task(id)) => {
                let line = info_line(cat("task started: task_id=", id.text().as_str()));
                self.stage = RunStage::Trace { timeout_ms };
                Ok(
                    RunTurn {
                        lines: one(line),
                        action: RunAction::OpenTrace {
                            log_start: !from_bundle,
                            show_xml: self.args.debug_xml,
                        },
                    },
                )
            },
            (RunStage::Trace { timeout_ms }, _) => match &self.args.script {
                Some(script) => {
                    let script = owned(script.as_str());
                    self.stage = RunStage::Checkpoint { script, timeout_ms };
                    Ok(RunTurn { lines: none(), action: RunAction::Checkpoint })
                },
                None => {
                    let provider = match &self.args.provider {
                        Some(p) => owned(p.as_str()),
                        None => owned("openai-compatible"),
                    };
                    self.stage = RunStage::Report;
                    Ok(
                        RunTurn {
                            lines: none(),
                            action: RunAction::RunModel {
                                provider,
                                model: copied(&self.args.model),
                                base_url: copied(&self.args.base_url),
                            },
                        },
                    )
                },
            },
            (RunStage::Checkpoint { script, timeout_ms }, RunEvent::Checkpoint(id)) => {
                let line = info_line(cat("checkpoint created: id=", id.text().as_str()));
                self.stage = RunStage::Script { id, timeout_ms };
                Ok(
                    RunTurn {
                        lines: one(line),
                        action: RunAction::RunScript {
                            path: normalize_path(script.as_str()),
                            timeout_ms,
                        },
                    },
                )
            },
            (RunStage::Script { id, timeout_ms }, RunEvent::ScriptFailed(why)) => Ok(
                self.undo(id, why),
            ),
            (RunStage::Script { id, timeout_ms }, RunEvent::ScriptTimedOut) => {
                let why = cat("timeout_ms exceeded: ", decimal_text(timeout_ms).as_str());
                Ok(self.undo(id, why))
            },
            (RunStage::Script { .. }, _) => Ok(
                RunTurn {
                    lines: none(),
                    action: self.close(false, true),
                },
            ),
            (RunStage::Rollback, _) => {
                let line = warn_line(
                    owned(
                        "rollback completed: original files restored; unrelated pre-existing files preserved",
                    ),
                );
                Ok(
                    RunTurn {
                        lines: one(line),
                        action: self.close(true, false),
                    },
                )
            },
            (RunStage::Report, RunEvent::Report { error_type, message }) => match error_type {
                Some(t) => {
                    let told = match message {
                        Some(m) => m,
                        None => String::new(),
                    };
                    let mut text = cat3(
                        "task report: error_type=",
                        error_type_name(t),
                        " message=",
                    );
                    text.append(told.as_str());
                    Ok(
                        RunTurn {
                            lines: one(warn_line(text)),
                            action: self.close(false, false),
                        },
                    )
                },
                None => Ok(
                    RunTurn {
                        lines: none(),
                        action: self.close(false, true),
                    },
                ),
            },
            (_, _) => Ok(
                RunTurn {
                    lines: none(),
                    action: self.close(false, false),
                },
            ),
        }
    }
}

/// What a script comes to that has ended: it passed where its exit code is 0
/// and the outcome of the task holds, and failed otherwise.
pub open spec fn script_verdict(
    code: Option<i32>,
    outcome: Result<(), Seq<char>>,
) -> RunEventModel {
    if code != Some(0i32) {
        RunEventModel::ScriptFailed(
            "script failed: exit_code="@ + crate::text::signed_decimal(
                crate::execution::recorded_code(code) as int,
            ),
        )
    } else {
        match outcome {
            Ok(_) => RunEventModel::ScriptPassed,
            Err(why) => RunEventModel::ScriptFailed(why),
        }
    }
}

/// The event of a script that has ended, given its exit code, where it has
/// one, and whether the outcome of the task holds. Where the script failed by
/// itself, the outcome does not matter.
pub fn script_event(code: Option<i32>, outcome: Result<(), String>) -> (r: RunEvent)
    ensures
        r@ == script_verdict(
            code,
            match outcome {
                Ok(_) => Ok(()),
                Err(why) => Err(why@),
            },
        ),
{
    let exit_code: i32 = match code {
        Some(c) => c,
        None => -1,
    };
    if exit_code != 0 {
        let shown = signed_text(exit_code as i64);
        return RunEvent::ScriptFailed(cat("script failed: exit_code=", shown.as_str()));
    }
    match outcome {
        Ok(_) => RunEvent::ScriptPassed,
        Err(why) => RunEvent::ScriptFailed(why),
    }
}

pub open spec fn kind_text(k: ProviderKind) -> Seq<char> {
    match k {
        ProviderKind::OpenAiCompatible => "OpenAiCompatible"@,
        ProviderKind::Ollama => "Ollama"@,
    }
}

/// The line of a request to a model.
pub fn inference_line(kind: ProviderKind, model_id: &str, base_url: &str) -> (r: LogLine)
    ensures
        r@ == (crate::output::LineModel {
            level: LogLevel::Llm,
            text: "requesting inference (provider: "@ + kind_text(kind) + ", model: "@ + model_id@
                + ", base_url: "@ + base_url@ + ")..."@,
        }),
{
    let name = match kind {
        ProviderKind::OpenAiCompatible => "OpenAiCompatible",
        ProviderKind::Ollama => "Ollama",
    };
    let mut text = cat3("requesting inference (provider: ", name, ", model: ");
    text.append(model_id);
    text.append(", base_url: ");
    text.append(base_url);
    text.append(")...");
    LogLine::new(LogLevel::Llm, text)
}

/// The line that a run ends with on a terminal: with the size of the bundle,
/// or without one.
pub fn summary_line(
    id: TaskId,
    status: TaskStatus,
    workdir: &str,
    bundle_bytes: Option<usize>,
) -> (r: String)
    ensures
        r@ == "task_id="@ + crate::ids::hyphenated(id.0) + " status="@ + crate::task::status_text(
            status,
        ) + " workdir="@ + workdir@ + (match bundle_bytes {
            Some(n) => " bundle_bytes="@ + crate::text::decimal(n as nat),
            None => " bundle_exported=false"@,
        }),
{
    let mut r = cat3("task_id=", id.text().as_str(), " status=");
    r.append(status.text());
    r.append(" workdir=");
    r.append(workdir);
    let tail = match bundle_bytes {
        Some(n) => cat(" bundle_bytes=", decimal_text(n as u64).as_str()),
        None => owned(" bundle_exported=false"),
    };
    r.append(tail.as_str());
    r
}

/// A bundle leaves only a run whose script passed or whose report has no
/// error.
pub proof fn lemma_export_needs_success(r: RunModel, e: RunEventModel)
    requires
        run_awaits(r.stage, e),
        run_turn(r, e) matches Ok(t) && t.action matches RunActionModel::Close {
            mark_failed,
            export,
            output,
        } && export,
    ensures
        e is ScriptPassed || (e matches RunEventModel::Report { error_type, message }
            && error_type is None),
{
}

/// A script that fails, or does not end in its time, is rolled back to the
/// checkpoint made before it, and the task is then marked as failed, with no
/// bundle.
pub proof fn lemma_failed_script_rolls_back(
    r: RunModel,
    made: CheckpointId,
    e: RunEventModel,
)
    requires
        r.stage is Checkpoint,
        e is ScriptFailed || e is ScriptTimedOut,
    ensures
        run_turn(r, RunEventModel::Checkpoint(made)) matches Ok(t) && t.action is RunScript && {
            let running = RunModel { stage: t.stage, ..r };
            run_turn(running, e) matches Ok(u) && u.action
                == RunActionModel::Rollback(made) && {
                let undone = RunModel { stage: u.stage, ..r };
                run_turn(undone, RunEventModel::RolledBack) matches Ok(v) && v.action
                    == closed(r, true, false)
            }
        },
{
}

/// A script that exits with anything but 0 is rolled back, whatever the outcome
/// looks like, and so is one whose outcome does not hold; no bundle leaves.
pub proof fn lemma_scripts_export_only_on_success(
    r: RunModel,
    code: Option<i32>,
    outcome: Result<(), Seq<char>>,
)
    requires
        r.stage is Script,
    ensures
        run_awaits(r.stage, script_verdict(code, outcome)),
        run_turn(r, script_verdict(code, outcome)) matches Ok(t) && if code == Some(0i32)
            && outcome is Ok {
            t.action == closed(r, false, true)
        } else {
            t.action == RunActionModel::Rollback(r.stage->Script_id)
        },
{
}

/// A task is started only once its directory is known to be safe, and a
/// script only once there is a checkpoint.
pub proof fn lemma_nothing_starts_early(r: RunModel, e: RunEventModel)
    requires
        run_awaits(r.stage, e),
    ensures
        run_turn(r, e) matches Ok(t) ==> {
            &&& t.action is StartTask ==> r.stage is Safety || r.stage is Bundle
            &&& t.stage is Bundle ==> r.stage is Safety
            &&& t.stage is Safety ==> t.action == RunActionModel::CheckDirectory(r.workdir)
            &&& t.action is RunScript ==> e is Checkpoint
        },
{
}

/// A script runs within the time that the manifest of its task grants, whether
/// the task is new or comes from a bundle.
pub proof fn lemma_scripts_are_bounded(
    r: RunModel,
    m: crate::manifest::ManifestModel,
    e: RunEventModel,
    task: TaskId,
    made: CheckpointId,
    script: Seq<char>,
)
    requires
        r.stage == StageModel::Safety(m) && !r.stdin_is_pipe && e is Safe || r.stage
            == StageModel::Bundle(m) && e is Bundle,
        r.args.script == Some(script),
    ensures
        run_turn(r, e) matches Ok(a) && {
            let started = RunModel { stage: a.stage, ..r };
            run_turn(started, RunEventModel::Task(task)) matches Ok(b) && {
                let traced = RunModel { stage: b.stage, ..r };
                run_turn(traced, RunEventModel::TraceOpen) matches Ok(c) && {
                    let waiting = RunModel { stage: c.stage, ..r };
                    run_turn(waiting, RunEventModel::Checkpoint(made)) matches Ok(d) && d.action
                        == (RunActionModel::RunScript {
                        path: crate::host_path::normalized(script),
                        timeout_ms: m.timeout_ms,
                    })
                }
            }
        },
{
}

/// What a run writes to its standard output: on a pipe the bundle, where the
/// script passed or the report has no error, and nothing otherwise; on a
/// terminal one line, and never the bundle.
pub proof fn lemma_output_follows_the_pipe(r: RunModel, e: RunEventModel)
    requires
        run_awaits(r.stage, e),
    ensures
        run_turn(r, e) matches Ok(t) ==> (t.action matches RunActionModel::Close {
            mark_failed,
            export,
            output,
        } ==> {
            let consistent = e is ScriptPassed || (e matches RunEventModel::Report {
                error_type,
                message,
            } && error_type is None);
            &&& export == consistent
            &&& r.stdout_is_pipe && consistent ==> output is Bundle
            &&& r.stdout_is_pipe && !consistent ==> output is Nothing
            &&& !r.stdout_is_pipe ==> output is Summary
        }),
{
}

/// An empty pipe on the standard input ends a run with an error, before its
/// directory is made.
pub proof fn lemma_empty_pipe_is_refused(r: RunModel)
    requires
        r.stage is Bundle,
    ensures
        run_turn(r, RunEventModel::NoBundle) is Err,
{
}

} // verus!
