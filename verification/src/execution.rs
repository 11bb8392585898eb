//! Running one command of a task: the fences it has to pass, and what its
//! outcome means for the task.

use vstd::prelude::*;

use crate::host_path::{normalize_path, path_starts_with, resolve_task_path};
use crate::ids::TaskId;
use crate::manifest::AccessType;
use crate::task::{Task, TaskModel, TaskStatus};
use crate::task_fs::{
    block_task_fs, ensure_task_fs_unblocked, register_task, TaskTable, TransactionError,
};
use crate::text::{
    begins_with, begins_with_char, cat, cat3, clone_texts, debug_of, decimal_text, ends_with,
    has_char, has_text, is_empty_text, join_texts, owned, same_text, to_lower,
};
use crate::trace::{EventModel, TaskEvent, TraceError};

verus! {

/// A command to run: the program and its arguments, where to run it, and the
/// paths it declares to read and write.
#[derive(Clone, Debug, PartialEq, Eq)]
pub struct CommandSpec {
    pub program: String,
    pub args: Vec<String>,
    pub cwd: Option<String>,
    pub reads: Vec<String>,
    pub writes: Vec<String>,
}

/// The contents of a `CommandSpec`.
pub struct CommandModel {
    pub program: Seq<char>,
    pub args: Seq<Seq<char>>,
    pub cwd: Option<Seq<char>>,
    pub reads: Seq<Seq<char>>,
    pub writes: Seq<Seq<char>>,
}

impl View for CommandSpec {
    type V = CommandModel;

    open spec fn view(&self) -> CommandModel {
        CommandModel {
            program: self.program@,
            args: crate::text::texts(self.args@),
            cwd: match self.cwd {
                Some(c) => Some(c@),
                None => None,
            },
            reads: crate::text::texts(self.reads@),
            writes: crate::text::texts(self.writes@),
        }
    }
}

/// What a finished command left behind.
#[derive(Clone, Debug, PartialEq, Eq)]
pub struct StepOutput {
    pub status_code: Option<i32>,
    pub stdout: Vec<u8>,
    pub stderr: Vec<u8>,
}

/// Why a command did not run or could not be recorded.
#[derive(Clone, Debug, PartialEq, Eq)]
pub enum ExecutionError {
    MaxStepsExceeded(usize),
    Violation(String),
    Transaction(TransactionError),
    Join(String),
    Io { program: String, source: String },
    Trace(TraceError),
}

impl ExecutionError {
    /// The message shown for this error.
    pub open spec fn text(&self) -> Seq<char> {
        match self {
            ExecutionError::MaxStepsExceeded(n) => "max_steps exceeded: "@ + crate::text::decimal(
                *n as nat,
            ),
            ExecutionError::Violation(m) => "permission violation: "@ + m@,
            ExecutionError::Transaction(e) => "task filesystem: "@ + e.text(),
            ExecutionError::Join(m) => "command worker failed: "@ + m@,
            ExecutionError::Io { program, source } => "io while executing "@ + program@ + ": "@
                + source@,
            ExecutionError::Trace(e) => "trace: "@ + e.text(),
        }
    }

    /// The message shown for this error.
    pub fn message(&self) -> (r: String)
        ensures
            r@ == self.text(),
    {
        match self {
            ExecutionError::MaxStepsExceeded(n) => {
                let t = decimal_text(*n as u64);
                cat("max_steps exceeded: ", t.as_str())
            },
            ExecutionError::Violation(m) => cat("permission violation: ", m.as_str()),
            ExecutionError::Transaction(e) => {
                let t = e.message();
                cat("task filesystem: ", t.as_str())
            },
            ExecutionError::Join(m) => cat("command worker failed: ", m.as_str()),
            ExecutionError::Io { program, source } => {
                let mut r = cat3("io while executing ", program.as_str(), ": ");
                r.append(source.as_str());
                r
            },
            ExecutionError::Trace(e) => {
                let t = e.message();
                cat("trace: ", t.as_str())
            },
        }
    }
}

/// One thing to do on behalf of a task, in order. Where a `Log` fails, what
/// stands behind it is not done.
#[derive(Clone, Debug, PartialEq, Eq)]
pub enum Effect {
    SetStatus(TaskStatus),
    Log(TaskEvent),
    BlockFs,
}

/// The contents of an `Effect`.
pub enum EffectModel {
    SetStatus(TaskStatus),
    Log(EventModel),
    BlockFs,
}

impl View for Effect {
    type V = EffectModel;

    open spec fn view(&self) -> EffectModel {
        match self {
            Effect::SetStatus(s) => EffectModel::SetStatus(*s),
            Effect::Log(e) => EffectModel::Log(e@),
            Effect::BlockFs => EffectModel::BlockFs,
        }
    }
}

pub open spec fn effect_models(s: Seq<Effect>) -> Seq<EffectModel> {
    s.map_values(|e: Effect| e@)
}

/// Does what `effect` says to the task and the table; writing the trace is
/// the caller's part.
pub fn apply_effect(task: &mut Task, tasks: &mut TaskTable, effect: &Effect)
    ensures
        match effect@ {
            EffectModel::SetStatus(s) => final(task)@ == old(task)@.with_status(s) && final(tasks)@
                == old(tasks)@,
            EffectModel::Log(_) => final(task)@ == old(task)@ && final(tasks)@ == old(tasks)@,
            EffectModel::BlockFs => final(task)@ == old(task)@ && final(tasks)@
                == crate::task_fs::blocked(old(tasks)@, old(task).id),
        },
{
    match effect {
        Effect::SetStatus(s) => {
            task.status = *s;
        },
        Effect::Log(_) => {},
        Effect::BlockFs => {
            block_task_fs(tasks, task.id);
        },
    }
}

/// Shell interpreters: one entry in a list of allowed programs that would
/// allow every program.
pub open spec fn is_shell(name: Seq<char>) -> bool {
    ||| name == "sh"@
    ||| name == "bash"@
    ||| name == "zsh"@
    ||| name == "dash"@
    ||| name == "ksh"@
    ||| name == "csh"@
    ||| name == "tcsh"@
    ||| name == "fish"@
    ||| name == "ash"@
    ||| name == "powershell"@
    ||| name == "pwsh"@
    ||| name == "cmd"@
}

/// The program's name in small letters and without `.exe`.
pub open spec fn bare_name(program: Seq<char>) -> Seq<char> {
    let lc = crate::text::lowered(program);
    if ".exe"@.is_suffix_of(lc) {
        lc.take(lc.len() - ".exe"@.len())
    } else {
        lc
    }
}

fn is_shell_name(name: &str) -> (r: bool)
    ensures
        r == is_shell(name@),
{
    same_text(name, "sh") || same_text(name, "bash") || same_text(name, "zsh") || same_text(
        name,
        "dash",
    ) || same_text(name, "ksh") || same_text(name, "csh") || same_text(name, "tcsh") || same_text(
        name,
        "fish",
    ) || same_text(name, "ash") || same_text(name, "powershell") || same_text(name, "pwsh")
        || same_text(name, "cmd")
}

fn bare_program(program: &str) -> (r: String)
    ensures
        r@ == bare_name(program@),
{
    let lc = to_lower(program);
    if ends_with(lc.as_str(), ".exe") {
        let cs = crate::text::chars_of(lc.as_str());
        proof {
            reveal_strlit(".exe");
            assert(lc@.subrange(0, lc@.len() - 4) =~= lc@.take(lc@.len() - 4));
        }
        crate::text::text_between(cs.as_slice(), 0, cs.len() - 4)
    } else {
        lc
    }
}

/// A character that no argument may hold: a line break or a null.
pub open spec fn has_control(s: Seq<char>) -> bool {
    s.contains('\n') || s.contains('\r') || s.contains('\0')
}

fn has_forbidden_control_char(s: &str) -> (r: bool)
    ensures
        r == has_control(s@),
{
    has_char(s, '\n') || has_char(s, '\r') || has_char(s, '\0')
}

/// Why an argument looks like a path out of the working directory, where it
/// does.
pub open spec fn arg_violation(arg: Seq<char>) -> Option<Seq<char>> {
    if arg.len() > 0 && (arg[0] == '/' || arg[0] == '\\') {
        Some("absolute path"@)
    } else if arg.len() > 0 && arg[0] == '~' {
        Some("home-relative path"@)
    } else if crate::text::contains_text(arg, "=/"@) || crate::text::contains_text(arg, "=\\"@)
        || crate::text::contains_text(arg, "=~"@) {
        Some("flag with absolute or home path value"@)
    } else if arg == ".."@ || "../"@.is_prefix_of(arg) || "..\\"@.is_prefix_of(arg)
        || crate::text::contains_text(arg, "/../"@) || crate::text::contains_text(arg, "\\..\\"@)
        || "/.."@.is_suffix_of(arg) || "\\.."@.is_suffix_of(arg) {
        Some("parent-dir traversal"@)
    } else {
        None
    }
}

fn arg_path_violation(arg: &str) -> (r: Option<&'static str>)
    ensures
        match r {
            Some(m) => arg_violation(arg@) == Some(m@),
            None => arg_violation(arg@) is None,
        },
{
    if begins_with_char(arg, '/') || begins_with_char(arg, '\\') {
        return Some("absolute path");
    }
    if begins_with_char(arg, '~') {
        return Some("home-relative path");
    }
    if has_text(arg, "=/") || has_text(arg, "=\\") || has_text(arg, "=~") {
        return Some("flag with absolute or home path value");
    }
    if same_text(arg, "..") || begins_with(arg, "../") || begins_with(arg, "..\\") || has_text(
        arg,
        "/../",
    ) || has_text(arg, "\\..\\") || ends_with(arg, "/..") || ends_with(arg, "\\..") {
        return Some("parent-dir traversal");
    }
    None
}

/// Why the program is refused, where it is.
pub open spec fn program_refusal(program: Seq<char>) -> Option<Seq<char>> {
    if program.len() == 0 {
        Some("empty program"@)
    } else if program.contains('/') || program.contains('\\') {
        Some(
            "program must be a bare binary name (resolved via PATH), got: "@
                + crate::text::debug_text(program),
        )
    } else if program[0] == '-' {
        Some("program looks like a flag: "@ + crate::text::debug_text(program))
    } else if has_control(program) {
        Some("program contains control character: "@ + crate::text::debug_text(program))
    } else if is_shell(bare_name(program)) {
        Some(
            "shell interpreters are denied (this is the `sh -c …` class): "@
                + crate::text::debug_text(program),
        )
    } else {
        None
    }
}

/// Why one of the arguments from index `i` on is refused, where one is.
pub open spec fn args_refusal(args: Seq<Seq<char>>, i: int) -> Option<Seq<char>>
    decreases args.len() - i,
{
    if i < 0 || i >= args.len() {
        None
    } else if has_control(args[i]) {
        Some(
            "arg "@ + crate::text::decimal(i as nat) + " contains a control character: "@
                + crate::text::debug_text(args[i]),
        )
    } else {
        match arg_violation(args[i]) {
            Some(reason) => Some(
                "arg "@ + crate::text::decimal(i as nat) + " "@ + reason + ": "@
                    + crate::text::debug_text(args[i]),
            ),
            None => args_refusal(args, i + 1),
        }
    }
}

/// Why one of the declared paths from index `i` on is refused, where one is.
pub open spec fn declared_refusal(label: Seq<char>, paths: Seq<Seq<char>>, i: int) -> Option<
    Seq<char>,
>
    decreases paths.len() - i,
{
    if i < 0 || i >= paths.len() {
        None
    } else {
        match arg_violation(paths[i]) {
            Some(reason) => Some("declared "@ + label + " path "@ + reason + ": "@ + paths[i]),
            None => declared_refusal(label, paths, i + 1),
        }
    }
}

/// Why the directory to run in is refused, where it is.
pub open spec fn cwd_refusal(cwd: Option<Seq<char>>) -> Option<Seq<char>> {
    match cwd {
        None => None,
        Some(c) => match arg_violation(c) {
            Some(reason) => Some("cwd "@ + reason + ": "@ + c),
            None => None,
        },
    }
}

/// Why a command is refused outright, where it is: the program is looked at
/// first, then the arguments, the declared reads, the declared writes and the
/// directory.
pub open spec fn command_refusal(c: CommandModel) -> Option<Seq<char>> {
    if program_refusal(c.program) is Some {
        program_refusal(c.program)
    } else if args_refusal(c.args, 0) is Some {
        args_refusal(c.args, 0)
    } else if declared_refusal("read"@, c.reads, 0) is Some {
        declared_refusal("read"@, c.reads, 0)
    } else if declared_refusal("write"@, c.writes, 0) is Some {
        declared_refusal("write"@, c.writes, 0)
    } else {
        cwd_refusal(c.cwd)
    }
}

fn check_program(program: &str) -> (r: Result<(), String>)
    ensures
        match r {
            Ok(_) => program_refusal(program@) is None,
            Err(m) => program_refusal(program@) == Some(m@),
        },
{
    if is_empty_text(program) {
        return Err(owned("empty program"));
    }
    let quoted = debug_of(program);
    if has_char(program, '/') || has_char(program, '\\') {
        return Err(
            cat(
                "program must be a bare binary name (resolved via PATH), got: ",
                quoted.as_str(),
            ),
        );
    }
    if begins_with_char(program, '-') {
        return Err(cat("program looks like a flag: ", quoted.as_str()));
    }
    if has_forbidden_control_char(program) {
        return Err(cat("program contains control character: ", quoted.as_str()));
    }
    let bare = bare_program(program);
    if is_shell_name(bare.as_str()) {
        return Err(
            cat(
                "shell interpreters are denied (this is the `sh -c …` class): ",
                quoted.as_str(),
            ),
        );
    }
    Ok(())
}

fn check_args(args: &Vec<String>) -> (r: Result<(), String>)
    ensures
        match r {
            Ok(_) => args_refusal(crate::text::texts(args@), 0) is None,
            Err(m) => args_refusal(crate::text::texts(args@), 0) == Some(m@),
        },
{
    let ghost all = crate::text::texts(args@);
    let mut i: usize = 0;
    while i < args.len()
        invariant
            i <= args.len(),
            all == crate::text::texts(args@),
            args_refusal(all, 0) == args_refusal(all, i as int),
        decreases args.len() - i,
    {
        let arg = args[i].as_str();
        proof {
            assert(all[i as int] == arg@);
        }
        if has_forbidden_control_char(arg) {
            let n = decimal_text(i as u64);
            let quoted = debug_of(arg);
            let mut m = cat3("arg ", n.as_str(), " contains a control character: ");
            m.append(quoted.as_str());
            return Err(m);
        }
        if let Some(reason) = arg_path_violation(arg) {
            let n = decimal_text(i as u64);
            let quoted = debug_of(arg);
            let mut m = cat3("arg ", n.as_str(), " ");
            m.append(reason);
            m.append(": ");
            m.append(quoted.as_str());
            return Err(m);
        }
        i = i + 1;
    }
    Ok(())
}

fn check_declared(label: &str, paths: &Vec<String>) -> (r: Result<(), String>)
    ensures
        match r {
            Ok(_) => declared_refusal(label@, crate::text::texts(paths@), 0) is None,
            Err(m) => declared_refusal(label@, crate::text::texts(paths@), 0) == Some(m@),
        },
{
    let ghost all = crate::text::texts(paths@);
    let mut i: usize = 0;
    while i < paths.len()
        invariant
            i <= paths.len(),
            all == crate::text::texts(paths@),
            declared_refusal(label@, all, 0) == declared_refusal(label@, all, i as int),
        decreases paths.len() - i,
    {
        let p = paths[i].as_str();
        proof {
            assert(all[i as int] == p@);
        }
        if let Some(reason) = arg_path_violation(p) {
            let mut m = cat3("declared ", label, " path ");
            m.append(reason);
            m.append(": ");
            m.append(p);
            return Err(m);
        }
        i = i + 1;
    }
    Ok(())
}

/// The fence that every command passes before any manifest is looked at.
/// Returns the reason where the command is refused outright.
pub fn validate_command_spec(spec: &CommandSpec) -> (r: Result<(), String>)
    ensures
        match r {
            Ok(_) => command_refusal(spec@) is None,
            Err(m) => command_refusal(spec@) == Some(m@),
        },
{
    check_program(spec.program.as_str())?;
    check_args(&spec.args)?;
    check_declared("read", &spec.reads)?;
    check_declared("write", &spec.writes)?;
    if let Some(cwd) = &spec.cwd {
        if let Some(reason) = arg_path_violation(cwd.as_str()) {
            let mut m = cat3("cwd ", reason, ": ");
            m.append(cwd.as_str());
            return Err(m);
        }
    }
    Ok(())
}

/// Where a command runs: the directory it names, or the working directory.
pub open spec fn run_dir(task: TaskModel, c: CommandModel) -> Seq<char> {
    match c.cwd {
        Some(d) => crate::host_path::task_path(task.workdir, d),
        None => crate::host_path::normalized(task.workdir),
    }
}

/// Where a command runs.
pub fn command_cwd(task: &Task, command: &CommandSpec) -> (r: String)
    ensures
        r@ == run_dir(task@, command@),
{
    match &command.cwd {
        Some(cwd) => resolve_task_path(task.workdir.as_str(), cwd.as_str()),
        None => normalize_path(task.workdir.as_str()),
    }
}

/// The command as one line: the program and its arguments with spaces between
/// them.
pub open spec fn rendered_command(c: CommandModel) -> Seq<char> {
    crate::text::joined_with(seq![c.program] + c.args, " "@)
}

/// The command as one line.
pub fn command_line(command: &CommandSpec) -> (r: String)
    ensures
        r@ == rendered_command(command@),
{
    let mut words: Vec<String> = Vec::new();
    words.push(owned(command.program.as_str()));
    let mut args = clone_texts(&command.args);
    let ghost tail = args@;
    words.append(&mut args);
    proof {
        assert(crate::text::texts(words@) =~= seq![command.program@] + crate::text::texts(tail));
    }
    join_texts(&words, " ")
}

/// The record of one access check.
pub open spec fn access_event(path: Seq<char>, access: AccessType, allowed: bool) -> EffectModel {
    EffectModel::Log(EventModel::FileAccess { path, access, allowed })
}

/// The checks of declared paths from index `i` on: each is recorded, and the
/// first that is not allowed ends them.
pub open spec fn declared_checks(
    task: TaskModel,
    paths: Seq<Seq<char>>,
    access: AccessType,
    verb: Seq<char>,
    i: int,
) -> (Seq<EffectModel>, Option<Seq<char>>)
    decreases paths.len() - i,
{
    if i < 0 || i >= paths.len() {
        (Seq::empty(), None)
    } else {
        let path = crate::host_path::task_path(task.workdir, paths[i]);
        let allowed = task.manifest.allows(path, access);
        let event = access_event(path, access, allowed);
        if !allowed {
            (seq![event], Some(verb + " denied: "@ + path))
        } else {
            let rest = declared_checks(task, paths, access, verb, i + 1);
            (seq![event] + rest.0, rest.1)
        }
    }
}

/// What a manifest says to a command: the checks to record, and the reason
/// where it is denied.
pub open spec fn manifest_checks(task: TaskModel, c: CommandModel) -> (
    Seq<EffectModel>,
    Option<Seq<char>>,
) {
    let allowed = task.manifest.allows(c.program, AccessType::Exec);
    let exec = access_event(c.program, AccessType::Exec, allowed);
    if !allowed {
        (seq![exec], Some("exec denied: "@ + c.program))
    } else if !crate::host_path::is_under(
        run_dir(task, c),
        crate::host_path::normalized(task.workdir),
    ) {
        (seq![exec], Some("cwd escapes task workdir: "@ + run_dir(task, c)))
    } else {
        let reads = declared_checks(task, c.reads, AccessType::Read, "read"@, 0);
        if reads.1 is Some {
            (seq![exec] + reads.0, reads.1)
        } else {
            let writes = declared_checks(task, c.writes, AccessType::Write, "write"@, 0);
            (seq![exec] + reads.0 + writes.0, writes.1)
        }
    }
}

fn check_declared_access(
    task: &Task,
    paths: &Vec<String>,
    access: AccessType,
    verb: &str,
    effects: &mut Vec<Effect>,
) -> (r: Option<String>)
    ensures
        effect_models(final(effects)@) == effect_models(old(effects)@) + declared_checks(
            task@,
            crate::text::texts(paths@),
            access,
            verb@,
            0,
        ).0,
        match r {
            Some(m) => declared_checks(task@, crate::text::texts(paths@), access, verb@, 0).1
                == Some(m@),
            None => declared_checks(task@, crate::text::texts(paths@), access, verb@, 0).1 is None,
        },
{
    let ghost all = crate::text::texts(paths@);
    let ghost start = effect_models(effects@);
    let ghost whole = declared_checks(task@, all, access, verb@, 0);
    let mut i: usize = 0;
    proof {
        assert(start + whole.0 =~= effect_models(effects@) + declared_checks(
            task@,
            all,
            access,
            verb@,
            0,
        ).0);
    }
    while i < paths.len()
        invariant
            i <= paths.len(),
            all == crate::text::texts(paths@),
            start == effect_models(old(effects)@),
            whole == declared_checks(task@, all, access, verb@, 0),
            start + whole.0 == effect_models(effects@) + declared_checks(
                task@,
                all,
                access,
                verb@,
                i as int,
            ).0,
            whole.1 == declared_checks(task@, all, access, verb@, i as int).1,
        decreases paths.len() - i,
    {
        let ghost before = effect_models(effects@);
        let path = resolve_task_path(task.workdir.as_str(), paths[i].as_str());
        proof {
            assert(all[i as int] == paths@[i as int]@);
        }
        let allowed = task.manifest.is_allowed(path.as_str(), access);
        effects.push(
            Effect::Log(TaskEvent::FileAccess { path: owned(path.as_str()), access, allowed }),
        );
        proof {
            let event = access_event(path@, access, allowed);
            assert(effect_models(effects@) =~= before.push(event));
            let rest = declared_checks(task@, all, access, verb@, i + 1).0;
            assert(before + (seq![event] + rest) =~= before.push(event) + rest);
            assert(before + seq![event] =~= before.push(event));
        }
        if !allowed {
            return Some(cat3(verb, " denied: ", path.as_str()));
        }
        i = i + 1;
    }
    proof {
        assert(start + whole.0 =~= effect_models(effects@));
    }
    None
}

/// Holds a command against the manifest of its task: adds the records of the
/// checks to `effects`, and returns the reason where the command is denied.
pub fn check_manifest(task: &Task, command: &CommandSpec, effects: &mut Vec<Effect>) -> (r: Option<
    String,
>)
    ensures
        effect_models(final(effects)@) == effect_models(old(effects)@) + manifest_checks(
            task@,
            command@,
        ).0,
        match r {
            Some(m) => manifest_checks(task@, command@).1 == Some(m@),
            None => manifest_checks(task@, command@).1 is None,
        },
{
    let ghost start = effect_models(effects@);
    let allowed = task.manifest.is_allowed(command.program.as_str(), AccessType::Exec);
    effects.push(
        Effect::Log(
            TaskEvent::FileAccess {
                path: owned(command.program.as_str()),
                access: AccessType::Exec,
                allowed,
            },
        ),
    );
    let ghost exec = access_event(command.program@, AccessType::Exec, allowed);
    proof {
        assert(effect_models(effects@) =~= start.push(exec));
        assert(start + seq![exec] =~= start.push(exec));
    }
    if !allowed {
        return Some(cat("exec denied: ", command.program.as_str()));
    }
    let workdir = normalize_path(task.workdir.as_str());
    let cwd = command_cwd(task, command);
    if !path_starts_with(cwd.as_str(), workdir.as_str()) {
        return Some(cat("cwd escapes task workdir: ", cwd.as_str()));
    }
    let denied = check_declared_access(task, &command.reads, AccessType::Read, "read", effects);
    let ghost reads = declared_checks(task@, command@.reads, AccessType::Read, "read"@, 0);
    proof {
        assert(start.push(exec) + reads.0 =~= start + (seq![exec] + reads.0));
    }
    if denied.is_some() {
        return denied;
    }
    let denied = check_declared_access(task, &command.writes, AccessType::Write, "write", effects);
    proof {
        let writes = declared_checks(task@, command@.writes, AccessType::Write, "write"@, 0);
        assert(start + (seq![exec] + reads.0) + writes.0 =~= start + (seq![exec] + reads.0
            + writes.0));
    }
    denied
}

/// What follows a denial: the violation is recorded, the task's files are
/// blocked, and the task is finished.
pub open spec fn denial(reason: Seq<char>) -> Seq<EffectModel> {
    seq![
        EffectModel::SetStatus(TaskStatus::Violation),
        EffectModel::Log(EventModel::ViolationOccurred { reason }),
        EffectModel::BlockFs,
        EffectModel::Log(EventModel::TaskFinished { status: TaskStatus::Violation }),
    ]
}

/// Adds what follows a denial to `effects`.
pub fn push_denial(effects: &mut Vec<Effect>, reason: &str)
    ensures
        effect_models(final(effects)@) == effect_models(old(effects)@) + denial(reason@),
{
    let ghost start = effect_models(effects@);
    effects.push(Effect::SetStatus(TaskStatus::Violation));
    effects.push(Effect::Log(TaskEvent::ViolationOccurred { reason: owned(reason) }));
    effects.push(Effect::BlockFs);
    effects.push(Effect::Log(TaskEvent::TaskFinished { status: TaskStatus::Violation }));
    proof {
        assert(effect_models(effects@) =~= start + denial(reason@));
    }
}

/// Whether to start a command, and where.
#[derive(Debug)]
pub enum StepDecision {
    Refuse(ExecutionError),
    Spawn { program: String, args: Vec<String>, cwd: String },
}

/// What to do first, and what then.
#[derive(Debug)]
pub struct StepPlan {
    pub effects: Vec<Effect>,
    pub decision: StepDecision,
}

/// The task with one more step used.
pub open spec fn stepped(task: TaskModel) -> TaskModel {
    TaskModel { steps_used: (task.steps_used + 1) as usize, ..task }
}

/// What follows a step of a blocked task.
pub open spec fn blocked_effects(id: TaskId) -> Seq<EffectModel> {
    seq![
        EffectModel::SetStatus(TaskStatus::Violation),
        EffectModel::Log(
            EventModel::ViolationOccurred { reason: TransactionError::FilesystemBlocked(id).text() },
        ),
    ]
}

/// The effects and the refusal of a command, or no refusal where it starts,
/// for a task that has steps left and is or is not blocked.
pub open spec fn fences(task: TaskModel, is_blocked: bool, c: CommandModel) -> (
    Seq<EffectModel>,
    Option<StepRefusal>,
) {
    if is_blocked {
        (blocked_effects(task.id), Some(StepRefusal::Blocked))
    } else {
        match command_refusal(c) {
            Some(reason) => (denial(reason), Some(StepRefusal::Denied(reason))),
            None => {
                let checks = manifest_checks(task, c);
                match checks.1 {
                    Some(reason) => (
                        checks.0 + denial(reason),
                        Some(StepRefusal::Denied(reason)),
                    ),
                    None => (checks.0.push(EffectModel::SetStatus(TaskStatus::Running)), None),
                }
            },
        }
    }
}

/// Why a command is not started.
pub enum StepRefusal {
    Blocked,
    Denied(Seq<char>),
}

/// The table holds the task with its files blocked.
pub open spec fn is_blocked_in(
    table: Map<u128, crate::task_fs::FsModel>,
    id: TaskId,
) -> bool {
    table.dom().contains(id.0) && table[id.0].blocked
}

/// Opens a step: the task is registered and the step is counted. Returns the
/// refusal of a task without steps left, and of a blocked one.
fn open_step(task: &mut Task, tasks: &mut TaskTable) -> (r: Result<(), StepPlan>)
    ensures
        final(tasks)@ == crate::task_fs::registered(old(tasks)@, old(task).id, old(task).workdir@),
        if old(task).steps_used >= old(task).manifest.max_steps {
            &&& final(task)@ == old(task)@
            &&& r matches Err(plan)
            &&& plan.effects@.len() == 0
            &&& plan.decision matches StepDecision::Refuse(e) && e
                == ExecutionError::MaxStepsExceeded(old(task).manifest.max_steps)
        } else {
            &&& final(task)@ == stepped(old(task)@)
            &&& if is_blocked_in(old(tasks)@, old(task).id) {
                &&& r matches Err(plan)
                &&& effect_models(plan.effects@) == blocked_effects(old(task).id)
                &&& plan.decision matches StepDecision::Refuse(e) && e
                    == ExecutionError::Transaction(
                    TransactionError::FilesystemBlocked(old(task).id),
                )
            } else {
                r is Ok
            }
        },
{
    let mut effects: Vec<Effect> = Vec::new();
    register_task(tasks, task.id, owned(task.workdir.as_str()));
    match task.record_tool_call() {
        Ok(_) => {},
        Err(_) => {
            return Err(
                StepPlan {
                    effects,
                    decision: StepDecision::Refuse(
                        ExecutionError::MaxStepsExceeded(task.manifest.max_steps),
                    ),
                },
            );
        },
    }
    match ensure_task_fs_unblocked(tasks, task.id) {
        Ok(_) => Ok(()),
        Err(err) => {
            let reason = err.message();
            effects.push(Effect::SetStatus(TaskStatus::Violation));
            effects.push(Effect::Log(TaskEvent::ViolationOccurred { reason }));
            proof {
                assert(effect_models(effects@) =~= blocked_effects(task.id));
            }
            Err(
                StepPlan {
                    effects,
                    decision: StepDecision::Refuse(ExecutionError::Transaction(err)),
                },
            )
        },
    }
}

/// Decides whether a command of a task may start.
///
/// The task is registered and the step is counted first. A task without steps
/// left, a blocked one, a command that is refused outright and one that the
/// manifest denies are turned down, in this order.
pub fn run_task_step(task: &mut Task, tasks: &mut TaskTable, command: &CommandSpec) -> (r: StepPlan)
    ensures
        final(tasks)@ == crate::task_fs::registered(old(tasks)@, old(task).id, old(task).workdir@),
        old(task).steps_used >= old(task).manifest.max_steps ==> {
            &&& final(task)@ == old(task)@
            &&& r.effects@.len() == 0
            &&& r.decision matches StepDecision::Refuse(e) && e
                == ExecutionError::MaxStepsExceeded(old(task).manifest.max_steps)
        },
        old(task).steps_used < old(task).manifest.max_steps ==> {
            let plan = fences(
                stepped(old(task)@),
                is_blocked_in(old(tasks)@, old(task).id),
                command@,
            );
            &&& final(task)@ == stepped(old(task)@)
            &&& effect_models(r.effects@) == plan.0
            &&& match plan.1 {
                Some(StepRefusal::Blocked) => r.decision matches StepDecision::Refuse(e) && e
                    == ExecutionError::Transaction(
                    TransactionError::FilesystemBlocked(old(task).id),
                ),
                Some(StepRefusal::Denied(reason)) => r.decision matches StepDecision::Refuse(e) && (
                e matches ExecutionError::Violation(m) && m@ == reason),
                None => r.decision matches StepDecision::Spawn { program, args, cwd } && program@
                    == command@.program && crate::text::texts(args@) == command@.args && cwd@
                    == run_dir(old(task)@, command@),
            }
        },
{
    if let Err(refused) = open_step(task, tasks) {
        return refused;
    }
    let mut effects: Vec<Effect> = Vec::new();
    proof {
        assert(effect_models(effects@) =~= Seq::<EffectModel>::empty());
    }
    match validate_command_spec(command) {
        Ok(_) => {},
        Err(reason) => {
            push_denial(&mut effects, reason.as_str());
            proof {
                assert(effect_models(effects@) =~= denial(reason@));
            }
            return StepPlan {
                effects,
                decision: StepDecision::Refuse(ExecutionError::Violation(reason)),
            };
        },
    }
    let denied = check_manifest(task, command, &mut effects);
    let ghost checks = manifest_checks(task@, command@);
    proof {
        assert(effect_models(effects@) =~= checks.0);
    }
    match denied {
        Some(reason) => {
            push_denial(&mut effects, reason.as_str());
            StepPlan {
                effects,
                decision: StepDecision::Refuse(ExecutionError::Violation(reason)),
            }
        },
        None => {
            effects.push(Effect::SetStatus(TaskStatus::Running));
            proof {
                assert(effect_models(effects@) =~= checks.0.push(
                    EffectModel::SetStatus(TaskStatus::Running),
                ));
            }
            let cwd = command_cwd(task, command);
            StepPlan {
                effects,
                decision: StepDecision::Spawn {
                    program: owned(command.program.as_str()),
                    args: clone_texts(&command.args),
                    cwd,
                },
            }
        },
    }
}

/// The command that an operator's script is run with.
pub fn script_command(content: &str, workdir: &str) -> (r: CommandSpec)
    ensures
        r.program@ == "sh"@,
        crate::text::texts(r.args@) == seq!["-c"@, content@],
        crate::text::text_option(r.cwd) == Some(workdir@),
        r.reads@.len() == 0,
        r.writes@.len() == 0,
{
    let mut args: Vec<String> = Vec::new();
    args.push(owned("-c"));
    args.push(owned(content));
    proof {
        assert(crate::text::texts(args@) =~= seq!["-c"@, content@]);
    }
    CommandSpec {
        program: owned("sh"),
        args,
        cwd: Some(owned(workdir)),
        reads: Vec::new(),
        writes: Vec::new(),
    }
}

/// The effects and the refusal of an operator's script, or no refusal where it
/// starts, for a task that has steps left and is or is not blocked. The script
/// starts where the manifest allows the shell that runs it.
pub open spec fn script_fences(task: TaskModel, is_blocked: bool) -> (
    Seq<EffectModel>,
    Option<StepRefusal>,
) {
    let allowed = task.manifest.allows("sh"@, AccessType::Exec);
    let checked = seq![access_event("sh"@, AccessType::Exec, allowed)];
    if is_blocked {
        (blocked_effects(task.id), Some(StepRefusal::Blocked))
    } else if !allowed {
        (
            checked + denial("exec denied: "@ + "sh"@),
            Some(StepRefusal::Denied("exec denied: "@ + "sh"@)),
        )
    } else {
        (checked.push(EffectModel::SetStatus(TaskStatus::Running)), None)
    }
}

/// Decides whether the script that the operator handed to a run may start.
/// It is the operator's, not the model's: the fence against shells does not
/// stand before it, the manifest does.
pub fn run_script_step(task: &mut Task, tasks: &mut TaskTable, content: &str) -> (r: StepPlan)
    ensures
        final(tasks)@ == crate::task_fs::registered(old(tasks)@, old(task).id, old(task).workdir@),
        old(task).steps_used >= old(task).manifest.max_steps ==> {
            &&& final(task)@ == old(task)@
            &&& r.effects@.len() == 0
            &&& r.decision matches StepDecision::Refuse(e) && e
                == ExecutionError::MaxStepsExceeded(old(task).manifest.max_steps)
        },
        old(task).steps_used < old(task).manifest.max_steps ==> {
            let plan = script_fences(
                stepped(old(task)@),
                is_blocked_in(old(tasks)@, old(task).id),
            );
            &&& final(task)@ == stepped(old(task)@)
            &&& effect_models(r.effects@) == plan.0
            &&& match plan.1 {
                Some(StepRefusal::Blocked) => r.decision matches StepDecision::Refuse(e) && e
                    == ExecutionError::Transaction(
                    TransactionError::FilesystemBlocked(old(task).id),
                ),
                Some(StepRefusal::Denied(reason)) => r.decision matches StepDecision::Refuse(e) && (
                e matches ExecutionError::Violation(m) && m@ == reason),
                None => r.decision matches StepDecision::Spawn { program, args, cwd } && program@
                    == "sh"@ && crate::text::texts(args@) == seq!["-c"@, content@] && cwd@
                    == crate::host_path::normalized(old(task)@.workdir),
            }
        },
{
    if let Err(refused) = open_step(task, tasks) {
        return refused;
    }
    let mut effects: Vec<Effect> = Vec::new();
    let command = script_command(content, task.workdir.as_str());
    let allowed = task.manifest.is_allowed(command.program.as_str(), AccessType::Exec);
    effects.push(
        Effect::Log(
            TaskEvent::FileAccess { path: owned("sh"), access: AccessType::Exec, allowed },
        ),
    );
    let ghost checked = seq![access_event("sh"@, AccessType::Exec, allowed)];
    proof {
        assert(effect_models(effects@) =~= checked);
    }
    if !allowed {
        let reason = cat("exec denied: ", "sh");
        push_denial(&mut effects, reason.as_str());
        return StepPlan {
            effects,
            decision: StepDecision::Refuse(ExecutionError::Violation(reason)),
        };
    }
    effects.push(Effect::SetStatus(TaskStatus::Running));
    proof {
        assert(effect_models(effects@) =~= checked.push(
            EffectModel::SetStatus(TaskStatus::Running),
        ));
    }
    StepPlan {
        effects,
        decision: StepDecision::Spawn {
            program: command.program,
            args: command.args,
            cwd: normalize_path(task.workdir.as_str()),
        },
    }
}

/// An operator's script starts exactly where the manifest allows `sh` and the
/// task is not blocked.
pub proof fn lemma_scripts_start_where_allowed(task: TaskModel, is_blocked: bool)
    ensures
        script_fences(task, is_blocked).1 is None <==> !is_blocked && task.manifest.allows(
            "sh"@,
            AccessType::Exec,
        ),
{
}

/// The exit code recorded for a command; `-1` where it had none.
pub open spec fn recorded_code(code: Option<i32>) -> i32 {
    match code {
        Some(c) => c,
        None => -1i32,
    }
}

/// The status that a finished command leaves.
pub open spec fn outcome_status(code: Option<i32>) -> TaskStatus {
    if code == Some(0i32) {
        TaskStatus::Success
    } else {
        TaskStatus::Failed
    }
}

/// What follows a command that has run: it is recorded, and the task has
/// succeeded if the exit code is 0.
pub fn finish_task_step(task: &mut Task, command: &CommandSpec, status_code: Option<i32>) -> (r: Vec<
    Effect,
>)
    ensures
        final(task)@ == old(task)@.with_status(TaskStatus::Verifying).after_command(
            rendered_command(command@),
            recorded_code(status_code),
        ),
        effect_models(r@) == seq![
            EffectModel::Log(
                EventModel::CommandExecuted {
                    command: rendered_command(command@),
                    exit_code: recorded_code(status_code),
                },
            ),
            EffectModel::SetStatus(outcome_status(status_code)),
            EffectModel::Log(EventModel::TaskFinished { status: outcome_status(status_code) }),
        ],
{
    task.status = TaskStatus::Verifying;
    let rendered = command_line(command);
    let exit_code: i32 = match status_code {
        Some(c) => c,
        None => -1,
    };
    task.record_test_command(rendered.as_str(), exit_code);
    let status = match status_code {
        Some(c) => if c == 0 {
            TaskStatus::Success
        } else {
            TaskStatus::Failed
        },
        None => TaskStatus::Failed,
    };
    let mut effects: Vec<Effect> = Vec::new();
    effects.push(Effect::Log(TaskEvent::CommandExecuted { command: rendered, exit_code }));
    effects.push(Effect::SetStatus(status));
    effects.push(Effect::Log(TaskEvent::TaskFinished { status }));
    proof {
        assert(effect_models(effects@) =~= seq![
            EffectModel::Log(
                EventModel::CommandExecuted {
                    command: rendered_command(command@),
                    exit_code: recorded_code(status_code),
                },
            ),
            EffectModel::SetStatus(outcome_status(status_code)),
            EffectModel::Log(EventModel::TaskFinished { status: outcome_status(status_code) }),
        ]);
    }
    effects
}

/// No manifest starts a shell for a command: one whose program is a shell, in
/// any mix of capital and small letters and with or without `.exe`, is refused
/// before the manifest is looked at.
pub proof fn lemma_shells_never_start(task: TaskModel, is_blocked: bool, c: CommandModel)
    requires
        is_shell(bare_name(c.program)),
    ensures
        fences(task, is_blocked, c).1 is Some,
        !is_blocked ==> fences(task, is_blocked, c).1 is Some && fences(
            task,
            is_blocked,
            c,
        ).1->0 is Denied,
{
}

/// A command starts only where the fence lets it pass and the manifest allows
/// its program, its directory and every path it declares.
pub proof fn lemma_started_commands_are_allowed(
    task: TaskModel,
    is_blocked: bool,
    c: CommandModel,
)
    requires
        fences(task, is_blocked, c).1 is None,
    ensures
        !is_blocked,
        command_refusal(c) is None,
        task.manifest.allows(c.program, AccessType::Exec),
        crate::host_path::is_under(run_dir(task, c), crate::host_path::normalized(task.workdir)),
        forall|i: int|
            0 <= i < c.reads.len() ==> task.manifest.allows(
                crate::host_path::task_path(task.workdir, #[trigger] c.reads[i]),
                AccessType::Read,
            ),
        forall|i: int|
            0 <= i < c.writes.len() ==> task.manifest.allows(
                crate::host_path::task_path(task.workdir, #[trigger] c.writes[i]),
                AccessType::Write,
            ),
{
    lemma_declared_all_allowed(task, c.reads, AccessType::Read, "read"@, 0);
    lemma_declared_all_allowed(task, c.writes, AccessType::Write, "write"@, 0);
}

proof fn lemma_declared_all_allowed(
    task: TaskModel,
    paths: Seq<Seq<char>>,
    access: AccessType,
    verb: Seq<char>,
    i: int,
)
    requires
        0 <= i,
    ensures
        declared_checks(task, paths, access, verb, i).1 is None ==> forall|j: int|
            i <= j < paths.len() ==> task.manifest.allows(
                crate::host_path::task_path(task.workdir, #[trigger] paths[j]),
                access,
            ),
    decreases paths.len() - i,
{
    if i < paths.len() {
        lemma_declared_all_allowed(task, paths, access, verb, i + 1);
    }
}

} // verus!
