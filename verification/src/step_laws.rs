//! Which steps of a task go on: exactly the commands and writes that stay in
//! the working directory and that the manifest grants.

use vstd::prelude::*;

use crate::adapter::{parse_action_command, validate_action_path, AdapterError, Tokens};
use crate::execution::{validate_command_spec, CommandModel, CommandSpec, EffectModel};
use crate::manifest::{AccessType, Manifest};
use crate::task::{TaskModel, TaskStatus};
use crate::trace::EventModel;

verus! {

/// The character leads out of a working directory where a path begins with
/// it.
pub open spec fn leads_out(c: char) -> bool {
    c == '/' || c == '\\' || c == '~'
}

/// A whole component `..` begins at `i`, between separators.
pub open spec fn climbs_at(arg: Seq<char>, sep: char, i: int) -> bool {
    &&& 0 <= i && i + 2 <= arg.len()
    &&& arg[i] == '.' && arg[i + 1] == '.'
    &&& i == 0 || arg[i - 1] == sep
    &&& i + 2 == arg.len() || arg[i + 2] == sep
}

/// The argument can name something outside the working directory: it begins
/// with what leads out, gives a flag such a value, or climbs.
pub open spec fn may_leave(arg: Seq<char>) -> bool {
    ||| arg.len() > 0 && leads_out(arg[0])
    ||| exists|i: int| 0 <= i < arg.len() - 1 && #[trigger] arg[i] == '=' && leads_out(arg[i + 1])
    ||| exists|i: int| #[trigger] climbs_at(arg, '/', i)
    ||| exists|i: int| #[trigger] climbs_at(arg, '\\', i)
}

/// A line break or a null.
pub open spec fn is_control(c: char) -> bool {
    c == '\n' || c == '\r' || c == '\0'
}

pub open spec fn holds_control(s: Seq<char>) -> bool {
    exists|i: int| 0 <= i < s.len() && is_control(#[trigger] s[i])
}

/// The shells by their names.
pub open spec fn shells() -> Seq<Seq<char>> {
    seq![
        "sh"@,
        "bash"@,
        "zsh"@,
        "dash"@,
        "ksh"@,
        "csh"@,
        "tcsh"@,
        "fish"@,
        "ash"@,
        "powershell"@,
        "pwsh"@,
        "cmd"@,
    ]
}

/// The program is a shell, however its name is written.
pub open spec fn names_shell(program: Seq<char>) -> bool {
    exists|k: int|
        0 <= k < shells().len() && (crate::text::lowered(program) == #[trigger] shells()[k]
            || crate::text::lowered(program) == shells()[k] + ".exe"@)
}

/// A program by its bare name that is no flag and no shell.
pub open spec fn is_bare_program(program: Seq<char>) -> bool {
    &&& program.len() > 0
    &&& program[0] != '-'
    &&& forall|i: int|
        0 <= i < program.len() ==> #[trigger] program[i] != '/' && program[i] != '\\'
            && !is_control(program[i])
    &&& !names_shell(program)
}

/// A command that stays inside: its program is bare, and no argument, declared
/// path or directory leads out.
pub open spec fn stays_inside(c: CommandModel) -> bool {
    &&& is_bare_program(c.program)
    &&& forall|i: int|
        0 <= i < c.args.len() ==> !holds_control(#[trigger] c.args[i]) && !may_leave(c.args[i])
    &&& forall|i: int| 0 <= i < c.reads.len() ==> !may_leave(#[trigger] c.reads[i])
    &&& forall|i: int| 0 <= i < c.writes.len() ==> !may_leave(#[trigger] c.writes[i])
    &&& c.cwd matches Some(d) ==> !may_leave(d)
}

proof fn lemma_occurs(s: Seq<char>, pat: Seq<char>, i: int)
    requires
        0 <= i && i + pat.len() <= s.len(),
        forall|k: int| 0 <= k < pat.len() ==> s[i + k] == #[trigger] pat[k],
    ensures
        crate::text::occurs_at(s, pat, i),
        crate::text::contains_text(s, pat),
{
    assert(s.subrange(i, i + pat.len()) =~= pat);
}

proof fn lemma_occurring(s: Seq<char>, pat: Seq<char>) -> (i: int)
    requires
        crate::text::contains_text(s, pat),
    ensures
        0 <= i && i + pat.len() <= s.len(),
        forall|k: int| 0 <= k < pat.len() ==> s[i + k] == #[trigger] pat[k],
{
    let i = choose|i: int| crate::text::occurs_at(s, pat, i);
    assert forall|k: int| 0 <= k < pat.len() implies s[i + k] == #[trigger] pat[k] by {
        assert(s.subrange(i, i + pat.len())[k] == s[i + k]);
    }
    i
}

proof fn lemma_flag_values(arg: Seq<char>)
    ensures
        (crate::text::contains_text(arg, "=/"@) || crate::text::contains_text(arg, "=\\"@)
            || crate::text::contains_text(arg, "=~"@)) <==> exists|i: int|
            0 <= i < arg.len() - 1 && #[trigger] arg[i] == '=' && leads_out(arg[i + 1]),
{
    reveal_strlit("=/");
    reveal_strlit("=\\");
    reveal_strlit("=~");
    if crate::text::contains_text(arg, "=/"@) {
        let i = lemma_occurring(arg, "=/"@);
        assert("=/"@[0] == '=' && "=/"@[1] == '/');
        assert(arg[i] == '=');
    }
    if crate::text::contains_text(arg, "=\\"@) {
        let i = lemma_occurring(arg, "=\\"@);
        assert("=\\"@[0] == '=' && "=\\"@[1] == '\\');
        assert(arg[i] == '=');
    }
    if crate::text::contains_text(arg, "=~"@) {
        let i = lemma_occurring(arg, "=~"@);
        assert("=~"@[0] == '=' && "=~"@[1] == '~');
        assert(arg[i] == '=');
    }
    if exists|i: int| 0 <= i < arg.len() - 1 && #[trigger] arg[i] == '=' && leads_out(arg[i + 1]) {
        let i = choose|i: int|
            0 <= i < arg.len() - 1 && #[trigger] arg[i] == '=' && leads_out(arg[i + 1]);
        if arg[i + 1] == '/' {
            lemma_occurs(arg, "=/"@, i);
        } else if arg[i + 1] == '\\' {
            lemma_occurs(arg, "=\\"@, i);
        } else {
            lemma_occurs(arg, "=~"@, i);
        }
    }
}

proof fn lemma_climbs(arg: Seq<char>, sep: char)
    ensures
        (arg == ".."@ || seq!['.', '.', sep].is_prefix_of(arg) || crate::text::contains_text(
            arg,
            seq![sep, '.', '.', sep],
        ) || seq![sep, '.', '.'].is_suffix_of(arg)) <==> exists|i: int|
            #[trigger] climbs_at(arg, sep, i),
{
    reveal_strlit("..");
    let a = seq!['.', '.', sep];
    let b = seq![sep, '.', '.', sep];
    let c = seq![sep, '.', '.'];
    if arg == ".."@ {
        assert(climbs_at(arg, sep, 0));
    }
    if a.is_prefix_of(arg) {
        let h = arg.subrange(0, 3);
        assert(h[0] == arg[0] && h[1] == arg[1] && h[2] == arg[2]);
        assert(climbs_at(arg, sep, 0));
    }
    if crate::text::contains_text(arg, b) {
        let i = lemma_occurring(arg, b);
        assert(arg[i + 0] == sep && arg[i + 1] == '.' && arg[i + 2] == '.' && arg[i + 3] == sep);
        assert(climbs_at(arg, sep, i + 1));
    }
    if c.is_suffix_of(arg) {
        let n = arg.len() - 3;
        let h = arg.subrange(n, arg.len() as int);
        assert(h[0] == arg[n] && h[1] == arg[n + 1] && h[2] == arg[n + 2]);
        assert(climbs_at(arg, sep, n + 1));
    }
    if exists|i: int| #[trigger] climbs_at(arg, sep, i) {
        let i = choose|i: int| #[trigger] climbs_at(arg, sep, i);
        if i == 0 && arg.len() == 2 {
            assert(arg =~= ".."@);
        } else if i == 0 {
            assert(a =~= arg.subrange(0, 3));
        } else if i + 2 == arg.len() {
            assert(c =~= arg.subrange(arg.len() - 3, arg.len() as int));
        } else {
            lemma_occurs(arg, b, i - 1);
        }
    }
}

proof fn lemma_argument_fenced(arg: Seq<char>)
    ensures
        crate::execution::arg_violation(arg) is Some <==> may_leave(arg),
{
    reveal_strlit("../");
    reveal_strlit("..\\");
    reveal_strlit("/../");
    reveal_strlit("\\..\\");
    reveal_strlit("/..");
    reveal_strlit("\\..");
    assert("../"@ =~= seq!['.', '.', '/']);
    assert("..\\"@ =~= seq!['.', '.', '\\']);
    assert("/../"@ =~= seq!['/', '.', '.', '/']);
    assert("\\..\\"@ =~= seq!['\\', '.', '.', '\\']);
    assert("/.."@ =~= seq!['/', '.', '.']);
    assert("\\.."@ =~= seq!['\\', '.', '.']);
    lemma_flag_values(arg);
    lemma_climbs(arg, '/');
    lemma_climbs(arg, '\\');
}

proof fn lemma_control(s: Seq<char>)
    ensures
        crate::execution::has_control(s) == holds_control(s),
{
    if s.contains('\n') {
        let i = choose|i: int| 0 <= i < s.len() && s[i] == '\n';
        assert(is_control(s[i]));
    }
    if s.contains('\r') {
        let i = choose|i: int| 0 <= i < s.len() && s[i] == '\r';
        assert(is_control(s[i]));
    }
    if s.contains('\0') {
        let i = choose|i: int| 0 <= i < s.len() && s[i] == '\0';
        assert(is_control(s[i]));
    }
    if holds_control(s) {
        let i = choose|i: int| 0 <= i < s.len() && is_control(#[trigger] s[i]);
        assert(s.contains(s[i]));
    }
}

proof fn lemma_shell_named(program: Seq<char>)
    ensures
        crate::execution::is_shell(crate::execution::bare_name(program)) == names_shell(program),
{
    reveal_strlit(".exe");
    let lc = crate::text::lowered(program);
    let bare = crate::execution::bare_name(program);
    let all = shells();
    lemma_no_shell_ends_in_exe();
    assert(crate::execution::is_shell(bare) <==> all.contains(bare)) by {
        if crate::execution::is_shell(bare) {
            assert(all[0] == "sh"@ && all[1] == "bash"@ && all[2] == "zsh"@ && all[3] == "dash"@);
            assert(all[4] == "ksh"@ && all[5] == "csh"@ && all[6] == "tcsh"@ && all[7] == "fish"@);
            assert(all[8] == "ash"@ && all[9] == "powershell"@ && all[10] == "pwsh"@ && all[11]
                == "cmd"@);
        }
    }
    if ".exe"@.is_suffix_of(lc) {
        assert(lc =~= bare + ".exe"@) by {
            let n = lc.len() - 4;
            assert(".exe"@ =~= lc.subrange(n, lc.len() as int));
            assert(lc =~= lc.take(n) + lc.subrange(n, lc.len() as int));
        }
    }
    if all.contains(bare) {
        let k = choose|k: int| 0 <= k < all.len() && all[k] == bare;
        assert(lc == shells()[k] || lc == shells()[k] + ".exe"@);
    }
    if names_shell(program) {
        let k = choose|k: int|
            0 <= k < all.len() && (lc == #[trigger] shells()[k] || lc == shells()[k] + ".exe"@);
        if lc == all[k] + ".exe"@ {
            assert(".exe"@ =~= lc.subrange(lc.len() - 4, lc.len() as int));
            assert(bare =~= all[k]);
        } else {
            assert(!".exe"@.is_suffix_of(all[k]));
        }
        assert(all.contains(all[k]));
    }
}

proof fn lemma_no_shell_ends_in_exe()
    ensures
        forall|k: int| 0 <= k < shells().len() ==> !".exe"@.is_suffix_of(#[trigger] shells()[k]),
{
    reveal_strlit(".exe");
    reveal_strlit("sh");
    reveal_strlit("bash");
    reveal_strlit("zsh");
    reveal_strlit("dash");
    reveal_strlit("ksh");
    reveal_strlit("csh");
    reveal_strlit("tcsh");
    reveal_strlit("fish");
    reveal_strlit("ash");
    reveal_strlit("powershell");
    reveal_strlit("pwsh");
    reveal_strlit("cmd");
    assert forall|k: int| 0 <= k < shells().len() implies !".exe"@.is_suffix_of(
        #[trigger] shells()[k],
    ) by {
        let s = shells()[k];
        if ".exe"@.is_suffix_of(s) {
            let tail = s.subrange(s.len() - 4, s.len() as int);
            assert(tail[3] == s[s.len() - 1]);
            assert(s[s.len() - 1] == 'e');
        }
    }
}

proof fn lemma_program_fenced(program: Seq<char>)
    ensures
        crate::execution::program_refusal(program) is None <==> is_bare_program(program),
{
    lemma_shell_named(program);
    lemma_control(program);
    if is_bare_program(program) {
        assert(!program.contains('/') && !program.contains('\\'));
        if holds_control(program) {
            let i = choose|i: int| 0 <= i < program.len() && is_control(#[trigger] program[i]);
            assert(program[i] != '/');
        }
    } else if crate::execution::program_refusal(program) is None {
        let i = choose|i: int|
            0 <= i < program.len() && !(#[trigger] program[i] != '/' && program[i] != '\\'
                && !is_control(program[i]));
        assert(program.contains(program[i]));
    }
}

proof fn lemma_arguments_fenced(args: Seq<Seq<char>>, from: int)
    requires
        0 <= from,
    ensures
        crate::execution::args_refusal(args, from) is None <==> forall|i: int|
            from <= i < args.len() ==> !holds_control(#[trigger] args[i]) && !may_leave(args[i]),
    decreases args.len() - from,
{
    if from < args.len() {
        lemma_arguments_fenced(args, from + 1);
        lemma_control(args[from]);
        lemma_argument_fenced(args[from]);
    }
}

proof fn lemma_declared_fenced(label: Seq<char>, paths: Seq<Seq<char>>, from: int)
    requires
        0 <= from,
    ensures
        crate::execution::declared_refusal(label, paths, from) is None <==> forall|i: int|
            from <= i < paths.len() ==> !may_leave(#[trigger] paths[i]),
    decreases paths.len() - from,
{
    if from < paths.len() {
        lemma_declared_fenced(label, paths, from + 1);
        lemma_argument_fenced(paths[from]);
    }
}

/// The fence lets a command pass exactly where it stays inside: its program is
/// a bare name and no shell, and nothing about it leads out of the working
/// directory.
pub proof fn lemma_commands_are_fenced(spec: &CommandSpec, r: Result<(), String>)
    requires
        call_ensures(validate_command_spec, (spec,), r),
    ensures
        r is Ok <==> stays_inside(spec@),
{
    lemma_program_fenced(spec@.program);
    lemma_arguments_fenced(spec@.args, 0);
    lemma_declared_fenced("read"@, spec@.reads, 0);
    lemma_declared_fenced("write"@, spec@.writes, 0);
    if let Some(d) = spec@.cwd {
        lemma_argument_fenced(d);
    }
}

/// A name that the manifest lists for programs.
pub open spec fn lists(allowed: Seq<Seq<char>>, name: Seq<char>) -> bool {
    exists|i: int| 0 <= i < allowed.len() && #[trigger] allowed[i] == name
}

/// A path of the task lies below one of these, component by component.
pub open spec fn lies_below_one(path: Seq<char>, roots: Seq<Seq<char>>) -> bool {
    exists|i: int|
        0 <= i < roots.len() && crate::host_path::path_parts(
            crate::host_path::normalized(#[trigger] roots[i]),
        ).is_prefix_of(crate::host_path::path_parts(crate::host_path::normalized(path)))
}

/// What a manifest grants: reading and writing below the paths that it lists
/// for each, and programs by the names that it lists, whole or by their last
/// component.
pub proof fn lemma_manifests_grant_what_they_list(
    m: &Manifest,
    path: &str,
    access: AccessType,
    r: bool,
)
    requires
        call_ensures(Manifest::is_allowed, (m, path, access), r),
    ensures
        match access {
            AccessType::Read => r == lies_below_one(path@, m@.allow_read),
            AccessType::Write => r == lies_below_one(path@, m@.allow_write),
            AccessType::Exec => r == (lists(m@.allow_exec, path@) || (crate::host_path::path_parts(
                path@,
            ).len() > 0 && crate::host_path::is_normal(
                crate::host_path::path_parts(path@).last(),
            ) && lists(m@.allow_exec, crate::host_path::path_parts(path@).last()))),
        },
{
    match access {
        AccessType::Read => {
            lemma_granted(path@, m@.allow_read);
        },
        AccessType::Write => {
            lemma_granted(path@, m@.allow_write);
        },
        AccessType::Exec => {
            let allowed = m@.allow_exec;
            if crate::manifest::exec_allowed(path@, allowed) {
                let i = choose|i: int|
                    0 <= i < allowed.len() && (#[trigger] allowed[i] == path@
                        || crate::host_path::name_of(path@) == Some(allowed[i]));
                assert(allowed[i] == allowed[i]);
            }
            if lists(allowed, path@) {
                let i = choose|i: int| 0 <= i < allowed.len() && #[trigger] allowed[i] == path@;
                assert(crate::manifest::exec_allowed(path@, allowed));
            }
        },
    }
}

proof fn lemma_granted(path: Seq<char>, roots: Seq<Seq<char>>)
    ensures
        crate::manifest::path_allowed(path, roots) == lies_below_one(path, roots),
{
    if crate::manifest::path_allowed(path, roots) {
        let i = choose|i: int|
            0 <= i < roots.len() && crate::host_path::is_under(
                crate::host_path::normalized(path),
                crate::host_path::normalized(#[trigger] roots[i]),
            );
        assert(lies_below_one(path, roots));
    }
    if lies_below_one(path, roots) {
        let i = choose|i: int|
            0 <= i < roots.len() && crate::host_path::path_parts(
                crate::host_path::normalized(#[trigger] roots[i]),
            ).is_prefix_of(crate::host_path::path_parts(crate::host_path::normalized(path)));
        assert(crate::manifest::path_allowed(path, roots));
    }
}

proof fn lemma_declared_pass(
    task: TaskModel,
    paths: Seq<Seq<char>>,
    access: AccessType,
    verb: Seq<char>,
    from: int,
)
    requires
        0 <= from <= paths.len(),
        forall|i: int|
            from <= i < paths.len() ==> task.manifest.allows(
                crate::host_path::task_path(task.workdir, #[trigger] paths[i]),
                access,
            ),
    ensures
        crate::execution::declared_checks(task, paths, access, verb, from).1 is None,
        crate::execution::declared_checks(task, paths, access, verb, from).0.len() == paths.len()
            - from,
        forall|k: int|
            0 <= k < paths.len() - from ==> (#[trigger] crate::execution::declared_checks(
                task,
                paths,
                access,
                verb,
                from,
            ).0[k]) == EffectModel::Log(
                EventModel::FileAccess {
                    path: crate::host_path::task_path(task.workdir, paths[from + k]),
                    access,
                    allowed: true,
                },
            ),
    decreases paths.len() - from,
{
    if from < paths.len() {
        lemma_declared_pass(task, paths, access, verb, from + 1);
    }
}

/// A command that stays inside, and whose program and declared paths the
/// manifest grants, is started: nothing refuses it, each check is recorded as
/// passed, and the task runs.
pub proof fn lemma_granted_commands_start(task: TaskModel, c: CommandModel)
    requires
        stays_inside(c),
        c.cwd is None,
        task.manifest.allows(c.program, AccessType::Exec),
        forall|i: int|
            0 <= i < c.reads.len() ==> task.manifest.allows(
                crate::host_path::task_path(task.workdir, #[trigger] c.reads[i]),
                AccessType::Read,
            ),
        forall|i: int|
            0 <= i < c.writes.len() ==> task.manifest.allows(
                crate::host_path::task_path(task.workdir, #[trigger] c.writes[i]),
                AccessType::Write,
            ),
    ensures
        ({
            let plan = crate::execution::fences(task, false, c);
            &&& plan.1 is None
            &&& plan.0.len() == c.reads.len() + c.writes.len() + 2
            &&& plan.0[0] == EffectModel::Log(
                EventModel::FileAccess {
                    path: c.program,
                    access: AccessType::Exec,
                    allowed: true,
                },
            )
            &&& plan.0.last() == EffectModel::SetStatus(TaskStatus::Running)
        }),
        crate::execution::run_dir(task, c) == crate::host_path::normalized(task.workdir),
{
    lemma_program_fenced(c.program);
    lemma_arguments_fenced(c.args, 0);
    lemma_declared_fenced("read"@, c.reads, 0);
    lemma_declared_fenced("write"@, c.writes, 0);
    lemma_declared_pass(task, c.reads, AccessType::Read, "read"@, 0);
    lemma_declared_pass(task, c.writes, AccessType::Write, "write"@, 0);
    let at = crate::host_path::normalized(task.workdir);
    let parts = crate::host_path::path_parts(at);
    assert(parts =~= parts.subrange(0, parts.len() as int));
}

/// A command that names a directory below the working directory, and is
/// granted otherwise, is started in that directory.
pub proof fn lemma_commands_start_in_their_directory(
    task: TaskModel,
    c: CommandModel,
    names: Seq<Seq<char>>,
)
    requires
        stays_inside(c),
        names.len() > 0,
        crate::vfs_path::canonical(names),
        c.cwd == Some(crate::text::joined_with(names, "/"@)),
        task.manifest.allows(c.program, AccessType::Exec),
        c.reads.len() == 0,
        c.writes.len() == 0,
    ensures
        crate::execution::fences(task, false, c).1 is None,
        crate::host_path::path_parts(crate::execution::run_dir(task, c))
            == crate::host_path::path_parts(crate::host_path::normalized(task.workdir)) + names,
{
    let d = crate::text::joined_with(names, "/"@);
    lemma_program_fenced(c.program);
    lemma_arguments_fenced(c.args, 0);
    lemma_declared_fenced("read"@, c.reads, 0);
    lemma_declared_fenced("write"@, c.writes, 0);
    lemma_argument_fenced(d);
    reveal_strlit("/");
    reveal_strlit(".");
    assert("/"@[0] == '/');
    assert(crate::vfs_path::valid_segment(names[0]));
    assert(names[0] == "/"@ ==> names[0].contains('/'));
    crate::host_path::lemma_parts_of_rendered(names);
    crate::host_path::lemma_joined_first(names);
    assert(d[0] == names[0][0]);
    assert(names[0].contains(names[0][0]));
    assert(!crate::host_path::is_rooted(d));
    crate::host_path::lemma_names_append(task.workdir, d, names);
    let above = crate::host_path::path_parts(crate::host_path::normalized(task.workdir));
    assert(above =~= (above + names).subrange(0, above.len() as int));
}

/// A command that does not stay inside, or that the manifest does not grant,
/// is a violation: it is not started, the files of the task are blocked, and
/// the task is finished as a violation.
pub proof fn lemma_other_commands_are_violations(task: TaskModel, c: CommandModel)
    requires
        !stays_inside(c) || !task.manifest.allows(c.program, AccessType::Exec) || exists|i: int|
            0 <= i < c.reads.len() && !task.manifest.allows(
                crate::host_path::task_path(task.workdir, #[trigger] c.reads[i]),
                AccessType::Read,
            ) || exists|i: int|
            0 <= i < c.writes.len() && !task.manifest.allows(
                crate::host_path::task_path(task.workdir, #[trigger] c.writes[i]),
                AccessType::Write,
            ),
    ensures
        ({
            let plan = crate::execution::fences(task, false, c);
            &&& plan.1 matches Some(crate::execution::StepRefusal::Denied(reason))
            &&& plan.0.contains(EffectModel::BlockFs)
            &&& plan.0.contains(EffectModel::SetStatus(TaskStatus::Violation))
            &&& plan.0.contains(EffectModel::Log(EventModel::ViolationOccurred { reason }))
            &&& plan.0.last() == EffectModel::Log(
                EventModel::TaskFinished { status: TaskStatus::Violation },
            )
        }),
{
    lemma_program_fenced(c.program);
    lemma_arguments_fenced(c.args, 0);
    lemma_declared_fenced("read"@, c.reads, 0);
    lemma_declared_fenced("write"@, c.writes, 0);
    if let Some(d) = c.cwd {
        lemma_argument_fenced(d);
    }
    if crate::execution::fences(task, false, c).1 is None {
        crate::execution::lemma_started_commands_are_allowed(task, false, c);
    }
    let plan = crate::execution::fences(task, false, c);
    if let Some(crate::execution::StepRefusal::Denied(reason)) = plan.1 {
        let d = crate::execution::denial(reason);
        let n = plan.0.len() - 4;
        assert(plan.0[n] == d[0] && plan.0[n + 1] == d[1] && plan.0[n + 2] == d[2] && plan.0[n + 3]
            == d[3]);
    }
}

/// A path by names of entries, the first of which does not stand for a home,
/// is let through, and leads down from the working directory by those names.
pub proof fn lemma_plain_targets_are_let_through(
    workdir: &str,
    raw: &str,
    names: Seq<Seq<char>>,
    r: Result<String, String>,
)
    requires
        names.len() > 0,
        crate::vfs_path::canonical(names),
        raw@ == crate::text::joined_with(names, "/"@),
        !leads_out(names[0][0]),
        call_ensures(validate_action_path, (workdir, raw), r),
    ensures
        r matches Ok(p) && crate::host_path::path_parts(p@) == crate::host_path::path_parts(
            crate::host_path::normalized(workdir@),
        ) + names,
{
    reveal_strlit("/");
    reveal_strlit(".");
    reveal_strlit("..");
    assert("/"@[0] == '/');
    assert(crate::vfs_path::valid_segment(names[0]));
    assert(names[0] == "/"@ ==> names[0].contains('/'));
    crate::host_path::lemma_parts_of_rendered(names);
    assert(crate::host_path::path_parts(raw@) == names);
    crate::host_path::lemma_joined_first(names);
    if names.contains(".."@) {
        let k = choose|k: int| 0 <= k < names.len() && names[k] == ".."@;
        assert(crate::vfs_path::valid_segment(names[k]));
    }
    crate::host_path::lemma_names_append(workdir@, raw@, names);
}

/// A character that stands for itself in a command line.
pub open spec fn is_literal(c: char) -> bool {
    c != '"' && c != '\\' && !is_control(c)
}

/// A word that can stand in a command line, in quotes or bare.
pub open spec fn is_word(w: Seq<char>, quoted: bool) -> bool {
    &&& forall|i: int| 0 <= i < w.len() ==> is_literal(#[trigger] w[i])
    &&& !quoted ==> w.len() > 0 && forall|i: int|
        0 <= i < w.len() ==> !crate::text::is_space(#[trigger] w[i])
}

/// A word as it is written.
pub open spec fn written(w: Seq<char>, quoted: bool) -> Seq<char> {
    if quoted {
        seq!['"'] + w + seq!['"']
    } else {
        w
    }
}

/// Words on a line, with a space between any two.
pub open spec fn line_of(words: Seq<(Seq<char>, bool)>) -> Seq<char>
    decreases words.len(),
{
    if words.len() == 0 {
        Seq::empty()
    } else if words.len() == 1 {
        written(words[0].0, words[0].1)
    } else {
        line_of(words.drop_last()) + (seq![' '] + written(words.last().0, words.last().1))
    }
}

/// The words without what tells how they are written.
pub open spec fn bare_words(words: Seq<(Seq<char>, bool)>) -> Seq<Seq<char>> {
    words.map_values(|w: (Seq<char>, bool)| w.0)
}

proof fn lemma_tokens_push(s: Seq<char>, c: char, t: Tokens)
    requires
        crate::adapter::tokens_after(s) == Ok::<Tokens, Seq<char>>(t),
    ensures
        crate::adapter::tokens_after(s + seq![c]) == crate::adapter::token_step(t, c),
{
    assert((s + seq![c]).drop_last() =~= s);
    assert((s + seq![c]).last() == c);
}

proof fn lemma_tokens_word(s: Seq<char>, w: Seq<char>, t: Tokens)
    requires
        crate::adapter::tokens_after(s) == Ok::<Tokens, Seq<char>>(t),
        forall|i: int| 0 <= i < w.len() ==> is_literal(#[trigger] w[i]),
        !t.in_quotes ==> forall|i: int|
            0 <= i < w.len() ==> !crate::text::is_space(#[trigger] w[i]),
    ensures
        crate::adapter::tokens_after(s + w) == Ok::<Tokens, Seq<char>>(
            Tokens { cur: t.cur + w, ..t },
        ),
    decreases w.len(),
{
    if w.len() == 0 {
        assert(s + w =~= s);
        assert(t.cur + w =~= t.cur);
    } else {
        let less = w.drop_last();
        assert forall|i: int| 0 <= i < less.len() implies is_literal(#[trigger] less[i]) by {
            assert(less[i] == w[i]);
        }
        if !t.in_quotes {
            assert forall|i: int| 0 <= i < less.len() implies !crate::text::is_space(
                #[trigger] less[i],
            ) by {
                assert(less[i] == w[i]);
            }
        }
        lemma_tokens_word(s, less, t);
        let mid = Tokens { cur: t.cur + less, ..t };
        let c = w[w.len() - 1];
        assert(is_literal(c));
        lemma_tokens_push(s + less, c, mid);
        assert(s + less + seq![c] =~= s + w);
        assert((t.cur + less).push(c) =~= t.cur + w);
    }
}

/// A word behind a line of which nothing is left over is the word that is
/// being read.
proof fn lemma_tokens_written(s: Seq<char>, w: Seq<char>, quoted: bool, done: Seq<Seq<char>>)
    requires
        is_word(w, quoted),
        crate::adapter::tokens_after(s) == Ok::<Tokens, Seq<char>>(
            Tokens { done, cur: Seq::empty(), in_quotes: false, had_quoted: false },
        ),
    ensures
        crate::adapter::tokens_after(s + written(w, quoted)) == Ok::<Tokens, Seq<char>>(
            Tokens { done, cur: w, in_quotes: false, had_quoted: quoted },
        ),
{
    let none = Seq::<char>::empty();
    let t = Tokens { done, cur: none, in_quotes: false, had_quoted: false };
    if quoted {
        lemma_tokens_push(s, '"', t);
        let u = Tokens { done, cur: none, in_quotes: true, had_quoted: true };
        lemma_tokens_word(s + seq!['"'], w, u);
        assert(none + w =~= w);
        let v = Tokens { done, cur: w, in_quotes: true, had_quoted: true };
        lemma_tokens_push(s + seq!['"'] + w, '"', v);
        assert(s + seq!['"'] + w + seq!['"'] =~= s + written(w, quoted));
    } else {
        lemma_tokens_word(s, w, t);
        assert(none + w =~= w);
    }
}

proof fn lemma_tokens_line(words: Seq<(Seq<char>, bool)>)
    requires
        words.len() > 0,
        forall|i: int| 0 <= i < words.len() ==> is_word((#[trigger] words[i]).0, words[i].1),
    ensures
        crate::adapter::tokens_after(line_of(words)) == Ok::<Tokens, Seq<char>>(
            Tokens {
                done: bare_words(words.drop_last()),
                cur: words.last().0,
                in_quotes: false,
                had_quoted: words.last().1,
            },
        ),
        line_of(words).len() > 0,
        !crate::text::is_space(line_of(words)[0]),
        !crate::text::is_space(line_of(words).last()),
    decreases words.len(),
{
    let none = Seq::<char>::empty();
    let last = words[words.len() - 1];
    let shown = written(last.0, last.1);
    assert(is_word(last.0, last.1));
    assert(shown.len() > 0 && !crate::text::is_space(shown[0]) && !crate::text::is_space(
        shown.last(),
    ));
    if words.len() == 1 {
        lemma_tokens_written(none, last.0, last.1, Seq::empty());
        assert(none + shown =~= shown);
        assert(bare_words(words.drop_last()) =~= Seq::<Seq<char>>::empty());
    } else {
        let less = words.drop_last();
        assert forall|i: int| 0 <= i < less.len() implies is_word(
            (#[trigger] less[i]).0,
            less[i].1,
        ) by {
            assert(less[i] == words[i]);
        }
        lemma_tokens_line(less);
        let prev = less[less.len() - 1];
        assert(is_word(prev.0, prev.1));
        let t = Tokens {
            done: bare_words(less.drop_last()),
            cur: prev.0,
            in_quotes: false,
            had_quoted: prev.1,
        };
        let s = line_of(less);
        assert(crate::text::is_space(' '));
        lemma_tokens_push(s, ' ', t);
        assert(bare_words(less) =~= bare_words(less.drop_last()).push(prev.0));
        lemma_tokens_written(s + seq![' '], last.0, last.1, bare_words(less));
        assert(line_of(words) =~= s + seq![' '] + shown);
        assert(line_of(words)[0] == s[0]);
        assert(line_of(words).last() == shown.last());
    }
}

/// A command line gives its words back: the program, and then each argument,
/// with what stands in quotes as one word, and nothing else about the command.
pub proof fn lemma_command_lines_are_read_back(
    line: &str,
    words: Seq<(Seq<char>, bool)>,
    r: Result<CommandSpec, AdapterError>,
)
    requires
        words.len() > 0,
        forall|i: int| 0 <= i < words.len() ==> is_word((#[trigger] words[i]).0, words[i].1),
        line@ == line_of(words),
        call_ensures(parse_action_command, (line,), r),
    ensures
        r matches Ok(c) && c@.program == words[0].0 && c@.args == bare_words(words).skip(1)
            && c@.cwd is None && c@.reads.len() == 0 && c@.writes.len() == 0,
{
    lemma_tokens_line(words);
    crate::text::lemma_trimmed_bare(line@);
    let last = words[words.len() - 1];
    assert(is_word(last.0, last.1));
    assert(bare_words(words.drop_last()).push(last.0) =~= bare_words(words));
    assert(bare_words(words)[0] == words[0].0);
}


/// How many double quotes there are.
pub open spec fn quotes_in(s: Seq<char>) -> nat
    decreases s.len(),
{
    if s.len() == 0 {
        0
    } else {
        quotes_in(s.drop_last()) + (if s.last() == '"' {
            1nat
        } else {
            0nat
        })
    }
}

/// There is a backslash, a line break or a null character in the text.
pub open spec fn has_odd_character(s: Seq<char>) -> bool {
    exists|i: int|
        0 <= i < s.len() && (#[trigger] s[i] == '\\' || s[i] == '\n' || s[i] == '\r' || s[i] == '\0')
}

/// A command line is taken exactly where its quotes come in pairs and it holds
/// no backslash, no line break and no null character.
pub proof fn lemma_odd_command_lines_are_refused(
    line: &str,
    r: Result<CommandSpec, AdapterError>,
)
    requires
        call_ensures(parse_action_command, (line,), r),
        line@.len() > 0,
        !crate::text::is_space(line@[0]),
        !crate::text::is_space(line@.last()),
    ensures
        r is Ok <==> quotes_in(line@) % 2 == 0 && !has_odd_character(line@),
{
    crate::text::lemma_trimmed_bare(line@);
    lemma_tokens_so_far(line@);
}

proof fn lemma_tokens_so_far(s: Seq<char>)
    ensures
        crate::adapter::tokens_after(s) is Err <==> has_odd_character(s),
        crate::adapter::tokens_after(s) matches Ok(t) ==> {
            &&& t.in_quotes <==> quotes_in(s) % 2 == 1
            &&& s.len() > 0 && !crate::text::is_space(s[0]) ==> t.done.len() > 0 || t.cur.len() > 0
                || t.had_quoted
        },
    decreases s.len(),
{
    if s.len() > 0 {
        let less = s.drop_last();
        lemma_tokens_so_far(less);
        assert(s[s.len() - 1] == s.last());
        if has_odd_character(less) {
            let i = choose|i: int|
                0 <= i < less.len() && (#[trigger] less[i] == '\\' || less[i] == '\n' || less[i]
                    == '\r' || less[i] == '\0');
            assert(s[i] == less[i]);
        }
        if has_odd_character(s) && !has_odd_character(less) {
            let i = choose|i: int|
                0 <= i < s.len() && (#[trigger] s[i] == '\\' || s[i] == '\n' || s[i] == '\r'
                    || s[i] == '\0');
            if i < less.len() {
                assert(less[i] == s[i]);
            }
        }
        if less.len() > 0 {
            assert(less[0] == s[0]);
        }
    }
}

} // verus!
