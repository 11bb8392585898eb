//! What is typed is what is done: the command line and the session give each
//! setting the value that was named for it, and runs go through their stages.

use vstd::prelude::*;

use crate::args::{parse_args, Command, CommandLine, RunArgsModel};
use crate::ids::{CheckpointId, TaskId};
use crate::manifest::ManifestModel;
use crate::repl::{SessionModel, StepModel};
use crate::run::{Output, RunActionModel, RunEventModel, RunModel, StageModel};

verus! {

/// A setting of a run.
pub ghost enum Field {
    Task,
    Manifest,
    Workdir,
    Provider,
    Model,
    BaseUrl,
    Script,
}

/// The flag that names a setting.
pub open spec fn flag_of(f: Field) -> Seq<char> {
    match f {
        Field::Task => "--task"@,
        Field::Manifest => "--manifest"@,
        Field::Workdir => "--workdir"@,
        Field::Provider => "--provider"@,
        Field::Model => "--model"@,
        Field::BaseUrl => "--base-url"@,
        Field::Script => "-f"@,
    }
}

/// The settings with one of them given a value.
pub open spec fn assigned(a: RunArgsModel, f: Field, v: Seq<char>) -> RunArgsModel {
    match f {
        Field::Task => RunArgsModel { task: Some(v), ..a },
        Field::Manifest => RunArgsModel { manifest: Some(v), ..a },
        Field::Workdir => RunArgsModel { workdir: Some(v), ..a },
        Field::Provider => RunArgsModel { provider: Some(v), ..a },
        Field::Model => RunArgsModel { model: Some(v), ..a },
        Field::BaseUrl => RunArgsModel { base_url: Some(v), ..a },
        Field::Script => RunArgsModel { script: Some(v), ..a },
    }
}

/// The settings that a list of them comes to, the last of each counting.
pub open spec fn given(pairs: Seq<(Field, Seq<char>)>) -> RunArgsModel
    decreases pairs.len(),
{
    if pairs.len() == 0 {
        RunArgsModel {
            task: None,
            manifest: None,
            workdir: None,
            script: None,
            provider: None,
            model: None,
            base_url: None,
            debug_xml: false,
        }
    } else {
        assigned(given(pairs.drop_last()), pairs.last().0, pairs.last().1)
    }
}

/// The words of a command line that gives these settings to a run, with or
/// without `--debug-xml` at its end.
pub open spec fn is_run_line(
    words: Seq<Seq<char>>,
    pairs: Seq<(Field, Seq<char>)>,
    debug_xml: bool,
) -> bool {
    &&& words.len() == 1 + 2 * pairs.len() + (if debug_xml {
        1int
    } else {
        0
    })
    &&& words[0] == "run"@
    &&& forall|k: int|
        0 <= k < pairs.len() ==> words[1 + 2 * k] == flag_of((#[trigger] pairs[k]).0) && words[2 + 2
            * k] == pairs[k].1
    &&& debug_xml ==> words.last() == "--debug-xml"@
}

proof fn lemma_flag_sets_its_field(a: RunArgsModel, f: Field, v: Seq<char>)
    ensures
        crate::args::takes_value(flag_of(f)),
        crate::args::with_value(a, flag_of(f), v) == assigned(a, f, v),
{
    reveal_strlit("--task");
    reveal_strlit("--manifest");
    reveal_strlit("--workdir");
    reveal_strlit("--provider");
    reveal_strlit("--model");
    reveal_strlit("--base-url");
    reveal_strlit("-f");
    assert("--task"@.len() == 6 && "--manifest"@.len() == 10 && "--workdir"@.len() == 9);
    assert("--provider"@.len() == 10 && "--model"@.len() == 7 && "--base-url"@.len() == 10);
    assert("-f"@.len() == 2);
    assert("--manifest"@[2] == 'm' && "--provider"@[2] == 'p' && "--base-url"@[2] == 'b');
}

proof fn lemma_debug_takes_no_value()
    ensures
        !crate::args::takes_value("--debug-xml"@),
{
    reveal_strlit("--debug-xml");
    reveal_strlit("--task");
    reveal_strlit("--manifest");
    reveal_strlit("--workdir");
    reveal_strlit("--provider");
    reveal_strlit("--model");
    reveal_strlit("--base-url");
    reveal_strlit("-f");
    assert("--debug-xml"@.len() == 11);
    assert("--task"@.len() == 6 && "--manifest"@.len() == 10 && "--workdir"@.len() == 9);
    assert("--provider"@.len() == 10 && "--model"@.len() == 7 && "--base-url"@.len() == 10);
    assert("-f"@.len() == 2);
}

proof fn lemma_settings_read(
    words: Seq<Seq<char>>,
    pairs: Seq<(Field, Seq<char>)>,
    debug_xml: bool,
    k: int,
)
    requires
        is_run_line(words, pairs, debug_xml),
        0 <= k <= pairs.len(),
    ensures
        crate::args::run_args_from(words, 1 + 2 * k, given(pairs.take(k))) == Ok::<
            RunArgsModel,
            Seq<char>,
        >(RunArgsModel { debug_xml, ..given(pairs) }),
    decreases pairs.len() - k,
{
    if k == pairs.len() {
        assert(pairs.take(k) =~= pairs);
        lemma_given_leaves_debug(pairs);
        if debug_xml {
            lemma_debug_takes_no_value();
            reveal_with_fuel(crate::args::run_args_from, 2);
            assert(words[1 + 2 * k] == words.last());
        }
    } else {
        lemma_settings_read(words, pairs, debug_xml, k + 1);
        let (f, v) = pairs[k];
        assert(words[1 + 2 * k] == flag_of(pairs[k].0) && words[2 + 2 * k] == pairs[k].1);
        lemma_flag_sets_its_field(given(pairs.take(k)), f, v);
        assert(pairs.take(k + 1).drop_last() =~= pairs.take(k));
        assert(pairs.take(k + 1).last() == pairs[k]);
        assert(1 + 2 * (k + 1) == 1 + 2 * k + 2);
    }
}

proof fn lemma_given_leaves_debug(pairs: Seq<(Field, Seq<char>)>)
    ensures
        !given(pairs).debug_xml,
    decreases pairs.len(),
{
    if pairs.len() > 0 {
        lemma_given_leaves_debug(pairs.drop_last());
    }
}

/// A command line gives each setting of a run the value behind its flag, in
/// whatever order they come, and the last one where there are two.
pub proof fn lemma_command_lines_give_their_settings(
    args: &Vec<String>,
    pairs: Seq<(Field, Seq<char>)>,
    debug_xml: bool,
    r: Result<Command, String>,
)
    requires
        is_run_line(crate::text::texts(args@), pairs, debug_xml),
        call_ensures(parse_args, (args,), r),
    ensures
        r matches Ok(c) && c@ == CommandLine::Run(RunArgsModel { debug_xml, ..given(pairs) }),
{
    reveal_strlit("run");
    reveal_strlit("repl");
    assert("run"@.len() == 3 && "repl"@.len() == 4);
    assert(pairs.take(0) =~= Seq::empty());
    lemma_settings_read(crate::text::texts(args@), pairs, debug_xml, 0);
}

/// What is no command and no flag is the task of a run with the defaults.
pub proof fn lemma_bare_words_are_the_task(args: &Vec<String>, r: Result<Command, String>)
    requires
        args@.len() > 0,
        args@[0]@.len() > 0,
        args@[0]@[0] != '-',
        args@[0]@ != "run"@,
        args@[0]@ != "repl"@,
        args@[0]@ != "inspect"@,
        args@[0]@ != "help"@,
        call_ensures(parse_args, (args,), r),
    ensures
        r matches Ok(c) && (c@ matches CommandLine::Run(a) && {
            &&& a.task == Some(crate::text::joined_with(crate::text::texts(args@), " "@))
            &&& a.provider == Some("ollama"@)
            &&& a.model == Some("llama3"@)
            &&& a.manifest == Some("task.toml"@)
            &&& a.workdir is None
            &&& a.script is None
            &&& a.base_url is None
            &&& !a.debug_xml
        }),
{
    reveal_strlit("--help");
    reveal_strlit("-h");
    assert("--help"@[0] == '-' && "-h"@[0] == '-');
    assert(crate::text::texts(args@)[0] == args@[0]@);
}

/// A session is opened where nothing is said or it is asked for, a bundle is
/// inspected where that is asked for, and a flag that is no command is an error.
pub proof fn lemma_first_words_are_commands(args: &Vec<String>, r: Result<Command, String>)
    requires
        call_ensures(parse_args, (args,), r),
    ensures
        args@.len() == 0 || args@[0]@ == "repl"@ ==> (r matches Ok(c) && c is Repl),
        args@.len() > 0 && args@[0]@ == "inspect"@ ==> (r matches Ok(c) ==> c is Inspect),
        args@.len() == 1 && args@[0]@ == "inspect"@ ==> (r matches Ok(c) && c@
            == CommandLine::Inspect(None)),
        args@.len() == 3 && args@[0]@ == "inspect"@ && args@[1]@ == "--bundle"@ ==> (r matches Ok(c)
            && c@ == CommandLine::Inspect(Some(args@[2]@))),
        args@.len() > 0 && args@[0]@ == "run"@ ==> (r matches Ok(c) ==> c is Run),
        args@.len() > 0 && (args@[0]@ == "help"@ || (args@[0]@.len() > 0 && args@[0]@[0] == '-'))
            ==> r is Err,
{
    reveal_strlit("run");
    reveal_strlit("repl");
    reveal_strlit("inspect");
    reveal_strlit("help");
    reveal_strlit("--help");
    reveal_strlit("-h");
    assert("run"@.len() == 3 && "repl"@.len() == 4 && "help"@.len() == 4 && "inspect"@.len() == 7);
    assert("run"@[0] == 'r' && "repl"@[0] == 'r' && "help"@[0] == 'h' && "inspect"@[0] == 'i');
    let all = crate::text::texts(args@);
    assert(all.len() == args@.len());
    if args@.len() > 0 {
        assert(all[0] == args@[0]@);
    }
    if args@.len() == 3 {
        assert(all[1] == args@[1]@ && all[2] == args@[2]@);
    }
    reveal_with_fuel(crate::args::inspect_args_from, 3);
}

/// A flag that is not known, and one whose value is missing, is an error,
/// whatever stands before it.
pub proof fn lemma_bad_flags_are_refused(
    args: &Vec<String>,
    pairs: Seq<(Field, Seq<char>)>,
    bad: Seq<char>,
    r: Result<Command, String>,
)
    requires
        call_ensures(parse_args, (args,), r),
        crate::text::texts(args@).len() == 2 + 2 * pairs.len(),
        crate::text::texts(args@)[0] == "run"@,
        forall|i: int|
            0 <= i < pairs.len() ==> crate::text::texts(args@)[1 + 2 * i] == flag_of(
                (#[trigger] pairs[i]).0,
            ) && crate::text::texts(args@)[2 + 2 * i] == pairs[i].1,
        crate::text::texts(args@).last() == bad,
        bad != "--debug-xml"@,
    ensures
        r is Err,
{
    reveal_strlit("run");
    reveal_strlit("repl");
    assert("run"@.len() == 3 && "repl"@.len() == 4);
    lemma_bad_flag(crate::text::texts(args@), pairs, 0, crate::args::no_args());
}

proof fn lemma_bad_flag(
    words: Seq<Seq<char>>,
    pairs: Seq<(Field, Seq<char>)>,
    k: int,
    a: RunArgsModel,
)
    requires
        0 <= k <= pairs.len(),
        words.len() == 2 + 2 * pairs.len(),
        forall|i: int|
            0 <= i < pairs.len() ==> words[1 + 2 * i] == flag_of((#[trigger] pairs[i]).0) && words[2
                + 2 * i] == pairs[i].1,
        words.last() != "--debug-xml"@,
    ensures
        crate::args::run_args_from(words, 1 + 2 * k, a) is Err,
    decreases pairs.len() - k,
{
    if k < pairs.len() {
        let f = pairs[k].0;
        lemma_flag_sets_its_field(a, f, pairs[k].1);
        assert(words[1 + 2 * k] == flag_of(f));
        lemma_bad_flag(
            words,
            pairs,
            k + 1,
            crate::args::with_value(a, words[1 + 2 * k], words[2 + 2 * k]),
        );
    } else {
        assert(words[1 + 2 * k] == words.last());
    }
}

/// A setting of a session.
pub ghost enum Setting {
    Model,
    Provider,
    Manifest,
    Workdir,
    BaseUrl,
}

pub open spec fn key_of(k: Setting) -> Seq<char> {
    match k {
        Setting::Model => "model"@,
        Setting::Provider => "provider"@,
        Setting::Manifest => "manifest"@,
        Setting::Workdir => "workdir"@,
        Setting::BaseUrl => "base-url"@,
    }
}

/// The session with one setting changed.
pub open spec fn changed(s: SessionModel, k: Setting, v: Seq<char>) -> SessionModel {
    match k {
        Setting::Model => SessionModel { current_model: v, ..s },
        Setting::Provider => SessionModel { current_provider: v, ..s },
        Setting::Manifest => SessionModel { manifest_path: Some(v), ..s },
        Setting::Workdir => SessionModel { workdir: v, ..s },
        Setting::BaseUrl => SessionModel { base_url: Some(v), ..s },
    }
}

/// A text without white space at its ends, and not empty.
pub open spec fn is_bare(s: Seq<char>) -> bool {
    s.len() > 0 && !crate::text::is_space(s[0]) && !crate::text::is_space(s.last())
}

proof fn lemma_keys()
    ensures
        "set "@.len() == 4 && "set "@[0] == 's' && "set "@[1] == 'e' && "set "@[3] == ' ',
        "run "@.len() == 4 && "run "@[0] == 'r' && "run "@[3] == ' ',
        "load "@.len() == 5 && "load "@[0] == 'l' && "load "@[4] == ' ',
        "exit"@.len() == 4 && "exit"@[0] == 'e',
        "quit"@.len() == 4 && "quit"@[0] == 'q',
        "status"@.len() == 6 && "status"@[1] == 't' && "status"@[0] == 's',
        "model"@.len() == 5,
        "provider"@.len() == 8 && "provider"@[0] == 'p',
        "manifest"@.len() == 8 && "manifest"@[0] == 'm',
        "workdir"@.len() == 7,
        "base-url"@.len() == 8 && "base-url"@[0] == 'b',
{
    reveal_strlit("set ");
    reveal_strlit("run ");
    reveal_strlit("load ");
    reveal_strlit("exit");
    reveal_strlit("quit");
    reveal_strlit("status");
    reveal_strlit("model");
    reveal_strlit("provider");
    reveal_strlit("manifest");
    reveal_strlit("workdir");
    reveal_strlit("base-url");
}

proof fn lemma_key_is_solid(k: Setting)
    ensures
        forall|i: int| 0 <= i < key_of(k).len() ==> !crate::text::is_space(#[trigger] key_of(k)[i]),
        key_of(k).len() > 0,
{
    reveal_strlit("model");
    reveal_strlit("provider");
    reveal_strlit("manifest");
    reveal_strlit("workdir");
    reveal_strlit("base-url");
}

proof fn lemma_first_space(key: Seq<char>, rest: Seq<char>, from: int)
    requires
        0 <= from <= key.len(),
        forall|i: int| 0 <= i < key.len() ==> !crate::text::is_space(#[trigger] key[i]),
    ensures
        crate::repl::space_from(key + (seq![' '] + rest), from) == Some(key.len() as int),
    decreases key.len() - from,
{
    let s = key + (seq![' '] + rest);
    assert(crate::text::is_space(' '));
    if from < key.len() {
        assert(s[from] == key[from]);
        lemma_first_space(key, rest, from + 1);
    } else {
        assert(s[from] == ' ');
    }
}

/// `set` gives one setting of a session its value, and leaves the others.
pub proof fn lemma_set_changes_its_setting(s: SessionModel, k: Setting, v: Seq<char>)
    requires
        is_bare(v),
    ensures
        crate::repl::executed(s, "set "@ + (key_of(k) + (seq![' '] + v))) matches Ok((t, step))
            && t == changed(s, k, v) && step is Changed,
{
    lemma_keys();
    lemma_key_is_solid(k);
    let input = key_of(k) + (seq![' '] + v);
    let line = "set "@ + input;
    assert(!crate::text::is_space('s'));
    assert(line[0] == 's' && line.last() == v.last());
    crate::text::lemma_trimmed_bare(line);
    assert("set "@ =~= line.subrange(0, 4));
    assert(line.skip(4) =~= input);
    assert(line[1] == 'e' && line.len() > 6);
    lemma_first_space(key_of(k), v, 0);
    assert(input.take(key_of(k).len() as int) =~= key_of(k));
    assert(input.skip(key_of(k).len() as int + 1) =~= v);
    crate::text::lemma_trimmed_bare(v);
}

/// `set` switches the context of a session on and off, and leaves every other
/// setting.
pub proof fn lemma_set_switches_the_context(s: SessionModel, v: Seq<char>, on: bool)
    requires
        is_bare(v),
        on ==> v == "1"@ || v == "true"@ || v == "yes"@ || v == "on"@,
        !on ==> v == "0"@ || v == "false"@ || v == "no"@ || v == "off"@,
    ensures
        crate::repl::executed(s, "set "@ + ("debug-xml"@ + (seq![' '] + v))) matches Ok((t, step))
            && t == (SessionModel { debug_xml: on, ..s }) && step is Changed,
{
    lemma_keys();
    reveal_strlit("debug-xml");
    let key = "debug-xml"@;
    assert(key.len() == 9);
    assert forall|i: int| 0 <= i < key.len() implies !crate::text::is_space(#[trigger] key[i]) by {}
    let input = key + (seq![' '] + v);
    let line = "set "@ + input;
    assert(!crate::text::is_space('s'));
    assert(line[0] == 's' && line.last() == v.last());
    crate::text::lemma_trimmed_bare(line);
    assert("set "@ =~= line.subrange(0, 4));
    assert(line.skip(4) =~= input);
    assert(line[1] == 'e' && line.len() > 6);
    lemma_first_space(key, v, 0);
    assert(input.take(key.len() as int) =~= key);
    assert(input.skip(key.len() as int + 1) =~= v);
    crate::text::lemma_trimmed_bare(v);
    lemma_no_is_not_yes(v, on);
}

proof fn lemma_no_is_not_yes(v: Seq<char>, on: bool)
    requires
        on ==> v == "1"@ || v == "true"@ || v == "yes"@ || v == "on"@,
        !on ==> v == "0"@ || v == "false"@ || v == "no"@ || v == "off"@,
    ensures
        crate::repl::bool_of(v) == Some(on),
{
    reveal_strlit("1");
    reveal_strlit("true");
    reveal_strlit("yes");
    reveal_strlit("on");
    reveal_strlit("0");
    reveal_strlit("false");
    reveal_strlit("no");
    reveal_strlit("off");
    assert("1"@.len() == 1 && "0"@.len() == 1 && "1"@[0] == '1' && "0"@[0] == '0');
    assert("on"@.len() == 2 && "no"@.len() == 2 && "on"@[0] == 'o' && "no"@[0] == 'n');
    assert("yes"@.len() == 3 && "off"@.len() == 3 && "yes"@[0] == 'y' && "off"@[0] == 'o');
    assert("true"@.len() == 4 && "false"@.len() == 5);
}

/// `run` runs the task with every setting of the session, with a pair of
/// quotes round it or without.
pub proof fn lemma_run_uses_the_session(s: SessionModel, task: Seq<char>, path: Seq<char>)
    requires
        is_bare(task),
        task[0] != '"',
        s.manifest_path == Some(path),
    ensures
        crate::repl::executed(s, "run "@ + task) matches Ok((t, step)) && t == s && (
        step matches StepModel::Run(a) && runs_in(s, task, path, a)),
        crate::repl::executed(s, "run "@ + (seq!['"'] + task + seq!['"'])) matches Ok((t, step))
            && t == s && (step matches StepModel::Run(a) && runs_in(s, task, path, a)),
{
    lemma_keys();
    let quoted = seq!['"'] + task + seq!['"'];
    assert(!crate::text::is_space('r') && !crate::text::is_space('"'));
    lemma_run_line(s, task);
    lemma_run_line(s, quoted);
    assert(quoted.subrange(1, quoted.len() - 1) =~= task);
}

proof fn lemma_run_line(s: SessionModel, said: Seq<char>)
    requires
        is_bare(said),
    ensures
        crate::repl::executed(s, "run "@ + said) == (match crate::repl::run_of(s, said) {
            Ok(a) => Ok::<(SessionModel, StepModel), Seq<char>>((s, StepModel::Run(a))),
            Err(m) => Err::<(SessionModel, StepModel), Seq<char>>(m),
        }),
        crate::text::trimmed(said) == said,
{
    lemma_keys();
    let line = "run "@ + said;
    assert(!crate::text::is_space('r'));
    assert(line[0] == 'r' && line.last() == said.last());
    crate::text::lemma_trimmed_bare(line);
    crate::text::lemma_trimmed_bare(said);
    assert("run "@ =~= line.subrange(0, 4));
    assert(line.skip(4) =~= said);
    if "set "@.is_prefix_of(line) {
        assert(line.subrange(0, 4)[0] == 's');
    }
    if "load "@.is_prefix_of(line) {
        assert(line.subrange(0, 5)[0] == 'l');
    }
}

/// The arguments of a run that a session asks for.
pub open spec fn runs_in(s: SessionModel, task: Seq<char>, path: Seq<char>, a: RunArgsModel) -> bool {
    &&& a.task == Some(task)
    &&& a.manifest == Some(path)
    &&& a.workdir == Some(s.workdir)
    &&& a.provider == Some(s.current_provider)
    &&& a.model == Some(s.current_model)
    &&& a.base_url == s.base_url
    &&& a.debug_xml == s.debug_xml
    &&& a.script is None
}

/// The manifest with its paths below a working directory.
pub open spec fn is_placed(m: ManifestModel, workdir: Seq<char>, p: ManifestModel) -> bool {
    &&& p.allow_exec == m.allow_exec
    &&& p.test_commands == m.test_commands
    &&& p.token_limit == m.token_limit
    &&& p.max_steps == m.max_steps
    &&& p.timeout_ms == m.timeout_ms
    &&& are_placed(m.allow_read, workdir, p.allow_read)
    &&& are_placed(m.allow_write, workdir, p.allow_write)
    &&& are_placed(m.mandatory_artifacts, workdir, p.mandatory_artifacts)
}

pub open spec fn are_placed(a: Seq<Seq<char>>, workdir: Seq<char>, b: Seq<Seq<char>>) -> bool {
    &&& a.len() == b.len()
    &&& forall|i: int|
        0 <= i < a.len() ==> #[trigger] b[i] == crate::host_path::task_path(workdir, a[i])
}

pub open spec fn after(r: RunModel, e: RunEventModel) -> RunModel {
    RunModel {
        stage: match crate::run::run_turn(r, e) {
            Ok(t) => t.stage,
            Err(_) => StageModel::Done,
        },
        ..r
    }
}

pub open spec fn action_on(r: RunModel, e: RunEventModel) -> Option<RunActionModel> {
    match crate::run::run_turn(r, e) {
        Ok(t) => Some(t.action),
        Err(_) => None,
    }
}

/// A run without a pipe and without a script: the directory is checked, the
/// task is started with its manifest placed in the working directory, its
/// trace is opened, its model is asked as the arguments say, and where the
/// report has no error the bundle is exported.
pub proof fn lemma_runs_with_a_model(
    r: RunModel,
    m: ManifestModel,
    id: TaskId,
    message: Option<Seq<char>>,
)
    requires
        r.stage is Manifest,
        !r.stdin_is_pipe,
        r.args.script is None,
    ensures
        ({
            let e1 = RunEventModel::Manifest(m);
            let r1 = after(r, e1);
            let r2 = after(r1, RunEventModel::Safe);
            let r3 = after(r2, RunEventModel::Task(id));
            let r4 = after(r3, RunEventModel::TraceOpen);
            let told = RunEventModel::Report { error_type: None, message };
            &&& action_on(r, e1) == Some(RunActionModel::CheckDirectory(r.workdir))
            &&& action_on(r1, RunEventModel::Safe) matches Some(RunActionModel::StartTask {
                manifest,
                from_bundle,
                line,
                text,
            }) && is_placed(m, r.workdir, manifest) && !from_bundle && text == r.task_text
            &&& action_on(r2, RunEventModel::Task(id)) == Some(
                RunActionModel::OpenTrace { log_start: true, show_xml: r.args.debug_xml },
            )
            &&& action_on(r3, RunEventModel::TraceOpen) matches Some(RunActionModel::RunModel {
                provider,
                model,
                base_url,
            }) && model == r.args.model && base_url == r.args.base_url && (r.args.provider matches Some(
                p,
            ) ==> provider == p) && (r.args.provider is None ==> provider == "openai-compatible"@)
            &&& action_on(r4, told) matches Some(RunActionModel::Close {
                mark_failed,
                export,
                output,
            }) && !mark_failed && export && (output is Bundle <==> r.stdout_is_pipe)
        }),
{
}

/// A run from a bundle: once the directory is safe the bundle is read, and the
/// task is started from it; its trace is not begun anew.
pub proof fn lemma_runs_from_a_bundle(
    r: RunModel,
    m: ManifestModel,
    source: TaskId,
    files: usize,
    id: TaskId,
)
    requires
        r.stage is Manifest,
        r.stdin_is_pipe,
    ensures
        ({
            let r1 = after(r, RunEventModel::Manifest(m));
            let r2 = after(r1, RunEventModel::Safe);
            let taken = RunEventModel::Bundle { source_task_id: source, files };
            let r3 = after(r2, taken);
            &&& action_on(r1, RunEventModel::Safe) == Some(RunActionModel::ReadBundle)
            &&& action_on(r2, RunEventModel::NoBundle) is None
            &&& action_on(r2, taken) matches Some(RunActionModel::StartTask {
                manifest,
                from_bundle,
                line,
                text,
            }) && is_placed(m, r.workdir, manifest) && from_bundle && text == r.task_text
            &&& action_on(r3, RunEventModel::Task(id)) == Some(
                RunActionModel::OpenTrace { log_start: false, show_xml: r.args.debug_xml },
            )
        }),
{
}

/// A run with a script: a checkpoint is made, the script is run in its time,
/// and where it passed the bundle is exported; otherwise the run goes back to
/// that checkpoint and is marked as failed.
pub proof fn lemma_runs_with_a_script(
    r: RunModel,
    timeout_ms: u64,
    script: Seq<char>,
    id: CheckpointId,
    why: Seq<char>,
)
    requires
        r.stage == (StageModel::Trace { timeout_ms }),
        r.args.script == Some(script),
    ensures
        ({
            let r1 = after(r, RunEventModel::TraceOpen);
            let r2 = after(r1, RunEventModel::Checkpoint(id));
            let failed = RunEventModel::ScriptFailed(why);
            let r3 = after(r2, failed);
            &&& action_on(r, RunEventModel::TraceOpen) == Some(RunActionModel::Checkpoint)
            &&& action_on(r1, RunEventModel::Checkpoint(id)) == Some(
                RunActionModel::RunScript {
                    path: crate::host_path::normalized(script),
                    timeout_ms,
                },
            )
            &&& action_on(r2, RunEventModel::ScriptPassed) matches Some(RunActionModel::Close {
                mark_failed,
                export,
                output,
            }) && !mark_failed && export
            &&& action_on(r2, failed) == Some(RunActionModel::Rollback(id))
            &&& action_on(r2, RunEventModel::ScriptTimedOut) == Some(RunActionModel::Rollback(id))
            &&& action_on(r3, RunEventModel::RolledBack) matches Some(RunActionModel::Close {
                mark_failed,
                export,
                output,
            }) && mark_failed && !export && output != Output::Bundle
        }),
{
}

} // verus!
