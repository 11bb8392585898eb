//! The command line.

use vstd::prelude::*;

use crate::text::{begins_with_char, cat, cat3, join_texts, owned, same_text};

verus! {

/// What to run, and how.
#[derive(Clone, Debug)]
pub struct RunArgs {
    pub task: Option<String>,
    pub manifest: Option<String>,
    pub workdir: Option<String>,
    pub script: Option<String>,
    pub provider: Option<String>,
    pub model: Option<String>,
    pub base_url: Option<String>,
    pub debug_xml: bool,
}

/// The contents of `RunArgs`.
pub ghost struct RunArgsModel {
    pub task: Option<Seq<char>>,
    pub manifest: Option<Seq<char>>,
    pub workdir: Option<Seq<char>>,
    pub script: Option<Seq<char>>,
    pub provider: Option<Seq<char>>,
    pub model: Option<Seq<char>>,
    pub base_url: Option<Seq<char>>,
    pub debug_xml: bool,
}

impl View for RunArgs {
    type V = RunArgsModel;

    open spec fn view(&self) -> RunArgsModel {
        RunArgsModel {
            task: crate::text::text_option(self.task),
            manifest: crate::text::text_option(self.manifest),
            workdir: crate::text::text_option(self.workdir),
            script: crate::text::text_option(self.script),
            provider: crate::text::text_option(self.provider),
            model: crate::text::text_option(self.model),
            base_url: crate::text::text_option(self.base_url),
            debug_xml: self.debug_xml,
        }
    }
}

/// Nothing is given.
pub open spec fn no_args() -> RunArgsModel {
    RunArgsModel {
        task: None,
        manifest: None,
        workdir: None,
        script: None,
        provider: None,
        model: None,
        base_url: None,
        debug_xml: false,
    }
}

impl Default for RunArgs {
    fn default() -> (r: RunArgs)
        ensures
            r@ == no_args(),
    {
        RunArgs {
            task: None,
            manifest: None,
            workdir: None,
            script: None,
            provider: None,
            model: None,
            base_url: None,
            debug_xml: false,
        }
    }
}

/// Which bundle to look into.
#[derive(Clone, Debug)]
pub struct InspectArgs {
    pub bundle: Option<String>,
}

#[derive(Clone, Debug)]
pub enum Command {
    Run(RunArgs),
    Inspect(InspectArgs),
    Repl,
}

/// A command as it counts.
pub ghost enum CommandLine {
    Run(RunArgsModel),
    Inspect(Option<Seq<char>>),
    Repl,
}

impl View for Command {
    type V = CommandLine;

    open spec fn view(&self) -> CommandLine {
        match self {
            Command::Run(a) => CommandLine::Run(a@),
            Command::Inspect(a) => CommandLine::Inspect(crate::text::text_option(a.bundle)),
            Command::Repl => CommandLine::Repl,
        }
    }
}

/// How the program is called.
pub open spec fn usage_text() -> Seq<char> {
    "usage:\n  v9r repl\n  v9r \"task description\"\n  v9r run --task <text> --manifest <path> [--workdir <path>] [--provider <name>] [--model <id>] [--base-url <url>] [-f <script>] [--debug-xml]\n  v9r inspect [--bundle <path>]"@
}

pub fn usage() -> (r: &'static str)
    ensures
        r@ == usage_text(),
{
    "usage:\n  v9r repl\n  v9r \"task description\"\n  v9r run --task <text> --manifest <path> [--workdir <path>] [--provider <name>] [--model <id>] [--base-url <url>] [-f <script>] [--debug-xml]\n  v9r inspect [--bundle <path>]"
}

/// The flags of `run` that a value follows.
pub open spec fn takes_value(flag: Seq<char>) -> bool {
    ||| flag == "--task"@
    ||| flag == "--manifest"@
    ||| flag == "--workdir"@
    ||| flag == "--provider"@
    ||| flag == "--model"@
    ||| flag == "--base-url"@
    ||| flag == "-f"@
}

/// The arguments with the value of one flag set.
pub open spec fn with_value(a: RunArgsModel, flag: Seq<char>, value: Seq<char>) -> RunArgsModel {
    if flag == "--task"@ {
        RunArgsModel { task: Some(value), ..a }
    } else if flag == "--manifest"@ {
        RunArgsModel { manifest: Some(value), ..a }
    } else if flag == "--workdir"@ {
        RunArgsModel { workdir: Some(value), ..a }
    } else if flag == "--provider"@ {
        RunArgsModel { provider: Some(value), ..a }
    } else if flag == "--model"@ {
        RunArgsModel { model: Some(value), ..a }
    } else if flag == "--base-url"@ {
        RunArgsModel { base_url: Some(value), ..a }
    } else {
        RunArgsModel { script: Some(value), ..a }
    }
}

/// The arguments of `run` from the `i`th on, added to `a`; or what is wrong
/// with the first that is wrong.
pub open spec fn run_args_from(args: Seq<Seq<char>>, i: int, a: RunArgsModel) -> Result<
    RunArgsModel,
    Seq<char>,
>
    decreases args.len() - i,
{
    if i < 0 || i >= args.len() {
        Ok(a)
    } else if takes_value(args[i]) {
        if i + 1 >= args.len() {
            Err("missing value for "@ + args[i])
        } else {
            run_args_from(args, i + 2, with_value(a, args[i], args[i + 1]))
        }
    } else if args[i] == "--debug-xml"@ {
        run_args_from(args, i + 1, RunArgsModel { debug_xml: true, ..a })
    } else {
        Err("run: unknown argument: "@ + args[i])
    }
}

fn is_value_flag(flag: &str) -> (r: bool)
    ensures
        r == takes_value(flag@),
{
    same_text(flag, "--task") || same_text(flag, "--manifest") || same_text(flag, "--workdir")
        || same_text(flag, "--provider") || same_text(flag, "--model") || same_text(
        flag,
        "--base-url",
    ) || same_text(flag, "-f")
}

fn set_value(a: &mut RunArgs, flag: &str, value: &str)
    ensures
        final(a)@ == with_value(old(a)@, flag@, value@),
{
    let v = Some(owned(value));
    if same_text(flag, "--task") {
        a.task = v;
    } else if same_text(flag, "--manifest") {
        a.manifest = v;
    } else if same_text(flag, "--workdir") {
        a.workdir = v;
    } else if same_text(flag, "--provider") {
        a.provider = v;
    } else if same_text(flag, "--model") {
        a.model = v;
    } else if same_text(flag, "--base-url") {
        a.base_url = v;
    } else {
        a.script = v;
    }
}

/// Reads the arguments of `run`, which begin at index `from`.
pub fn parse_run_args(args: &Vec<String>, from: usize) -> (r: Result<RunArgs, String>)
    ensures
        match r {
            Ok(a) => run_args_from(crate::text::texts(args@), from as int, no_args()) == Ok::<
                RunArgsModel,
                Seq<char>,
            >(a@),
            Err(m) => run_args_from(crate::text::texts(args@), from as int, no_args()) == Err::<
                RunArgsModel,
                Seq<char>,
            >(m@),
        },
{
    let ghost all = crate::text::texts(args@);
    let mut out = RunArgs::default();
    let mut i: usize = from;
    while i < args.len()
        invariant
            all == crate::text::texts(args@),
            run_args_from(all, from as int, no_args()) == run_args_from(all, i as int, out@),
        decreases args.len() - i,
    {
        let flag = args[i].as_str();
        proof {
            assert(all[i as int] == flag@);
        }
        if is_value_flag(flag) {
            if args.len() - i < 2 {
                return Err(cat("missing value for ", flag));
            }
            proof {
                assert(all[i + 1] == args@[i + 1]@);
            }
            set_value(&mut out, flag, args[i + 1].as_str());
            i = i + 2;
        } else if same_text(flag, "--debug-xml") {
            out.debug_xml = true;
            i = i + 1;
        } else {
            return Err(cat("run: unknown argument: ", flag));
        }
    }
    Ok(out)
}

/// The arguments of `inspect` from the `i`th on; or what is wrong with the
/// first that is wrong.
pub open spec fn inspect_args_from(args: Seq<Seq<char>>, i: int, bundle: Option<Seq<char>>) -> Result<
    Option<Seq<char>>,
    Seq<char>,
>
    decreases args.len() - i,
{
    if i < 0 || i >= args.len() {
        Ok(bundle)
    } else if args[i] == "--bundle"@ {
        if i + 1 >= args.len() {
            Err("missing value for --bundle"@)
        } else {
            inspect_args_from(args, i + 2, Some(args[i + 1]))
        }
    } else {
        Err("inspect: unknown argument: "@ + args[i])
    }
}

/// Reads the arguments of `inspect`, which begin at index `from`.
pub fn parse_inspect_args(args: &Vec<String>, from: usize) -> (r: Result<InspectArgs, String>)
    ensures
        match r {
            Ok(a) => inspect_args_from(crate::text::texts(args@), from as int, None) == Ok::<
                Option<Seq<char>>,
                Seq<char>,
            >(crate::text::text_option(a.bundle)),
            Err(m) => inspect_args_from(crate::text::texts(args@), from as int, None) == Err::<
                Option<Seq<char>>,
                Seq<char>,
            >(m@),
        },
{
    let ghost all = crate::text::texts(args@);
    let mut bundle: Option<String> = None;
    let mut i: usize = from;
    while i < args.len()
        invariant
            all == crate::text::texts(args@),
            inspect_args_from(all, from as int, None) == inspect_args_from(
                all,
                i as int,
                crate::text::text_option(bundle),
            ),
        decreases args.len() - i,
    {
        let flag = args[i].as_str();
        proof {
            assert(all[i as int] == flag@);
        }
        if same_text(flag, "--bundle") {
            if args.len() - i < 2 {
                return Err(owned("missing value for --bundle"));
            }
            proof {
                assert(all[i + 1] == args@[i + 1]@);
            }
            bundle = Some(owned(args[i + 1].as_str()));
            i = i + 2;
        } else {
            return Err(cat("inspect: unknown argument: ", flag));
        }
    }
    Ok(InspectArgs { bundle })
}

/// The short form: everything is the task.
pub open spec fn shorthand(args: Seq<Seq<char>>) -> RunArgsModel {
    RunArgsModel {
        task: Some(crate::text::joined_with(args, " "@)),
        manifest: Some("task.toml"@),
        provider: Some("ollama"@),
        model: Some("llama3"@),
        ..no_args()
    }
}

/// The short form: everything is the task.
pub fn shorthand_run_args(args: &Vec<String>) -> (r: RunArgs)
    ensures
        r@ == shorthand(crate::text::texts(args@)),
{
    RunArgs {
        task: Some(join_texts(args, " ")),
        manifest: Some(owned("task.toml")),
        workdir: None,
        script: None,
        provider: Some(owned("ollama")),
        model: Some(owned("llama3")),
        base_url: None,
        debug_xml: false,
    }
}

/// The command that a command line means, or what is wrong with it.
pub open spec fn command_of(args: Seq<Seq<char>>) -> Result<CommandLine, Seq<char>> {
    if args.len() == 0 || args[0] == "repl"@ {
        Ok(CommandLine::Repl)
    } else if args[0] == "run"@ {
        match run_args_from(args, 1, no_args()) {
            Ok(a) => Ok(CommandLine::Run(a)),
            Err(m) => Err(m),
        }
    } else if args[0] == "inspect"@ {
        match inspect_args_from(args, 1, None) {
            Ok(b) => Ok(CommandLine::Inspect(b)),
            Err(m) => Err(m),
        }
    } else if args[0] == "help"@ || args[0] == "--help"@ || args[0] == "-h"@ {
        Err(usage_text())
    } else if args[0].len() > 0 && args[0][0] == '-' {
        Err("unknown argument: "@ + args[0] + ("\n"@ + usage_text()))
    } else {
        Ok(CommandLine::Run(shorthand(args)))
    }
}

/// Reads the command line, without the name of the program.
pub fn parse_args(args: &Vec<String>) -> (r: Result<Command, String>)
    ensures
        match r {
            Ok(c) => command_of(crate::text::texts(args@)) == Ok::<CommandLine, Seq<char>>(c@),
            Err(m) => command_of(crate::text::texts(args@)) == Err::<CommandLine, Seq<char>>(m@),
        },
{
    if args.len() == 0 {
        return Ok(Command::Repl);
    }
    let command = args[0].as_str();
    proof {
        assert(crate::text::texts(args@)[0] == command@);
        reveal_strlit("run");
        reveal_strlit("repl");
        reveal_strlit("inspect");
    }
    if same_text(command, "run") {
        return match parse_run_args(args, 1) {
            Ok(a) => Ok(Command::Run(a)),
            Err(m) => Err(m),
        };
    }
    if same_text(command, "inspect") {
        return match parse_inspect_args(args, 1) {
            Ok(a) => Ok(Command::Inspect(a)),
            Err(m) => Err(m),
        };
    }
    if same_text(command, "repl") {
        return Ok(Command::Repl);
    }
    if same_text(command, "help") || same_text(command, "--help") || same_text(command, "-h") {
        return Err(owned(usage()));
    }
    if begins_with_char(command, '-') {
        return Err(cat3("unknown argument: ", command, cat("\n", usage()).as_str()));
    }
    Ok(Command::Run(shorthand_run_args(args)))
}

} // verus!
