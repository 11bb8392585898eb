//! The interactive session.

use vstd::prelude::*;

use crate::args::RunArgs;
use crate::output::{LogLevel, LogLine};
use crate::runtime::text_bytes;
use crate::text::{
    begins_with, cat, cat3, chars_of, copied, is_empty_text, join_texts, owned, rest_after,
    same_text, text_between, text_in, trim,
};
use crate::trace::text_lines;

verus! {

/// How many lines of history are kept.
pub const HISTORY_LIMIT: usize = 500;

/// What is set in a session.
#[derive(Clone, Debug)]
pub struct ReplSession {
    pub current_model: String,
    pub current_provider: String,
    pub manifest_path: Option<String>,
    pub workdir: String,
    pub base_url: Option<String>,
    pub debug_xml: bool,
}

/// The contents of a session.
pub ghost struct SessionModel {
    pub current_model: Seq<char>,
    pub current_provider: Seq<char>,
    pub manifest_path: Option<Seq<char>>,
    pub workdir: Seq<char>,
    pub base_url: Option<Seq<char>>,
    pub debug_xml: bool,
}

impl View for ReplSession {
    type V = SessionModel;

    open spec fn view(&self) -> SessionModel {
        SessionModel {
            current_model: self.current_model@,
            current_provider: self.current_provider@,
            manifest_path: crate::text::text_option(self.manifest_path),
            workdir: self.workdir@,
            base_url: crate::text::text_option(self.base_url),
            debug_xml: self.debug_xml,
        }
    }
}

/// What a line comes to.
#[derive(Debug)]
pub enum ReplStep {
    /// Read the next line.
    Continue,
    Quit,
    /// Print these lines.
    Status(Vec<String>),
    /// Print this line: something was set.
    Changed(LogLine),
    /// See whether there is a manifest at this path.
    Load(String),
    /// Run this.
    Run(RunArgs),
}

/// A step as it counts.
pub ghost enum StepModel {
    Continue,
    Quit,
    Status(Seq<Seq<char>>),
    Changed(crate::output::LineModel),
    Load(Seq<char>),
    Run(crate::args::RunArgsModel),
}

impl View for ReplStep {
    type V = StepModel;

    open spec fn view(&self) -> StepModel {
        match self {
            ReplStep::Continue => StepModel::Continue,
            ReplStep::Quit => StepModel::Quit,
            ReplStep::Status(l) => StepModel::Status(crate::text::texts(l@)),
            ReplStep::Changed(l) => StepModel::Changed(l@),
            ReplStep::Load(p) => StepModel::Load(p@),
            ReplStep::Run(a) => StepModel::Run(a@),
        }
    }
}

/// The first white space of a text, from index `i` on.
pub open spec fn space_from(s: Seq<char>, i: int) -> Option<int>
    decreases s.len() - i,
{
    if i < 0 || i >= s.len() {
        None
    } else if crate::text::is_space(s[i]) {
        Some(i)
    } else {
        space_from(s, i + 1)
    }
}

/// A key, and what stands behind the first white space. Either may be missing.
pub open spec fn key_and_value(s: Seq<char>) -> (Option<Seq<char>>, Option<Seq<char>>) {
    let (head, tail) = match space_from(s, 0) {
        Some(k) => (s.take(k), s.skip(k + 1)),
        None => (s, Seq::empty()),
    };
    if head.len() > 0 {
        (
            Some(head),
            if tail.len() > 0 {
                Some(tail)
            } else {
                None
            },
        )
    } else if tail.len() > 0 {
        (Some(tail), None)
    } else {
        (None, None)
    }
}

fn split_key(s: &str) -> (r: (Option<String>, Option<String>))
    ensures
        (crate::text::text_option(r.0), crate::text::text_option(r.1)) == key_and_value(s@),
{
    let cs = chars_of(s);
    let mut k: usize = 0;
    while k < cs.len() && !cs[k].is_whitespace()
        invariant
            k <= cs.len(),
            cs@ == s@,
            space_from(s@, 0) == space_from(s@, k as int),
        decreases cs.len() - k,
    {
        k = k + 1;
    }
    let head = text_between(cs.as_slice(), 0, k);
    let tail = if k < cs.len() {
        text_between(cs.as_slice(), k + 1, cs.len())
    } else {
        String::new()
    };
    proof {
        if k < cs.len() {
            assert(head@ =~= s@.take(k as int));
            assert(tail@ =~= s@.skip(k + 1));
        } else {
            assert(head@ =~= s@);
            assert(tail@ =~= Seq::empty());
        }
    }
    if !is_empty_text(head.as_str()) {
        if !is_empty_text(tail.as_str()) {
            (Some(head), Some(tail))
        } else {
            (Some(head), None)
        }
    } else if !is_empty_text(tail.as_str()) {
        (Some(tail), None)
    } else {
        (None, None)
    }
}

/// What a word says of yes and no.
pub open spec fn bool_of(value: Seq<char>) -> Option<bool> {
    if value == "1"@ || value == "true"@ || value == "yes"@ || value == "on"@ {
        Some(true)
    } else if value == "0"@ || value == "false"@ || value == "no"@ || value == "off"@ {
        Some(false)
    } else {
        None
    }
}

/// Reads a yes or a no.
pub fn parse_bool(value: &str) -> (r: Result<bool, String>)
    ensures
        match bool_of(value@) {
            Some(b) => r == Ok::<bool, String>(b),
            None => r matches Err(m) && m@ == "invalid bool: "@ + value@,
        },
{
    if same_text(value, "1") || same_text(value, "true") || same_text(value, "yes") || same_text(
        value,
        "on",
    ) {
        Ok(true)
    } else if same_text(value, "0") || same_text(value, "false") || same_text(value, "no")
        || same_text(value, "off") {
        Ok(false)
    } else {
        Err(cat("invalid bool: ", value))
    }
}

/// The task in a line: without white space around it, and without a pair of
/// quotes round all of it.
pub open spec fn task_in(input: Seq<char>) -> Result<Seq<char>, Seq<char>> {
    let s = crate::text::trimmed(input);
    if s.len() == 0 {
        Err("run: missing task"@)
    } else if s.len() >= 2 && s[0] == '"' && s.last() == '"' {
        Ok(s.subrange(1, s.len() - 1))
    } else {
        Ok(s)
    }
}

/// The task in a line.
pub fn parse_task_text(input: &str) -> (r: Result<String, String>)
    ensures
        match r {
            Ok(t) => task_in(input@) == Ok::<Seq<char>, Seq<char>>(t@),
            Err(m) => task_in(input@) == Err::<Seq<char>, Seq<char>>(m@),
        },
{
    let bare = trim(input);
    let cs = chars_of(bare.as_str());
    if cs.len() == 0 {
        return Err(owned("run: missing task"));
    }
    if cs.len() >= 2 && cs[0] == '"' && cs[cs.len() - 1] == '"' {
        Ok(text_between(cs.as_slice(), 1, cs.len() - 1))
    } else {
        Ok(bare)
    }
}

/// What setting a key does, with the line that tells of it.
pub open spec fn after_set(s: SessionModel, input: Seq<char>) -> Result<
    (SessionModel, crate::output::LineModel),
    Seq<char>,
> {
    match key_and_value(input) {
        (None, _) => Err("set: missing key"@),
        (Some(_), None) => Err("set: missing value"@),
        (Some(key), Some(tail)) => {
            let value = crate::text::trimmed(tail);
            let line = crate::run::info("set: "@ + key + "="@ + value);
            if key == "model"@ {
                Ok((SessionModel { current_model: value, ..s }, line))
            } else if key == "provider"@ {
                Ok((SessionModel { current_provider: value, ..s }, line))
            } else if key == "manifest"@ {
                Ok((SessionModel { manifest_path: Some(value), ..s }, line))
            } else if key == "workdir"@ {
                Ok((SessionModel { workdir: value, ..s }, line))
            } else if key == "base-url"@ {
                Ok((SessionModel { base_url: Some(value), ..s }, line))
            } else if key == "debug-xml"@ {
                match bool_of(value) {
                    Some(b) => Ok((SessionModel { debug_xml: b, ..s }, line)),
                    None => Err("invalid bool: "@ + value),
                }
            } else {
                Err("set: unknown key: "@ + key)
            }
        },
    }
}

/// What is shown of a session.
pub open spec fn status_of(s: SessionModel) -> Seq<Seq<char>> {
    seq![
        "provider="@ + s.current_provider,
        "model="@ + s.current_model,
        "manifest="@ + (match s.manifest_path {
            Some(p) => p,
            None => "<unset>"@,
        }),
        "workdir="@ + s.workdir,
        "base_url="@ + (match s.base_url {
            Some(u) => u,
            None => "<provider-default>"@,
        }),
        "debug_xml="@ + (if s.debug_xml {
            "true"@
        } else {
            "false"@
        }),
    ]
}

/// What running a task in a session means.
pub open spec fn run_of(s: SessionModel, input: Seq<char>) -> Result<
    crate::args::RunArgsModel,
    Seq<char>,
> {
    match task_in(input) {
        Err(m) => Err(m),
        Ok(task) => match s.manifest_path {
            None => Err("run: no manifest loaded"@),
            Some(p) => Ok(
                crate::args::RunArgsModel {
                    task: Some(task),
                    manifest: Some(p),
                    workdir: Some(s.workdir),
                    script: None,
                    provider: Some(s.current_provider),
                    model: Some(s.current_model),
                    base_url: s.base_url,
                    debug_xml: s.debug_xml,
                },
            ),
        },
    }
}

/// What a line does to a session, and what follows; or what is wrong with it.
pub open spec fn executed(s: SessionModel, raw: Seq<char>) -> Result<
    (SessionModel, StepModel),
    Seq<char>,
> {
    let line = crate::text::trimmed(raw);
    if line.len() == 0 {
        Ok((s, StepModel::Continue))
    } else if line == "exit"@ || line == "quit"@ {
        Ok((s, StepModel::Quit))
    } else if line == "status"@ {
        Ok((s, StepModel::Status(status_of(s))))
    } else if "set "@.is_prefix_of(line) {
        match after_set(s, line.skip("set "@.len() as int)) {
            Ok((t, told)) => Ok((t, StepModel::Changed(told))),
            Err(m) => Err(m),
        }
    } else if "load "@.is_prefix_of(line) {
        let path = crate::text::trimmed(line.skip("load "@.len() as int));
        if path.len() == 0 {
            Err("load: missing manifest path"@)
        } else {
            Ok((s, StepModel::Load(path)))
        }
    } else if "run "@.is_prefix_of(line) {
        match run_of(s, crate::text::trimmed(line.skip("run "@.len() as int))) {
            Ok(a) => Ok((s, StepModel::Run(a))),
            Err(m) => Err(m),
        }
    } else {
        Err("unknown command: "@ + line)
    }
}

impl ReplSession {
    /// A session in the current directory; its manifest is `task.toml`, where
    /// there is one.
    pub fn new(cwd: String, has_task_toml: bool) -> (r: ReplSession)
        ensures
            r@ == (SessionModel {
                current_model: "llama3"@,
                current_provider: "ollama"@,
                manifest_path: if has_task_toml {
                    Some("task.toml"@)
                } else {
                    None
                },
                workdir: cwd@,
                base_url: None,
                debug_xml: false,
            }),
    {
        ReplSession {
            current_model: owned("llama3"),
            current_provider: owned("ollama"),
            manifest_path: if has_task_toml {
                Some(owned("task.toml"))
            } else {
                None
            },
            workdir: cwd,
            base_url: None,
            debug_xml: false,
        }
    }

    /// Takes a line.
    pub fn execute(&mut self, raw: &str) -> (r: Result<ReplStep, String>)
        ensures
            match executed(old(self)@, raw@) {
                Ok((s, step)) => final(self)@ == s && (r matches Ok(got) && got@ == step),
                Err(m) => final(self)@ == old(self)@ && (r matches Err(got) && got@ == m),
            },
    {
        let line = trim(raw);
        let line = line.as_str();
        if is_empty_text(line) {
            return Ok(ReplStep::Continue);
        }
        if same_text(line, "exit") || same_text(line, "quit") {
            return Ok(ReplStep::Quit);
        }
        if same_text(line, "status") {
            return Ok(ReplStep::Status(self.status()));
        }
        if let Some(rest) = rest_after(line, "set ") {
            return match self.set(rest.as_str()) {
                Ok(told) => Ok(ReplStep::Changed(told)),
                Err(m) => Err(m),
            };
        }
        if let Some(rest) = rest_after(line, "load ") {
            let path = trim(rest.as_str());
            if is_empty_text(path.as_str()) {
                return Err(owned("load: missing manifest path"));
            }
            return Ok(ReplStep::Load(path));
        }
        if let Some(rest) = rest_after(line, "run ") {
            let task = trim(rest.as_str());
            return match self.run_task(task.as_str()) {
                Ok(a) => Ok(ReplStep::Run(a)),
                Err(m) => Err(m),
            };
        }
        Err(cat("unknown command: ", line))
    }

    /// Sets a key to a value.
    pub fn set(&mut self, input: &str) -> (r: Result<LogLine, String>)
        ensures
            match after_set(old(self)@, input@) {
                Ok((s, told)) => final(self)@ == s && (r matches Ok(got) && got@ == told),
                Err(m) => final(self)@ == old(self)@ && (r matches Err(got) && got@ == m),
            },
    {
        let (key, tail) = split_key(input);
        let key = match key {
            None => {
                return Err(owned("set: missing key"));
            },
            Some(k) => k,
        };
        let value = match tail {
            None => {
                return Err(owned("set: missing value"));
            },
            Some(t) => trim(t.as_str()),
        };
        let mut text = cat3("set: ", key.as_str(), "=");
        text.append(value.as_str());
        let told = LogLine::new(LogLevel::Info, text);
        let key = key.as_str();
        if same_text(key, "model") {
            self.current_model = value;
        } else if same_text(key, "provider") {
            self.current_provider = value;
        } else if same_text(key, "manifest") {
            self.manifest_path = Some(value);
        } else if same_text(key, "workdir") {
            self.workdir = value;
        } else if same_text(key, "base-url") {
            self.base_url = Some(value);
        } else if same_text(key, "debug-xml") {
            let b = parse_bool(value.as_str())?;
            self.debug_xml = b;
        } else {
            return Err(cat("set: unknown key: ", key));
        }
        Ok(told)
    }

    /// Takes the manifest at a path, where there is one.
    pub fn load(&mut self, path: &str, exists_there: bool) -> (r: Result<LogLine, String>)
        ensures
            if exists_there {
                final(self)@ == (SessionModel { manifest_path: Some(path@), ..old(self)@ }) && (
                r matches Ok(l) && l@ == crate::run::info("manifest loaded: "@ + path@))
            } else {
                final(self)@ == old(self)@ && (r matches Err(m) && m@
                    == "load: manifest not found: "@ + path@)
            },
    {
        if !exists_there {
            return Err(cat("load: manifest not found: ", path));
        }
        self.manifest_path = Some(owned(path));
        Ok(LogLine::new(LogLevel::Info, cat("manifest loaded: ", path)))
    }

    /// What running a task means here.
    pub fn run_task(&self, task: &str) -> (r: Result<RunArgs, String>)
        ensures
            match r {
                Ok(a) => run_of(self@, task@) == Ok::<crate::args::RunArgsModel, Seq<char>>(a@),
                Err(m) => run_of(self@, task@) == Err::<crate::args::RunArgsModel, Seq<char>>(m@),
            },
    {
        let task = parse_task_text(task)?;
        let manifest = match &self.manifest_path {
            None => {
                return Err(owned("run: no manifest loaded"));
            },
            Some(p) => owned(p.as_str()),
        };
        Ok(
            RunArgs {
                task: Some(task),
                manifest: Some(manifest),
                workdir: Some(owned(self.workdir.as_str())),
                script: None,
                provider: Some(owned(self.current_provider.as_str())),
                model: Some(owned(self.current_model.as_str())),
                base_url: copied(&self.base_url),
                debug_xml: self.debug_xml,
            },
        )
    }

    /// What is shown of the session.
    pub fn status(&self) -> (r: Vec<String>)
        ensures
            crate::text::texts(r@) == status_of(self@),
    {
        let mut out: Vec<String> = Vec::new();
        out.push(cat("provider=", self.current_provider.as_str()));
        out.push(cat("model=", self.current_model.as_str()));
        out.push(
            match &self.manifest_path {
                Some(p) => cat("manifest=", p.as_str()),
                None => cat("manifest=", "<unset>"),
            },
        );
        out.push(cat("workdir=", self.workdir.as_str()));
        out.push(
            match &self.base_url {
                Some(u) => cat("base_url=", u.as_str()),
                None => cat("base_url=", "<provider-default>"),
            },
        );
        out.push(
            cat(
                "debug_xml=",
                if self.debug_xml {
                    "true"
                } else {
                    "false"
                },
            ),
        );
        proof {
            assert(crate::text::texts(out@) =~= status_of(self@));
        }
        out
    }
}

/// The words that a line is completed with.
pub open spec fn known_words() -> Seq<Seq<char>> {
    seq![
        "set"@,
        "load"@,
        "run"@,
        "status"@,
        "exit"@,
        "model"@,
        "provider"@,
        "manifest"@,
        "workdir"@,
        "base-url"@,
        "debug-xml"@,
        "ollama"@,
        "openai-compatible"@,
        "llama3"@,
    ]
}

fn words() -> (r: Vec<String>)
    ensures
        crate::text::texts(r@) == known_words(),
{
    let mut v: Vec<String> = Vec::new();
    v.push(owned("set"));
    v.push(owned("load"));
    v.push(owned("run"));
    v.push(owned("status"));
    v.push(owned("exit"));
    v.push(owned("model"));
    v.push(owned("provider"));
    v.push(owned("manifest"));
    v.push(owned("workdir"));
    v.push(owned("base-url"));
    v.push(owned("debug-xml"));
    v.push(owned("ollama"));
    v.push(owned("openai-compatible"));
    v.push(owned("llama3"));
    proof {
        assert(crate::text::texts(v@) =~= known_words());
    }
    v
}

/// Where the last word of a text begins: behind its last space.
pub open spec fn word_start(s: Seq<char>) -> int
    decreases s.len(),
{
    if s.len() == 0 {
        0
    } else if s.last() == ' ' {
        s.len() as int
    } else {
        word_start(s.drop_last())
    }
}

/// What can stand in place of the last word, and where that word begins.
#[derive(Debug)]
pub struct Completion {
    /// In bytes.
    pub start: usize,
    pub candidates: Vec<String>,
}

/// Completes the last word of what stands before the cursor.
pub fn complete(before: &str) -> (r: Completion)
    ensures
        r.start == vstd::utf8::encode_utf8(before@.take(word_start(before@))).len(),
        crate::text::texts(r.candidates@) == known_words().filter(
            |w: Seq<char>| before@.skip(word_start(before@)).is_prefix_of(w),
        ),
{
    let cs = chars_of(before);
    let mut k: usize = cs.len();
    proof {
        assert(before@.take(before@.len() as int) =~= before@);
    }
    while k > 0 && cs[k - 1] != ' '
        invariant
            k <= cs.len(),
            cs@ == before@,
            word_start(before@) == word_start(before@.take(k as int)),
        decreases k,
    {
        proof {
            assert(before@.take(k as int).drop_last() =~= before@.take(k - 1));
        }
        k = k - 1;
    }
    let head = text_between(cs.as_slice(), 0, k);
    let word = text_between(cs.as_slice(), k, cs.len());
    proof {
        assert(word_start(before@) == k);
        assert(head@ =~= before@.take(k as int));
        assert(word@ =~= before@.skip(k as int));
    }
    let start: usize = text_bytes(head.as_str()).len();
    let all = words();
    let ghost known = known_words();
    let ghost keep = |w: Seq<char>| before@.skip(word_start(before@)).is_prefix_of(w);
    let mut candidates: Vec<String> = Vec::new();
    let mut i: usize = 0;
    proof {
        reveal(Seq::filter);
        assert(known.take(0).filter(keep) =~= Seq::empty());
        assert(crate::text::texts(candidates@) =~= Seq::empty());
    }
    while i < all.len()
        invariant
            i <= all.len(),
            known == crate::text::texts(all@),
            keep == |w: Seq<char>| before@.skip(word_start(before@)).is_prefix_of(w),
            word@ == before@.skip(word_start(before@)),
            crate::text::texts(candidates@) == known.take(i as int).filter(keep),
        decreases all.len() - i,
    {
        let ghost sofar = crate::text::texts(candidates@);
        proof {
            reveal(Seq::filter);
            assert(known[i as int] == all@[i as int]@);
            assert(known.take(i + 1).drop_last() =~= known.take(i as int));
            assert(known.take(i + 1).last() == known[i as int]);
        }
        if begins_with(all[i].as_str(), word.as_str()) {
            candidates.push(owned(all[i].as_str()));
            proof {
                assert(crate::text::texts(candidates@) =~= sofar.push(known[i as int]));
            }
        }
        i = i + 1;
    }
    proof {
        assert(known.take(known.len() as int) =~= known);
    }
    Completion { start, candidates }
}

/// A line goes into the history.
pub open spec fn worth_keeping(line: Seq<char>) -> bool {
    crate::text::trimmed(line).len() > 0
}

/// Whether a line goes into the history: not where it is blank.
pub fn keeps_line(line: &str) -> (r: bool)
    ensures
        r == worth_keeping(line@),
{
    let bare = trim(line);
    !is_empty_text(bare.as_str())
}

/// The lines of a saved history.
pub fn load_history(text: &str) -> (r: Vec<String>)
    ensures
        crate::text::texts(r@) == crate::trace::lines(text@).filter(
            |l: Seq<char>| worth_keeping(l),
        ),
{
    let lines = text_lines(text);
    let ghost all = crate::trace::lines(text@);
    let ghost keep = |l: Seq<char>| worth_keeping(l);
    let mut out: Vec<String> = Vec::new();
    let mut i: usize = 0;
    proof {
        reveal(Seq::filter);
        assert(all.take(0).filter(keep) =~= Seq::empty());
        assert(crate::text::texts(out@) =~= Seq::empty());
    }
    while i < lines.len()
        invariant
            i <= lines.len(),
            all == crate::text::texts(lines@),
            keep == |l: Seq<char>| worth_keeping(l),
            crate::text::texts(out@) == all.take(i as int).filter(keep),
        decreases lines.len() - i,
    {
        let ghost sofar = crate::text::texts(out@);
        proof {
            reveal(Seq::filter);
            assert(all[i as int] == lines@[i as int]@);
            assert(all.take(i + 1).drop_last() =~= all.take(i as int));
            assert(all.take(i + 1).last() == all[i as int]);
        }
        if keeps_line(lines[i].as_str()) {
            out.push(owned(lines[i].as_str()));
            proof {
                assert(crate::text::texts(out@) =~= sofar.push(all[i as int]));
            }
        }
        i = i + 1;
    }
    proof {
        assert(all.take(all.len() as int) =~= all);
    }
    out
}

/// The newest lines from index `i` on, newest first, each once, and no more
/// than the limit.
pub open spec fn newest(lines: Seq<Seq<char>>, i: int) -> Seq<Seq<char>>
    decreases lines.len() - i,
{
    if i < 0 || i >= lines.len() {
        Seq::empty()
    } else {
        let later = newest(lines, i + 1);
        if later.len() >= HISTORY_LIMIT || later.contains(lines[i]) {
            later
        } else {
            later.push(lines[i])
        }
    }
}

/// The history as it is saved: the newest lines, oldest first, each on a line
/// of its own.
pub open spec fn saved_history(lines: Seq<Seq<char>>) -> Seq<char> {
    crate::text::joined_with(newest(lines, 0).reverse(), "\n"@) + "\n"@
}

proof fn lemma_newest_full(lines: Seq<Seq<char>>, i: int)
    requires
        0 <= i <= lines.len(),
        newest(lines, i).len() >= HISTORY_LIMIT,
    ensures
        newest(lines, 0) == newest(lines, i),
    decreases i,
{
    if i > 0 {
        lemma_newest_full(lines, i - 1);
    }
}

/// The history as it is saved.
pub fn save_history(lines: &Vec<String>) -> (r: String)
    ensures
        r@ == saved_history(crate::text::texts(lines@)),
{
    let ghost all = crate::text::texts(lines@);
    let mut kept: Vec<String> = Vec::new();
    let mut i: usize = lines.len();
    proof {
        assert(crate::text::texts(kept@) =~= newest(all, all.len() as int));
    }
    while i > 0 && kept.len() < HISTORY_LIMIT
        invariant
            i <= lines.len(),
            all == crate::text::texts(lines@),
            crate::text::texts(kept@) == newest(all, i as int),
        decreases i,
    {
        let ghost sofar = crate::text::texts(kept@);
        i = i - 1;
        proof {
            assert(all[i as int] == lines@[i as int]@);
            assert(sofar.len() == kept@.len());
        }
        if !text_in(lines[i].as_str(), &kept) {
            kept.push(owned(lines[i].as_str()));
            proof {
                assert(crate::text::texts(kept@) =~= sofar.push(all[i as int]));
            }
        }
    }
    proof {
        assert(crate::text::texts(kept@).len() == kept@.len());
        if i > 0 {
            lemma_newest_full(all, i as int);
        }
    }
    let ghost back = crate::text::texts(kept@);
    let mut order: Vec<String> = Vec::new();
    let mut k: usize = kept.len();
    while k > 0
        invariant
            k <= kept.len(),
            back == crate::text::texts(kept@),
            order@.len() == kept@.len() - k,
            forall|j: int|
                0 <= j < order@.len() ==> (#[trigger] order@[j])@ == back[kept@.len() - 1 - j],
        decreases k,
    {
        k = k - 1;
        proof {
            assert(back[k as int] == kept@[k as int]@);
        }
        order.push(owned(kept[k].as_str()));
    }
    proof {
        assert(crate::text::texts(order@) =~= back.reverse());
    }
    let joined = join_texts(&order, "\n");
    cat(joined.as_str(), "\n")
}

/// The history that is saved holds no line twice and no more than the limit;
/// only lines that were entered are in it, and the last one entered is.
pub proof fn lemma_history_is_bounded(lines: Seq<Seq<char>>, i: int)
    requires
        0 <= i <= lines.len(),
    ensures
        newest(lines, i).no_duplicates(),
        newest(lines, i).len() <= HISTORY_LIMIT,
        forall|l: Seq<char>| #[trigger] newest(lines, i).contains(l) ==> lines.contains(l),
        i < lines.len() ==> newest(lines, i).contains(lines.last()),
    decreases lines.len() - i,
{
    if i < lines.len() {
        lemma_history_is_bounded(lines, i + 1);
        let later = newest(lines, i + 1);
        let now = newest(lines, i);
        assert forall|l: Seq<char>| #[trigger] now.contains(l) implies lines.contains(l) by {
            if !later.contains(l) {
                let k = choose|k: int| 0 <= k < now.len() && now[k] == l;
                if k < later.len() {
                    assert(later[k] == l);
                }
                assert(lines[i] == l);
            }
        }
        if i == lines.len() - 1 {
            assert(later =~= Seq::empty());
            assert(now[0] == lines.last());
        } else {
            let k = choose|k: int| 0 <= k < later.len() && later[k] == lines.last();
            assert(now[k] == lines.last());
        }
    }
}

} // verus!
