//! What comes in and what goes out at the edges: guests and their requests,
//! the answers of a provider, what is printed and what is kept of a session.

use vstd::prelude::*;

use bytes::Bytes;

use crate::adapter::AdapterError;
use crate::cap::{MountMode, NamespaceView};
use crate::host_path::parent_dirs;
use crate::ids::TaskId;
use crate::bundle::{compute_mandatory_artifact_hashes, ArtifactRead, BundleError};
use crate::json_value::{
    json_element, json_integer, json_member, json_of_items, json_of_text, json_text,
    json_text_document,
};
use crate::manifest::Manifest;
use crate::output::LogLine;
use crate::provider::{
    completion_reply, reply_tokens, CompletionRequest, OpenAiCompatibleProvider, ProviderKind,
};
use crate::run::inference_line;
use crate::repl::{complete, load_history, save_history, Completion};
use crate::runtime::{
    begin_http_request, begin_vfs_read, begin_vfs_write, finish_http_request, finish_vfs_read,
    finish_vfs_write, guest_path, openrouter_model, prepare_http_request, AgentId, GuestRequest,
    HttpReply, MockRuntime, PreparedHttpRequest,
};
use crate::task::{ArtifactHash, Task};
use crate::vfs::{EntryModel, HostMountModel, ReadStep, Vfs, WriteStep};
use crate::vfs_path::{VfsError, VfsPath, VfsResult};

verus! {

/// A new task has its manifest and its directory, and has done nothing.
pub proof fn lemma_new_tasks_have_done_nothing(
    id: TaskId,
    manifest: Manifest,
    workdir: String,
    r: Task,
)
    requires
        call_ensures(Task::with_id, (id, manifest, workdir), r) || call_ensures(
            Task::new,
            (manifest, workdir),
            r,
        ) && id == r.id,
    ensures
        r.id == id,
        r.manifest@ == manifest@,
        r.workdir@ == workdir@,
        r.status is Idle,
        r.steps_used == 0,
        r.tokens_used == 0,
        !r.ran_test_command,
        r.last_test_exit_code is None,
        r.test_exit_codes@.len() == 0,
{
    assert(r@.id == id);
    assert(r@.test_exit_codes.len() == 0);
}

/// The test is the one at `i`, it is not blank, and it has no exit code yet.
pub open spec fn left_at(task: crate::task::TaskModel, i: int, test: Seq<char>) -> bool {
    &&& 0 <= i < task.manifest.test_commands.len()
    &&& task.manifest.test_commands[i] == test
    &&& exists|k: int| 0 <= k < test.len() && !crate::text::is_space(#[trigger] test[k])
    &&& i < task.test_exit_codes.len() ==> task.test_exit_codes[i] is None
}

/// The tests that are left are those that are not blank and have no exit code.
pub proof fn lemma_tests_are_left_until_they_ran(task: &Task, r: Vec<String>, test: Seq<char>)
    requires
        call_ensures(Task::pending_tests, (task,), r),
    ensures
        crate::text::texts(r@).contains(test) <==> exists|i: int|
            #[trigger] left_at(task@, i, test),
{
    let n = task@.manifest.test_commands.len() as int;
    lemma_left_tests(task@, n, test);
    if exists|i: int| #[trigger] left_at(task@, i, test) {
        let i = choose|i: int| #[trigger] left_at(task@, i, test);
        assert(left_at(task@, i, test) && i < n);
    }
}

proof fn lemma_left_tests(task: crate::task::TaskModel, n: int, test: Seq<char>)
    requires
        0 <= n <= task.manifest.test_commands.len(),
    ensures
        crate::guard::tests_left(task, n).contains(test) <==> exists|i: int|
            #[trigger] left_at(task, i, test) && i < n,
    decreases n,
{
    crate::text::lemma_trimmed_empty(test);
    if n > 0 {
        lemma_left_tests(task, n - 1, test);
        let t = task.manifest.test_commands[n - 1];
        let before = crate::guard::tests_left(task, n - 1);
        let now = crate::guard::tests_left(task, n);
        if now.len() > before.len() {
            assert(now == before.push(t));
            assert(now[before.len() as int] == t);
            if before.contains(test) {
                let k = choose|k: int| 0 <= k < before.len() && before[k] == test;
                assert(now[k] == test);
            }
        }
        if t == test {
            assert(left_at(task, n - 1, test) <==> now == before.push(t));
        }
    }
}

/// The directories above a path by names are its beginnings, nearest first.
pub proof fn lemma_directories_above(
    p: &str,
    names: Seq<Seq<char>>,
    rooted: bool,
    r: Vec<String>,
    i: int,
)
    requires
        call_ensures(parent_dirs, (p,), r),
        names.len() > 0,
        crate::vfs_path::canonical(names),
        p@ == (if rooted {
            "/"@
        } else {
            ""@
        }) + crate::text::joined_with(names, "/"@),
        0 <= i < names.len(),
    ensures
        r@.len() == names.len(),
        r@[i]@ == (if rooted {
            "/"@
        } else {
            ""@
        }) + crate::text::joined_with(names.take(names.len() - 1 - i), "/"@),
{
    reveal_strlit("/");
    reveal_strlit("");
    let joined = crate::text::joined_with(names, "/"@);
    let kept = names.take(names.len() - 1 - i);
    assert(""@ + joined =~= joined);
    assert("/"@[0] == '/');
    assert(crate::vfs_path::valid_segment(names[0]));
    assert(names[0] == "/"@ ==> names[0].contains('/'));
    let parts = if rooted {
        seq!["/"@] + names
    } else {
        names
    };
    assert(kept.len() > 0 ==> kept[0] == names[0]);
    if rooted {
        assert(parts.skip(1) =~= names);
        assert(crate::host_path::rendered(parts) == p@);
        crate::host_path::lemma_parts_of_rendered(parts);
        assert(parts.take(parts.len() - 1 - i) =~= seq!["/"@] + kept);
        assert((seq!["/"@] + kept).skip(1) =~= kept);
    } else {
        assert(crate::host_path::rendered(parts) == p@);
        crate::host_path::lemma_parts_of_rendered(parts);
        crate::host_path::lemma_joined_first(names);
        assert(parts.take(parts.len() - 1 - i) =~= kept);
        assert(""@ + crate::text::joined_with(kept, "/"@) =~= crate::text::joined_with(kept, "/"@));
    }
    assert(crate::text::texts(r@).len() == r@.len());
    assert(crate::text::texts(r@)[i] == r@[i]@);
}

/// A mount takes the place of the one at its path, and leaves every other.
pub proof fn lemma_mounts_are_kept(
    vfs: &mut Vfs,
    at: &VfsPath,
    host: String,
    r: VfsResult<()>,
    m: HostMountModel,
)
    requires
        call_ensures(Vfs::mount_host, (vfs, at, host), r),
        r is Ok,
    ensures
        final(vfs)@.mounts.contains(m) <==> if m.at == at@ {
            m.host == host@
        } else {
            old(vfs)@.mounts.contains(m)
        },
{
    let rest = crate::vfs::mounts_elsewhere(old(vfs)@.mounts, at@);
    let new = HostMountModel { at: at@, host: host@ };
    lemma_elsewhere(old(vfs)@.mounts, at@, m);
    crate::order::lemma_sorted_contains(rest.push(new), m);
    assert(rest.push(new)[rest.len() as int] == new);
    if rest.contains(m) {
        let k = choose|k: int| 0 <= k < rest.len() && rest[k] == m;
        assert(rest.push(new)[k] == m);
    }
}

proof fn lemma_elsewhere(mounts: Seq<HostMountModel>, at: Seq<Seq<char>>, m: HostMountModel)
    ensures
        crate::vfs::mounts_elsewhere(mounts, at).contains(m) <==> mounts.contains(m) && m.at != at,
    decreases mounts.len(),
{
    if mounts.len() > 0 {
        let before = mounts.drop_last();
        let rest = crate::vfs::mounts_elsewhere(before, at);
        lemma_elsewhere(before, at, m);
        assert(mounts =~= before.push(mounts.last()));
        if before.contains(m) {
            let k = choose|k: int| 0 <= k < before.len() && before[k] == m;
            assert(mounts[k] == m);
        }
        if rest.contains(m) {
            let k = choose|k: int| 0 <= k < rest.len() && rest[k] == m;
            assert(rest.push(mounts.last())[k] == m);
        }
        assert(rest.push(mounts.last())[rest.len() as int] == mounts.last());
        if mounts.contains(m) && !before.contains(m) {
            let k = choose|k: int| 0 <= k < mounts.len() && mounts[k] == m;
            if k < before.len() {
                assert(before[k] == m);
            }
        }
    }
}

/// A name that is one is appended to a path; anything else changes nothing.
pub proof fn lemma_names_are_appended(path: &VfsPath, seg: &str, r: VfsPath)
    requires
        call_ensures(VfsPath::join, (path, seg), r),
    ensures
        seg@.len() > 0 && seg@ != "."@ && seg@ != ".."@ && !seg@.contains('/') ==> r@ == path@.push(
            seg@,
        ),
        seg@.len() == 0 || seg@ == "."@ || seg@ == ".."@ || seg@.contains('/') ==> r@ == path@,
{
}

/// A line is printed behind the tag of its level.
pub proof fn lemma_lines_have_their_tags(line: &LogLine, r: String)
    requires
        call_ensures(LogLine::render, (line,), r),
    ensures
        line.level is Info ==> r@ == "[INFO] "@ + line.text@,
        line.level is Step ==> r@ == "[STEP] "@ + line.text@,
        line.level is Warn ==> r@ == "[WARN] "@ + line.text@,
        line.level is Exec ==> r@ == "[EXEC] "@ + line.text@,
        line.level is Llm ==> r@ == "[LLM] "@ + line.text@,
{
}

/// The answer of a provider is the content of its first choice.
pub proof fn lemma_answers_are_their_first_choice(
    success: bool,
    status: &str,
    body: &str,
    answer: serde_json::Value,
    choices: serde_json::Value,
    choice: serde_json::Value,
    message: serde_json::Value,
    content: serde_json::Value,
    r: Result<String, AdapterError>,
)
    requires
        call_ensures(completion_reply, (success, status, body), r),
        json_text_document(body@) == Ok::<serde_json::Value, Seq<char>>(answer),
        json_member(answer, "choices"@) == Some(choices),
        json_element(choices, 0) == Some(choice),
        json_member(choice, "message"@) == Some(message),
        json_member(message, "content"@) == Some(content),
    ensures
        success ==> (r is Ok <==> json_text(content) is Some),
        success ==> (r matches Ok(t) ==> json_text(content) == Some(t@)),
        !success ==> (r matches Err(AdapterError::ApiStatus { status: s, body: b }) && s@
            == status@ && b@ == body@),
{
}

/// The tokens of an answer are those that its usage totals.
pub proof fn lemma_answers_total_their_tokens(
    body: &str,
    answer: serde_json::Value,
    usage: serde_json::Value,
    total: serde_json::Value,
    r: u64,
)
    requires
        call_ensures(reply_tokens, (body,), r),
        json_text_document(body@) == Ok::<serde_json::Value, Seq<char>>(answer),
        json_member(answer, "usage"@) == Some(usage),
        json_member(usage, "total_tokens"@) == Some(total),
        json_integer(total) matches Some(n) && n >= 0,
    ensures
        json_integer(total) == Some(r as i64),
{
}

/// What is completed is the word behind the last space, by every known word
/// that begins with it.
pub proof fn lemma_last_words_are_completed(
    before: &str,
    head: Seq<char>,
    word: Seq<char>,
    w: Seq<char>,
    r: Completion,
)
    requires
        call_ensures(complete, (before,), r),
        before@ == head + word,
        head.len() > 0 ==> head.last() == ' ',
        !word.contains(' '),
    ensures
        r.start == vstd::utf8::encode_utf8(head).len(),
        crate::text::texts(r.candidates@).contains(w) <==> crate::repl::known_words().contains(w)
            && word.is_prefix_of(w),
{
    lemma_word_start(head, word);
    assert(before@.take(head.len() as int) =~= head);
    assert(before@.skip(head.len() as int) =~= word);
    let keep = |v: Seq<char>| before@.skip(crate::repl::word_start(before@)).is_prefix_of(v);
    let known = crate::repl::known_words();
    lemma_filter_keeps(known, keep, w);
}

proof fn lemma_filter_keeps(s: Seq<Seq<char>>, keep: spec_fn(Seq<char>) -> bool, w: Seq<char>)
    ensures
        s.filter(keep).contains(w) <==> s.contains(w) && keep(w),
    decreases s.len(),
{
    reveal(Seq::filter);
    if s.len() > 0 {
        let less = s.drop_last();
        let kept = less.filter(keep);
        lemma_filter_keeps(less, keep, w);
        assert(s.last() == s[s.len() - 1]);
        if less.contains(w) {
            let k = choose|k: int| 0 <= k < less.len() && less[k] == w;
            assert(s[k] == w);
        }
        if kept.contains(w) {
            let k = choose|k: int| 0 <= k < kept.len() && kept[k] == w;
            assert(kept.push(s.last())[k] == w);
        }
        assert(kept.push(s.last())[kept.len() as int] == s.last());
        if s.contains(w) && !less.contains(w) {
            let k = choose|k: int| 0 <= k < s.len() && s[k] == w;
            if k < less.len() {
                assert(less[k] == w);
            }
        }
    }
}

proof fn lemma_word_start(head: Seq<char>, word: Seq<char>)
    requires
        head.len() > 0 ==> head.last() == ' ',
        !word.contains(' '),
    ensures
        crate::repl::word_start(head + word) == head.len(),
    decreases word.len(),
{
    if word.len() == 0 {
        assert(head + word =~= head);
    } else {
        let rest = word.drop_last();
        assert((head + word).drop_last() =~= head + rest);
        assert(word[word.len() - 1] == word.last());
        assert((head + word).last() == word.last());
        if rest.contains(' ') {
            let k = choose|k: int| 0 <= k < rest.len() && rest[k] == ' ';
            assert(word[k] == ' ');
        }
        lemma_word_start(head, rest);
    }
}

/// The codes that a guest is told where a file cannot be had.
pub proof fn lemma_guests_are_told_what_failed(e: VfsError, r: i32)
    requires
        call_ensures(finish_vfs_write, (Err::<(), VfsError>(e),), r),
    ensures
        e is NotFound <==> r == -1,
        e is PermissionDenied <==> r == -2,
        !(e is NotFound) && !(e is PermissionDenied) ==> r == -3,
{
}

/// A guest that asks for a file finds it in its buffer, and nothing else of
/// its memory has changed.
pub proof fn lemma_guests_get_their_files(
    b: Bytes,
    memory: &mut [u8],
    ptr: u32,
    max: u32,
    r: i32,
    i: int,
)
    requires
        call_ensures(finish_vfs_read, (Ok::<Bytes, VfsError>(b), memory, ptr, max), r),
        crate::arena::bytes_contents(b).len() <= max,
        ptr + crate::arena::bytes_contents(b).len() <= old(memory)@.len(),
        0 <= i < old(memory)@.len(),
    ensures
        r == crate::arena::bytes_contents(b).len() as i32,
        final(memory)@.len() == old(memory)@.len(),
        final(memory)@[i] == if ptr <= i < ptr + crate::arena::bytes_contents(b).len() {
            crate::arena::bytes_contents(b)[i - ptr]
        } else {
            old(memory)@[i]
        },
{
}

/// A guest that sent a request finds the answer in its buffer, and nothing
/// else of its memory has changed.
pub proof fn lemma_guests_get_their_answers(
    b: Vec<u8>,
    memory: &mut [u8],
    ptr: u32,
    max: u32,
    r: i32,
    i: int,
)
    requires
        call_ensures(finish_http_request, (HttpReply::Body(b), memory, ptr, max), r),
        0 < b@.len() <= max,
        ptr + b@.len() <= old(memory)@.len(),
        0 <= i < old(memory)@.len(),
    ensures
        r == b@.len() as i32,
        final(memory)@.len() == old(memory)@.len(),
        final(memory)@[i] == if ptr <= i < ptr + b@.len() {
            b@[i - ptr]
        } else {
            old(memory)@[i]
        },
{
}



/// A guest names a path by its text: its names, joined by slashes behind a
/// leading one.
pub proof fn lemma_guests_name_their_paths(
    memory: &[u8],
    ptr: u32,
    len: u32,
    text: Seq<char>,
    r: Result<VfsPath, i32>,
)
    requires
        call_ensures(guest_path, (memory, ptr, len), r),
        ptr + len <= memory@.len(),
        memory@.subrange(ptr as int, ptr + len) == vstd::utf8::encode_utf8(text),
    ensures
        r matches Ok(p) ==> crate::vfs_path::parsed(text) == Some(p@),
        r matches Err(code) ==> crate::vfs_path::parsed(text) is None && code == -3,
{
    broadcast use vstd::utf8::encode_utf8_valid_utf8, vstd::utf8::encode_utf8_decode_utf8;

}

/// A request of a guest that has the network goes to the address and with the
/// body that it names, with this machine's name in place of `localhost`; a
/// guest that has not is refused.
pub proof fn lemma_guests_reach_the_web(
    view: &NamespaceView,
    memory: &[u8],
    url_ptr: u32,
    url_len: u32,
    body_ptr: u32,
    body_len: u32,
    url: Seq<char>,
    r: Result<GuestRequest, i32>,
)
    requires
        call_ensures(
            begin_http_request,
            (view, memory, url_ptr, url_len, body_ptr, body_len),
            r,
        ),
        url_ptr + url_len <= memory@.len(),
        memory@.subrange(url_ptr as int, url_ptr + url_len) == vstd::utf8::encode_utf8(url),
        body_ptr + body_len <= memory@.len(),
    ensures
        !view@.host_capabilities.contains(crate::cap::HostCapability::CanAccessNetwork)
            ==> (r matches Err(code) && code == -2),
        view@.host_capabilities.contains(crate::cap::HostCapability::CanAccessNetwork) ==> match r {
            Ok(q) => ("http://"@.is_prefix_of(url) || "https://"@.is_prefix_of(url)) && q.url@
                == crate::runtime::loopback(url) && q.body@ == memory@.subrange(
                body_ptr as int,
                body_ptr + body_len,
            ),
            Err(code) => !("http://"@.is_prefix_of(url) || "https://"@.is_prefix_of(url)) && code
                == -3,
        },
{
    broadcast use vstd::utf8::encode_utf8_valid_utf8, vstd::utf8::encode_utf8_decode_utf8;

}

/// What a guest writes through its view is what it then reads through it.
pub proof fn lemma_guests_read_their_writes(
    view: &NamespaceView,
    vfs: &mut Vfs,
    memory: &[u8],
    path_ptr: u32,
    path_len: u32,
    data_ptr: u32,
    data_len: u32,
    w: Result<WriteStep, i32>,
    r: Result<ReadStep, i32>,
)
    requires
        old(vfs).wf(),
        call_ensures(
            begin_vfs_write,
            (view, vfs, memory, path_ptr, path_len, data_ptr, data_len),
            w,
        ),
        w matches Ok(WriteStep::Stored(ev)),
        call_ensures(begin_vfs_read, (view, &*final(vfs), memory, path_ptr, path_len), r),
    ensures
        data_ptr + data_len <= memory@.len(),
        r matches Ok(ReadStep::File(b)) && crate::arena::bytes_contents(b) == memory@.subrange(
            data_ptr as int,
            data_ptr + data_len,
        ),
{
    let path = crate::runtime::guest_path_of(memory@, path_ptr, path_len)->Some_0;
    let (target, mode) = crate::cap::resolved_through(view@.mounts, path)->Some_0;
    let data = memory@.subrange(data_ptr as int, data_ptr + data_len);
    if let crate::vfs::Lookup::Found(EntryModel::File(was)) = crate::vfs::lookup(
        old(vfs)@.tree,
        target,
    ) {
        crate::vfs::lemma_read_after_write(old(vfs)@.tree, target, was, data, target);
    }
}

/// Requests through the host are made for the model that was named, without
/// the white space around it, or for the default where none was.
pub proof fn lemma_host_models(named: Option<String>, r: String)
    requires
        call_ensures(openrouter_model, (named,), r),
    ensures
        named is None ==> r@ == "google/gemma-4-31b-it:free"@,
        named matches Some(m) ==> if forall|k: int|
            0 <= k < m@.len() ==> crate::text::is_space(#[trigger] m@[k]) {
            r@ == "google/gemma-4-31b-it:free"@
        } else {
            r@ == crate::text::trimmed(m@)
        },
{
    if let Some(m) = named {
        crate::text::lemma_trimmed_empty(m@);
    }
}

/// The mock says what it was called with: its answer ends in the text of the
/// input, and it shows every mount of the view.
pub proof fn lemma_mocks_echo(
    mock: &MockRuntime,
    id: &AgentId,
    export: &str,
    input: &Bytes,
    view: &NamespaceView,
    r: (Bytes, Vec<String>),
    i: int,
)
    requires
        call_ensures(MockRuntime::invoke, (mock, id, export, input, view), r),
        0 <= i < view@.mounts.len(),
    ensures
        crate::arena::bytes_contents(r.0) == vstd::utf8::encode_utf8(
            "[mock:"@ + id.0@ + "::"@ + export@ + "] echo: "@ + crate::text::utf8_lossy(
                crate::arena::bytes_contents(*input),
            ),
        ),
        r.1@.len() == view@.mounts.len() + 1,
        ({
            let m = view@.mounts[i];
            r.1@[i + 1]@ == "  view: "@ + crate::vfs_path::displayed(m.virtual_path) + " -> "@
                + crate::vfs_path::displayed(m.real_path) + (match m.mode {
                MountMode::Ro => " (Ro)"@,
                MountMode::Rw => " (Rw)"@,
            })
        }),
{
    reveal_strlit(" (");
    reveal_strlit(")");
    reveal_strlit("Ro");
    reveal_strlit("Rw");
    reveal_strlit(" (Ro)");
    reveal_strlit(" (Rw)");
    let shown = crate::text::texts(r.1@);
    assert(shown.len() == r.1@.len());
    assert(shown[i + 1] == r.1@[i + 1]@);
    let m = view@.mounts[i];
    let head = "  view: "@ + crate::vfs_path::displayed(m.virtual_path) + " -> "@
        + crate::vfs_path::displayed(m.real_path);
    assert(shown[i + 1] == crate::runtime::mock_mount_line(m));
    if m.mode is Ro {
        assert(head + " ("@ + "Ro"@ + ")"@ =~= head + " (Ro)"@);
    } else {
        assert(head + " ("@ + "Rw"@ + ")"@ =~= head + " (Rw)"@);
    }
}

/// A history of up to 500 lines, none of them blank and no two the same, is
/// loaded as it was saved.
pub proof fn lemma_histories_are_loaded_as_saved(
    lines: &Vec<String>,
    text: &str,
    saved: String,
    r: Vec<String>,
)
    requires
        call_ensures(save_history, (lines,), saved),
        text@ == saved@,
        call_ensures(load_history, (text,), r),
        lines@.len() <= 500,
        crate::text::texts(lines@).no_duplicates(),
        forall|i: int|
            0 <= i < lines@.len() ==> {
                &&& crate::data_laws::is_line(#[trigger] crate::text::texts(lines@)[i])
                &&& has_ink(crate::text::texts(lines@)[i])
            },
    ensures
        crate::text::texts(r@) == crate::text::texts(lines@),
{
    let all = crate::text::texts(lines@);
    let keep = |l: Seq<char>| crate::repl::worth_keeping(l);
    lemma_newest_of_few(all, 0);
    assert(crate::repl::newest(all, 0).reverse() =~= all);
    reveal_strlit("\n");
    if all.len() == 0 {
        let none = Seq::<char>::empty();
        let blank = seq![none];
        assert(forall|i: int| 0 <= i < blank.len() ==> crate::data_laws::is_line(#[trigger] blank[i]));
        crate::data_laws::lemma_lines_split(blank);
        assert(crate::data_laws::text_of_lines(blank.drop_last()) =~= none);
        assert(crate::data_laws::text_of_lines(blank) =~= seq!['\n']);
        assert(saved@ =~= seq!['\n']);
        assert(crate::trace::lines(saved@) =~= blank);
        crate::text::lemma_trimmed_empty(none);
        reveal_with_fuel(Seq::filter, 2);
        assert(blank.drop_last() =~= Seq::empty());
        assert(blank.filter(keep) =~= Seq::empty());
        assert(crate::text::texts(r@) =~= all);
    } else {
        lemma_joined_lines(all);
        crate::data_laws::lemma_lines_split(all);
        let pieces = crate::text::split_on(saved@, '\n');
        assert forall|i: int| 0 <= i < all.len() implies crate::trace::without_return(
            #[trigger] pieces[i],
        ) == all[i] by {
            assert(crate::data_laws::is_line(all[i]));
        }
        assert(crate::trace::lines(saved@) =~= all);
        assert forall|i: int| 0 <= i < all.len() implies keep(#[trigger] all[i]) by {
            crate::text::lemma_trimmed_empty(all[i]);
            assert(has_ink(all[i]));
        }
        crate::agent_laws::lemma_filter_all(all, keep);
    }
}

/// There is more in the text than white space.
pub open spec fn has_ink(s: Seq<char>) -> bool {
    exists|k: int| 0 <= k < s.len() && !crate::text::is_space(#[trigger] s[k])
}

proof fn lemma_newest_of_few(lines: Seq<Seq<char>>, i: int)
    requires
        lines.no_duplicates(),
        lines.len() <= 500,
        0 <= i <= lines.len(),
    ensures
        crate::repl::newest(lines, i) == lines.skip(i).reverse(),
    decreases lines.len() - i,
{
    if i < lines.len() {
        lemma_newest_of_few(lines, i + 1);
        let later = crate::repl::newest(lines, i + 1);
        if later.contains(lines[i]) {
            let k = choose|k: int| 0 <= k < later.len() && later[k] == lines[i];
            assert(later[k] == lines[lines.len() - 1 - k]);
        }
        assert(later.push(lines[i]) =~= lines.skip(i).reverse());
    } else {
        assert(lines.skip(i).reverse() =~= Seq::empty());
    }
}

proof fn lemma_joined_lines(lines: Seq<Seq<char>>)
    requires
        lines.len() > 0,
    ensures
        crate::text::joined_with(lines, "\n"@) + "\n"@ == crate::data_laws::text_of_lines(lines),
    decreases lines.len(),
{
    reveal_strlit("\n");
    assert("\n"@ =~= seq!['\n']);
    let less = lines.drop_last();
    let whole = crate::data_laws::text_of_lines(lines);
    if lines.len() == 1 {
        assert(crate::data_laws::text_of_lines(less) =~= Seq::empty());
        assert(crate::text::joined_with(lines, "\n"@) =~= lines[0]);
        assert(crate::text::joined_with(lines, "\n"@) + "\n"@ =~= whole);
    } else {
        lemma_joined_lines(less);
        assert(crate::text::joined_with(lines, "\n"@) + "\n"@ =~= whole);
    }
}


/// A request for a completion asks the model for the prompt, in one message of
/// the user, at the address of the provider and with its key.
pub proof fn lemma_requests_ask_the_prompt(
    provider: &OpenAiCompatibleProvider,
    prompt: &str,
    r: CompletionRequest,
)
    requires
        call_ensures(OpenAiCompatibleProvider::request, (provider, prompt), r),
    ensures
        json_member(r.body, "model"@) == Some(json_of_text(provider@.model_id)),
        exists|message: serde_json::Value|
            #![trigger json_member(message, "content"@)]
            {
                &&& json_member(r.body, "messages"@) == Some(json_of_items(seq![message]))
                &&& json_member(message, "role"@) == Some(json_of_text("user"@))
                &&& json_member(message, "content"@) == Some(json_of_text(prompt@))
            },
        provider@.api_key is None <==> r.bearer is None,
        r.bearer matches Some(k) ==> provider@.api_key == Some(k@),
{
    let message = choose|message: serde_json::Value|
        {
            &&& #[trigger] crate::provider::is_user_message(message, prompt@)
            &&& json_member(r.body, "messages"@) == Some(json_of_items(seq![message]))
        };
    assert(json_member(message, "content"@) == Some(json_of_text(prompt@)));
}

/// A request that does not go to the completions of OpenRouter goes out as it
/// is, without the key of the host; one that does goes out with the key and the
/// model of the host, or not at all.
pub proof fn lemma_hosts_lend_their_key(
    url: String,
    body: Vec<u8>,
    api_key: Option<String>,
    model: Option<String>,
    r: Result<PreparedHttpRequest, String>,
)
    requires
        call_ensures(prepare_http_request, (url, body, api_key, model), r),
    ensures
        url@ != "https://openrouter.ai/api/v1/chat/completions"@ ==> (r matches Ok(q) && q.url@
            == url@ && q.body@ == body@ && q.openrouter_api_key is None),
        url@ == "https://openrouter.ai/api/v1/chat/completions"@ ==> match r {
            Err(m) => true,
            Ok(q) => {
                &&& q.url@ == url@
                &&& api_key matches Some(k) && (q.openrouter_api_key matches Some(lent) && lent@
                    == crate::text::trimmed(k@) && lent@.len() > 0)
                &&& crate::json_value::json_bytes_document(body@) matches Ok(payload) && {
                    &&& crate::json_value::json_object(payload)
                    &&& crate::json_value::json_encoding(
                        crate::json_value::json_with_member(
                            payload,
                            "model"@,
                            json_of_text(
                                match model {
                                    Some(m) => if crate::text::trimmed(m@).len() > 0 {
                                        crate::text::trimmed(m@)
                                    } else {
                                        "google/gemma-4-31b-it:free"@
                                    },
                                    None => "google/gemma-4-31b-it:free"@,
                                },
                            ),
                        ),
                    ) == Ok::<Seq<u8>, Seq<char>>(q.body@)
                }
            },
        },
        url@ == "https://openrouter.ai/api/v1/chat/completions"@ && (match api_key {
            Some(k) => crate::text::trimmed(k@).len() == 0,
            None => true,
        }) ==> (r matches Err(m) && m@ == "OPENROUTER_API_KEY not set"@),
{
}

/// A line tells of a request by its provider, its model and its address.
pub proof fn lemma_requests_are_told(
    kind: ProviderKind,
    model_id: &str,
    base_url: &str,
    r: LogLine,
)
    requires
        call_ensures(inference_line, (kind, model_id, base_url), r),
    ensures
        r.level is Llm,
        r.text@ == "requesting inference (provider: "@ + (if kind is Ollama {
            "Ollama"@
        } else {
            "OpenAiCompatible"@
        }) + ", model: "@ + model_id@ + ", base_url: "@ + base_url@ + ")..."@,
{
    assert(r@.level is Llm);
}

/// A mandatory artifact that is missing or empty is named by its path, and
/// without one every artifact has its hash.
pub proof fn lemma_artifacts_are_hashed(
    task: &Task,
    reads: &Vec<ArtifactRead>,
    i: int,
    r: Result<Vec<ArtifactHash>, BundleError>,
)
    requires
        reads@.len() == task.manifest.mandatory_artifacts@.len(),
        call_ensures(compute_mandatory_artifact_hashes, (task, reads), r),
        0 <= i < reads@.len(),
        forall|j: int| 0 <= j < i ==> can_be_hashed(#[trigger] reads@[j]),
    ensures
        ({
            let path = crate::host_path::task_path(
                task@.workdir,
                task@.manifest.mandatory_artifacts[i],
            );
            &&& reads@[i] is Missing ==> (r matches Err(BundleError::MissingMandatoryArtifact(p))
                && p@ == path)
            &&& (reads@[i] matches ArtifactRead::Bytes(b) && b@.len() == 0) ==> (r matches Err(
                BundleError::MissingMandatoryArtifact(p),
            ) && p@ == path)
            &&& (reads@[i] matches ArtifactRead::Failed(m)) ==> (r matches Err(
                BundleError::Io { path: p, source },
            ) && p@ == path && source@ == reads@[i]->Failed_0@)
            &&& r is Ok ==> (reads@[i] matches ArtifactRead::Bytes(b) && exists|k: int|
                0 <= k < r->Ok_0@.len() && (#[trigger] r->Ok_0@[k]).path@ == path && r->Ok_0@[k].bytes
                    == b@.len() && r->Ok_0@[k].fnv64 == crate::snapshot::fnv64_of(b@))
        }),
{
    let all = task@.manifest.mandatory_artifacts;
    lemma_hashed_until(task@.workdir, all, reads@, i, i);
    lemma_hashed_until(task@.workdir, all, reads@, i, reads@.len() as int);
    if r is Ok {
        let hashes = crate::bundle::artifact_hashes(task@.workdir, all, reads@, reads@.len() as int)->Ok_0;
        let models = crate::guard::hash_models(r->Ok_0@);
        crate::order::lemma_sorted_contains(hashes, hashes[i]);
        assert(hashes.contains(hashes[i]));
        let k = choose|k: int| 0 <= k < models.len() && models[k] == hashes[i];
        assert(models[k] == r->Ok_0@[k]@);
        let b = reads@[i]->Bytes_0;
        assert(b.len() == b@.len());
        assert(r->Ok_0@[k].path@ == crate::host_path::task_path(task@.workdir, all[i]));
    }
}

/// There are bytes to hash.
pub open spec fn can_be_hashed(read: ArtifactRead) -> bool {
    read matches ArtifactRead::Bytes(b) && b@.len() > 0
}

proof fn lemma_hashed_until(
    workdir: Seq<char>,
    all: Seq<Seq<char>>,
    reads: Seq<ArtifactRead>,
    i: int,
    n: int,
)
    requires
        0 <= i <= n <= reads.len(),
        reads.len() == all.len(),
        forall|j: int| 0 <= j < i ==> can_be_hashed(#[trigger] reads[j]),
    ensures
        n == i ==> crate::bundle::artifact_hashes(workdir, all, reads, n) is Ok,
        i < n ==> (match crate::bundle::artifact_hashes(workdir, all, reads, n) {
            Ok(hashes) => hashes.len() == n && crate::bundle::artifact_hash(
                crate::host_path::task_path(workdir, all[i]),
                reads[i],
            ) == Ok::<crate::guard::HashModel, crate::bundle::ArtifactFault>(hashes[i]),
            Err(fault) => can_be_hashed(reads[i]) || crate::bundle::artifact_hash(
                crate::host_path::task_path(workdir, all[i]),
                reads[i],
            ) == Err::<crate::guard::HashModel, crate::bundle::ArtifactFault>(fault),
        }),
        crate::bundle::artifact_hashes(workdir, all, reads, n) matches Ok(hashes) ==> hashes.len()
            == n,
    decreases n,
{
    if n > 0 {
        if i < n {
            lemma_hashed_until(workdir, all, reads, i, n - 1);
        } else {
            lemma_hashed_until(workdir, all, reads, i - 1, n - 1);
            assert(can_be_hashed(reads[n - 1]));
        }
    }
}

} // verus!
