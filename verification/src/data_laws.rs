//! What is kept and shown of data: traces line by line, logs and memories byte
//! by byte, files up to their limit, listings without loss.

use vstd::prelude::*;

use crate::context::{read_text_file, FileSnapshot};
use crate::order::Ordered;
use crate::runtime::{map_localhost_to_loopback, read_guest};
use crate::task_fs::{is_safe_directory, DirProbe};
use crate::trace::recent_events;
use crate::vfs::EntryView;

verus! {

/// Lines, each with a line feed behind it.
pub open spec fn text_of_lines(lines: Seq<Seq<char>>) -> Seq<char>
    decreases lines.len(),
{
    if lines.len() == 0 {
        Seq::empty()
    } else {
        text_of_lines(lines.drop_last()) + (lines.last() + seq!['\n'])
    }
}

/// A line: it holds no line feed, and does not end in a carriage return.
pub open spec fn is_line(l: Seq<char>) -> bool {
    !l.contains('\n') && (l.len() > 0 ==> l.last() != '\r')
}

proof fn lemma_split_extends(s: Seq<char>, t: Seq<char>, c: char)
    requires
        !t.contains(c),
    ensures
        crate::text::split_on(s + t, c) == crate::text::split_on(s, c).drop_last().push(
            crate::text::split_on(s, c).last() + t,
        ),
    decreases t.len(),
{
    crate::text::lemma_split_on(s, c);
    let before = crate::text::split_on(s, c);
    if t.len() == 0 {
        assert(s + t =~= s);
        assert(before.last() + t =~= before.last());
        assert(before =~= before.drop_last().push(before.last()));
    } else {
        let less = t.drop_last();
        assert forall|i: int| 0 <= i < less.len() implies less[i] != c by {
            assert(t.contains(t[i]));
        }
        lemma_split_extends(s, less, c);
        assert((s + t).drop_last() =~= s + less);
        assert(t.contains(t[t.len() - 1]));
        let mid = before.drop_last().push(before.last() + less);
        assert(mid.drop_last() =~= before.drop_last());
        assert((before.last() + less).push(t.last()) =~= before.last() + t);
    }
}

pub proof fn lemma_lines_split(lines: Seq<Seq<char>>)
    requires
        forall|i: int| 0 <= i < lines.len() ==> is_line(#[trigger] lines[i]),
    ensures
        crate::text::split_on(text_of_lines(lines), '\n') == lines.push(Seq::empty()),
    decreases lines.len(),
{
    let none = Seq::<char>::empty();
    if lines.len() == 0 {
        assert(lines.push(none) =~= seq![none]);
    } else {
        let less = lines.drop_last();
        let l = lines[lines.len() - 1];
        assert forall|i: int| 0 <= i < less.len() implies is_line(#[trigger] less[i]) by {
            assert(less[i] == lines[i]);
        }
        lemma_lines_split(less);
        assert(is_line(l));
        let s = text_of_lines(less);
        lemma_split_extends(s, l, '\n');
        assert(none + l =~= l);
        assert(less.push(none).drop_last() =~= less);
        assert(less.push(l) =~= lines);
        let whole = text_of_lines(lines);
        assert(whole.drop_last() =~= s + l);
        assert(whole.last() == '\n');
    }
}

/// A trace gives its last lines back: as many as were asked for, or all of
/// them where there are fewer, unchanged and in their order.
pub proof fn lemma_traces_give_their_last_lines(
    trace: &str,
    lines: Seq<Seq<char>>,
    limit: usize,
    r: Vec<String>,
)
    requires
        forall|i: int| 0 <= i < lines.len() ==> is_line(#[trigger] lines[i]),
        trace@ == text_of_lines(lines),
        call_ensures(recent_events, (trace, limit), r),
    ensures
        r@.len() == (if lines.len() <= limit {
            lines.len() as int
        } else {
            limit as int
        }),
        forall|i: int|
            0 <= i < r@.len() ==> (#[trigger] r@[i])@ == lines[lines.len() - r@.len() + i],
{
    lemma_lines_split(lines);
    let pieces = crate::text::split_on(trace@, '\n');
    let all = crate::trace::lines(trace@);
    assert forall|i: int| 0 <= i < lines.len() implies crate::trace::without_return(
        #[trigger] pieces[i],
    ) == lines[i] by {
        assert(is_line(lines[i]));
    }
    assert(all =~= lines);
    assert(crate::text::texts(r@).len() == r@.len());
    assert forall|i: int| 0 <= i < r@.len() implies (#[trigger] r@[i])@ == lines[lines.len()
        - r@.len() + i] by {
        assert(crate::text::texts(r@)[i] == r@[i]@);
    }
}

/// A log holds the end of what was appended: as much of it as it keeps.
pub proof fn lemma_logs_keep_the_end(s: Seq<u8>, capacity: int)
    requires
        capacity >= 0,
    ensures
        ({
            let kept = crate::log::tail(s, capacity);
            &&& kept.len() == (if s.len() <= capacity {
                s.len() as int
            } else {
                capacity
            })
            &&& forall|i: int|
                0 <= i < kept.len() ==> #[trigger] kept[i] == s[s.len() - kept.len() + i]
        }),
{
}

/// What is copied into the memory of a guest is read out of it again, and
/// nothing else of it changes.
pub proof fn lemma_guests_read_what_was_written(
    memory: Seq<u8>,
    ptr: u32,
    bytes: Seq<u8>,
    other: int,
)
    requires
        ptr + bytes.len() <= memory.len(),
    ensures
        ({
            let after = crate::runtime::overwritten(memory, ptr as int, bytes);
            &&& after.len() == memory.len()
            &&& after.subrange(ptr as int, (ptr + bytes.len()) as int) == bytes
            &&& 0 <= other < ptr || ptr + bytes.len() <= other < memory.len() ==> after[other]
                == memory[other]
        }),
{
    let after = crate::runtime::overwritten(memory, ptr as int, bytes);
    assert(after.subrange(ptr as int, (ptr + bytes.len()) as int) =~= bytes);
}

/// A range of a guest's memory is read exactly where it lies inside it.
pub proof fn lemma_guest_ranges_are_read(memory: &[u8], ptr: u32, len: u32, r: Option<Vec<u8>>)
    requires
        call_ensures(read_guest, (memory, ptr, len), r),
    ensures
        r is Some <==> ptr + len <= memory@.len(),
        r matches Some(b) ==> b@.len() == len && forall|i: int|
            0 <= i < len ==> #[trigger] b@[i] == memory@[ptr + i],
{
}

/// An address on this machine is written by its number, whatever port or path
/// follows; every other address stays as it is.
pub proof fn lemma_only_localhost_is_mapped(url: &str, rest: Seq<char>, r: String)
    requires
        call_ensures(map_localhost_to_loopback, (url,), r),
        rest.len() == 0 || rest[0] == ':' || rest[0] == '/',
    ensures
        url@ == "http://localhost"@ + rest ==> r@ == "http://127.0.0.1"@ + rest,
        url@ == "https://localhost"@ + rest ==> r@ == "https://127.0.0.1"@ + rest,
        !"http://localhost"@.is_prefix_of(url@) && !"https://localhost"@.is_prefix_of(url@)
            ==> r@ == url@,
{
    reveal_strlit("http://localhost");
    reveal_strlit("https://localhost");
    let a = "http://localhost"@;
    let b = "https://localhost"@;
    assert(a.len() == 16 && b.len() == 17);
    assert(a[4] == ':' && b[4] == 's');
    if url@ == a + rest {
        assert(a =~= url@.subrange(0, 16));
        assert(url@.skip(16) =~= rest);
    }
    if url@ == b + rest {
        assert(b =~= url@.subrange(0, 17));
        assert(url@.skip(17) =~= rest);
        if a.is_prefix_of(url@) {
            assert(url@.subrange(0, 16)[4] == url@[4]);
        }
    }
}

/// The smaller of a file's length and the limit for showing files.
pub open spec fn shown_len(len: u64, max: u64) -> int {
    if len < max {
        len as int
    } else {
        max as int
    }
}

/// The part of a file that is shown.
pub open spec fn shown_part(bytes: Seq<u8>, limit: int) -> Seq<u8> {
    if bytes.len() > limit {
        bytes.take(limit)
    } else {
        bytes
    }
}

/// A file is shown up to its limit: what was read of it, cut at the smaller of
/// its length and the limit and marked as cut where there was more, unless
/// that holds a null byte or is no text.
pub proof fn lemma_files_are_shown_up_to_their_limit(
    path: String,
    len: u64,
    max: u64,
    bytes: Vec<u8>,
    r: Option<FileSnapshot>,
)
    requires
        call_ensures(read_text_file, (path, len, max, bytes), r),
    ensures
        ({
            let limit = shown_len(len, max);
            let kept = shown_part(bytes@, limit);
            &&& r is Some <==> vstd::utf8::valid_utf8(kept) && !kept.contains(0u8)
            &&& r matches Some(f) ==> f.path@ == path@ && f.content@ == vstd::utf8::decode_utf8(
                kept,
            ) && f.truncated == (bytes@.len() > limit)
        }),
{
    assert(crate::context::kept_bytes(bytes@, len, max) =~= shown_part(
        bytes@,
        shown_len(len, max),
    ));
}

/// Nothing that is still to be looked at is lost: a path that is passed over
/// has been looked at already, the next one comes from the stack, and every
/// other one stays on it.
pub proof fn lemma_collections_lose_nothing(stack: Seq<Seq<char>>, seen: Seq<Seq<char>>, i: int)
    requires
        0 <= i < stack.len(),
    ensures
        match crate::context::next_unseen(stack, seen) {
            None => seen.contains(crate::host_path::normalized(stack[i])),
            Some((path, rest)) => {
                ||| seen.contains(crate::host_path::normalized(stack[i]))
                ||| crate::host_path::normalized(stack[i]) == path
                ||| i < rest.len() && rest[i] == stack[i]
            },
        },
        crate::context::next_unseen(stack, seen) matches Some((path, rest)) ==> rest.is_prefix_of(
            stack,
        ) && rest.len() < stack.len() && path == crate::host_path::normalized(
            stack[rest.len() as int],
        ),
    decreases stack.len(),
{
    let less = stack.drop_last();
    let top = crate::host_path::normalized(stack.last());
    if seen.contains(top) {
        if less.len() > 0 {
            let k = if i < less.len() {
                i
            } else {
                0
            };
            lemma_collections_lose_nothing(less, seen, k);
            if let Some((path, rest)) = crate::context::next_unseen(less, seen) {
                assert(rest =~= stack.subrange(0, rest.len() as int));
                assert(less[rest.len() as int] == stack[rest.len() as int]);
            }
        }
    } else {
        assert(less =~= stack.subrange(0, less.len() as int));
    }
}

/// The names that mark the root of a project.
pub open spec fn marker_names() -> Seq<Seq<char>> {
    seq![
        ".git"@,
        ".hg"@,
        ".svn"@,
        "Cargo.toml"@,
        "Cargo.lock"@,
        "package.json"@,
        "pyproject.toml"@,
        "go.mod"@,
        "pom.xml"@,
        "build.gradle"@,
        "build.gradle.kts"@,
    ]
}

/// One of the names marks the root of a project.
pub open spec fn is_marked(names: Seq<String>) -> bool {
    exists|i: int| 0 <= i < names.len() && marker_names().contains((#[trigger] names[i])@)
}

/// A working directory is safe exactly where it is no root of a project
/// itself, and either says so by its opt-in file or lies in no project.
pub proof fn lemma_safe_directories(dir: &DirProbe, above: &Vec<DirProbe>, r: bool)
    requires
        call_ensures(is_safe_directory, (dir, above), r),
    ensures
        r <==> !is_marked(dir.names@) && ((exists|i: int|
            0 <= i < dir.files@.len() && (#[trigger] dir.files@[i])@ == ".v9r-workdir"@) || forall|
            i: int,
        |
            0 <= i < above@.len() ==> !is_marked((#[trigger] above@[i]).names@)),
{
    lemma_marked(dir.names@);
    assert forall|i: int| 0 <= i < above@.len() implies is_marked((#[trigger] above@[i]).names@)
        == crate::task_fs::has_marker(crate::text::texts(above@[i].names@)) by {
        lemma_marked(above@[i].names@);
    }
    let files = crate::text::texts(dir.files@);
    if files.contains(".v9r-workdir"@) {
        let i = choose|i: int| 0 <= i < files.len() && files[i] == ".v9r-workdir"@;
        assert(dir.files@[i]@ == ".v9r-workdir"@);
    }
    if exists|i: int|
        0 <= i < dir.files@.len() && (#[trigger] dir.files@[i])@ == ".v9r-workdir"@ {
        let i = choose|i: int|
            0 <= i < dir.files@.len() && (#[trigger] dir.files@[i])@ == ".v9r-workdir"@;
        assert(files[i] == ".v9r-workdir"@);
    }
}

proof fn lemma_marked(names: Seq<String>)
    ensures
        is_marked(names) == crate::task_fs::has_marker(crate::text::texts(names)),
{
    let all = marker_names();
    assert forall|n: Seq<char>| all.contains(n) <==> #[trigger] crate::task_fs::is_project_marker(
        n,
    ) by {
        if crate::task_fs::is_project_marker(n) {
            assert(all[0] == ".git"@ && all[1] == ".hg"@ && all[2] == ".svn"@ && all[3]
                == "Cargo.toml"@ && all[4] == "Cargo.lock"@ && all[5] == "package.json"@ && all[6]
                == "pyproject.toml"@ && all[7] == "go.mod"@ && all[8] == "pom.xml"@ && all[9]
                == "build.gradle"@ && all[10] == "build.gradle.kts"@);
        }
    }
    let texts = crate::text::texts(names);
    if is_marked(names) {
        let i = choose|i: int| 0 <= i < names.len() && all.contains((#[trigger] names[i])@);
        assert(crate::task_fs::is_project_marker(texts[i]));
    }
    if crate::task_fs::has_marker(texts) {
        let i = choose|i: int|
            0 <= i < texts.len() && crate::task_fs::is_project_marker(#[trigger] texts[i]);
        assert(all.contains(names[i]@));
    }
}

/// Bringing listings together loses nothing and makes nothing up: every entry
/// of memory is there, every name of the host is there, and each entry is one
/// of memory, or one of the host whose name memory does not have.
pub proof fn lemma_listings_lose_nothing(base: Seq<EntryView>, host: Seq<EntryView>, i: int)
    ensures
        ({
            let all = crate::vfs::merged(base, host);
            &&& base.is_prefix_of(all)
            &&& 0 <= i < host.len() ==> crate::vfs::has_name(all, host[i].name)
            &&& base.len() <= i < all.len() ==> host.contains(all[i]) && !crate::vfs::has_name(
                base,
                all[i].name,
            )
        }),
    decreases host.len(),
{
    let all = crate::vfs::merged(base, host);
    if host.len() == 0 {
        assert(base =~= all.subrange(0, base.len() as int));
    } else {
        let less = host.drop_last();
        let before = crate::vfs::merged(base, less);
        lemma_listings_lose_nothing(base, less, i);
        let last = host.last();
        assert(base =~= all.subrange(0, base.len() as int)) by {
            assert(base =~= before.subrange(0, base.len() as int));
        }
        if 0 <= i < less.len() {
            assert(less[i] == host[i]);
            let k = choose|k: int| 0 <= k < before.len() && (#[trigger] before[k]).name == host[i].name;
            assert(all[k] == before[k]);
        } else if i == less.len() {
            if crate::vfs::has_name(before, last.name) {
                let k = choose|k: int| 0 <= k < before.len() && (#[trigger] before[k]).name == last.name;
                assert(all[k].name == last.name);
            } else {
                assert(all[before.len() as int].name == last.name);
            }
        }
        if base.len() <= i < all.len() {
            if i < before.len() {
                assert(all[i] == before[i]);
                let k = choose|k: int| 0 <= k < less.len() && less[k] == before[i];
                assert(host[k] == all[i]);
            } else {
                assert(all[i] == last);
                assert(host[host.len() - 1] == last);
                if crate::vfs::has_name(base, last.name) {
                    let k = choose|k: int|
                        0 <= k < base.len() && (#[trigger] base[k]).name == last.name;
                    assert(before[k] == base[k]);
                }
            }
        }
    }
}

/// A path through a mount leads down from its place on the host by the names
/// behind the mount.
pub proof fn lemma_mounts_lead_down(base: Seq<char>, names: Seq<Seq<char>>)
    requires
        crate::vfs_path::canonical(names),
    ensures
        crate::host_path::path_parts(crate::vfs::host_joined(base, names))
            == crate::host_path::path_parts(base) + names,
    decreases names.len(),
{
    let top = crate::host_path::path_parts(base);
    if names.len() == 0 {
        assert(top + names =~= top);
    } else {
        let less = names.drop_last();
        assert forall|i: int| 0 <= i < less.len() implies crate::vfs_path::valid_segment(
            #[trigger] less[i],
        ) by {
            assert(less[i] == names[i]);
        }
        lemma_mounts_lead_down(base, less);
        assert(crate::vfs_path::valid_segment(names[names.len() - 1]));
        crate::snapshot::lemma_name_appends(crate::vfs::host_joined(base, less), names.last());
        assert((top + less).push(names.last()) =~= top + names);
    }
}

/// Directories are removed from the deepest up: none comes behind one that it
/// lies below, and each of them has its turn.
pub proof fn lemma_deepest_directories_first(dirs: Seq<Seq<char>>, i: int, j: int, p: Seq<char>)
    requires
        0 <= i < j < crate::snapshot::deepest_first(dirs).len(),
    ensures
        crate::host_path::path_parts(crate::snapshot::deepest_first(dirs)[i]).len()
            >= crate::host_path::path_parts(crate::snapshot::deepest_first(dirs)[j]).len(),
        crate::snapshot::deepest_first(dirs).len() == dirs.len(),
        crate::snapshot::deepest_first(dirs).contains(p) == dirs.contains(p),
{
    let keys = crate::snapshot::depth_keys(dirs);
    let out = crate::order::sorted(keys);
    let deep = crate::snapshot::deepest_first(dirs);
    crate::order::lemma_sorted_in_order(keys);
    crate::order::lemma_sorted_same_elements(keys);
    assert(!out[j].before(out[i]));
    let key = crate::snapshot::DepthKey { path: p };
    crate::order::lemma_sorted_contains(keys, key);
    if deep.contains(p) {
        let k = choose|k: int| 0 <= k < deep.len() && deep[k] == p;
        assert(out[k] == key);
        let m = choose|m: int| 0 <= m < keys.len() && keys[m] == key;
        assert(dirs[m] == p);
    }
    if dirs.contains(p) {
        let m = choose|m: int| 0 <= m < dirs.len() && dirs[m] == p;
        assert(keys[m] == key);
        let k = choose|k: int| 0 <= k < out.len() && out[k] == key;
        assert(deep[k] == p);
    }
}

/// A path that is absolute or climbs is not taken out of a bundle.
pub proof fn lemma_unsafe_paths_are_refused(p: Seq<char>, i: int)
    requires
        0 <= i < crate::host_path::path_parts(p).len(),
        crate::host_path::path_parts(p)[i] == ".."@ || crate::host_path::path_parts(p)[i] == "/"@,
    ensures
        crate::bundle::bundle_path(p) is None,
{
    assert(crate::host_path::path_parts(p).contains(crate::host_path::path_parts(p)[i]));
}

} // verus!
