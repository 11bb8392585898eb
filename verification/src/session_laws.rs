//! What a session does with the lines that are typed into it, and what a view
//! lets through.

use vstd::prelude::*;

use bytes::Bytes;

use crate::cap::{MountMode, NamespaceView};
use crate::output::LogLine;
use crate::repl::{ReplSession, ReplStep, StepModel};
use crate::runtime::{
    begin_vfs_read, begin_vfs_write, finish_http_request, finish_vfs_read, HttpReply,
};
use crate::vfs::{EntryModel, Lookup, ReadStep, Vfs, WriteStep};
use crate::vfs_path::{VfsError, VfsPath, VfsResult};

verus! {

/// A view lets nothing be written that it does not cover, and nothing that it
/// covers for reading alone; what is refused changes nothing.
pub proof fn lemma_views_guard_their_files(
    view: &NamespaceView,
    vfs: &mut Vfs,
    path: &VfsPath,
    data: Bytes,
    place: VfsResult<(VfsPath, MountMode)>,
    r: VfsResult<WriteStep>,
)
    requires
        call_ensures(NamespaceView::resolve, (view, path), place),
        call_ensures(NamespaceView::write, (view, vfs, path, data), r),
    ensures
        place is Err ==> (r matches Err(VfsError::PermissionDenied)) && final(vfs)@ == old(vfs)@,
        place matches Ok((target, mode)) ==> (mode is Ro ==> (r matches Err(
            VfsError::PermissionDenied,
        )) && final(vfs)@ == old(vfs)@),
        r is Err ==> final(vfs)@.tree == old(vfs)@.tree,
        place matches Ok((target, mode)) ==> (mode is Rw && (crate::vfs::lookup(
            old(vfs)@.tree,
            target@,
        ) matches Lookup::Found(EntryModel::File(was))) ==> (r matches Ok(WriteStep::Stored(ev))
            && ev.path@ == target@ && ev.writer.0 == view@.cap)),
{
}

/// What a view covers it lets be read, whatever its mode; nothing else.
pub proof fn lemma_views_show_their_files(
    view: &NamespaceView,
    vfs: &Vfs,
    path: &VfsPath,
    place: VfsResult<(VfsPath, MountMode)>,
    r: VfsResult<ReadStep>,
)
    requires
        call_ensures(NamespaceView::resolve, (view, path), place),
        call_ensures(NamespaceView::read, (view, vfs, path), r),
    ensures
        place is Err ==> (r matches Err(VfsError::PermissionDenied)),
        place matches Ok((target, mode)) ==> (crate::vfs::lookup(vfs@.tree, target@) matches Lookup::Found(
            EntryModel::File(bytes),
        ) ==> (r matches Ok(ReadStep::File(b)) && crate::arena::bytes_contents(b) == bytes)),
        place matches Ok((target, mode)) ==> (crate::vfs::lookup(vfs@.tree, target@) is NotFound
            ==> (r matches Ok(ReadStep::Host))),
{
}

/// A guest is told by a code of its own where its view does not let it.
pub proof fn lemma_guests_are_refused(
    view: &NamespaceView,
    vfs: &mut Vfs,
    memory: &[u8],
    ptr: u32,
    len: u32,
    data_ptr: u32,
    data_len: u32,
    r: Result<ReadStep, i32>,
    w: Result<WriteStep, i32>,
)
    requires
        call_ensures(begin_vfs_read, (view, &*old(vfs), memory, ptr, len), r),
        call_ensures(begin_vfs_write, (view, vfs, memory, ptr, len, data_ptr, data_len), w),
        data_ptr + data_len <= memory@.len(),
    ensures
        ptr + len > memory@.len() ==> r == Err::<ReadStep, i32>(-3i32) && w == Err::<
            WriteStep,
            i32,
        >(-3i32),
        crate::runtime::guest_path_of(memory@, ptr, len) matches Some(path) ==> (
        crate::cap::resolved_through(view@.mounts, path) is None ==> r == Err::<ReadStep, i32>(
            -2i32,
        ) && w == Err::<WriteStep, i32>(-2i32)),
        crate::runtime::guest_path_of(memory@, ptr, len) matches Some(path) ==> (
        crate::cap::resolved_through(view@.mounts, path) matches Some((target, mode)) ==> (mode
            is Ro ==> w == Err::<WriteStep, i32>(-2i32))),
        w is Err ==> final(vfs)@.tree == old(vfs)@.tree,
{
}

/// A guest whose answer does not fit is told so, and its memory stays as it
/// was.
pub proof fn lemma_answers_have_to_fit(
    reply: HttpReply,
    memory: &mut [u8],
    ptr: u32,
    max: u32,
    r: i32,
)
    requires
        call_ensures(finish_http_request, (reply, memory, ptr, max), r),
        r < 0,
        old(memory)@.len() <= 0x7fff_ffff,
    ensures
        final(memory)@ == old(memory)@,
        reply matches HttpReply::Body(b) ==> (b@.len() == 0 ==> r == -7) && (b@.len() > max ==> r
            == -6) && (0 < b@.len() <= max ==> r == -3 && ptr + b@.len() > old(memory)@.len()),
        !(reply is Body) ==> r == -5,
{
}

/// The same holds of a file that does not fit.
pub proof fn lemma_files_have_to_fit(
    result: VfsResult<Bytes>,
    memory: &mut [u8],
    ptr: u32,
    max: u32,
    r: i32,
)
    requires
        call_ensures(finish_vfs_read, (result, memory, ptr, max), r),
        r < 0,
        old(memory)@.len() <= 0x7fff_ffff,
    ensures
        final(memory)@ == old(memory)@,
        result matches Ok(b) ==> (crate::arena::bytes_contents(b).len() > max ==> r == -4) && (
        crate::arena::bytes_contents(b).len() <= max ==> r == -3 && ptr
            + crate::arena::bytes_contents(b).len() > old(memory)@.len()),
        result matches Err(VfsError::NotFound) ==> r == -1,
        result matches Err(VfsError::PermissionDenied) ==> r == -2,
{
}

/// A manifest is loaded where it is there, and then it is the manifest of the
/// session; nothing else of the session changes.
pub proof fn lemma_manifests_are_loaded(
    s: &mut ReplSession,
    path: &str,
    found: bool,
    r: Result<LogLine, String>,
)
    requires
        call_ensures(ReplSession::load, (s, path, found), r),
    ensures
        r is Ok <==> found,
        found ==> final(s)@.manifest_path == Some(path@),
        !found ==> final(s)@ == old(s)@,
        final(s)@.current_model == old(s)@.current_model,
        final(s)@.current_provider == old(s)@.current_provider,
        final(s)@.workdir == old(s)@.workdir,
        final(s)@.base_url == old(s)@.base_url,
        final(s)@.debug_xml == old(s)@.debug_xml,
{
}

/// Without a manifest nothing runs.
pub proof fn lemma_runs_need_a_manifest(
    s: &ReplSession,
    task: &str,
    r: Result<crate::args::RunArgs, String>,
)
    requires
        call_ensures(ReplSession::run_task, (s, task), r),
    ensures
        s@.manifest_path is None ==> r is Err,
        r matches Ok(a) ==> a@.manifest == s@.manifest_path && a@.workdir == Some(s@.workdir)
            && a@.provider == Some(s@.current_provider) && a@.model == Some(s@.current_model)
            && a@.base_url == s@.base_url && a@.debug_xml == s@.debug_xml && a@.script is None
            && a@.task is Some,
{
}

/// A session ends at `exit` and at `quit`, shows its settings at `status`, and
/// passes over a blank line; none of these changes it.
pub proof fn lemma_sessions_take_their_words(
    s: &mut ReplSession,
    raw: &str,
    r: Result<ReplStep, String>,
)
    requires
        call_ensures(ReplSession::execute, (s, raw), r),
    ensures
        raw@ == "exit"@ || raw@ == "quit"@ ==> (r matches Ok(step) && step@ is Quit) && final(s)@
            == old(s)@,
        raw@ == "status"@ ==> (r matches Ok(step) && step@ is Status) && final(s)@ == old(s)@,
        (forall|k: int| 0 <= k < raw@.len() ==> crate::text::is_space(#[trigger] raw@[k])) ==> (
        r matches Ok(step) && step@ is Continue) && final(s)@ == old(s)@,
        r is Err ==> final(s)@ == old(s)@,
{
    reveal_strlit("exit");
    reveal_strlit("quit");
    reveal_strlit("status");
    assert("exit"@.len() == 4 && "quit"@.len() == 4 && "status"@.len() == 6);
    assert(!crate::text::is_space('e') && !crate::text::is_space('t') && !crate::text::is_space('q')
        && !crate::text::is_space('s'));
    assert("exit"@[0] == 'e' && "exit"@[3] == 't' && "quit"@[0] == 'q' && "quit"@[3] == 't');
    assert("status"@[0] == 's' && "status"@[5] == 's');
    crate::text::lemma_trimmed_bare("exit"@);
    crate::text::lemma_trimmed_bare("quit"@);
    crate::text::lemma_trimmed_bare("status"@);
    crate::text::lemma_trimmed_empty(raw@);
}

/// A path that is named after `load` is the one that is loaded.
pub proof fn lemma_load_takes_its_path(
    s: &mut ReplSession,
    raw: &str,
    path: Seq<char>,
    r: Result<ReplStep, String>,
)
    requires
        call_ensures(ReplSession::execute, (s, raw), r),
        path.len() > 0,
        !crate::text::is_space(path[0]),
        !crate::text::is_space(path.last()),
        raw@ == "load "@ + path,
    ensures
        r matches Ok(step) && step@ == StepModel::Load(path),
        final(s)@ == old(s)@,
{
    reveal_strlit("load ");
    reveal_strlit("exit");
    reveal_strlit("quit");
    reveal_strlit("status");
    reveal_strlit("set ");
    assert("exit"@.len() == 4 && "quit"@.len() == 4 && "set "@.len() == 4);
    assert("status"@[0] == 's' && "set "@[0] == 's' && "load "@[0] == 'l');
    assert(!crate::text::is_space('l'));
    assert(raw@[0] == 'l' && raw@.last() == path.last());
    crate::text::lemma_trimmed_bare(raw@);
    assert("load "@ =~= raw@.subrange(0, 5));
    assert(raw@.skip(5) =~= path);
    crate::text::lemma_trimmed_bare(path);
    assert(raw@.subrange(0, 4)[0] == 'l');
}

} // verus!
