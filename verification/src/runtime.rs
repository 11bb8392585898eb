//! What agents ask of their host: the calls they can make, checked against
//! their memory and their view, and the answers they get.

use bytes::Bytes;
use vstd::prelude::*;

use crate::arena::{bytes_from, bytes_to_vec};
use crate::cap::{MountMode, NamespaceView};
use crate::json_value::{json_from_slice, json_is_object, json_set, json_string, json_to_vec};
use crate::log::LogBuffer;
use crate::text::{
    begins_with, begins_with_char, cat, cat3, debug_of, decimal_text, is_empty_text, lossy_text,
    owned, rest_after, same_text, trim, utf8_text,
};
use crate::vfs::{EntryModel, Lookup, ReadStep, Vfs, WriteStep};
use crate::vfs_path::{VfsError, VfsPath, VfsResult};

verus! {

/// How much work one invocation may do.
pub const DEFAULT_FUEL: u64 = 10_000_000;

/// How much memory one invocation may use.
pub const DEFAULT_MEMORY_LIMIT: usize = 16_777_216;

/// How long one request may take, in seconds.
pub const HTTP_TIMEOUT_SECS: u64 = 180;

/// Stable identity of an agent: the name of its directory.
#[derive(Clone, Debug, PartialEq, Eq, Hash)]
pub struct AgentId(pub String);

impl AgentId {
    pub fn new(s: String) -> (r: AgentId)
        ensures
            r.0 == s,
    {
        AgentId(s)
    }

    pub fn as_str(&self) -> (r: &str)
        ensures
            r@ == self.0@,
    {
        self.0.as_str()
    }
}

/// A runtime that runs nothing and answers with what it was given.
pub struct MockRuntime;

/// The answer of the mock: the agent, the export, and the input as text.
pub open spec fn mock_answer(id: Seq<char>, export: Seq<char>, input: Seq<u8>) -> Seq<char> {
    "[mock:"@ + id + "::"@ + export + "] echo: "@ + crate::text::utf8_lossy(input)
}

/// The text of a mode, as `{:?}` prints it.
pub open spec fn mode_text(m: MountMode) -> Seq<char> {
    match m {
        MountMode::Ro => "Ro"@,
        MountMode::Rw => "Rw"@,
    }
}

/// What the mock prints of one mount.
pub open spec fn mock_mount_line(m: crate::cap::MountModel) -> Seq<char> {
    "  view: "@ + crate::vfs_path::displayed(m.virtual_path) + " -> "@ + crate::vfs_path::displayed(
        m.real_path,
    ) + " ("@ + mode_text(m.mode) + ")"@
}

/// What the mock prints of a call: the call itself, then one line for each
/// mount.
pub open spec fn mock_lines(
    id: Seq<char>,
    export: Seq<char>,
    input: Seq<u8>,
    mounts: Seq<crate::cap::MountModel>,
) -> Seq<Seq<char>> {
    seq![
        "Wasm Invoke: agent="@ + id + " export="@ + export + " bytes="@ + crate::text::decimal(
            input.len(),
        ) + " data="@ + crate::text::debug_text(crate::text::utf8_lossy(input)),
    ] + mounts.map_values(|m: crate::cap::MountModel| mock_mount_line(m))
}

impl MockRuntime {
    pub fn new() -> (r: MockRuntime)
        ensures
            r == MockRuntime,
    {
        MockRuntime
    }

    /// Answers a call, with the lines to print.
    pub fn invoke(&self, id: &AgentId, export: &str, input: &Bytes, view: &NamespaceView) -> (r: (
        Bytes,
        Vec<String>,
    ))
        ensures
            crate::arena::bytes_contents(r.0) == vstd::utf8::encode_utf8(
                mock_answer(id.0@, export@, crate::arena::bytes_contents(*input)),
            ),
            crate::text::texts(r.1@) == mock_lines(
                id.0@,
                export@,
                crate::arena::bytes_contents(*input),
                view@.mounts,
            ),
    {
        let data = bytes_to_vec(input);
        let preview = lossy_text(data.as_slice());
        let mut first = cat3("Wasm Invoke: agent=", id.as_str(), " export=");
        first.append(export);
        first.append(" bytes=");
        let n = decimal_text(data.len() as u64);
        first.append(n.as_str());
        first.append(" data=");
        let quoted = debug_of(preview.as_str());
        first.append(quoted.as_str());
        let ghost head = first@;
        let mut lines: Vec<String> = Vec::new();
        lines.push(first);
        let mounts = view.mounts();
        let ghost all = view@.mounts;
        let ghost want = all.map_values(|m: crate::cap::MountModel| mock_mount_line(m));
        let mut i: usize = 0;
        proof {
            assert(crate::text::texts(lines@) =~= seq![head] + want.take(0));
        }
        while i < mounts.len()
            invariant
                i <= mounts.len(),
                all == crate::cap::mount_views(mounts@),
                want == all.map_values(|m: crate::cap::MountModel| mock_mount_line(m)),
                crate::text::texts(lines@) == seq![head] + want.take(i as int),
            decreases mounts.len() - i,
        {
            let m = &mounts[i];
            let ghost before = crate::text::texts(lines@);
            let virt = m.virtual_path.display();
            let target = m.real_path.display();
            let mut line = cat3("  view: ", virt.as_str(), " -> ");
            line.append(target.as_str());
            line.append(" (");
            line.append(
                match m.mode {
                    MountMode::Ro => "Ro",
                    MountMode::Rw => "Rw",
                },
            );
            line.append(")");
            proof {
                assert(all[i as int] == m@);
                assert(line@ == want[i as int]);
            }
            lines.push(line);
            proof {
                assert(crate::text::texts(lines@) =~= before.push(want[i as int]));
                assert(seq![head] + want.take(i + 1) =~= before.push(want[i as int]));
            }
            i = i + 1;
        }
        proof {
            assert(want.take(want.len() as int) =~= want);
        }
        let mut answer = cat3("[mock:", id.as_str(), "::");
        answer.append(export);
        answer.append("] echo: ");
        answer.append(preview.as_str());
        (bytes_from(text_bytes(answer.as_str())), lines)
    }
}

impl Default for MockRuntime {
    fn default() -> (r: MockRuntime)
        ensures
            r == MockRuntime,
    {
        MockRuntime
    }
}

/// The bytes of a text.
pub fn text_bytes(s: &str) -> (r: Vec<u8>)
    ensures
        r@ == vstd::utf8::encode_utf8(s@),
{
    s.as_bytes_vec()
}

/// The range lies inside a memory of `size` bytes.
pub open spec fn in_memory(size: nat, ptr: u32, len: nat) -> bool {
    ptr + len <= size
}

/// Copies a range out of a guest's memory; `None` where it does not lie
/// inside.
pub fn read_guest(memory: &[u8], ptr: u32, len: u32) -> (r: Option<Vec<u8>>)
    ensures
        match r {
            Some(bytes) => in_memory(memory@.len(), ptr, len as nat) && bytes@ == memory@.subrange(
                ptr as int,
                ptr + len,
            ),
            None => !in_memory(memory@.len(), ptr, len as nat),
        },
{
    let end: u64 = ptr as u64 + len as u64;
    if end > memory.len() as u64 {
        return None;
    }
    let from: usize = ptr as usize;
    let to: usize = end as usize;
    let mut out: Vec<u8> = Vec::new();
    let mut i: usize = from;
    while i < to
        invariant
            from <= i <= to <= memory.len(),
            out@ == memory@.subrange(from as int, i as int),
        decreases to - i,
    {
        out.push(memory[i]);
        proof {
            assert(memory@.subrange(from as int, i + 1) =~= memory@.subrange(
                from as int,
                i as int,
            ).push(memory@[i as int]));
        }
        i = i + 1;
    }
    Some(out)
}

/// `memory` with `bytes` at `ptr`.
pub open spec fn overwritten(memory: Seq<u8>, ptr: int, bytes: Seq<u8>) -> Seq<u8> {
    Seq::new(
        memory.len(),
        |i: int|
            if ptr <= i < ptr + bytes.len() {
                bytes[i - ptr]
            } else {
                memory[i]
            },
    )
}

/// Copies bytes into a guest's memory; `false`, and nothing copied, where they
/// do not fit inside.
pub fn write_guest(memory: &mut [u8], ptr: u32, bytes: &Vec<u8>) -> (r: bool)
    ensures
        r == in_memory(old(memory)@.len(), ptr, bytes@.len()),
        r ==> final(memory)@ == overwritten(old(memory)@, ptr as int, bytes@),
        !r ==> final(memory)@ == old(memory)@,
{
    let size: usize = memory.len();
    if ptr as u64 > size as u64 || bytes.len() > size - ptr as usize {
        return false;
    }
    let from: usize = ptr as usize;
    let ghost was = memory@;
    let mut i: usize = 0;
    while i < bytes.len()
        invariant
            i <= bytes.len(),
            from + bytes@.len() <= size,
            size == memory@.len(),
            was.len() == size,
            forall|k: int|
                0 <= k < size ==> memory@[k] == (if from <= k < from + i {
                    bytes@[k - from]
                } else {
                    was[k]
                }),
        decreases bytes.len() - i,
    {
        memory[from + i] = bytes[i];
        i = i + 1;
    }
    proof {
        assert(memory@ =~= overwritten(was, ptr as int, bytes@));
    }
    true
}

/// The path that a guest names: text in its memory that parses.
pub open spec fn guest_path_of(memory: Seq<u8>, ptr: u32, len: u32) -> Option<Seq<Seq<char>>> {
    if !in_memory(memory.len(), ptr, len as nat) {
        None
    } else {
        let bytes = memory.subrange(ptr as int, ptr + len);
        if !vstd::utf8::valid_utf8(bytes) {
            None
        } else {
            crate::vfs_path::parsed(vstd::utf8::decode_utf8(bytes))
        }
    }
}

/// The path that a guest names; the code `-3` where it names none.
pub fn guest_path(memory: &[u8], ptr: u32, len: u32) -> (r: Result<VfsPath, i32>)
    ensures
        match r {
            Ok(p) => guest_path_of(memory@, ptr, len) == Some(p@) && crate::vfs_path::canonical(p@),
            Err(code) => guest_path_of(memory@, ptr, len) is None && code == -3,
        },
{
    match read_guest(memory, ptr, len) {
        None => Err(-3),
        Some(bytes) => match utf8_text(bytes) {
            Err(_) => Err(-3),
            Ok(text) => match VfsPath::parse(text.as_str()) {
                Err(_) => Err(-3),
                Ok(p) => Ok(p),
            },
        },
    }
}

/// The code that a guest is told of an error.
pub open spec fn error_code(e: VfsError) -> i32 {
    match e {
        VfsError::NotFound => -1i32,
        VfsError::PermissionDenied => -2i32,
        _ => -3i32,
    }
}

fn code_of(e: &VfsError) -> (r: i32)
    ensures
        r == error_code(*e),
{
    match e {
        VfsError::NotFound => -1,
        VfsError::PermissionDenied => -2,
        _ => -3,
    }
}

/// What a guest is told when it reads a file: the number of bytes, now at
/// `buf_ptr`; `-4` where they are more than `buf_max`, `-3` where the buffer
/// does not lie in its memory.
pub fn finish_vfs_read(
    result: VfsResult<Bytes>,
    memory: &mut [u8],
    buf_ptr: u32,
    buf_max: u32,
) -> (r: i32)
    ensures
        match result {
            Err(e) => r == error_code(e) && final(memory)@ == old(memory)@,
            Ok(b) => {
                let bytes = crate::arena::bytes_contents(b);
                if bytes.len() > buf_max {
                    r == -4 && final(memory)@ == old(memory)@
                } else if !in_memory(old(memory)@.len(), buf_ptr, bytes.len()) {
                    r == -3 && final(memory)@ == old(memory)@
                } else {
                    r == bytes.len() as i32 && final(memory)@ == overwritten(
                        old(memory)@,
                        buf_ptr as int,
                        bytes,
                    )
                }
            },
        },
{
    let bytes = match result {
        Ok(b) => bytes_to_vec(&b),
        Err(e) => {
            return code_of(&e);
        },
    };
    if bytes.len() as u64 > buf_max as u64 {
        return -4;
    }
    if !write_guest(memory, buf_ptr, &bytes) {
        return -3;
    }
    bytes.len() as i32
}

/// Reads what a guest asks for through its view; the code of the error where
/// there is nothing to read.
pub fn begin_vfs_read(
    view: &NamespaceView,
    vfs: &Vfs,
    memory: &[u8],
    path_ptr: u32,
    path_len: u32,
) -> (r: Result<ReadStep, i32>)
    requires
        vfs.wf(),
    ensures
        match guest_path_of(memory@, path_ptr, path_len) {
            None => r == Err::<ReadStep, i32>(-3i32),
            Some(path) => match crate::cap::resolved_through(view@.mounts, path) {
                None => r == Err::<ReadStep, i32>(-2i32),
                Some((target, mode)) => match crate::vfs::lookup(vfs@.tree, target) {
                    Lookup::Found(EntryModel::File(bytes)) => r matches Ok(ReadStep::File(b))
                        && crate::arena::bytes_contents(b) == bytes,
                    Lookup::Found(EntryModel::Synthetic(h)) => r matches Ok(
                        ReadStep::Synthetic { handle, ctx },
                    ) && handle == h && ctx.path@ == target && ctx.writer.0 == view@.cap,
                    Lookup::NotFound => r matches Ok(ReadStep::Host),
                    _ => r == Err::<ReadStep, i32>(-3i32),
                },
            },
        },
{
    let path = guest_path(memory, path_ptr, path_len)?;
    match view.read(vfs, &path) {
        Ok(step) => Ok(step),
        Err(e) => Err(code_of(&e)),
    }
}

/// Writes what a guest asks for through its view; the code of the error where
/// it cannot be written.
pub fn begin_vfs_write(
    view: &NamespaceView,
    vfs: &mut Vfs,
    memory: &[u8],
    path_ptr: u32,
    path_len: u32,
    data_ptr: u32,
    data_len: u32,
) -> (r: Result<WriteStep, i32>)
    requires
        old(vfs).wf(),
    ensures
        final(vfs).wf(),
        final(vfs)@.mounts == old(vfs)@.mounts,
        final(vfs).node_count() == old(vfs).node_count(),
        match guest_path_of(memory@, path_ptr, path_len) {
            None => r == Err::<WriteStep, i32>(-3i32) && final(vfs)@.tree == old(vfs)@.tree,
            Some(path) => if !in_memory(memory@.len(), data_ptr, data_len as nat) {
                r == Err::<WriteStep, i32>(-3i32) && final(vfs)@.tree == old(vfs)@.tree
            } else {
                let data = memory@.subrange(data_ptr as int, data_ptr + data_len);
                match crate::cap::resolved_through(view@.mounts, path) {
                    None => final(vfs)@.tree == old(vfs)@.tree && r == Err::<WriteStep, i32>(
                        -2i32,
                    ),
                    Some((target, mode)) => if mode == MountMode::Ro {
                        final(vfs)@.tree == old(vfs)@.tree && r == Err::<WriteStep, i32>(-2i32)
                    } else {
                        match crate::vfs::lookup(old(vfs)@.tree, target) {
                            Lookup::Found(EntryModel::File(_)) => final(vfs)@.tree == old(
                                vfs,
                            )@.tree.insert(target, EntryModel::File(data)) && (r matches Ok(
                                WriteStep::Stored(ev),
                            ) && ev.path@ == target && old(vfs).node_at(target) == Some(ev.node.0)
                                && ev.bytes_len == data.len() && ev.writer.0 == view@.cap),
                            Lookup::Found(EntryModel::Synthetic(h)) => final(vfs)@.tree == old(
                                vfs,
                            )@.tree && (r matches Ok(
                                WriteStep::Synthetic { handle, ctx, data: d },
                            ) && handle == h && ctx.path@ == target && ctx.writer.0 == view@.cap
                                && crate::arena::bytes_contents(d) == data),
                            Lookup::NotFound => final(vfs)@.tree == old(vfs)@.tree && r == Err::<
                                WriteStep,
                                i32,
                            >(-1i32),
                            _ => final(vfs)@.tree == old(vfs)@.tree && r == Err::<WriteStep, i32>(
                                -3i32,
                            ),
                        }
                    },
                }
            },
        },
{
    let path = guest_path(memory, path_ptr, path_len)?;
    let bytes = match read_guest(memory, data_ptr, data_len) {
        None => {
            return Err(-3);
        },
        Some(bytes) => bytes,
    };
    match view.write(vfs, &path, bytes_from(bytes)) {
        Ok(step) => Ok(step),
        Err(e) => Err(code_of(&e)),
    }
}

/// What a guest is told when it has written: `0`, or the code of the error.
pub fn finish_vfs_write(result: VfsResult<()>) -> (r: i32)
    ensures
        match result {
            Ok(_) => r == 0,
            Err(e) => r == error_code(e),
        },
{
    match result {
        Ok(_) => 0,
        Err(e) => code_of(&e),
    }
}

/// An address on this machine, by its number.
pub open spec fn loopback(url: Seq<char>) -> Seq<char> {
    let plain = "http://localhost"@;
    let secure = "https://localhost"@;
    if plain.is_prefix_of(url) && is_host_end(url.skip(plain.len() as int)) {
        "http://127.0.0.1"@ + url.skip(plain.len() as int)
    } else if secure.is_prefix_of(url) && is_host_end(url.skip(secure.len() as int)) {
        "https://127.0.0.1"@ + url.skip(secure.len() as int)
    } else {
        url
    }
}

/// The name of the host is over: nothing, a port or a path follows.
pub open spec fn is_host_end(rest: Seq<char>) -> bool {
    rest.len() == 0 || rest[0] == ':' || rest[0] == '/'
}

fn ends_host(rest: &str) -> (r: bool)
    ensures
        r == is_host_end(rest@),
{
    is_empty_text(rest) || begins_with_char(rest, ':') || begins_with_char(rest, '/')
}

/// Writes the name of this machine in an address as its number.
pub fn map_localhost_to_loopback(url: &str) -> (r: String)
    ensures
        r@ == loopback(url@),
{
    if let Some(rest) = rest_after(url, "http://localhost") {
        if ends_host(rest.as_str()) {
            return cat("http://127.0.0.1", rest.as_str());
        }
    }
    if let Some(rest) = rest_after(url, "https://localhost") {
        if ends_host(rest.as_str()) {
            return cat("https://127.0.0.1", rest.as_str());
        }
    }
    owned(url)
}

/// What a guest asks of the network.
#[derive(Debug)]
pub struct GuestRequest {
    pub url: String,
    pub body: Vec<u8>,
}

/// The address that a guest names: text in its memory with a scheme of the
/// web.
pub open spec fn guest_url_of(memory: Seq<u8>, ptr: u32, len: u32) -> Option<Seq<char>> {
    if !in_memory(memory.len(), ptr, len as nat) {
        None
    } else {
        let bytes = memory.subrange(ptr as int, ptr + len);
        if !vstd::utf8::valid_utf8(bytes) {
            None
        } else {
            let url = vstd::utf8::decode_utf8(bytes);
            if "http://"@.is_prefix_of(url) || "https://"@.is_prefix_of(url) {
                Some(loopback(url))
            } else {
                None
            }
        }
    }
}

/// What a guest asks of the network. A view without the capability is told
/// `-2` before its memory is looked at; a bad address or body is told `-3`.
pub fn begin_http_request(
    view: &NamespaceView,
    memory: &[u8],
    url_ptr: u32,
    url_len: u32,
    body_ptr: u32,
    body_len: u32,
) -> (r: Result<GuestRequest, i32>)
    ensures
        ({
            let granted = view@.host_capabilities.contains(
                crate::cap::HostCapability::CanAccessNetwork,
            );
            match r {
                Ok(q) => granted && guest_url_of(memory@, url_ptr, url_len) == Some(q.url@)
                    && in_memory(memory@.len(), body_ptr, body_len as nat) && q.body@
                    == memory@.subrange(body_ptr as int, body_ptr + body_len),
                Err(code) => if !granted {
                    code == -2
                } else {
                    code == -3 && (guest_url_of(memory@, url_ptr, url_len) is None || !in_memory(
                        memory@.len(),
                        body_ptr,
                        body_len as nat,
                    ))
                },
            }
        }),
{
    if !view.can_access_network() {
        return Err(-2);
    }
    let url = match read_guest(memory, url_ptr, url_len) {
        None => {
            return Err(-3);
        },
        Some(bytes) => match utf8_text(bytes) {
            Err(_) => {
                return Err(-3);
            },
            Ok(s) => s,
        },
    };
    if !begins_with(url.as_str(), "http://") && !begins_with(url.as_str(), "https://") {
        return Err(-3);
    }
    let url = map_localhost_to_loopback(url.as_str());
    match read_guest(memory, body_ptr, body_len) {
        None => Err(-3),
        Some(body) => Ok(GuestRequest { url, body }),
    }
}

/// A request as it is sent.
#[derive(Debug)]
pub struct PreparedHttpRequest {
    pub url: String,
    pub body: Vec<u8>,
    pub openrouter_api_key: Option<String>,
}

/// The model that requests through the host are made for.
pub open spec fn host_model(named: Option<Seq<char>>) -> Seq<char> {
    match crate::provider::usable_key(named) {
        Some(m) => m,
        None => "google/gemma-4-31b-it:free"@,
    }
}

/// The model that requests through the host are made for: the one that the
/// environment names, or the default.
pub fn openrouter_model(named: Option<String>) -> (r: String)
    ensures
        r@ == host_model(crate::text::text_option(named)),
{
    match named {
        Some(m) => {
            let bare = trim(m.as_str());
            if is_empty_text(bare.as_str()) {
                owned("google/gemma-4-31b-it:free")
            } else {
                bare
            }
        },
        None => owned("google/gemma-4-31b-it:free"),
    }
}

/// The payload of a guest with the model set by the host, or why it cannot be
/// used. Whatever model the guest named gives way.
pub fn set_payload_model(payload: serde_json::Value, model: &str) -> (r: Result<
    serde_json::Value,
    String,
>)
    ensures
        match r {
            Ok(v) => crate::json_value::json_object(payload) && v
                == crate::json_value::json_with_member(
                payload,
                "model"@,
                crate::json_value::json_of_text(model@),
            ) && crate::json_value::json_member(v, "model"@) == Some(
                crate::json_value::json_of_text(model@),
            ) && forall|k: Seq<char>|
                k != "model"@ ==> #[trigger] crate::json_value::json_member(v, k)
                    == crate::json_value::json_member(payload, k),
            Err(m) => !crate::json_value::json_object(payload) && m@
                == "OpenRouter request JSON must be an object"@,
        },
{
    if !json_is_object(&payload) {
        return Err(owned("OpenRouter request JSON must be an object"));
    }
    Ok(json_set(payload, "model", json_string(model)))
}

/// The body of a request through the host, or why there is none.
pub open spec fn hosted_body(body: Seq<u8>, model: Seq<char>) -> Result<Seq<u8>, Seq<char>> {
    match crate::json_value::json_bytes_document(body) {
        Err(m) => Err("invalid OpenRouter request JSON: "@ + m),
        Ok(payload) => if !crate::json_value::json_object(payload) {
            Err("OpenRouter request JSON must be an object"@)
        } else {
            match crate::json_value::json_encoding(
                crate::json_value::json_with_member(
                    payload,
                    "model"@,
                    crate::json_value::json_of_text(model),
                ),
            ) {
                Err(m) => Err("failed to encode OpenRouter request JSON: "@ + m),
                Ok(bytes) => Ok(bytes),
            }
        },
    }
}

/// Prepares a request for sending. One to the completions of OpenRouter gets
/// the host's key and model; every other one goes out as it is.
pub fn prepare_http_request(
    url: String,
    body: Vec<u8>,
    api_key: Option<String>,
    model: Option<String>,
) -> (r: Result<PreparedHttpRequest, String>)
    ensures
        if url@ != "https://openrouter.ai/api/v1/chat/completions"@ {
            r matches Ok(q) && q.url == url && q.body == body && q.openrouter_api_key is None
        } else {
            match crate::provider::usable_key(crate::text::text_option(api_key)) {
                None => r matches Err(m) && m@ == "OPENROUTER_API_KEY not set"@,
                Some(key) => match hosted_body(
                    body@,
                    host_model(crate::text::text_option(model)),
                ) {
                    Ok(bytes) => r matches Ok(q) && q.url == url && q.body@ == bytes
                        && crate::text::text_option(q.openrouter_api_key) == Some(key),
                    Err(reason) => r matches Err(m) && m@ == reason,
                },
            }
        },
{
    if !same_text(url.as_str(), "https://openrouter.ai/api/v1/chat/completions") {
        return Ok(PreparedHttpRequest { url, body, openrouter_api_key: None });
    }
    let key = match &api_key {
        Some(k) => trim(k.as_str()),
        None => String::new(),
    };
    proof {
        if api_key is None {
            assert(key@ =~= Seq::<char>::empty());
        }
    }
    if is_empty_text(key.as_str()) {
        return Err(owned("OPENROUTER_API_KEY not set"));
    }
    let payload = match json_from_slice(body.as_slice()) {
        Ok(v) => v,
        Err(m) => {
            return Err(cat("invalid OpenRouter request JSON: ", m.as_str()));
        },
    };
    let name = openrouter_model(model);
    let payload = set_payload_model(payload, name.as_str())?;
    match json_to_vec(&payload) {
        Ok(bytes) => Ok(PreparedHttpRequest { url, body: bytes, openrouter_api_key: Some(key) }),
        Err(m) => Err(cat("failed to encode OpenRouter request JSON: ", m.as_str())),
    }
}

/// What a guest is told of a request that could not be prepared: `-8` where
/// the host has no key, `-3` otherwise.
pub fn prepare_error_code(message: &str) -> (r: i32)
    ensures
        r == (if message@ == "OPENROUTER_API_KEY not set"@ {
            -8i32
        } else {
            -3i32
        }),
{
    if same_text(message, "OPENROUTER_API_KEY not set") {
        -8
    } else {
        -3
    }
}

/// How a request ended.
#[derive(Debug)]
pub enum HttpReply {
    /// It could not be sent or its answer could not be read.
    Failed,
    /// The status is not one of success.
    BadStatus,
    Body(Vec<u8>),
}

/// What a guest is told of a request: the number of bytes of the answer, now
/// at `res_ptr`; `-5` where the network failed, `-7` where the answer is
/// empty, `-6` where it is longer than `res_max`, `-3` where the buffer does
/// not lie in its memory.
pub fn finish_http_request(
    reply: HttpReply,
    memory: &mut [u8],
    res_ptr: u32,
    res_max: u32,
) -> (r: i32)
    ensures
        match reply {
            HttpReply::Body(b) => if b@.len() == 0 {
                r == -7 && final(memory)@ == old(memory)@
            } else if b@.len() > res_max {
                r == -6 && final(memory)@ == old(memory)@
            } else if !in_memory(old(memory)@.len(), res_ptr, b@.len()) {
                r == -3 && final(memory)@ == old(memory)@
            } else {
                r == b@.len() as i32 && final(memory)@ == overwritten(
                    old(memory)@,
                    res_ptr as int,
                    b@,
                )
            },
            _ => r == -5 && final(memory)@ == old(memory)@,
        },
{
    match reply {
        HttpReply::Body(bytes) => {
            if bytes.len() == 0 {
                return -7;
            }
            if bytes.len() as u64 > res_max as u64 {
                return -6;
            }
            if !write_guest(memory, res_ptr, &bytes) {
                return -3;
            }
            bytes.len() as i32
        },
        _ => -5,
    }
}

/// Adds a line to an agent's log.
pub fn host_http_log(log: &mut LogBuffer, message: &str)
    requires
        old(log).wf(),
    ensures
        final(log).wf(),
        final(log).capacity() == old(log).capacity(),
        final(log)@ == crate::log::tail(
            old(log)@ + vstd::utf8::encode_utf8(message@).push(10u8),
            old(log).capacity() as int,
        ),
{
    let mut line = text_bytes(message);
    line.push(10u8);
    log.append(line.as_slice());
}

/// The line of a request that failed.
pub fn http_error_line(reason: &str) -> (r: String)
    ensures
        r@ == "[host] HTTP Error: "@ + reason@,
{
    cat("[host] HTTP Error: ", reason)
}

/// The line of a request that is sent.
pub fn http_sending_line(url: &str) -> (r: String)
    ensures
        r@ == "[host] HTTP: Sending request to "@ + url@ + "..."@,
{
    cat3("[host] HTTP: Sending request to ", url, "...")
}

/// The lines of a status: that it came, and, where it is not one of success,
/// that it is an error.
pub fn http_status_lines(status: &str, success: bool) -> (r: Vec<String>)
    ensures
        crate::text::texts(r@) == (if success {
            seq!["[host] HTTP: Received response with status "@ + status@ + "."@]
        } else {
            seq![
                "[host] HTTP: Received response with status "@ + status@ + "."@,
                "[host] HTTP Error: non-success status "@ + status@,
            ]
        }),
{
    let mut lines: Vec<String> = Vec::new();
    lines.push(cat3("[host] HTTP: Received response with status ", status, "."));
    if !success {
        lines.push(cat("[host] HTTP Error: non-success status ", status));
    }
    proof {
        assert(crate::text::texts(lines@).len() == lines@.len());
    }
    lines
}

/// Whether a guest may use a socket: only with the capability, and only to
/// connect to port 1234 of this machine.
pub fn socket_allowed(allow_network: bool, is_connect: bool, ip: [u8; 4], port: u16) -> (r: bool)
    ensures
        r == (allow_network && is_connect && ip@ == seq![127u8, 0u8, 0u8, 1u8] && port == 1234),
{
    let here = ip[0] == 127 && ip[1] == 0 && ip[2] == 0 && ip[3] == 1;
    proof {
        assert(here == (ip@ =~= seq![127u8, 0u8, 0u8, 1u8]));
    }
    allow_network && is_connect && here && port == 1234
}

/// Takes the packed result of an export apart: where the output stands, and
/// its length.
pub fn unpack_result(result: u64) -> (r: (u32, u32))
    ensures
        result == r.0 * 0x1_0000_0000 + r.1,
{
    let ptr: u32 = (result / 0x1_0000_0000) as u32;
    let len: u32 = (result % 0x1_0000_0000) as u32;
    (ptr, len)
}

/// The error where an agent without a module is called.
pub fn module_missing(id: &AgentId) -> (r: VfsError)
    ensures
        r matches VfsError::Synthetic(m) && m@ == "module not loaded for agent: "@ + id.0@,
{
    VfsError::Synthetic(cat("module not loaded for agent: ", id.as_str()))
}

/// An answer that is copied changes nothing outside the guest's buffer.
pub proof fn lemma_copy_is_local(memory: Seq<u8>, ptr: u32, bytes: Seq<u8>, i: int)
    requires
        in_memory(memory.len(), ptr, bytes.len()),
        0 <= i < memory.len(),
        i < ptr || ptr + bytes.len() <= i,
    ensures
        overwritten(memory, ptr as int, bytes)[i] == memory[i],
        overwritten(memory, ptr as int, bytes).len() == memory.len(),
{
}

} // verus!
