use bytes::Bytes;
use v9r::cap::{HostCapability, MountMode, NamespaceView};
use v9r::log::{LogBuffer, DEFAULT_LOG_BUFFER_BYTES};
use v9r::runtime::{
    begin_http_request, begin_vfs_read, begin_vfs_write, finish_http_request, finish_vfs_read,
    finish_vfs_write, guest_path, host_http_log, http_error_line, http_sending_line,
    http_status_lines, map_localhost_to_loopback, module_missing, openrouter_model,
    prepare_error_code, prepare_http_request, read_guest, set_payload_model, socket_allowed,
    text_bytes, unpack_result, write_guest, AgentId, HttpReply, MockRuntime,
};
use v9r::vfs::{ReadStep, Vfs, VfsCtx, WriteOutcome, WriteStep};
use v9r::vfs_path::{Capability, CapabilityId, VfsError, VfsPath};

fn p(s: &str) -> VfsPath {
    VfsPath::parse(s).unwrap()
}

fn view(mode: MountMode) -> NamespaceView {
    NamespaceView::builder(Capability::root())
        .mount(VfsPath::root(), p("/agents/foo"), mode)
        .build()
}

fn network_view() -> NamespaceView {
    NamespaceView::builder(Capability::root())
        .host_capability(HostCapability::CanAccessNetwork)
        .build()
}

#[test]
fn mock_echoes_with_view() {
    let rt = MockRuntime::new();
    let (out, lines) = rt.invoke(
        &AgentId::new("foo".to_string()),
        "on_input",
        &Bytes::from_static(b"hi"),
        &view(MountMode::Rw),
    );
    assert!(String::from_utf8_lossy(&out).contains("echo: hi"));
    assert_eq!(&out[..], b"[mock:foo::on_input] echo: hi");
    assert_eq!(
        lines,
        vec![
            "Wasm Invoke: agent=foo export=on_input bytes=2 data=\"hi\"",
            "  view: / -> /agents/foo (Rw)"
        ]
    );
}

#[test]
fn the_mock_shows_broken_input_as_it_can() {
    let (out, _) = MockRuntime::default().invoke(
        &AgentId::new("a".to_string()),
        "e",
        &Bytes::from_static(&[0x68, 0xff]),
        &view(MountMode::Ro),
    );
    assert_eq!(String::from_utf8_lossy(&out), "[mock:a::e] echo: h\u{fffd}");
    assert_eq!(AgentId::new("x".to_string()).as_str(), "x");
}

#[test]
fn missing_modules_are_named() {
    assert_eq!(
        module_missing(&AgentId::new("ghost".to_string())).message(),
        "synthetic node refused operation: module not loaded for agent: ghost"
    );
}

#[test]
fn guest_memory_is_bounded() {
    let mut memory = vec![1u8, 2, 3, 4];
    assert_eq!(read_guest(&memory, 1, 2), Some(vec![2, 3]));
    assert_eq!(read_guest(&memory, 4, 0), Some(Vec::new()));
    assert_eq!(read_guest(&memory, 3, 2), None);
    assert_eq!(read_guest(&memory, u32::MAX, u32::MAX), None);
    assert!(write_guest(&mut memory, 2, &vec![9, 8]));
    assert_eq!(memory, vec![1, 2, 9, 8]);
    assert!(!write_guest(&mut memory, 3, &vec![7, 7]));
    assert_eq!(memory, vec![1, 2, 9, 8]);
}

#[test]
fn guests_name_paths_in_their_memory() {
    let memory = b"/a/b\xff/..".to_vec();
    assert_eq!(guest_path(&memory, 0, 4).unwrap(), p("/a/b"));
    assert_eq!(guest_path(&memory, 0, 5), Err(-3));
    assert_eq!(guest_path(&memory, 5, 3), Err(-3));
    assert_eq!(guest_path(&memory, 0, 99), Err(-3));
}

fn guest_fixture() -> Vfs {
    let mut vfs = Vfs::new();
    vfs.mkdir_p(&p("/agents/foo/dir")).unwrap();
    vfs.create_file(&p("/agents/foo/in"), Bytes::from_static(b"data")).unwrap();
    vfs
}

#[test]
fn guests_read_through_their_view() {
    let vfs = guest_fixture();
    let v = view(MountMode::Ro);
    let mut memory = b"/in\0/dir\0........".to_vec();
    let step = begin_vfs_read(&v, &vfs, &memory, 0, 3).unwrap();
    let bytes = match step {
        ReadStep::File(b) => b,
        other => panic!("{other:?}"),
    };
    assert_eq!(finish_vfs_read(Ok(bytes.clone()), &mut memory, 9, 8), 4);
    assert_eq!(&memory[9..13], b"data");
    assert_eq!(finish_vfs_read(Ok(bytes.clone()), &mut memory, 9, 3), -4);
    assert_eq!(finish_vfs_read(Ok(bytes), &mut memory, 15, 8), -3);
    assert_eq!(finish_vfs_read(Err(VfsError::NotFound), &mut memory, 0, 8), -1);
    assert_eq!(finish_vfs_read(Err(VfsError::PermissionDenied), &mut memory, 0, 8), -2);
    assert_eq!(finish_vfs_read(Err(VfsError::IsDir), &mut memory, 0, 8), -3);
    assert!(matches!(begin_vfs_read(&v, &vfs, &memory, 4, 4), Err(-3)));
    assert!(matches!(begin_vfs_read(&network_view(), &vfs, &memory, 0, 3), Err(-2)));
}

#[test]
fn guests_write_through_their_view() {
    let mut vfs = guest_fixture();
    let memory = b"/in/no/dirhello".to_vec();
    match begin_vfs_write(&view(MountMode::Rw), &mut vfs, &memory, 0, 3, 10, 5).unwrap() {
        WriteStep::Stored(ev) => assert_eq!(ev.bytes_len, 5),
        other => panic!("{other:?}"),
    }
    match vfs.read(&Capability::root(), &p("/agents/foo/in")).unwrap() {
        ReadStep::File(b) => assert_eq!(&b[..], b"hello"),
        other => panic!("{other:?}"),
    }
    let ro = view(MountMode::Ro);
    assert!(matches!(begin_vfs_write(&ro, &mut vfs, &memory, 0, 3, 10, 5), Err(-2)));
    let rw = view(MountMode::Rw);
    assert!(matches!(begin_vfs_write(&rw, &mut vfs, &memory, 3, 3, 10, 5), Err(-1)));
    assert!(matches!(begin_vfs_write(&rw, &mut vfs, &memory, 6, 4, 10, 5), Err(-3)));
    assert!(matches!(begin_vfs_write(&rw, &mut vfs, &memory, 0, 3, 14, 5), Err(-3)));
    assert_eq!(finish_vfs_write(Ok(())), 0);
    assert_eq!(finish_vfs_write(Err(VfsError::NotFound)), -1);
    assert_eq!(finish_vfs_write(Err(VfsError::PermissionDenied)), -2);
    assert_eq!(finish_vfs_write(Err(VfsError::NotADir)), -3);
}

#[test]
fn requests_need_the_capability() {
    let memory = b"http://x/{}ftp://x".to_vec();
    assert!(matches!(
        begin_http_request(&view(MountMode::Rw), &memory, 0, 9, 9, 2),
        Err(-2)
    ));
    let q = begin_http_request(&network_view(), &memory, 0, 9, 9, 2).unwrap();
    assert_eq!(q.url, "http://x/");
    assert_eq!(q.body, b"{}");
    assert!(matches!(begin_http_request(&network_view(), &memory, 11, 7, 9, 2), Err(-3)));
    assert!(matches!(begin_http_request(&network_view(), &memory, 0, 9, 9, 99), Err(-3)));
}

#[test]
fn this_machine_is_named_by_number() {
    for (url, mapped) in [
        ("http://localhost", "http://127.0.0.1"),
        ("http://localhost:1234/v1", "http://127.0.0.1:1234/v1"),
        ("https://localhost/x", "https://127.0.0.1/x"),
        ("http://localhost.evil/", "http://localhost.evil/"),
        ("https://example.com/localhost", "https://example.com/localhost"),
    ] {
        assert_eq!(map_localhost_to_loopback(url), mapped);
    }
}

const OPENROUTER: &str = "https://openrouter.ai/api/v1/chat/completions";

#[test]
fn requests_to_openrouter_get_key_and_model() {
    let r = prepare_http_request(
        OPENROUTER.to_string(),
        br#"{"model":"guest","messages":[1]}"#.to_vec(),
        Some(" key ".to_string()),
        Some("host-model".to_string()),
    )
    .unwrap();
    assert_eq!(r.openrouter_api_key.as_deref(), Some("key"));
    let sent: serde_json::Value = serde_json::from_slice(&r.body).unwrap();
    assert_eq!(sent.get("model").unwrap().as_str(), Some("host-model"));
    assert_eq!(sent.get("messages").unwrap().get(0).unwrap().as_i64(), Some(1));

    let plain = prepare_http_request("http://x/".to_string(), b"raw".to_vec(), None, None).unwrap();
    assert_eq!(plain.body, b"raw");
    assert!(plain.openrouter_api_key.is_none());
}

#[test]
fn requests_to_openrouter_that_cannot_be_made() {
    let go = |body: &[u8], key: Option<&str>| {
        prepare_http_request(
            OPENROUTER.to_string(),
            body.to_vec(),
            key.map(|k| k.to_string()),
            None,
        )
        .unwrap_err()
    };
    let e = go(b"{}", None);
    assert_eq!(e, "OPENROUTER_API_KEY not set");
    assert_eq!(prepare_error_code(&e), -8);
    assert_eq!(go(b"{}", Some("  ")), "OPENROUTER_API_KEY not set");
    let e = go(b"[]", Some("k"));
    assert_eq!(e, "OpenRouter request JSON must be an object");
    assert_eq!(prepare_error_code(&e), -3);
    assert!(go(b"{", Some("k")).starts_with("invalid OpenRouter request JSON: EOF"));
    assert_eq!(openrouter_model(None), "google/gemma-4-31b-it:free");
    assert_eq!(openrouter_model(Some(" ".to_string())), "google/gemma-4-31b-it:free");
    assert_eq!(openrouter_model(Some(" m ".to_string())), "m");
    assert!(set_payload_model(serde_json::Value::Null, "m").is_err());
}

#[test]
fn replies_are_copied_to_the_guest() {
    let mut memory = vec![0u8; 4];
    let body = |n: usize| HttpReply::Body(vec![7u8; n]);
    assert_eq!(finish_http_request(body(2), &mut memory, 1, 4), 2);
    assert_eq!(memory, vec![0, 7, 7, 0]);
    assert_eq!(finish_http_request(body(0), &mut memory, 1, 4), -7);
    assert_eq!(finish_http_request(body(5), &mut memory, 0, 4), -6);
    assert_eq!(finish_http_request(body(4), &mut memory, 1, 4), -3);
    assert_eq!(finish_http_request(HttpReply::Failed, &mut memory, 0, 4), -5);
    assert_eq!(finish_http_request(HttpReply::BadStatus, &mut memory, 0, 4), -5);
    assert_eq!(memory, vec![0, 7, 7, 0]);
}

#[test]
fn lines_of_the_host() {
    assert_eq!(http_error_line("x"), "[host] HTTP Error: x");
    assert_eq!(http_sending_line("u"), "[host] HTTP: Sending request to u...");
    assert_eq!(
        http_status_lines("200 OK", true),
        vec!["[host] HTTP: Received response with status 200 OK."]
    );
    assert_eq!(
        http_status_lines("500", false),
        vec![
            "[host] HTTP: Received response with status 500.",
            "[host] HTTP Error: non-success status 500"
        ]
    );
    let mut log = LogBuffer::new(16);
    host_http_log(&mut log, "caf\u{e9}");
    assert_eq!(&log.snapshot()[..], "caf\u{e9}\n".as_bytes());
    assert_eq!(text_bytes("\u{e9}"), vec![0xc3, 0xa9]);
}

#[test]
fn sockets_lead_to_one_port_only() {
    let here = [127, 0, 0, 1];
    assert!(socket_allowed(true, true, here, 1234));
    assert!(!socket_allowed(false, true, here, 1234));
    assert!(!socket_allowed(true, false, here, 1234));
    assert!(!socket_allowed(true, true, [10, 0, 0, 1], 1234));
    assert!(!socket_allowed(true, true, here, 80));
}

#[test]
fn results_are_packed() {
    assert_eq!(unpack_result(0x0000_0010_0000_0005), (16, 5));
    assert_eq!(unpack_result(u64::MAX), (u32::MAX, u32::MAX));
}

#[test]
fn snapshot_returns_current_buffer() {
    let mut log = LogBuffer::new(16);
    log.append(b"hello");
    log.append(b" world");

    assert_eq!(&log.snapshot()[..], b"hello world");
}

#[test]
fn append_wraps_as_ring_buffer() {
    let mut log = LogBuffer::new(8);
    log.append(b"abcdef");
    log.append(b"ghij");

    assert_eq!(&log.snapshot()[..], b"cdefghij");
}

#[test]
fn oversized_append_keeps_tail() {
    let mut log = LogBuffer::new(5);
    log.append(b"abcdefgh");

    assert_eq!(&log.snapshot()[..], b"defgh");
}

#[test]
fn synthetic_write_appends() {
    let mut log = LogBuffer::new(16);
    let ctx = VfsCtx { path: p("/log"), writer: CapabilityId(0) };
    let outcome = log.write(&ctx, Bytes::from_static(b"line\n")).unwrap();
    assert!(matches!(outcome, WriteOutcome::Stored));
    assert_eq!(&log.read(&ctx).unwrap()[..], b"line\n");
}

#[test]
fn a_log_without_room_keeps_nothing() {
    let mut log = LogBuffer::new(0);
    log.append(b"abc");
    assert!(log.snapshot().is_empty());
    let mut log = LogBuffer::default();
    log.append(&vec![1u8; DEFAULT_LOG_BUFFER_BYTES + 3]);
    assert_eq!(log.snapshot().len(), DEFAULT_LOG_BUFFER_BYTES);
}

#[test]
fn missing_module_errors() {
    let err = module_missing(&AgentId::new("ghost".to_string()));
    assert!(matches!(err, VfsError::Synthetic(_)));
}

#[test]
fn http_request_requires_network_capability() {
    let url = "http://127.0.0.1:9/v1/chat/completions";
    let body = r#"{"model":"runtime-test-model","messages":[]}"#;
    let memory = format!("{url}{body}").into_bytes();
    let (at, len) = (url.len() as u32, body.len() as u32);
    let err = begin_http_request(&view(MountMode::Rw), &memory, 0, at, at, len).unwrap_err();
    assert_eq!(err, -2);
    assert!(begin_http_request(&network_view(), &memory, 0, at, at, len).is_ok());
}

#[test]
fn test_llm_gateway_mock() {
    let url = "http://127.0.0.1:8080/v1/chat/completions";
    let body = gateway_body();
    let mut memory = format!("{url}{body}").into_bytes();
    let (at, len) = (url.len() as u32, body.len() as u32);
    let asked = begin_http_request(&network_view(), &memory, 0, at, at, len).unwrap();
    let sent = prepare_http_request(asked.url, asked.body, None, None).unwrap();
    assert_eq!(sent.url, url);
    assert_eq!(sent.openrouter_api_key, None);
    let actual: serde_json::Value = serde_json::from_slice(&sent.body).unwrap();
    let expected: serde_json::Value = serde_json::from_str(&body).unwrap();
    assert_eq!(actual, expected);

    let response = br#"{"choices":[{"message":{"content":"mock answer"}}]}"#.to_vec();
    let n = finish_http_request(HttpReply::Body(response.clone()), &mut memory, 0, 64);
    assert_eq!(n, response.len() as i32);
    assert_eq!(&memory[..response.len()], &response[..]);
}

fn gateway_body() -> String {
    let messages = r#"[{"role":"system","content":"system prompt"},{"role":"user","content":"hello"}]"#;
    let tools = r#"[{"type":"function","function":{"name":"vfs_read","parameters":{"type":"object"}}}]"#;
    format!(
        r#"{{"model":"runtime-test-model","messages":{messages},"tools":{tools},"tool_choice":"auto"}}"#
    )
}
