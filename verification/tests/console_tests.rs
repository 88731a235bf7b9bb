use open_agent::console::{
    abort_setup, authorize_socket, authorize_workspace_shell, client_msg_from_fields,
    console_key_from_digest, console_session_key, console_ssh_command,
    extract_jwt_from_protocols, machine_is_running, machine_show_args, machine_terminate_args,
    parse_client_msg, read_action, selected_subprotocol, ssh_key_configured,
    workspace_session_key, workspace_shell_command, Admission, ClientMsg, HandshakeError,
    PooledSession, ReadAction, SessionKind, SessionPool, SetupFailure, SocketMessage,
    CLEANUP_INTERVAL_MS, SESSION_POOL_TIMEOUT_MS,
};
use open_agent::console::{
    console_socket_key, decode_output, finish_output, workspace_socket_key, Decoded,
};
use open_agent::workspace::{WorkspaceStatus, WorkspaceType};

#[test]
fn frames_are_read_from_json() {
    assert_eq!(
        parse_client_msg(r#"{"t":"i","d":"echo hi\n"}"#),
        Some(ClientMsg::Input { d: "echo hi\n".to_string() })
    );
    assert_eq!(
        parse_client_msg(r#"{"t":"r","c":120,"r":40}"#),
        Some(ClientMsg::Resize { c: 120, r: 40 })
    );
    assert_eq!(parse_client_msg(r#"{"t":"r","c":70000,"r":40}"#), None);
    assert_eq!(parse_client_msg(r#"{"t":"r","c":120}"#), None);
    assert_eq!(parse_client_msg(r#"{"t":"i"}"#), None);
    assert_eq!(parse_client_msg(r#"{"t":"x","d":"a"}"#), None);
    assert_eq!(parse_client_msg(r#"{"d":"a"}"#), None);
    assert_eq!(parse_client_msg("echo hi"), None);
    assert_eq!(parse_client_msg(r#"["i","d"]"#), None);
}

#[test]
fn frames_from_fields() {
    assert_eq!(
        client_msg_from_fields(Some("i".to_string()), Some("x".to_string()), Some(1), Some(2)),
        Some(ClientMsg::Input { d: "x".to_string() })
    );
    assert_eq!(
        client_msg_from_fields(Some("r".to_string()), None, Some(65535), Some(0)),
        Some(ClientMsg::Resize { c: 65535, r: 0 })
    );
    assert_eq!(client_msg_from_fields(Some("r".to_string()), None, Some(65536), Some(0)), None);
    assert_eq!(client_msg_from_fields(None, Some("x".to_string()), None, None), None);
}

#[test]
fn socket_messages_are_routed() {
    let input = SocketMessage::Text(r#"{"t":"i","d":"ls"}"#.to_string());
    assert_eq!(read_action(&input), ReadAction::Forward(ClientMsg::Input { d: "ls".to_string() }));
    assert_eq!(read_action(&SocketMessage::Text("junk".to_string())), ReadAction::Ignore);
    assert_eq!(read_action(&SocketMessage::Binary), ReadAction::Ignore);
    assert_eq!(read_action(&SocketMessage::Ping), ReadAction::Ignore);
    assert_eq!(read_action(&SocketMessage::Pong), ReadAction::Ignore);
    assert_eq!(read_action(&SocketMessage::Close), ReadAction::Stop);
}

#[test]
fn frames_keep_their_order() {
    let texts = [r#"{"t":"i","d":"a"}"#, "junk", r#"{"t":"r","c":1,"r":2}"#, r#"{"t":"i","d":"b"}"#];
    let mut forwarded = Vec::new();
    for t in texts {
        if let ReadAction::Forward(m) = read_action(&SocketMessage::Text(t.to_string())) {
            forwarded.push(m);
        }
    }
    assert_eq!(
        forwarded,
        vec![
            ClientMsg::Input { d: "a".to_string() },
            ClientMsg::Resize { c: 1, r: 2 },
            ClientMsg::Input { d: "b".to_string() },
        ]
    );
}

#[test]
fn token_is_taken_from_subprotocols() {
    assert_eq!(extract_jwt_from_protocols(Some("openagent, jwt.abc.def")), Some("abc.def".to_string()));
    assert_eq!(extract_jwt_from_protocols(Some("jwt.x,openagent")), Some("x".to_string()));
    assert_eq!(extract_jwt_from_protocols(Some("openagent,  jwt.t1 , jwt.t2")), Some("t1".to_string()));
    assert_eq!(extract_jwt_from_protocols(Some("openagent, jwt.")), None);
    assert_eq!(extract_jwt_from_protocols(Some("openagent")), None);
    assert_eq!(extract_jwt_from_protocols(Some("")), None);
    assert_eq!(extract_jwt_from_protocols(None), None);
    assert_eq!(selected_subprotocol(), "openagent");
}

#[test]
fn sockets_are_authorized() {
    assert_eq!(authorize_socket(false, false, false), Ok(()));
    assert_eq!(authorize_socket(true, false, false), Err(HandshakeError::MissingToken));
    assert_eq!(authorize_socket(true, true, false), Err(HandshakeError::InvalidToken));
    assert_eq!(authorize_socket(true, true, true), Ok(()));
    assert_eq!(HandshakeError::MissingToken.status(), 401);
    assert_eq!(HandshakeError::InvalidToken.status(), 401);
    assert_eq!(HandshakeError::WorkspaceNotFound.status(), 404);
    assert_eq!(HandshakeError::WorkspaceNotReady.status(), 400);
}

#[test]
fn workspace_shells_need_a_ready_container() {
    assert_eq!(authorize_workspace_shell(None), Err(HandshakeError::WorkspaceNotFound));
    assert_eq!(
        authorize_workspace_shell(Some((WorkspaceType::Chroot, WorkspaceStatus::Building))),
        Err(HandshakeError::WorkspaceNotReady)
    );
    assert_eq!(
        authorize_workspace_shell(Some((WorkspaceType::Chroot, WorkspaceStatus::Ready))),
        Ok(())
    );
    assert_eq!(
        authorize_workspace_shell(Some((WorkspaceType::Host, WorkspaceStatus::Pending))),
        Ok(())
    );
}

#[test]
fn session_keys() {
    assert_eq!(console_session_key(None), "dev:default");
    assert_eq!(console_session_key(Some("abc")), "auth:900150983cd24fb0d6963f7d28e17f72");
    assert_eq!(console_session_key(Some("")), "auth:d41d8cd98f00b204e9800998ecf8427e");
    assert_eq!(console_key_from_digest(Some("ff")), "auth:ff");
    assert_eq!(workspace_session_key("w1", None), "workspace:w1:dev");
    assert_eq!(
        workspace_session_key("w1", Some("abc")),
        "workspace:w1:900150983cd24fb0d6963f7d28e17f72"
    );
}

#[test]
fn pool_timing() {
    assert_eq!(SESSION_POOL_TIMEOUT_MS, 30_000);
    assert_eq!(CLEANUP_INTERVAL_MS, 10_000);
    let idle = PooledSession { handle: 1, in_use: false, disconnected_at: Some(1_000) };
    assert!(!idle.is_expired(1_000));
    assert!(!idle.is_expired(31_000));
    assert!(idle.is_expired(31_001));
    assert!(!idle.is_expired(0));
    let busy = PooledSession { handle: 1, in_use: true, disconnected_at: None };
    assert!(!busy.is_expired(u64::MAX));
}

fn installed(pool: &mut SessionPool, key: &str) -> u64 {
    assert!(pool.has_room());
    match pool.offer(key) {
        Admission::Installed { handle, .. } => handle,
        Admission::Refused => panic!("refused"),
    }
}

#[test]
fn reconnect_within_grace_reuses_the_session() {
    let mut pool = SessionPool::new();
    assert_eq!(pool.try_reuse("auth:k", false), None);
    assert_eq!(pool.offer("auth:k"), Admission::Installed { handle: 0, replaced: None });
    pool.release("auth:k", 0, 100_000);
    assert_eq!(
        pool.get("auth:k"),
        Some(PooledSession { handle: 0, in_use: false, disconnected_at: Some(100_000) })
    );
    assert_eq!(pool.reap(110_000), Vec::<u64>::new());
    assert_eq!(pool.try_reuse("auth:k", false), Some(0));
    assert_eq!(
        pool.get("auth:k"),
        Some(PooledSession { handle: 0, in_use: true, disconnected_at: None })
    );
    assert_eq!(pool.len(), 1);
}

#[test]
fn reconnect_after_expiry_gets_a_new_session() {
    let mut pool = SessionPool::new();
    assert_eq!(pool.offer("auth:k"), Admission::Installed { handle: 0, replaced: None });
    pool.release("auth:k", 0, 100_000);
    assert_eq!(pool.reap(130_000), Vec::<u64>::new());
    assert_eq!(pool.reap(145_000), vec![0]);
    assert_eq!(pool.get("auth:k"), None);
    assert_eq!(pool.try_reuse("auth:k", false), None);
    assert_eq!(pool.offer("auth:k"), Admission::Installed { handle: 1, replaced: None });
    assert_eq!(pool.reap(u64::MAX), Vec::<u64>::new());
}

#[test]
fn a_key_in_use_is_never_taken_over() {
    let mut pool = SessionPool::new();
    let first = installed(&mut pool, "k");
    assert_eq!(pool.try_reuse("k", false), None);
    assert_eq!(pool.offer("k"), Admission::Refused);
    assert_eq!(pool.get("k").map(|s| s.handle), Some(first));
    assert_eq!(pool.len(), 1);
    pool.release("k", first + 1, 5);
    assert_eq!(pool.get("k").map(|s| s.in_use), Some(true));
    pool.release("k", first, 5);
    assert_eq!(pool.offer("k"), Admission::Installed { handle: first + 1, replaced: Some(first) });
}

#[test]
fn a_stale_session_is_replaced() {
    let mut pool = SessionPool::new();
    let old = installed(&mut pool, "k");
    pool.release("k", old, 10);
    assert_eq!(pool.try_reuse("k", true), None);
    assert_eq!(pool.offer("k"), Admission::Installed { handle: 1, replaced: Some(old) });
    assert_eq!(pool.get("k"), Some(PooledSession { handle: 1, in_use: true, disconnected_at: None }));
    assert_eq!(pool.len(), 1);
    pool.release("k", old, 99);
    assert_eq!(pool.get("k").map(|s| s.in_use), Some(true));
}

#[test]
fn sweep_takes_expired_sessions_only() {
    let mut pool = SessionPool::new();
    let a = installed(&mut pool, "a");
    let b = installed(&mut pool, "b");
    let c = installed(&mut pool, "c");
    let d = installed(&mut pool, "d");
    pool.release("a", a, 0);
    pool.release("b", b, 50_000);
    pool.release("d", d, 10);
    let mut killed = pool.reap(60_000);
    killed.sort();
    assert_eq!(killed, vec![a, d]);
    assert!(!killed.contains(&b) && !killed.contains(&c));
    assert_eq!(pool.len(), 2);
    assert_eq!(pool.get("b").map(|s| s.handle), Some(b));
    assert_eq!(pool.get("c").map(|s| s.handle), Some(c));
    assert!(pool.get("a").is_none());
}

#[test]
fn no_handle_is_issued_twice() {
    let mut pool = SessionPool::new();
    let mut seen: Vec<u64> = Vec::new();
    for round in 0..5u64 {
        for key in ["a", "b", "c"] {
            let handle = installed(&mut pool, key);
            assert!(!seen.contains(&handle));
            seen.push(handle);
            pool.release(key, handle, round * 100_000);
        }
        let killed = pool.reap(round * 100_000 + 40_000);
        assert_eq!(killed.len(), 3);
        for key in ["a", "b", "c"] {
            assert!(pool.get(key).is_none());
        }
    }
    assert_eq!(seen.len(), 15);
}

#[test]
fn a_replaced_session_does_not_lend_its_handle() {
    let mut pool = SessionPool::new();
    let first = installed(&mut pool, "k");
    pool.release("k", first, 0);
    let second = installed(&mut pool, "k");
    let other = installed(&mut pool, "other");
    assert_ne!(first, second);
    assert_ne!(second, other);
    pool.release("other", other, 0);
    assert_eq!(pool.reap(40_000), vec![other]);
    assert_eq!(pool.get("k").map(|s| s.handle), Some(second));
}

#[test]
fn sockets_get_their_keys() {
    assert_eq!(console_socket_key(false, None, false), Ok("dev:default".to_string()));
    assert_eq!(console_socket_key(false, Some("abc"), true), Ok("dev:default".to_string()));
    assert_eq!(
        console_socket_key(true, Some("abc"), true),
        Ok("auth:900150983cd24fb0d6963f7d28e17f72".to_string())
    );
    assert_eq!(console_socket_key(true, None, false), Err(HandshakeError::MissingToken));
    assert_eq!(console_socket_key(true, None, true), Err(HandshakeError::MissingToken));
    assert_eq!(console_socket_key(true, Some("abc"), false), Err(HandshakeError::InvalidToken));
    assert_eq!(workspace_socket_key("w1", false, Some("abc"), false), Ok("workspace:w1:dev".to_string()));
    assert_eq!(
        workspace_socket_key("w1", true, Some("abc"), true),
        Ok("workspace:w1:900150983cd24fb0d6963f7d28e17f72".to_string())
    );
    assert_eq!(workspace_socket_key("w1", true, None, false), Err(HandshakeError::MissingToken));
    assert_eq!(workspace_socket_key("w1", true, Some("x"), false), Err(HandshakeError::InvalidToken));
}

#[test]
fn output_is_decoded_across_reads() {
    let euro = "€".as_bytes().to_vec();
    assert_eq!(euro, vec![0xe2, 0x82, 0xac]);
    let first = decode_output(&vec![], &vec![b'a', 0xe2]);
    assert_eq!(first, Decoded { text: "a".to_string(), rest: vec![0xe2] });
    let second = decode_output(&first.rest, &vec![0x82]);
    assert_eq!(second, Decoded { text: String::new(), rest: vec![0xe2, 0x82] });
    let third = decode_output(&second.rest, &vec![0xac, b'b']);
    assert_eq!(third, Decoded { text: "€b".to_string(), rest: vec![] });
    let whole = decode_output(&vec![], &"héllo ✓".as_bytes().to_vec());
    assert_eq!(whole, Decoded { text: "héllo ✓".to_string(), rest: vec![] });
    let four = "𝄞".as_bytes().to_vec();
    let cut = decode_output(&vec![], &four[..3].to_vec());
    assert_eq!(cut, Decoded { text: String::new(), rest: four[..3].to_vec() });
    assert_eq!(decode_output(&cut.rest, &four[3..].to_vec()).text, "𝄞");
    assert_eq!(decode_output(&vec![], &vec![]), Decoded { text: String::new(), rest: vec![] });
}

#[test]
fn output_that_is_no_text_is_replaced() {
    assert_eq!(decode_output(&vec![], &vec![b'a', 0xff, b'b']).text, "a\u{FFFD}b");
    assert_eq!(decode_output(&vec![], &vec![b'a', 0x80]), Decoded { text: "a\u{FFFD}".to_string(), rest: vec![] });
    assert_eq!(decode_output(&vec![], &vec![0xc0]), Decoded { text: "\u{FFFD}".to_string(), rest: vec![] });
    let held = decode_output(&vec![], &vec![0xe2, 0x82]);
    assert_eq!(held.rest, vec![0xe2, 0x82]);
    assert_eq!(decode_output(&held.rest, &vec![b'x']).text, "\u{FFFD}x");
    assert_eq!(finish_output(&held.rest), "\u{FFFD}");
    assert_eq!(finish_output(&vec![]), "");
    assert_eq!(decode_output(&vec![], &vec![0xc3, 0xa9, 0xc3]), Decoded { text: "é".to_string(), rest: vec![0xc3] });
}

#[test]
fn ssh_command_of_the_console() {
    let cmd = console_ssh_command("/tmp/key", 2222, "root", "example.com", "/tmp/known");
    assert_eq!(cmd.program, "ssh");
    assert_eq!(
        cmd.args,
        vec![
            "-i",
            "/tmp/key",
            "-p",
            "2222",
            "-o",
            "BatchMode=yes",
            "-o",
            "StrictHostKeyChecking=accept-new",
            "-o",
            "UserKnownHostsFile=/tmp/known",
            "-tt",
            "root@example.com",
        ]
    );
    assert_eq!(cmd.env, vec![("TERM".to_string(), "xterm-256color".to_string())]);
    assert_eq!(cmd.cwd, None);
    assert!(ssh_key_configured(Some("-----BEGIN")));
    assert!(!ssh_key_configured(Some("  \n")));
    assert!(!ssh_key_configured(None));
}

#[test]
fn shell_command_of_a_container() {
    let cmd = workspace_shell_command(
        WorkspaceType::Chroot,
        "/srv/alpha",
        "alpha",
        "id-1",
        Some(":99"),
        true,
        true,
        Some("/bin/zsh"),
    );
    assert_eq!(cmd.program, "systemd-nspawn");
    assert_eq!(
        cmd.args,
        vec![
            "-D",
            "/srv/alpha",
            "--machine=alpha",
            "--quiet",
            "--bind=/tmp/.X11-unix",
            "--setenv=DISPLAY=:99",
            "--setenv=TERM=xterm-256color",
            "--setenv=WORKSPACE_ID=id-1",
            "--setenv=WORKSPACE_NAME=alpha",
            "/bin/bash",
            "--login",
        ]
    );
    assert_eq!(cmd.cwd, None);
    let plain =
        workspace_shell_command(WorkspaceType::Chroot, "/srv/a", "a", "i", Some(":1"), false, false, None);
    assert_eq!(
        plain.args,
        vec![
            "-D",
            "/srv/a",
            "--machine=a",
            "--quiet",
            "--setenv=TERM=xterm-256color",
            "--setenv=WORKSPACE_ID=i",
            "--setenv=WORKSPACE_NAME=a",
            "/bin/sh",
        ]
    );
}

#[test]
fn shell_command_of_the_host() {
    let cmd =
        workspace_shell_command(WorkspaceType::Host, "/work", "host", "id-0", None, true, true, None);
    assert_eq!(cmd.program, "/bin/bash");
    assert_eq!(cmd.args, vec!["--login"]);
    assert_eq!(cmd.cwd, Some("/work".to_string()));
    assert_eq!(
        cmd.env,
        vec![
            ("TERM".to_string(), "xterm-256color".to_string()),
            ("WORKSPACE_ID".to_string(), "id-0".to_string()),
            ("WORKSPACE_NAME".to_string(), "host".to_string()),
        ]
    );
    let zsh = workspace_shell_command(
        WorkspaceType::Host,
        "/work",
        "host",
        "id-0",
        None,
        false,
        false,
        Some("/bin/zsh"),
    );
    assert_eq!(zsh.program, "/bin/zsh");
}

#[test]
fn stale_machines_are_found() {
    assert_eq!(machine_show_args("alpha"), vec!["show", "alpha", "--property=State"]);
    assert_eq!(machine_terminate_args("alpha"), vec!["terminate", "alpha"]);
    assert!(machine_is_running("State=running\n"));
    assert!(!machine_is_running("State=closing\n"));
    assert!(!machine_is_running(""));
}

#[test]
fn failed_setups_are_wound_up() {
    let a = abort_setup(SessionKind::Console, &SetupFailure::KeyNotConfigured);
    assert_eq!(a.message, Some("Console SSH is not configured on the server.".to_string()));
    assert!(!a.kill_child);
    let b = abort_setup(SessionKind::Console, &SetupFailure::SpawnFailed("no ssh".to_string()));
    assert_eq!(b.message, Some("Failed to spawn ssh: no ssh".to_string()));
    let c = abort_setup(SessionKind::WorkspaceShell, &SetupFailure::SpawnFailed("x".to_string()));
    assert_eq!(c.message, Some("Failed to spawn shell: x".to_string()));
    let d = abort_setup(SessionKind::Console, &SetupFailure::PtyUnavailable("x".to_string()));
    assert_eq!(d.message, Some("Failed to open PTY: x".to_string()));
    let e = abort_setup(SessionKind::Console, &SetupFailure::KeyUnreadable("x".to_string()));
    assert_eq!(e.message, Some("Failed to load SSH key: x".to_string()));
    let f = abort_setup(SessionKind::WorkspaceShell, &SetupFailure::WorkspaceGone("w9".to_string()));
    assert_eq!(f.message, Some("Workspace w9 not found".to_string()));
    let g = abort_setup(SessionKind::Console, &SetupFailure::KeyInUse);
    assert_eq!(g.message, None);
    assert!(g.kill_child);
    let h = abort_setup(SessionKind::Console, &SetupFailure::ChannelUnavailable);
    assert!(h.kill_child && h.message.is_none());
}

#[test]
fn read_loop_stops_at_the_close_frame() {
    let messages = vec![
        SocketMessage::Ping,
        SocketMessage::Text(r#"{"t":"i","d":"a"}"#.to_string()),
        SocketMessage::Text("junk".to_string()),
        SocketMessage::Binary,
        SocketMessage::Text(r#"{"t":"r","c":80,"r":24}"#.to_string()),
        SocketMessage::Close,
        SocketMessage::Text(r#"{"t":"i","d":"late"}"#.to_string()),
    ];
    assert_eq!(
        open_agent::console::read_loop(&messages),
        vec![ClientMsg::Input { d: "a".to_string() }, ClientMsg::Resize { c: 80, r: 24 }]
    );
    assert_eq!(open_agent::console::read_loop(&vec![]), vec![]);
}

#[test]
fn handshake_reasons() {
    let ready = WorkspaceStatus::Ready;
    assert_eq!(HandshakeError::MissingToken.reason("w", ready), "Missing websocket JWT");
    assert_eq!(HandshakeError::InvalidToken.reason("w", ready), "Invalid or expired token");
    assert_eq!(HandshakeError::WorkspaceNotFound.reason("w7", ready), "Workspace w7 not found");
    assert_eq!(
        HandshakeError::WorkspaceNotReady.reason("w7", WorkspaceStatus::Building),
        "Workspace w7 is not ready (status: Building)"
    );
    assert_eq!(WorkspaceStatus::Pending.as_str(), "Pending");
    assert_eq!(WorkspaceStatus::Error.as_str(), "Error");
}

#[test]
fn stale_machines_are_terminated_first() {
    let plan = open_agent::console::container_preflight("alpha", "State=running\n").unwrap();
    assert_eq!(plan.terminate, vec!["terminate", "alpha"]);
    assert!(plan.settle_ms >= 500);
    assert_eq!(open_agent::console::container_preflight("alpha", "State=closing\n"), None);
}

#[test]
fn sweep_passes_over_held_sessions() {
    let mut pool = SessionPool::new();
    let a = installed(&mut pool, "a");
    let b = installed(&mut pool, "b");
    pool.release("a", a, 0);
    pool.release("b", b, 0);
    assert_eq!(pool.reap_skipping(40_000, &vec!["a".to_string()]), vec![b]);
    assert!(pool.get("a").is_some());
    assert!(pool.get("b").is_none());
    assert_eq!(pool.reap_skipping(50_000, &vec!["zzz".to_string()]), vec![a]);
    assert_eq!(pool.len(), 0);
}
