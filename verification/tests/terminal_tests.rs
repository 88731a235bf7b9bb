use open_agent::terminal::{
    apply_runtime_workspace, container_root_from_path, hydrate_workspace_env,
    runtime_workspace_path, binary_summary_text, choose_timeout, clamp_output_limit, clean_text, container_invocation,
    container_root_from_env, count_non_printable, env_from_members, format_report,
    host_invocation, parse_command_options, read_runtime_display, resolve_path, resolve_shell,
    runtime_display_path, sanitize_output, shell_probe_path, truncate_output, validate_command,
    DisplayFile, RunCommand, RunEnd, Timeout,
};

#[test]
fn denylisted_command_is_refused() {
    let r = validate_command("sudo find / -name foo");
    let message = r.unwrap_err();
    assert!(message.contains("Use 'find /root/work/' or a specific directory path"));
    assert_eq!(
        message,
        "Blocked dangerous command pattern 'find /'. Use 'find /root/work/' or a specific directory path"
    );
}

#[test]
fn denylist_patterns() {
    for cmd in [
        "find / -name x",
        "  find /",
        "grep -r / foo",
        "grep -rn /etc",
        "grep -R /",
        "ls -laR /",
        "du -sh /",
        "du -a /var",
        "rm -rf /",
        "rm -rf /*",
        "> /dev/sda",
        "dd if=/dev/zero of=x",
        "time rm -rf /tmp",
        "nice du -sh /",
        "nohup dd if=/dev/sda",
    ] {
        assert!(validate_command(cmd).is_err(), "{}", cmd);
    }
    for cmd in ["ls -la", "find . -name x", "echo find /", "sudo ls", "grep -r foo .", "sudosudo find /", ""] {
        assert_eq!(validate_command(cmd), Ok(()), "{}", cmd);
    }
    assert_eq!(
        validate_command("rm -rf /*").unwrap_err(),
        "Blocked dangerous command pattern 'rm -rf /'. This would destroy the entire system"
    );
    assert_eq!(
        validate_command("> /dev/null").unwrap_err(),
        "Blocked dangerous command pattern '> /dev/'. Writing to device files is blocked"
    );
}

#[test]
fn text_output_is_cleaned() {
    assert_eq!(sanitize_output(&b"hello\n\tworld\r\n".to_vec()), "hello\n\tworld\r\n");
    assert_eq!(sanitize_output(&b"a\x00b\x07c\x1b[0m".to_vec()), "abc[0m");
    assert_eq!(sanitize_output(&vec![b'a', 0xff, b'b']), "a\u{FFFD}b");
    assert_eq!(sanitize_output(&"héllo ✓".as_bytes().to_vec()), "héllo ✓");
    assert_eq!(sanitize_output(&vec![]), "");
    assert_eq!(clean_text("x\u{FFFD}y\u{1}z"), "x\u{FFFD}yz");
}

#[test]
fn control_characters_leave_the_output() {
    assert_eq!(clean_text("a\u{7f}b"), "ab");
    assert_eq!(clean_text("a\u{80}b\u{9f}c\u{85}d"), "abcd");
    assert_eq!(clean_text("a\u{a0}b\u{7e}c"), "a\u{a0}b\u{7e}c");
    assert_eq!(clean_text("\u{0}\u{8}\u{b}\u{c}\u{e}\u{1f}"), "");
    assert_eq!(clean_text("\t\n\r "), "\t\n\r ");
    assert_eq!(sanitize_output(&b"del\x7fete".to_vec()), "delete");
    assert_eq!(sanitize_output(&vec![b'x', 0xc2, 0x85, b'y']), "xy");
    assert_eq!(sanitize_output(&vec![0xe2, 0x82]), "\u{FFFD}");
    for c in ['\u{0}', '\u{1f}', '\u{7f}', '\u{80}', '\u{9f}'] {
        assert!(c.is_control());
        assert_eq!(clean_text(&c.to_string()), "");
    }
}

#[test]
fn binary_output_is_summed_up() {
    let zeros = vec![0u8; 101];
    assert_eq!(
        sanitize_output(&zeros),
        "[Binary output detected - 101 bytes, 100% non-printable. Use appropriate tools to process binary data.]"
    );
    let mut mixed = vec![b'a'; 179];
    mixed.extend(vec![1u8; 21]);
    assert_eq!(count_non_printable(&mixed), 21);
    assert_eq!(
        sanitize_output(&mixed),
        "[Binary output detected - 200 bytes, 10% non-printable. Use appropriate tools to process binary data.]"
    );
    let short = vec![0u8; 100];
    assert_eq!(sanitize_output(&short), "");
    let mut few = vec![b'a'; 180];
    few.extend(vec![1u8; 20]);
    assert_eq!(sanitize_output(&few), "a".repeat(180));
    assert_eq!(
        binary_summary_text(3, 1),
        "[Binary output detected - 3 bytes, 33% non-printable. Use appropriate tools to process binary data.]"
    );
}

#[test]
fn output_limit_is_clamped() {
    assert_eq!(clamp_output_limit(Some(0)), 1);
    assert_eq!(clamp_output_limit(Some(1_000_000)), 50_000);
    assert_eq!(clamp_output_limit(Some(50_000)), 50_000);
    assert_eq!(clamp_output_limit(Some(50_001)), 50_000);
    assert_eq!(clamp_output_limit(Some(123)), 123);
    assert_eq!(clamp_output_limit(None), 10_000);
}

#[test]
fn timeout_is_chosen() {
    assert_eq!(choose_timeout(None, None, None), Timeout { secs: 60, nanos: 0 });
    assert_eq!(choose_timeout(Some(100), Some(5), None), Timeout { secs: 0, nanos: 100_000_000 });
    assert_eq!(choose_timeout(Some(0), None, None), Timeout { secs: 0, nanos: 1_000_000 });
    assert_eq!(choose_timeout(Some(2500), None, None), Timeout { secs: 2, nanos: 500_000_000 });
    assert_eq!(choose_timeout(None, Some(0), None), Timeout { secs: 1, nanos: 0 });
    let half = Timeout { secs: 0, nanos: 500_000_000 };
    assert_eq!(choose_timeout(None, Some(5), Some(half)), Timeout { secs: 5, nanos: 0 });
    assert_eq!(choose_timeout(None, None, Some(half)), half);
    assert_eq!(Timeout::from_millis(u64::MAX).secs, u64::MAX / 1000);
}

#[test]
fn options_are_read_from_json() {
    let args = r#"{"command":"ls","timeout_secs":5,"env":{"B":"2","A":"1","N":3},
        "clear_env":true,"stdin":"in","shell":"/bin/bash","max_output_chars":0,"raw":true}"#;
    let o = parse_command_options(args, None);
    assert_eq!(o.timeout, Timeout { secs: 5, nanos: 0 });
    assert_eq!(
        o.env,
        vec![("A".to_string(), "1".to_string()), ("B".to_string(), "2".to_string())]
    );
    assert!(o.clear_env);
    assert_eq!(o.stdin, Some("in".to_string()));
    assert_eq!(o.shell, Some("/bin/bash".to_string()));
    assert_eq!(o.max_output_chars, 1);
    assert!(o.raw_output);
    let d = parse_command_options(r#"{"command":"ls"}"#, None);
    assert_eq!(d.timeout, Timeout { secs: 60, nanos: 0 });
    assert!(d.env.is_empty());
    assert!(!d.clear_env && !d.raw_output);
    assert_eq!(d.stdin, None);
    assert_eq!(d.shell, None);
    assert_eq!(d.max_output_chars, 10_000);
    assert_eq!(
        env_from_members(vec![
            ("A".to_string(), Some("1".to_string())),
            ("B".to_string(), None),
            ("C".to_string(), Some("3".to_string())),
        ]),
        vec![("A".to_string(), "1".to_string()), ("C".to_string(), "3".to_string())]
    );
}

#[test]
fn paths_and_shells() {
    assert_eq!(resolve_path("sub/x", "/work"), "/work/sub/x");
    assert_eq!(resolve_path("/etc/hosts", "/work"), "/etc/hosts");
    assert_eq!(shell_probe_path("/bin/bash", None), "/bin/bash");
    assert_eq!(shell_probe_path("/bin/bash", Some("/srv/c")), "/srv/c/bin/bash");
    assert_eq!(shell_probe_path("bin/sh", Some("/srv/c/")), "/srv/c/bin/sh");
    assert_eq!(resolve_shell(Some("/bin/zsh"), true, true), "/bin/zsh");
    assert_eq!(resolve_shell(Some("/bin/zsh"), false, true), "/bin/sh");
    assert_eq!(resolve_shell(Some("/bin/zsh"), false, false), "/bin/zsh");
    assert_eq!(resolve_shell(None, false, false), "/bin/sh");
    assert_eq!(resolve_shell(None, true, true), "/bin/sh");
}

#[test]
fn container_is_found_in_the_environment() {
    assert_eq!(container_root_from_env(Some("chroot"), Some("/srv/c")), Some("/srv/c".to_string()));
    assert_eq!(container_root_from_env(Some("nspawn"), Some("/srv/c")), Some("/srv/c".to_string()));
    assert_eq!(
        container_root_from_env(Some("container"), Some("/srv/c")),
        Some("/srv/c".to_string())
    );
    assert_eq!(container_root_from_env(Some("host"), Some("/srv/c")), None);
    assert_eq!(container_root_from_env(Some("chroot"), None), None);
    assert_eq!(container_root_from_env(None, Some("/srv/c")), None);
}

#[test]
fn command_in_a_container() {
    let env = vec![("A".to_string(), "1".to_string()), ("B".to_string(), "x y".to_string())];
    let inv = container_invocation("/srv/c", "/srv/c/work/sub", Some(":99"), true, &env, "/bin/sh", "ls -la")
        .unwrap();
    assert_eq!(inv.program, "systemd-nspawn");
    assert_eq!(inv.cwd, None);
    assert_eq!(
        inv.args,
        vec![
            "-D",
            "/srv/c",
            "--quiet",
            "--chdir",
            "/work/sub",
            "--bind=/tmp/.X11-unix",
            "--setenv=DISPLAY=:99",
            "--setenv=A=1",
            "--setenv=B=x y",
            "/bin/sh",
            "-c",
            "ls -la",
        ]
    );
    let at_root = container_invocation("/srv/c", "/srv/c", None, true, &vec![], "/bin/sh", "pwd").unwrap();
    assert_eq!(at_root.args, vec!["-D", "/srv/c", "--quiet", "--chdir", "/", "/bin/sh", "-c", "pwd"]);
    assert_eq!(
        container_invocation("/srv/c", "/srv/cc/x", None, false, &vec![], "/bin/sh", "pwd"),
        Err("Working directory is outside container root: /srv/cc/x".to_string())
    );
    assert!(container_invocation("/srv/c", "/tmp", None, false, &vec![], "/bin/sh", "pwd").is_err());
}

#[test]
fn command_on_the_host() {
    let inv = host_invocation("/bin/sh", "/work", "echo hi");
    assert_eq!(inv.program, "/bin/sh");
    assert_eq!(inv.args, vec!["-c", "echo hi"]);
    assert_eq!(inv.cwd, Some("/work".to_string()));
}

#[test]
fn running_display() {
    assert_eq!(read_runtime_display(Some(":5"), Some(r#"{"display":":7"}"#)), Some(":5".to_string()));
    assert_eq!(read_runtime_display(Some("  "), Some(r#"{"display":":7"}"#)), Some(":7".to_string()));
    assert_eq!(read_runtime_display(None, Some(r#"{"display":":7"}"#)), Some(":7".to_string()));
    assert_eq!(read_runtime_display(None, Some(r#"{"other":1}"#)), None);
    assert_eq!(read_runtime_display(None, Some(" :3\n")), Some(":3".to_string()));
    assert_eq!(read_runtime_display(None, Some("  \n")), None);
    assert_eq!(read_runtime_display(None, None), None);
}

#[test]
fn display_file_places() {
    assert_eq!(
        runtime_display_path(Some("/run/d.json"), Some("/w"), None, Some("/home/u")),
        DisplayFile::Fixed("/run/d.json".to_string())
    );
    assert_eq!(
        runtime_display_path(Some(" "), Some("/w"), None, Some("/home/u")),
        DisplayFile::FirstExisting(vec![
            "/w/.openagent/runtime/current_display.json".to_string(),
            "/home/u/.openagent/runtime/current_display.json".to_string(),
        ])
    );
    assert_eq!(runtime_display_path(None, None, None, None), DisplayFile::FirstExisting(vec![]));
}

#[test]
fn reports() {
    assert_eq!(format_report("out", "", Some(0), false), "Exit code: 0\n\n--- stdout ---\nout");
    assert_eq!(
        format_report("out", "err", Some(2), false),
        "Exit code: 2\nNote: Non-zero exit code but output was produced. The command may have succeeded with warnings - verify output files exist.\n\n--- stdout ---\nout\n--- stderr ---\nerr"
    );
    assert_eq!(format_report("", "err", Some(1), false), "Exit code: 1\n\n--- stderr ---\nerr");
    assert_eq!(format_report("", "", None, false), "Exit code: -1\n");
    assert_eq!(format_report("", "", Some(i32::MIN), false), "Exit code: -2147483648\n");
    assert_eq!(format_report("out", "err", Some(0), true), "out\nerr");
    assert_eq!(format_report("out", "", Some(3), true), "out");
    assert_eq!(format_report("", "err", Some(3), true), "err");
}

#[test]
fn long_reports_are_cut() {
    assert_eq!(truncate_output("abcdef", 3), "abc\n... [output truncated]");
    assert_eq!(truncate_output("abcdef", 6), "abcdef");
    assert_eq!(truncate_output("héllo", 2), "hé\n... [output truncated]");
    assert_eq!(truncate_output("", 1), "");
}

#[test]
fn the_tool_prepares_and_finishes() {
    let tool = RunCommand;
    assert_eq!(tool.name(), "run_command");
    let p = tool
        .prepare(r#"{"command":"cargo test","cwd":"sub","max_output_chars":12}"#, "/work", None)
        .unwrap();
    assert_eq!(p.command, "cargo test");
    assert_eq!(p.cwd, "/work/sub");
    assert_eq!(p.options.max_output_chars, 12);
    let q = tool.prepare(r#"{"command":"ls"}"#, "/work", None).unwrap();
    assert_eq!(q.cwd, "/work");
    assert_eq!(tool.prepare(r#"{"cwd":"x"}"#, "/work", None), Err("Missing 'command' argument".to_string()));
    assert_eq!(tool.prepare("[]", "/work", None), Err("Missing 'command' argument".to_string()));
    let blocked = tool.prepare(r#"{"command":"sudo find / -name foo"}"#, "/work", None).unwrap_err();
    assert!(blocked.contains("Use 'find /root/work/' or a specific directory path"));
    let text = tool.finish(&b"hello world, this is long".to_vec(), &vec![], Some(0), &p.options);
    assert_eq!(text, "Exit code: 0\n... [output truncated]");
    let raw = parse_command_options(r#"{"raw":true}"#, None);
    assert_eq!(tool.finish(&b"a\x00b".to_vec(), &b"e".to_vec(), Some(1), &raw), "ab\ne");
}

#[test]
fn schema_of_the_tool() {
    let tool = RunCommand;
    let schema: serde_json::Value = serde_json::from_str(tool.parameters_schema()).unwrap();
    assert_eq!(schema["type"], "object");
    assert_eq!(schema["required"][0], "command");
    assert_eq!(schema["properties"]["timeout_ms"]["type"], "integer");
    assert_eq!(schema["properties"]["env"]["additionalProperties"]["type"], "string");
    assert_eq!(schema["properties"].as_object().unwrap().len(), 11);
    assert!(tool.description().starts_with("Execute a shell command."));
}

#[test]
fn container_root_of_a_path() {
    assert_eq!(
        container_root_from_path("/work/.openagent/containers/alpha/workspaces/mission-1"),
        Some("/work/.openagent/containers/alpha".to_string())
    );
    assert_eq!(
        container_root_from_path("/work/.openagent/chroots/beta"),
        Some("/work/.openagent/chroots/beta".to_string())
    );
    assert_eq!(container_root_from_path("/work/containers"), None);
    assert_eq!(container_root_from_path("/work/containers/"), None);
    assert_eq!(container_root_from_path("/work/x/y"), None);
    assert_eq!(container_root_from_path(""), None);
    assert_eq!(
        container_root_from_path("rel/containers//a/./b"),
        Some("rel/containers/a".to_string())
    );
    assert_eq!(container_root_from_path("/containers/./x/y"), Some("/containers/x".to_string()));
    assert_eq!(container_root_from_path("containers/chroots/z"), Some("containers/chroots".to_string()));
}

#[test]
fn environment_of_a_tool_server() {
    let plain = hydrate_workspace_env(None, None, false, false, "/cwd");
    assert_eq!(plain.workspace, "/cwd");
    assert_eq!(plain.set_workspace, Some("/cwd".to_string()));
    assert_eq!(plain.set_type, Some("host".to_string()));
    assert_eq!(plain.set_root, None);
    let inside = hydrate_workspace_env(
        Some("/w/.openagent/containers/a/workspaces/m"),
        Some("/env"),
        false,
        false,
        "/cwd",
    );
    assert_eq!(inside.workspace, "/w/.openagent/containers/a/workspaces/m");
    assert_eq!(inside.set_workspace, None);
    assert_eq!(inside.set_type, Some("chroot".to_string()));
    assert_eq!(inside.set_root, Some("/w/.openagent/containers/a".to_string()));
    let rooted = hydrate_workspace_env(None, Some("/w/chroots/a"), false, true, "/cwd");
    assert_eq!(rooted.workspace, "/w/chroots/a");
    assert_eq!(rooted.set_type, Some("chroot".to_string()));
    assert_eq!(rooted.set_root, None);
    let typed = hydrate_workspace_env(None, Some("/w/chroots/a"), true, false, "/cwd");
    assert_eq!(typed.set_type, None);
    assert_eq!(typed.set_root, None);
}

#[test]
fn runtime_state_of_a_tool_server() {
    assert_eq!(runtime_workspace_path(Some("/run/ws.json"), Some("/home/u")), "/run/ws.json");
    assert_eq!(
        runtime_workspace_path(Some(" "), Some("/home/u")),
        "/home/u/.openagent/runtime/current_workspace.json"
    );
    assert_eq!(runtime_workspace_path(None, None), "/root/.openagent/runtime/current_workspace.json");
    assert_eq!(
        apply_runtime_workspace(Some("/w/m"), None, Some("chroot")),
        vec![
            ("OPEN_AGENT_WORKSPACE".to_string(), "/w/m".to_string()),
            ("OPEN_AGENT_WORKSPACE_TYPE".to_string(), "chroot".to_string()),
        ]
    );
    assert_eq!(
        apply_runtime_workspace(None, Some("/w"), None),
        vec![("OPEN_AGENT_WORKSPACE_ROOT".to_string(), "/w".to_string())]
    );
    assert!(apply_runtime_workspace(None, None, None).is_empty());
}

#[test]
fn a_command_that_outlasts_its_time_ends_in_an_error() {
    let tool = RunCommand;
    let prepared = tool
        .prepare("{\"command\": \"sleep 5\", \"timeout_ms\": 100}", "/work", None)
        .unwrap();
    assert_eq!(prepared.options.timeout, Timeout { secs: 0, nanos: 100_000_000 });
    let end = RunEnd::TimedOut { seconds: "0.1".to_string() };
    assert_eq!(
        tool.conclude(&end, &prepared.options),
        Err("Command timed out after 0.1 seconds".to_string())
    );
}

#[test]
fn the_end_of_a_run_decides_what_is_handed_back() {
    let tool = RunCommand;
    let prepared = tool.prepare("{\"command\": \"echo hi\"}", "/work", None).unwrap();
    let exited = RunEnd::Exited { stdout: b"hi\n".to_vec(), stderr: Vec::new(), exit_code: Some(0) };
    assert_eq!(
        tool.conclude(&exited, &prepared.options),
        Ok(tool.finish(&b"hi\n".to_vec(), &Vec::new(), Some(0), &prepared.options))
    );
    assert!(tool.conclude(&exited, &prepared.options).unwrap().contains("hi"));
    assert_eq!(
        tool.conclude(&RunEnd::Failed { reason: "No such file".to_string() }, &prepared.options),
        Err("Failed to execute command: No such file".to_string())
    );
    assert_eq!(
        tool.conclude(&RunEnd::InputFailed { reason: "Broken pipe".to_string() }, &prepared.options),
        Err("Failed to write to stdin: Broken pipe".to_string())
    );
}
