use open_agent::projection::{
    opencode_config, opencode_config_paths, opencode_entry_from_mcp, resolve_command_path,
    sanitize_key, unique_key, CommandProbe, McpServerConfig, McpTransport, OpencodeEntry,
};
use open_agent::workspace::WorkspaceType;

const NOWHERE: CommandProbe = CommandProbe { in_usr_local_bin: false, in_usr_bin: false };

fn stdio(name: &str, enabled: bool, command: &str) -> McpServerConfig {
    McpServerConfig {
        name: name.to_string(),
        enabled,
        transport: McpTransport::Stdio {
            command: command.to_string(),
            args: vec!["--flag".to_string()],
            env: vec![("K".to_string(), "v".to_string())],
        },
    }
}

#[test]
fn keys_are_made_from_names() {
    assert_eq!(sanitize_key("My-Server!"), "my_server");
    assert_eq!(sanitize_key("desktop mcp 2"), "desktopmcp2");
    assert_eq!(sanitize_key("A_b-C"), "a_b_c");
    assert_eq!(sanitize_key("日本語"), "");
    assert_eq!(sanitize_key(""), "");
}

#[test]
fn keys_are_made_unique() {
    let mut used: Vec<String> = Vec::new();
    assert_eq!(unique_key("git", &mut used), "git");
    assert_eq!(unique_key("git", &mut used), "git_2");
    assert_eq!(unique_key("git", &mut used), "git_3");
    assert_eq!(unique_key("git_2", &mut used), "git_2_2");
    assert_eq!(unique_key("web", &mut used), "web");
    assert_eq!(used, vec!["git", "git_2", "git_3", "git_2_2", "web"]);
    let mut crowded: Vec<String> = vec!["a".to_string(), "a_3".to_string(), "a_2".to_string()];
    assert_eq!(unique_key("a", &mut crowded), "a_4");
}

#[test]
fn commands_are_resolved() {
    let both = CommandProbe { in_usr_local_bin: true, in_usr_bin: true };
    let usr = CommandProbe { in_usr_local_bin: false, in_usr_bin: true };
    assert_eq!(resolve_command_path("node", both), "/usr/local/bin/node");
    assert_eq!(resolve_command_path("node", usr), "/usr/bin/node");
    assert_eq!(resolve_command_path("node", NOWHERE), "node");
    assert_eq!(resolve_command_path("/opt/node", both), "/opt/node");
    assert_eq!(resolve_command_path("./bin/node", both), "./bin/node");
}

#[test]
fn local_entry() {
    let entry = opencode_entry_from_mcp(
        &stdio("git", true, "git-mcp"),
        "/w/workspaces/mission-1",
        "/w",
        WorkspaceType::Chroot,
        CommandProbe { in_usr_local_bin: false, in_usr_bin: true },
    );
    assert_eq!(
        entry,
        OpencodeEntry::Local {
            command: vec!["/usr/bin/git-mcp".to_string(), "--flag".to_string()],
            enabled: true,
            environment: vec![
                ("K".to_string(), "v".to_string()),
                ("OPEN_AGENT_WORKSPACE".to_string(), "/w/workspaces/mission-1".to_string()),
                ("OPEN_AGENT_WORKSPACE_ROOT".to_string(), "/w".to_string()),
                ("OPEN_AGENT_WORKSPACE_TYPE".to_string(), "chroot".to_string()),
            ],
        }
    );
}

#[test]
fn a_server_may_set_the_workspace_itself() {
    let config = McpServerConfig {
        name: "x".to_string(),
        enabled: false,
        transport: McpTransport::Stdio {
            command: "x".to_string(),
            args: vec![],
            env: vec![("OPEN_AGENT_WORKSPACE_ROOT".to_string(), "/mine".to_string())],
        },
    };
    let entry = opencode_entry_from_mcp(&config, "/d", "/r", WorkspaceType::Host, NOWHERE);
    assert_eq!(
        entry,
        OpencodeEntry::Local {
            command: vec!["x".to_string()],
            enabled: false,
            environment: vec![
                ("OPEN_AGENT_WORKSPACE_ROOT".to_string(), "/mine".to_string()),
                ("OPEN_AGENT_WORKSPACE".to_string(), "/d".to_string()),
                ("OPEN_AGENT_WORKSPACE_TYPE".to_string(), "host".to_string()),
            ],
        }
    );
}

#[test]
fn http_entry() {
    let config = McpServerConfig {
        name: "remote".to_string(),
        enabled: true,
        transport: McpTransport::Http {
            endpoint: "https://mcp.example.com".to_string(),
            headers: vec![("Authorization".to_string(), "Bearer t".to_string())],
        },
    };
    assert_eq!(
        opencode_entry_from_mcp(&config, "/d", "/r", WorkspaceType::Host, NOWHERE),
        OpencodeEntry::Http {
            endpoint: "https://mcp.example.com".to_string(),
            enabled: true,
            headers: vec![("Authorization".to_string(), "Bearer t".to_string())],
        }
    );
}

#[test]
fn configuration_of_a_container_workspace() {
    let configs = vec![
        stdio("Git", true, "git-mcp"),
        stdio("off", false, "off"),
        stdio("git", true, "/opt/git2"),
    ];
    let probes = vec![CommandProbe { in_usr_local_bin: true, in_usr_bin: false }];
    let config = opencode_config(&configs, &probes, "/d", "/r", WorkspaceType::Chroot);
    assert_eq!(config.schema, "https://opencode.ai/config.json");
    let keys: Vec<&str> = config.mcp.iter().map(|(k, _)| k.as_str()).collect();
    assert_eq!(keys, vec!["git", "git_2"]);
    match &config.mcp[0].1 {
        OpencodeEntry::Local { command, .. } => assert_eq!(command[0], "/usr/local/bin/git-mcp"),
        _ => panic!("a local entry"),
    }
    match &config.mcp[1].1 {
        OpencodeEntry::Local { command, .. } => assert_eq!(command[0], "/opt/git2"),
        _ => panic!("a local entry"),
    }
    assert_eq!(
        config.tools,
        Some(vec![
            ("bash".to_string(), false),
            ("desktop_*".to_string(), true),
            ("playwright_*".to_string(), true),
            ("browser_*".to_string(), false),
            ("host_*".to_string(), true),
        ])
    );
}

#[test]
fn configuration_of_a_host_workspace() {
    let config = opencode_config(&vec![], &vec![], "/d", "/r", WorkspaceType::Host);
    assert!(config.mcp.is_empty());
    assert_eq!(config.tools, None);
    assert_eq!(opencode_config_paths("/d"), vec!["/d/opencode.json", "/d/.opencode/opencode.json"]);
}

#[test]
fn empty_maps_are_left_out_of_an_entry() {
    let pair = |k: &str, v: &str| (k.to_string(), v.to_string());
    let bare = OpencodeEntry::Http { endpoint: "http://x".to_string(), enabled: true, headers: vec![] };
    assert_eq!(bare.map_member(), None);
    let headed = OpencodeEntry::Http {
        endpoint: "http://x".to_string(),
        enabled: true,
        headers: vec![pair("Authorization", "Bearer t"), pair("X-A", "1")],
    };
    assert_eq!(
        headed.map_member(),
        Some(("headers".to_string(), vec![pair("Authorization", "Bearer t"), pair("X-A", "1")]))
    );
    let local = OpencodeEntry::Local { command: vec!["run".to_string()], enabled: false, environment: vec![] };
    assert_eq!(local.map_member(), None);
    let with_env = OpencodeEntry::Local {
        command: vec!["run".to_string()],
        enabled: true,
        environment: vec![pair("A", "b")],
    };
    assert_eq!(with_env.map_member(), Some(("environment".to_string(), vec![pair("A", "b")])));
}
