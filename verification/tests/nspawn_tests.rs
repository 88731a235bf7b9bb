use open_agent::nspawn::{
    bootstrap_failure, bootstrap_program, create_container, destroy_container,
    detect_container_distro, execute_in_container, is_container_ready, pacman_conf_contents,
    pacman_conf_name, parse_os_release_value, unmount_failure, unmount_targets, NetworkMode,
    NspawnConfig, NspawnDistro, NspawnError,
};

fn strings(v: &[&str]) -> Vec<String> {
    v.iter().map(|s| s.to_string()).collect()
}

#[test]
fn distributions() {
    assert_eq!(NspawnDistro::UbuntuNoble.as_str(), "noble");
    assert_eq!(NspawnDistro::UbuntuJammy.as_str(), "jammy");
    assert_eq!(NspawnDistro::DebianBookworm.as_str(), "bookworm");
    assert_eq!(NspawnDistro::ArchLinux.as_str(), "arch-linux");
    assert_eq!(NspawnDistro::UbuntuNoble.mirror_url(), "http://archive.ubuntu.com/ubuntu");
    assert_eq!(NspawnDistro::UbuntuJammy.mirror_url(), "http://archive.ubuntu.com/ubuntu");
    assert_eq!(NspawnDistro::DebianBookworm.mirror_url(), "http://deb.debian.org/debian");
    assert_eq!(NspawnDistro::ArchLinux.mirror_url(), "https://geo.mirror.pkgbuild.com/");
    assert_eq!(NspawnDistro::default(), NspawnDistro::UbuntuNoble);
}

#[test]
fn errors_have_texts() {
    assert_eq!(NspawnError::Debootstrap("x".to_string()).message(), "Debootstrap failed: x");
    assert_eq!(NspawnError::Pacstrap("x".to_string()).message(), "Pacstrap failed: x");
    assert_eq!(NspawnError::Unmount("x".to_string()).message(), "Unmount operation failed: x");
    assert_eq!(
        NspawnError::NspawnExecution("x".to_string()).message(),
        "systemd-nspawn command failed: x"
    );
    assert_eq!(
        NspawnError::DirectoryCreation("x".to_string()).message(),
        "Failed to create container directory: x"
    );
    assert_eq!(
        NspawnError::DirectoryRemoval("x".to_string()).message(),
        "Failed to remove container directory: x"
    );
    assert_eq!(
        NspawnError::UnsupportedDistro("x".to_string()).message(),
        "Unsupported distribution: x"
    );
}

#[test]
fn bootstrap_programs() {
    let deb = bootstrap_program("/c/a", NspawnDistro::UbuntuNoble, "/tmp/p.conf");
    assert_eq!(deb.name, "debootstrap");
    assert_eq!(
        deb.args,
        vec!["--variant=minbase", "noble", "/c/a", "http://archive.ubuntu.com/ubuntu"]
    );
    let arch = create_container("/c/a", NspawnDistro::ArchLinux, "/tmp/p.conf");
    assert_eq!(arch.name, "pacstrap");
    assert_eq!(arch.args, vec!["-C", "/tmp/p.conf", "-c", "/c/a", "base"]);
    assert_eq!(pacman_conf_name(), "open_agent_pacman.conf");
    assert!(pacman_conf_contents().starts_with("[options]\nArchitecture = auto\nSigLevel = Never\n"));
    assert_eq!(
        bootstrap_failure(NspawnDistro::DebianBookworm, true, "os error 2"),
        NspawnError::Debootstrap("debootstrap not found. Install debootstrap on the host.".to_string())
    );
    assert_eq!(
        bootstrap_failure(NspawnDistro::DebianBookworm, false, "E: bad mirror"),
        NspawnError::Debootstrap("E: bad mirror".to_string())
    );
    assert_eq!(
        bootstrap_failure(NspawnDistro::ArchLinux, true, "x"),
        NspawnError::Pacstrap(
            "pacstrap not found. Install arch-install-scripts (and pacman) on the host.".to_string()
        )
    );
}

#[test]
fn commands_in_a_container() {
    let default = NspawnConfig::default();
    assert_eq!(
        execute_in_container("/c/a", &strings(&["ls", "-l"]), &default, true),
        Ok(strings(&["-D", "/c/a", "--quiet", "ls", "-l"]))
    );
    let full = NspawnConfig {
        bind_x11: true,
        display: Some(":99".to_string()),
        network_mode: NetworkMode::Private,
        ephemeral: true,
    };
    assert_eq!(
        execute_in_container("/c/a", &strings(&["sh"]), &full, true),
        Ok(strings(&[
            "-D",
            "/c/a",
            "--quiet",
            "--network-veth",
            "--ephemeral",
            "--bind=/tmp/.X11-unix",
            "--setenv=DISPLAY=:99",
            "sh",
        ]))
    );
    let isolated = NspawnConfig { network_mode: NetworkMode::Disabled, ..full.clone() };
    assert_eq!(
        execute_in_container("/c/a", &strings(&["sh"]), &isolated, false),
        Ok(strings(&[
            "-D",
            "/c/a",
            "--quiet",
            "--private-network",
            "--ephemeral",
            "--setenv=DISPLAY=:99",
            "sh",
        ]))
    );
    assert_eq!(
        execute_in_container("/c/a", &vec![], &default, true),
        Err(NspawnError::NspawnExecution("Empty command".to_string()))
    );
}

#[test]
fn readiness_of_a_root() {
    assert!(is_container_ready(&strings(&["bin", "usr", "etc", "var"])));
    assert!(is_container_ready(&strings(&["var", "home", "etc", "usr", "bin", "tmp"])));
    assert!(!is_container_ready(&strings(&["bin", "usr", "etc"])));
    assert!(!is_container_ready(&strings(&["etc"])));
    assert!(!is_container_ready(&vec![]));
}

#[test]
fn os_release_values() {
    assert_eq!(parse_os_release_value("ID=ubuntu", "ID"), Some("ubuntu".to_string()));
    assert_eq!(parse_os_release_value("ID=\"debian\"", "ID"), Some("debian".to_string()));
    assert_eq!(parse_os_release_value("ID= \"arch\" \r", "ID"), Some("arch".to_string()));
    assert_eq!(parse_os_release_value("ID=", "ID"), None);
    assert_eq!(parse_os_release_value("ID=\"\"", "ID"), None);
    assert_eq!(parse_os_release_value("ID_LIKE=debian", "ID"), None);
    assert_eq!(parse_os_release_value("VERSION_ID=\"24.04\"", "ID"), None);
    assert_eq!(
        parse_os_release_value("VERSION_CODENAME=noble", "VERSION_CODENAME"),
        Some("noble".to_string())
    );
    assert_eq!(parse_os_release_value("ID=\"a\"b\"", "ID"), Some("a\"b".to_string()));
}

#[test]
fn distribution_of_a_root() {
    let noble = "PRETTY_NAME=\"Ubuntu 24.04 LTS\"\nNAME=\"Ubuntu\"\nVERSION_ID=\"24.04\"\nVERSION_CODENAME=noble\nID=ubuntu\nID_LIKE=debian\n";
    assert_eq!(detect_container_distro(noble), Some(NspawnDistro::UbuntuNoble));
    assert_eq!(
        detect_container_distro("ID=ubuntu\nVERSION_CODENAME=jammy\n"),
        Some(NspawnDistro::UbuntuJammy)
    );
    assert_eq!(
        detect_container_distro("ID=debian\r\nVERSION_CODENAME=bookworm\r\n"),
        Some(NspawnDistro::DebianBookworm)
    );
    assert_eq!(detect_container_distro("ID=arch\n"), Some(NspawnDistro::ArchLinux));
    assert_eq!(detect_container_distro("ID=archlinux"), Some(NspawnDistro::ArchLinux));
    assert_eq!(detect_container_distro("ID=ubuntu\nVERSION_CODENAME=focal\n"), None);
    assert_eq!(detect_container_distro("ID=ubuntu\n"), None);
    assert_eq!(detect_container_distro("ID=debian\nVERSION_CODENAME=noble\n"), None);
    assert_eq!(detect_container_distro("ID=fedora\n"), None);
    assert_eq!(detect_container_distro(""), None);
    assert_eq!(
        detect_container_distro("ID=ubuntu\nID=debian\nVERSION_CODENAME=noble\n"),
        Some(NspawnDistro::UbuntuNoble)
    );
}

#[test]
fn destruction_of_a_root() {
    assert_eq!(destroy_container("/c/a", false), None);
    assert_eq!(
        destroy_container("/c/a", true),
        Some(strings(&["/c/a/dev/shm", "/c/a/dev/pts", "/c/a/sys", "/c/a/proc"]))
    );
    assert_eq!(unmount_targets("/c/a/").len(), 4);
    assert_eq!(unmount_failure("umount: /c/a/proc: not mounted."), None);
    assert_eq!(
        unmount_failure("umount: target is busy"),
        Some(NspawnError::Unmount("umount: target is busy".to_string()))
    );
}
