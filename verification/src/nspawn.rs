//! Container roots entered with `systemd-nspawn`.
//!
//! A container is a directory tree made by `debootstrap` or `pacstrap`. The
//! caller runs those programs; this module says with which arguments, reads
//! what the tree holds, and names what can go wrong.

use crate::text::{
    chars_of, contains, contains_exec, extend_str, join2, join_path, joined, push_arg, push_joined,
    slice_chars, split_on, split_on_exec, str_eq, string_of, strip_prefix, strip_prefix_exec, trim,
    trim_exec, view_opt, view_strs, views,
};
use vstd::prelude::*;

verus! {

/// What can go wrong with a container.
#[derive(Debug, Clone, PartialEq, Eq)]
pub enum NspawnError {
    DirectoryCreation(String),
    DirectoryRemoval(String),
    Debootstrap(String),
    Pacstrap(String),
    Unmount(String),
    NspawnExecution(String),
    UnsupportedDistro(String),
}

impl NspawnError {
    /// The text of the error.
    pub open spec fn text(self) -> Seq<char> {
        match self {
            NspawnError::DirectoryCreation(e) => "Failed to create container directory: "@ + e@,
            NspawnError::DirectoryRemoval(e) => "Failed to remove container directory: "@ + e@,
            NspawnError::Debootstrap(e) => "Debootstrap failed: "@ + e@,
            NspawnError::Pacstrap(e) => "Pacstrap failed: "@ + e@,
            NspawnError::Unmount(e) => "Unmount operation failed: "@ + e@,
            NspawnError::NspawnExecution(e) => "systemd-nspawn command failed: "@ + e@,
            NspawnError::UnsupportedDistro(e) => "Unsupported distribution: "@ + e@,
        }
    }

    pub fn message(&self) -> (r: String)
        ensures
            r@ == self.text(),
    {
        match self {
            NspawnError::DirectoryCreation(e) => join2(
                "Failed to create container directory: ",
                e.as_str(),
            ),
            NspawnError::DirectoryRemoval(e) => join2(
                "Failed to remove container directory: ",
                e.as_str(),
            ),
            NspawnError::Debootstrap(e) => join2("Debootstrap failed: ", e.as_str()),
            NspawnError::Pacstrap(e) => join2("Pacstrap failed: ", e.as_str()),
            NspawnError::Unmount(e) => join2("Unmount operation failed: ", e.as_str()),
            NspawnError::NspawnExecution(e) => join2(
                "systemd-nspawn command failed: ",
                e.as_str(),
            ),
            NspawnError::UnsupportedDistro(e) => join2("Unsupported distribution: ", e.as_str()),
        }
    }
}

/// The distributions a container can be made of.
#[derive(Debug, Clone, Copy, PartialEq, Eq, Structural)]
pub enum NspawnDistro {
    /// Ubuntu 24.04.
    UbuntuNoble,
    /// Ubuntu 22.04.
    UbuntuJammy,
    /// Debian 12.
    DebianBookworm,
    /// Arch Linux.
    ArchLinux,
}

impl NspawnDistro {
    /// The name of the release.
    pub open spec fn release(self) -> Seq<char> {
        match self {
            NspawnDistro::UbuntuNoble => "noble"@,
            NspawnDistro::UbuntuJammy => "jammy"@,
            NspawnDistro::DebianBookworm => "bookworm"@,
            NspawnDistro::ArchLinux => "arch-linux"@,
        }
    }

    /// The mirror that packages are fetched from.
    pub open spec fn mirror(self) -> Seq<char> {
        match self {
            NspawnDistro::UbuntuNoble => "http://archive.ubuntu.com/ubuntu"@,
            NspawnDistro::UbuntuJammy => "http://archive.ubuntu.com/ubuntu"@,
            NspawnDistro::DebianBookworm => "http://deb.debian.org/debian"@,
            NspawnDistro::ArchLinux => "https://geo.mirror.pkgbuild.com/"@,
        }
    }

    /// Whether the root is made with `pacstrap` and not with `debootstrap`.
    pub open spec fn is_arch(self) -> bool {
        self == NspawnDistro::ArchLinux
    }

    pub fn as_str(&self) -> (r: &'static str)
        ensures
            r@ == self.release(),
    {
        match self {
            NspawnDistro::UbuntuNoble => "noble",
            NspawnDistro::UbuntuJammy => "jammy",
            NspawnDistro::DebianBookworm => "bookworm",
            NspawnDistro::ArchLinux => "arch-linux",
        }
    }

    pub fn mirror_url(&self) -> (r: &'static str)
        ensures
            r@ == self.mirror(),
    {
        match self {
            NspawnDistro::UbuntuNoble => "http://archive.ubuntu.com/ubuntu",
            NspawnDistro::UbuntuJammy => "http://archive.ubuntu.com/ubuntu",
            NspawnDistro::DebianBookworm => "http://deb.debian.org/debian",
            NspawnDistro::ArchLinux => "https://geo.mirror.pkgbuild.com/",
        }
    }
}

impl Default for NspawnDistro {
    fn default() -> (r: Self)
        ensures
            r == NspawnDistro::UbuntuNoble,
    {
        NspawnDistro::UbuntuNoble
    }
}

/// How a container is connected to the network.
#[derive(Debug, Clone, Copy, PartialEq, Eq, Structural)]
pub enum NetworkMode {
    /// The network of the host.
    Host,
    /// A private network with a virtual link to the host.
    Private,
    /// No network.
    Disabled,
}

/// How a command is run in a container.
#[derive(Debug, Clone, PartialEq, Eq)]
pub struct NspawnConfig {
    /// Whether the host's X11 socket directory is bound into the container.
    pub bind_x11: bool,
    /// The display handed to the command.
    pub display: Option<String>,
    pub network_mode: NetworkMode,
    /// Whether the command runs on a snapshot that is thrown away.
    pub ephemeral: bool,
}

impl Default for NspawnConfig {
    fn default() -> (r: Self)
        ensures
            !r.bind_x11,
            r.display is None,
            r.network_mode == NetworkMode::Host,
            !r.ephemeral,
    {
        NspawnConfig {
            bind_x11: false,
            display: None,
            network_mode: NetworkMode::Host,
            ephemeral: false,
        }
    }
}

/// A program to run, with its arguments.
#[derive(Debug, Clone, PartialEq, Eq)]
pub struct Program {
    pub name: String,
    pub args: Vec<String>,
}

/// The name of the throw-away `pacman` configuration, under the system's
/// temporary directory.
pub fn pacman_conf_name() -> (r: &'static str)
    ensures
        r@ == "open_agent_pacman.conf"@,
{
    "open_agent_pacman.conf"
}

/// The contents of the throw-away `pacman` configuration.
pub fn pacman_conf_contents() -> (r: &'static str)
    ensures
        r@
            == "[options]\nArchitecture = auto\nSigLevel = Never\n\n[core]\nInclude = /etc/pacman.d/mirrorlist\n\n[extra]\nInclude = /etc/pacman.d/mirrorlist\n"@,
{
    "[options]\nArchitecture = auto\nSigLevel = Never\n\n[core]\nInclude = /etc/pacman.d/mirrorlist\n\n[extra]\nInclude = /etc/pacman.d/mirrorlist\n"
}

/// The program that fills a new container root.
pub open spec fn bootstrap_spec(path: Seq<char>, distro: NspawnDistro, pacman_conf: Seq<char>) -> (
    Seq<char>,
    Seq<Seq<char>>,
) {
    if distro.is_arch() {
        ("pacstrap"@, seq!["-C"@, pacman_conf, "-c"@, path, "base"@])
    } else {
        ("debootstrap"@, seq!["--variant=minbase"@, distro.release(), path, distro.mirror()])
    }
}

/// Chooses the program that fills the root at `path`: `pacstrap` with the
/// throw-away configuration at `pacman_conf` for Arch, `debootstrap` with the
/// minimal variant for the others.
pub fn bootstrap_program(path: &str, distro: NspawnDistro, pacman_conf: &str) -> (r: Program)
    ensures
        (r.name@, view_strs(r.args@)) == bootstrap_spec(path@, distro, pacman_conf@),
{
    let mut args: Vec<String> = Vec::new();
    assert(view_strs(args@) =~= Seq::<Seq<char>>::empty());
    match distro {
        NspawnDistro::ArchLinux => {
            push_arg(&mut args, "-C");
            push_arg(&mut args, pacman_conf);
            push_arg(&mut args, "-c");
            push_arg(&mut args, path);
            push_arg(&mut args, "base");
            assert(view_strs(args@) =~= seq!["-C"@, pacman_conf@, "-c"@, path@, "base"@]);
            Program { name: "pacstrap".to_owned(), args }
        },
        _ => {
            push_arg(&mut args, "--variant=minbase");
            push_arg(&mut args, distro.as_str());
            push_arg(&mut args, path);
            push_arg(&mut args, distro.mirror_url());
            assert(view_strs(args@) =~= seq![
                "--variant=minbase"@,
                distro.release(),
                path@,
                distro.mirror(),
            ]);
            Program { name: "debootstrap".to_owned(), args }
        },
    }
}

/// What a failed bootstrap reports: advice to install the program where it
/// was not found, and else the detail given.
pub open spec fn bootstrap_failure_detail(
    distro: NspawnDistro,
    not_found: bool,
    detail: Seq<char>,
) -> Seq<char> {
    if !not_found {
        detail
    } else if distro.is_arch() {
        "pacstrap not found. Install arch-install-scripts (and pacman) on the host."@
    } else {
        "debootstrap not found. Install debootstrap on the host."@
    }
}

/// The error for a bootstrap program that could not be run or that failed.
/// `detail` is the text of the system's error or the program's standard
/// error.
pub fn bootstrap_failure(distro: NspawnDistro, not_found: bool, detail: &str) -> (r: NspawnError)
    ensures
        distro.is_arch() ==> (r matches NspawnError::Pacstrap(e) && e@ == bootstrap_failure_detail(
            distro,
            not_found,
            detail@,
        )),
        !distro.is_arch() ==> (r matches NspawnError::Debootstrap(e) && e@
            == bootstrap_failure_detail(distro, not_found, detail@)),
{
    match distro {
        NspawnDistro::ArchLinux => NspawnError::Pacstrap(
            if not_found {
                "pacstrap not found. Install arch-install-scripts (and pacman) on the host.".to_owned()
            } else {
                detail.to_owned()
            },
        ),
        _ => NspawnError::Debootstrap(
            if not_found {
                "debootstrap not found. Install debootstrap on the host.".to_owned()
            } else {
                detail.to_owned()
            },
        ),
    }
}

/// The arguments of `systemd-nspawn` for a command in the root at `path`:
/// the network flag of the mode, the snapshot flag, the X11 socket directory
/// where binding is asked for and the directory exists, the display, and
/// then the command.
pub open spec fn nspawn_args(
    path: Seq<char>,
    command: Seq<Seq<char>>,
    bind_x11: bool,
    display: Option<Seq<char>>,
    network_mode: NetworkMode,
    ephemeral: bool,
    x11_socket: bool,
) -> Seq<Seq<char>> {
    let base = seq!["-D"@, path, "--quiet"@];
    let net = match network_mode {
        NetworkMode::Host => base,
        NetworkMode::Private => base.push("--network-veth"@),
        NetworkMode::Disabled => base.push("--private-network"@),
    };
    let eph = if ephemeral {
        net.push("--ephemeral"@)
    } else {
        net
    };
    let bound = if bind_x11 && x11_socket {
        eph.push("--bind=/tmp/.X11-unix"@)
    } else {
        eph
    };
    let shown = match display {
        Some(d) => bound.push("--setenv=DISPLAY="@ + d),
        None => bound,
    };
    shown + command
}

/// Builds the arguments of `systemd-nspawn` for a command in a container.
/// An empty command is turned down. `x11_socket` says whether the host's X11
/// socket directory exists.
pub fn execute_in_container(
    path: &str,
    command: &Vec<String>,
    config: &NspawnConfig,
    x11_socket: bool,
) -> (r: Result<Vec<String>, NspawnError>)
    ensures
        command@.len() == 0 ==> (r matches Err(NspawnError::NspawnExecution(m)) && m@
            == "Empty command"@),
        command@.len() > 0 ==> (r matches Ok(args) && view_strs(args@) == nspawn_args(
            path@,
            view_strs(command@),
            config.bind_x11,
            view_opt(config.display),
            config.network_mode,
            config.ephemeral,
            x11_socket,
        )),
{
    if command.len() == 0 {
        return Err(NspawnError::NspawnExecution("Empty command".to_owned()));
    }
    let mut args: Vec<String> = Vec::new();
    assert(view_strs(args@) =~= Seq::<Seq<char>>::empty());
    push_arg(&mut args, "-D");
    push_arg(&mut args, path);
    push_arg(&mut args, "--quiet");
    assert(view_strs(args@) =~= seq!["-D"@, path@, "--quiet"@]);
    match config.network_mode {
        NetworkMode::Host => {},
        NetworkMode::Private => {
            push_arg(&mut args, "--network-veth");
        },
        NetworkMode::Disabled => {
            push_arg(&mut args, "--private-network");
        },
    }
    if config.ephemeral {
        push_arg(&mut args, "--ephemeral");
    }
    if config.bind_x11 && x11_socket {
        push_arg(&mut args, "--bind=/tmp/.X11-unix");
    }
    match &config.display {
        Some(d) => {
            push_joined(&mut args, "--setenv=DISPLAY=", d.as_str());
        },
        None => {},
    }
    let ghost shown = view_strs(args@);
    let mut i: usize = 0;
    assert(shown + view_strs(command@).take(0) =~= shown);
    while i < command.len()
        invariant
            i <= command.len(),
            view_strs(args@) == shown + view_strs(command@).take(i as int),
        decreases command.len() - i,
    {
        push_arg(&mut args, command[i].as_str());
        assert(view_strs(args@) =~= shown + view_strs(command@).take(i + 1));
        i = i + 1;
    }
    assert(view_strs(command@).take(command@.len() as int) == view_strs(command@));
    Ok(args)
}

/// The directories that a root must hold to count as ready.
pub open spec fn essential_dirs() -> Seq<Seq<char>> {
    seq!["bin"@, "usr"@, "etc"@, "var"@]
}

/// A root is ready where each of `bin`, `usr`, `etc` and `var` is among the
/// entries present in it.
pub open spec fn ready(present: Seq<Seq<char>>) -> bool {
    forall|i: int| 0 <= i < essential_dirs().len() ==> present.contains(#[trigger] essential_dirs()[i])
}

fn has_entry(present: &Vec<String>, name: &str) -> (r: bool)
    ensures
        r == view_strs(present@).contains(name@),
{
    let mut i: usize = 0;
    while i < present.len()
        invariant
            i <= present.len(),
            forall|j: int| 0 <= j < i ==> view_strs(present@)[j] != name@,
        decreases present.len() - i,
    {
        if str_eq(present[i].as_str(), name) {
            assert(view_strs(present@)[i as int] == name@);
            return true;
        }
        i = i + 1;
    }
    false
}

/// Whether a container root is built and usable, given the names of the
/// entries directly in it.
pub fn is_container_ready(present: &Vec<String>) -> (r: bool)
    ensures
        r == ready(view_strs(present@)),
{
    let ok = has_entry(present, "bin") && has_entry(present, "usr") && has_entry(present, "etc")
        && has_entry(present, "var");
    proof {
        let e = essential_dirs();
        assert(e[0] == "bin"@ && e[1] == "usr"@ && e[2] == "etc"@ && e[3] == "var"@);
        assert(e.len() == 4);
    }
    ok
}

/// `s` without leading and trailing double quotes.
pub open spec fn trim_quotes(s: Seq<char>) -> Seq<char> {
    trim_end_quotes(trim_start_quotes(s))
}

pub open spec fn trim_start_quotes(s: Seq<char>) -> Seq<char>
    decreases s.len(),
{
    if s.len() > 0 && s[0] == '"' {
        trim_start_quotes(s.drop_first())
    } else {
        s
    }
}

pub open spec fn trim_end_quotes(s: Seq<char>) -> Seq<char>
    decreases s.len(),
{
    if s.len() > 0 && s.last() == '"' {
        trim_end_quotes(s.drop_last())
    } else {
        s
    }
}

/// The value that a line of an `os-release` file gives to `key`: what
/// follows `key=`, trimmed and without surrounding quotes, where that is not
/// empty.
pub open spec fn os_release_value(line: Seq<char>, key: Seq<char>) -> Option<Seq<char>> {
    match strip_prefix(line, key + "="@) {
        Some(rest) => {
            let v = trim_quotes(trim(rest));
            if v.len() == 0 {
                None
            } else {
                Some(v)
            }
        },
        None => None,
    }
}

fn trim_quotes_exec(s: &Vec<char>) -> (r: Vec<char>)
    ensures
        r@ == trim_quotes(s@),
{
    let mut a: usize = 0;
    assert(s@.subrange(0, s.len() as int) == s@);
    while a < s.len() && s[a] == '"'
        invariant
            a <= s.len(),
            trim_start_quotes(s@) == trim_start_quotes(s@.subrange(a as int, s.len() as int)),
        decreases s.len() - a,
    {
        assert(s@.subrange(a as int, s.len() as int).drop_first() == s@.subrange(
            a + 1,
            s.len() as int,
        ));
        a = a + 1;
    }
    let mut b: usize = s.len();
    while b > a && s[b - 1] == '"'
        invariant
            a <= b <= s.len(),
            trim_start_quotes(s@) == s@.subrange(a as int, s.len() as int),
            trim_end_quotes(s@.subrange(a as int, s.len() as int)) == trim_end_quotes(
                s@.subrange(a as int, b as int),
            ),
        decreases b,
    {
        assert(s@.subrange(a as int, b as int).drop_last() == s@.subrange(a as int, b - 1));
        b = b - 1;
    }
    slice_chars(s, a, b)
}

/// Reads the value of `key` off one line of an `os-release` file.
pub fn parse_os_release_value(line: &str, key: &str) -> (r: Option<String>)
    ensures
        view_opt(r) == os_release_value(line@, key@),
{
    let l = chars_of(line);
    let mut prefix = chars_of(key);
    extend_str(&mut prefix, "=");
    match strip_prefix_exec(&l, &prefix) {
        Some(rest) => {
            let v = trim_quotes_exec(&trim_exec(&rest));
            if v.len() == 0 {
                None
            } else {
                Some(string_of(&v))
            }
        },
        None => None,
    }
}

/// The value of `key` on the first line that gives it one.
pub open spec fn first_value(lines: Seq<Seq<char>>, key: Seq<char>) -> Option<Seq<char>>
    decreases lines.len(),
{
    if lines.len() == 0 {
        None
    } else {
        match os_release_value(lines[0], key) {
            Some(v) => Some(v),
            None => first_value(lines.drop_first(), key),
        }
    }
}

/// The distribution that an id and a codename stand for.
pub open spec fn distro_of(id: Option<Seq<char>>, codename: Option<Seq<char>>) -> Option<
    NspawnDistro,
> {
    match id {
        None => None,
        Some(i) => if i == "ubuntu"@ {
            if codename == Some("noble"@) {
                Some(NspawnDistro::UbuntuNoble)
            } else if codename == Some("jammy"@) {
                Some(NspawnDistro::UbuntuJammy)
            } else {
                None
            }
        } else if i == "debian"@ {
            if codename == Some("bookworm"@) {
                Some(NspawnDistro::DebianBookworm)
            } else {
                None
            }
        } else if i == "arch"@ || i == "archlinux"@ {
            Some(NspawnDistro::ArchLinux)
        } else {
            None
        },
    }
}

/// The distribution that the contents of an `os-release` file name.
pub open spec fn detected_distro(contents: Seq<char>) -> Option<NspawnDistro> {
    let lines = split_on(contents, '\n');
    distro_of(first_value(lines, "ID"@), first_value(lines, "VERSION_CODENAME"@))
}

fn first_value_exec(lines: &Vec<Vec<char>>, key: &str) -> (r: Option<String>)
    ensures
        view_opt(r) == first_value(views(lines@), key@),
{
    let mut i: usize = 0;
    assert(views(lines@).skip(0) == views(lines@));
    while i < lines.len()
        invariant
            i <= lines.len(),
            first_value(views(lines@), key@) == first_value(views(lines@).skip(i as int), key@),
        decreases lines.len() - i,
    {
        assert(views(lines@).skip(i as int)[0] == lines@[i as int]@);
        assert(views(lines@).skip(i as int).drop_first() == views(lines@).skip(i + 1));
        let line = string_of(&lines[i]);
        match parse_os_release_value(line.as_str(), key) {
            Some(v) => {
                return Some(v);
            },
            None => {},
        }
        i = i + 1;
    }
    None
}

/// Finds out which distribution a container root holds, from the contents
/// of its `etc/os-release`: the first `ID` and the first `VERSION_CODENAME`
/// decide.
pub fn detect_container_distro(os_release: &str) -> (r: Option<NspawnDistro>)
    ensures
        r == detected_distro(os_release@),
{
    let text = chars_of(os_release);
    let lines = split_on_exec(&text, '\n');
    let id = match first_value_exec(&lines, "ID") {
        Some(i) => i,
        None => {
            return None;
        },
    };
    let codename = first_value_exec(&lines, "VERSION_CODENAME");
    if str_eq(id.as_str(), "ubuntu") {
        match codename {
            Some(c) => {
                if str_eq(c.as_str(), "noble") {
                    Some(NspawnDistro::UbuntuNoble)
                } else if str_eq(c.as_str(), "jammy") {
                    Some(NspawnDistro::UbuntuJammy)
                } else {
                    None
                }
            },
            None => None,
        }
    } else if str_eq(id.as_str(), "debian") {
        match codename {
            Some(c) => {
                if str_eq(c.as_str(), "bookworm") {
                    Some(NspawnDistro::DebianBookworm)
                } else {
                    None
                }
            },
            None => None,
        }
    } else if str_eq(id.as_str(), "arch") || str_eq(id.as_str(), "archlinux") {
        Some(NspawnDistro::ArchLinux)
    } else {
        None
    }
}

/// The paths of the mount points under the root at `path`.
pub fn unmount_targets(path: &str) -> (r: Vec<String>)
    ensures
        view_strs(r@) == seq![
            joined(path@, "dev/shm"@),
            joined(path@, "dev/pts"@),
            joined(path@, "sys"@),
            joined(path@, "proc"@),
        ],
{
    let mut out: Vec<String> = Vec::new();
    assert(view_strs(out@) =~= Seq::<Seq<char>>::empty());
    let a = join_path(path, "dev/shm");
    push_arg(&mut out, a.as_str());
    let b = join_path(path, "dev/pts");
    push_arg(&mut out, b.as_str());
    let c = join_path(path, "sys");
    push_arg(&mut out, c.as_str());
    let d = join_path(path, "proc");
    push_arg(&mut out, d.as_str());
    assert(view_strs(out@) =~= seq![
        joined(path@, "dev/shm"@),
        joined(path@, "dev/pts"@),
        joined(path@, "sys"@),
        joined(path@, "proc"@),
    ]);
    out
}

/// The error of a failed `umount`, read off its standard error: a mount
/// point that was not mounted is no failure.
pub fn unmount_failure(stderr: &str) -> (r: Option<NspawnError>)
    ensures
        contains(stderr@, "not mounted"@) ==> r is None,
        !contains(stderr@, "not mounted"@) ==> (r matches Some(NspawnError::Unmount(e)) && e@
            == stderr@),
{
    let e = chars_of(stderr);
    let pat = chars_of("not mounted");
    if contains_exec(&e, &pat) {
        None
    } else {
        Some(NspawnError::Unmount(stderr.to_owned()))
    }
}

/// What is left to do when a container is destroyed, given whether its root
/// still exists: nothing for a root that is gone, and else the unmounting of
/// the legacy mount points, best effort, before the tree is removed.
pub fn destroy_container(path: &str, exists: bool) -> (r: Option<Vec<String>>)
    ensures
        !exists ==> r is None,
        exists ==> (r matches Some(targets) && view_strs(targets@) == seq![
            joined(path@, "dev/shm"@),
            joined(path@, "dev/pts"@),
            joined(path@, "sys"@),
            joined(path@, "proc"@),
        ]),
{
    if exists {
        Some(unmount_targets(path))
    } else {
        None
    }
}

/// The program that creates the root at `path`; the caller creates the
/// directory, runs the program, and maps a failure with `bootstrap_failure`.
pub fn create_container(path: &str, distro: NspawnDistro, pacman_conf: &str) -> (r: Program)
    ensures
        (r.name@, view_strs(r.args@)) == bootstrap_spec(path@, distro, pacman_conf@),
{
    bootstrap_program(path, distro, pacman_conf)
}

/// A root that has been removed, or that is empty, is not ready.
pub proof fn lemma_removed_root_is_not_ready()
    ensures
        !ready(Seq::<Seq<char>>::empty()),
{
    let e = essential_dirs();
    assert(e.len() == 4);
    assert(!Seq::<Seq<char>>::empty().contains(e[0]));
}

/// A root that holds what `is_container_ready` asks for is ready whatever
/// else it holds.
pub proof fn lemma_ready_root(present: Seq<Seq<char>>)
    requires
        present.contains("bin"@),
        present.contains("usr"@),
        present.contains("etc"@),
        present.contains("var"@),
    ensures
        ready(present),
{
    let e = essential_dirs();
    assert(e.len() == 4);
    assert(e[0] == "bin"@ && e[1] == "usr"@ && e[2] == "etc"@ && e[3] == "var"@);
}

} // verus!
