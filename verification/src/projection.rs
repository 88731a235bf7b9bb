//! The projection of the registry of MCP servers into the configuration
//! file that the agent runtime reads in a mission directory.

use crate::text::{
    ascii_lower, ascii_lower_exec, chars_of, decimal, decimal_wide_exec, extend_chars, extend_str,
    join_path, joined, lemma_numeral_value_decimal, push_arg, push_pair, string_of, strings_contain,
    view_pairs, view_strs,
};
use crate::workspace::WorkspaceType;
use vstd::prelude::*;
use vstd::seq_lib::*;
use vstd::set_lib::*;

verus! {

// ---------------------------------------------------------------------------
// Keys
// ---------------------------------------------------------------------------

/// A character that a key keeps: an ASCII letter or digit, `_` or `-`.
pub open spec fn is_key_char(c: char) -> bool {
    ('a' <= c && c <= 'z') || ('A' <= c && c <= 'Z') || ('0' <= c && c <= '9') || c == '_' || c
        == '-'
}

/// What a kept character becomes in a key: letters turn small, and `-` turns
/// into `_`.
pub open spec fn key_char(c: char) -> char {
    if c == '-' {
        '_'
    } else {
        ascii_lower(c)
    }
}

/// The key made of a name: its key characters, mapped, in order.
pub open spec fn sanitized_key(name: Seq<char>) -> Seq<char>
    decreases name.len(),
{
    if name.len() == 0 {
        name
    } else if is_key_char(name.last()) {
        sanitized_key(name.drop_last()).push(key_char(name.last()))
    } else {
        sanitized_key(name.drop_last())
    }
}

/// Makes the key under which a server is written from its name.
pub fn sanitize_key(name: &str) -> (r: String)
    ensures
        r@ == sanitized_key(name@),
{
    let n = chars_of(name);
    let mut out: Vec<char> = Vec::new();
    let mut i: usize = 0;
    assert(sanitized_key(n@.take(0)) == Seq::<char>::empty());
    while i < n.len()
        invariant
            i <= n.len(),
            out@ == sanitized_key(n@.take(i as int)),
        decreases n.len() - i,
    {
        let c = n[i];
        assert(n@.take(i + 1).drop_last() == n@.take(i as int));
        assert(n@.take(i + 1).last() == c);
        if ('a' <= c && c <= 'z') || ('A' <= c && c <= 'Z') || ('0' <= c && c <= '9') || c == '_'
            || c == '-' {
            if c == '-' {
                out.push('_');
            } else {
                out.push(ascii_lower_exec(c));
            }
        }
        i = i + 1;
    }
    assert(n@.take(n@.len() as int) == n@);
    string_of(&out)
}

/// The key `base` with the number `i` behind it.
pub open spec fn numbered(base: Seq<char>, i: nat) -> Seq<char> {
    base + "_"@ + decimal(i)
}

/// Every key `base_2`, `base_3`, ... below `base_i` is among `used`.
pub open spec fn all_taken(used: Seq<Seq<char>>, base: Seq<char>, i: nat) -> bool {
    forall|j: nat| 2 <= j < i ==> used.contains(#[trigger] numbered(base, j))
}

/// The key given out for `base` where the keys `used` are taken: `base`
/// itself where it is free, and else `base` with the least number from 2 on
/// that makes a free key.
pub open spec fn is_unique_key(key: Seq<char>, base: Seq<char>, used: Seq<Seq<char>>) -> bool {
    if !used.contains(base) {
        key == base
    } else {
        exists|i: nat| 2 <= i && key == #[trigger] numbered(base, i) && !used.contains(key)
            && all_taken(used, base, i)
    }
}

proof fn lemma_numbered_differ(base: Seq<char>, i: nat, j: nat)
    requires
        numbered(base, i) == numbered(base, j),
    ensures
        i == j,
{
    let head = base + "_"@;
    assert(numbered(base, i).subrange(head.len() as int, numbered(base, i).len() as int)
        =~= decimal(i));
    assert(numbered(base, j).subrange(head.len() as int, numbered(base, j).len() as int)
        =~= decimal(j));
    lemma_numeral_value_decimal(i);
    lemma_numeral_value_decimal(j);
}

/// Gives out a key for `base` that is not among `used`, and adds it to
/// them: `base` itself where it is free, and else `base_2`, `base_3`, ...,
/// the first that is free.
pub fn unique_key(base: &str, used: &mut Vec<String>) -> (r: String)
    ensures
        is_unique_key(r@, base@, view_strs(old(used)@)),
        !view_strs(old(used)@).contains(r@),
        view_strs(final(used)@) == view_strs(old(used)@).push(r@),
{
    if !strings_contain(used, base) {
        push_arg(used, base);
        return base.to_owned();
    }
    let ghost taken = view_strs(used@);
    let ghost mut seen: Set<Seq<char>> = Set::empty();
    let mut i: u128 = 2;
    proof {
        taken.lemma_cardinality_of_set();
    }
    loop
        invariant
            2 <= i,
            used@ == old(used)@,
            taken == view_strs(used@),
            taken.contains(base@),
            all_taken(taken, base@, i as nat),
            seen.finite(),
            seen.len() == i - 2,
            seen.subset_of(taken.to_set()),
            taken.to_set().finite(),
            taken.to_set().len() <= taken.len(),
            forall|s: Seq<char>| #[trigger]
                seen.contains(s) ==> exists|j: nat| 2 <= j < i && s == numbered(base@, j),
        decreases taken.len() + 2 - i,
    {
        proof {
            lemma_len_subset(seen, taken.to_set());
        }
        let count: usize = used.len();
        let mut candidate = chars_of(base);
        extend_str(&mut candidate, "_");
        extend_chars(&mut candidate, &decimal_wide_exec(i));
        let text = string_of(&candidate);
        if !strings_contain(used, text.as_str()) {
            push_arg(used, text.as_str());
            assert(is_unique_key(text@, base@, taken)) by {
                assert(text@ == numbered(base@, i as nat));
            }
            return text;
        }
        proof {
            let c = numbered(base@, i as nat);
            assert(!seen.contains(c)) by {
                if seen.contains(c) {
                    let j = choose|j: nat| 2 <= j < i && c == numbered(base@, j);
                    lemma_numbered_differ(base@, i as nat, j);
                }
            }
            assert(taken.to_set().contains(c));
            let next = seen.insert(c);
            assert forall|s: Seq<char>| #[trigger] next.contains(s) implies exists|j: nat|
                2 <= j < i + 1 && s == numbered(base@, j) by {
                if s == c {
                    assert(2 <= (i as nat) < i + 1 && s == numbered(base@, i as nat));
                } else {
                    assert(seen.contains(s));
                    let j = choose|j: nat| 2 <= j < i && s == numbered(base@, j);
                    assert(2 <= j < i + 1 && s == numbered(base@, j));
                }
            }
            assert(next.subset_of(taken.to_set()));
            seen = next;
            lemma_len_subset(seen, taken.to_set());
            assert(seen.len() == i - 1);
            assert(seen.len() <= taken.to_set().len());
            assert(taken.len() == count);
            assert(i - 1 <= usize::MAX);
            assert forall|j: nat| 2 <= j < i + 1 implies taken.contains(
                #[trigger] numbered(base@, j),
            ) by {
                if j == i {
                } else {
                    assert(all_taken(taken, base@, i as nat));
                }
            }
        }
        i = i + 1;
    }
}

// ---------------------------------------------------------------------------
// Servers and entries
// ---------------------------------------------------------------------------

/// How an MCP server is reached.
#[derive(Debug, Clone, PartialEq, Eq)]
pub enum McpTransport {
    /// Over HTTP, at an endpoint, with headers.
    Http { endpoint: String, headers: Vec<(String, String)> },
    /// As a child process that talks over its standard streams.
    Stdio { command: String, args: Vec<String>, env: Vec<(String, String)> },
}

/// One MCP server of the registry.
#[derive(Debug, Clone, PartialEq, Eq)]
pub struct McpServerConfig {
    pub name: String,
    pub enabled: bool,
    pub transport: McpTransport,
}

/// Where the command of a server was found on this machine.
#[derive(Debug, Clone, Copy, PartialEq, Eq)]
pub struct CommandProbe {
    /// Whether `/usr/local/bin/<command>` exists.
    pub in_usr_local_bin: bool,
    /// Whether `/usr/bin/<command>` exists.
    pub in_usr_bin: bool,
}

/// The entry of one server in the configuration file.
#[derive(Debug, Clone, PartialEq, Eq)]
pub enum OpencodeEntry {
    /// `type: "http"`; `headers` is left out where it is empty.
    Http { endpoint: String, enabled: bool, headers: Vec<(String, String)> },
    /// `type: "local"`; the command with its arguments, and the environment.
    Local { command: Vec<String>, enabled: bool, environment: Vec<(String, String)> },
}

/// The mathematical value of an entry.
pub enum OpencodeEntryView {
    Http { endpoint: Seq<char>, enabled: bool, headers: Seq<(Seq<char>, Seq<char>)> },
    Local { command: Seq<Seq<char>>, enabled: bool, environment: Seq<(Seq<char>, Seq<char>)> },
}

impl View for OpencodeEntry {
    type V = OpencodeEntryView;

    open spec fn view(&self) -> OpencodeEntryView {
        match self {
            OpencodeEntry::Http { endpoint, enabled, headers } => OpencodeEntryView::Http {
                endpoint: endpoint@,
                enabled: *enabled,
                headers: view_pairs(headers@),
            },
            OpencodeEntry::Local { command, enabled, environment } => OpencodeEntryView::Local {
                command: view_strs(command@),
                enabled: *enabled,
                environment: view_pairs(environment@),
            },
        }
    }
}

/// The member of an entry that holds a map, by name: `headers` of a remote
/// server, `environment` of a local one. An empty map has no member: it is
/// left out of the file.
pub open spec fn map_member_of(entry: OpencodeEntryView) -> Option<
    (Seq<char>, Seq<(Seq<char>, Seq<char>)>),
> {
    match entry {
        OpencodeEntryView::Http { headers, .. } => if headers.len() == 0 {
            None
        } else {
            Some(("headers"@, headers))
        },
        OpencodeEntryView::Local { environment, .. } => if environment.len() == 0 {
            None
        } else {
            Some(("environment"@, environment))
        },
    }
}

/// The view of a named map.
pub open spec fn view_member(m: Option<(String, Vec<(String, String)>)>) -> Option<
    (Seq<char>, Seq<(Seq<char>, Seq<char>)>),
> {
    match m {
        Some(m) => Some((m.0@, view_pairs(m.1@))),
        None => None,
    }
}

impl OpencodeEntry {
    /// The map that is written with the entry, and the name of its member:
    /// none where the map is empty.
    pub fn map_member(&self) -> (r: Option<(String, Vec<(String, String)>)>)
        ensures
            view_member(r) == map_member_of(self@),
    {
        match self {
            OpencodeEntry::Http { headers, .. } => {
                if headers.len() == 0 {
                    None
                } else {
                    Some(("headers".to_owned(), clone_pairs(headers)))
                }
            },
            OpencodeEntry::Local { environment, .. } => {
                if environment.len() == 0 {
                    None
                } else {
                    Some(("environment".to_owned(), clone_pairs(environment)))
                }
            },
        }
    }
}

/// The path of the command of a server: the command itself where it holds a
/// slash, and else its place in `/usr/local/bin` or `/usr/bin`, in this
/// order, where it was found there.
pub open spec fn resolved_command(command: Seq<char>, probe: CommandProbe) -> Seq<char> {
    if command.contains('/') {
        command
    } else if probe.in_usr_local_bin {
        joined("/usr/local/bin"@, command)
    } else if probe.in_usr_bin {
        joined("/usr/bin"@, command)
    } else {
        command
    }
}

/// Resolves the command of a server to a path.
pub fn resolve_command_path(command: &str, probe: CommandProbe) -> (r: String)
    ensures
        r@ == resolved_command(command@, probe),
{
    let c = chars_of(command);
    let k = crate::text::index_of_char_exec(&c, '/', 0);
    proof {
        crate::text::lemma_index_of_char(c@, '/', 0);
        if c@.contains('/') {
            let w = choose|w: int| 0 <= w < c@.len() && c@[w] == '/';
            assert(k <= w);
        }
    }
    if k < c.len() {
        command.to_owned()
    } else if probe.in_usr_local_bin {
        join_path("/usr/local/bin", command)
    } else if probe.in_usr_bin {
        join_path("/usr/bin", command)
    } else {
        command.to_owned()
    }
}

/// Whether a list of pairs has an entry for `key`.
pub open spec fn has_key(pairs: Seq<(Seq<char>, Seq<char>)>, key: Seq<char>) -> bool {
    exists|i: int| 0 <= i < pairs.len() && (#[trigger] pairs[i]).0 == key
}

/// `pairs` with `(key, value)` added at the end unless `key` has an entry.
pub open spec fn with_default(
    pairs: Seq<(Seq<char>, Seq<char>)>,
    key: Seq<char>,
    value: Seq<char>,
) -> Seq<(Seq<char>, Seq<char>)> {
    if has_key(pairs, key) {
        pairs
    } else {
        pairs.push((key, value))
    }
}

/// The environment of a local server: its own, and the directory, root and
/// kind of the workspace under their names unless the server sets them
/// itself.
pub open spec fn merged_env(
    env: Seq<(Seq<char>, Seq<char>)>,
    workspace_dir: Seq<char>,
    workspace_root: Seq<char>,
    kind: WorkspaceType,
) -> Seq<(Seq<char>, Seq<char>)> {
    with_default(
        with_default(
            with_default(env, "OPEN_AGENT_WORKSPACE"@, workspace_dir),
            "OPEN_AGENT_WORKSPACE_ROOT"@,
            workspace_root,
        ),
        "OPEN_AGENT_WORKSPACE_TYPE"@,
        kind.name(),
    )
}

fn clone_pairs(v: &Vec<(String, String)>) -> (r: Vec<(String, String)>)
    ensures
        view_pairs(r@) == view_pairs(v@),
{
    let mut r: Vec<(String, String)> = Vec::new();
    let mut i: usize = 0;
    while i < v.len()
        invariant
            i <= v.len(),
            view_pairs(r@) =~= view_pairs(v@).take(i as int),
        decreases v.len() - i,
    {
        let ghost before = r@;
        r.push((v[i].0.clone(), v[i].1.clone()));
        assert(view_pairs(r@) =~= view_pairs(before).push((v@[i as int].0@, v@[i as int].1@)));
        assert(view_pairs(v@).take(i + 1) =~= view_pairs(v@).take(i as int).push(
            (v@[i as int].0@, v@[i as int].1@),
        ));
        i = i + 1;
    }
    assert(view_pairs(v@).take(v@.len() as int) == view_pairs(v@));
    r
}

fn add_default(pairs: &mut Vec<(String, String)>, key: &str, value: &str)
    ensures
        view_pairs(final(pairs)@) == with_default(view_pairs(old(pairs)@), key@, value@),
{
    let mut i: usize = 0;
    while i < pairs.len()
        invariant
            i <= pairs.len(),
            pairs@ == old(pairs)@,
            forall|j: int| 0 <= j < i ==> (#[trigger] view_pairs(pairs@)[j]).0 != key@,
        decreases pairs.len() - i,
    {
        if crate::text::str_eq(pairs[i].0.as_str(), key) {
            assert(view_pairs(pairs@)[i as int].0 == key@);
            return;
        }
        i = i + 1;
    }
    push_pair(pairs, key, value);
}

/// The entry of a server. `workspace_dir` is the mission directory,
/// `workspace_root` the root of the workspace.
pub open spec fn entry_of(
    config: McpServerConfig,
    workspace_dir: Seq<char>,
    workspace_root: Seq<char>,
    kind: WorkspaceType,
    probe: CommandProbe,
) -> OpencodeEntryView {
    match config.transport {
        McpTransport::Http { endpoint, headers } => OpencodeEntryView::Http {
            endpoint: endpoint@,
            enabled: config.enabled,
            headers: view_pairs(headers@),
        },
        McpTransport::Stdio { command, args, env } => OpencodeEntryView::Local {
            command: seq![resolved_command(command@, probe)] + view_strs(args@),
            enabled: config.enabled,
            environment: merged_env(view_pairs(env@), workspace_dir, workspace_root, kind),
        },
    }
}

/// Makes the entry of a server in the configuration file.
pub fn opencode_entry_from_mcp(
    config: &McpServerConfig,
    workspace_dir: &str,
    workspace_root: &str,
    workspace_type: WorkspaceType,
    probe: CommandProbe,
) -> (r: OpencodeEntry)
    ensures
        r@ == entry_of(*config, workspace_dir@, workspace_root@, workspace_type, probe),
{
    match &config.transport {
        McpTransport::Http { endpoint, headers } => OpencodeEntry::Http {
            endpoint: endpoint.clone(),
            enabled: config.enabled,
            headers: clone_pairs(headers),
        },
        McpTransport::Stdio { command, args, env } => {
            let mut cmd: Vec<String> = Vec::new();
            assert(view_strs(cmd@) =~= Seq::<Seq<char>>::empty());
            let path = resolve_command_path(command.as_str(), probe);
            push_arg(&mut cmd, path.as_str());
            let ghost first = view_strs(cmd@);
            assert(first =~= seq![resolved_command(command@, probe)]);
            let mut i: usize = 0;
            while i < args.len()
                invariant
                    i <= args.len(),
                    view_strs(cmd@) =~= first + view_strs(args@).take(i as int),
                decreases args.len() - i,
            {
                push_arg(&mut cmd, args[i].as_str());
                assert(view_strs(args@).take(i + 1) =~= view_strs(args@).take(i as int).push(
                    args@[i as int]@,
                ));
                i = i + 1;
            }
            assert(view_strs(args@).take(args@.len() as int) == view_strs(args@));
            let mut merged = clone_pairs(env);
            add_default(&mut merged, "OPEN_AGENT_WORKSPACE", workspace_dir);
            add_default(&mut merged, "OPEN_AGENT_WORKSPACE_ROOT", workspace_root);
            add_default(&mut merged, "OPEN_AGENT_WORKSPACE_TYPE", workspace_type.as_str());
            OpencodeEntry::Local { command: cmd, enabled: config.enabled, environment: merged }
        },
    }
}

/// The whole configuration file of a mission directory.
#[derive(Debug, Clone, PartialEq, Eq)]
pub struct OpencodeConfig {
    /// The value of `$schema`.
    pub schema: String,
    /// The enabled servers, each under its key, in the order of the
    /// registry.
    pub mcp: Vec<(String, OpencodeEntry)>,
    /// The `tools` section, as tool pattern and whether it is enabled;
    /// there is none for a host workspace.
    pub tools: Option<Vec<(String, bool)>>,
}

/// The address of the schema of the configuration file.
pub open spec fn schema_url() -> Seq<char> {
    "https://opencode.ai/config.json"@
}

/// The `tools` section of a container workspace: the built-in shell and the
/// browser tools are off, so that every command goes through the servers;
/// desktop, playwright and host tools are on.
pub open spec fn container_tools() -> Seq<(Seq<char>, bool)> {
    seq![
        ("bash"@, false),
        ("desktop_*"@, true),
        ("playwright_*"@, true),
        ("browser_*"@, false),
        ("host_*"@, true),
    ]
}

/// The views of a tools section.
pub open spec fn view_tools(v: Seq<(String, bool)>) -> Seq<(Seq<char>, bool)> {
    Seq::new(v.len(), |i: int| (v[i].0@, v[i].1))
}

/// The probe of the server at `i`, and no finding where none was made.
pub open spec fn probe_at(probes: Seq<CommandProbe>, i: int) -> CommandProbe {
    if 0 <= i < probes.len() {
        probes[i]
    } else {
        CommandProbe { in_usr_local_bin: false, in_usr_bin: false }
    }
}

/// The keys and entries of the first `n` servers: the enabled ones, each
/// under the key made of its name, made unique among the keys before it.
pub open spec fn projected(
    configs: Seq<McpServerConfig>,
    probes: Seq<CommandProbe>,
    workspace_dir: Seq<char>,
    workspace_root: Seq<char>,
    kind: WorkspaceType,
    keys: Seq<Seq<char>>,
    entries: Seq<OpencodeEntryView>,
    n: int,
) -> bool
    decreases n,
{
    if n <= 0 {
        keys.len() == 0 && entries.len() == 0
    } else if !configs[n - 1].enabled {
        projected(configs, probes, workspace_dir, workspace_root, kind, keys, entries, n - 1)
    } else {
        &&& keys.len() > 0
        &&& keys.len() == entries.len()
        &&& is_unique_key(keys.last(), sanitized_key(configs[n - 1].name@), keys.drop_last())
        &&& entries.last() == entry_of(
            configs[n - 1],
            workspace_dir,
            workspace_root,
            kind,
            probe_at(probes, n - 1),
        )
        &&& projected(
            configs,
            probes,
            workspace_dir,
            workspace_root,
            kind,
            keys.drop_last(),
            entries.drop_last(),
            n - 1,
        )
    }
}

/// The keys of the `mcp` section.
pub open spec fn mcp_keys(mcp: Seq<(String, OpencodeEntry)>) -> Seq<Seq<char>> {
    Seq::new(mcp.len(), |i: int| mcp[i].0@)
}

/// The entries of the `mcp` section.
pub open spec fn mcp_entries(mcp: Seq<(String, OpencodeEntry)>) -> Seq<OpencodeEntryView> {
    Seq::new(mcp.len(), |i: int| mcp[i].1@)
}

/// Makes the configuration file of a mission directory from the registry of
/// servers. A disabled server is left out. `probes` holds, for each server,
/// where its command was found.
pub fn opencode_config(
    configs: &Vec<McpServerConfig>,
    probes: &Vec<CommandProbe>,
    workspace_dir: &str,
    workspace_root: &str,
    workspace_type: WorkspaceType,
) -> (r: OpencodeConfig)
    ensures
        r.schema@ == schema_url(),
        projected(
            configs@,
            probes@,
            workspace_dir@,
            workspace_root@,
            workspace_type,
            mcp_keys(r.mcp@),
            mcp_entries(r.mcp@),
            configs@.len() as int,
        ),
        mcp_keys(r.mcp@).no_duplicates(),
        workspace_type == WorkspaceType::Host ==> r.tools is None,
        workspace_type == WorkspaceType::Chroot ==> (r.tools matches Some(t) && view_tools(t@)
            == container_tools()),
{
    let mut mcp: Vec<(String, OpencodeEntry)> = Vec::new();
    let mut used: Vec<String> = Vec::new();
    let mut i: usize = 0;
    assert(view_strs(used@) =~= mcp_keys(mcp@));
    while i < configs.len()
        invariant
            i <= configs.len(),
            view_strs(used@) == mcp_keys(mcp@),
            mcp_keys(mcp@).no_duplicates(),
            projected(
                configs@,
                probes@,
                workspace_dir@,
                workspace_root@,
                workspace_type,
                mcp_keys(mcp@),
                mcp_entries(mcp@),
                i as int,
            ),
        decreases configs.len() - i,
    {
        let config = &configs[i];
        if config.enabled {
            let probe = if i < probes.len() {
                probes[i]
            } else {
                CommandProbe { in_usr_local_bin: false, in_usr_bin: false }
            };
            let base = sanitize_key(config.name.as_str());
            let ghost keys_before = mcp_keys(mcp@);
            let ghost entries_before = mcp_entries(mcp@);
            let key = unique_key(base.as_str(), &mut used);
            let entry = opencode_entry_from_mcp(
                config,
                workspace_dir,
                workspace_root,
                workspace_type,
                probe,
            );
            mcp.push((key, entry));
            proof {
                assert(mcp_keys(mcp@) =~= keys_before.push(key@));
                assert(mcp_entries(mcp@) =~= entries_before.push(entry@));
                assert(mcp_keys(mcp@).drop_last() =~= keys_before);
                assert(mcp_entries(mcp@).drop_last() =~= entries_before);
                assert forall|a: int, b: int|
                    0 <= a < mcp_keys(mcp@).len() && 0 <= b < mcp_keys(mcp@).len() && a
                        != b implies mcp_keys(mcp@)[a] != mcp_keys(mcp@)[b] by {
                    if a < keys_before.len() && b < keys_before.len() {
                        assert(keys_before[a] != keys_before[b]);
                    } else if a < keys_before.len() {
                        assert(keys_before.contains(keys_before[a]));
                    } else {
                        assert(keys_before.contains(keys_before[b]));
                    }
                }
            }
        }
        i = i + 1;
    }
    let tools = match workspace_type {
        WorkspaceType::Host => None,
        WorkspaceType::Chroot => {
            let mut t: Vec<(String, bool)> = Vec::new();
            t.push(("bash".to_owned(), false));
            t.push(("desktop_*".to_owned(), true));
            t.push(("playwright_*".to_owned(), true));
            t.push(("browser_*".to_owned(), false));
            t.push(("host_*".to_owned(), true));
            assert(view_tools(t@) =~= container_tools());
            Some(t)
        },
    };
    OpencodeConfig { schema: "https://opencode.ai/config.json".to_owned(), mcp, tools }
}

/// The two places of the configuration file in a mission directory: the
/// directory itself, and `.opencode` in it.
pub fn opencode_config_paths(workspace_dir: &str) -> (r: Vec<String>)
    ensures
        view_strs(r@) == seq![
            joined(workspace_dir@, "opencode.json"@),
            joined(joined(workspace_dir@, ".opencode"@), "opencode.json"@),
        ],
{
    let mut out: Vec<String> = Vec::new();
    assert(view_strs(out@) =~= Seq::<Seq<char>>::empty());
    let a = join_path(workspace_dir, "opencode.json");
    push_arg(&mut out, a.as_str());
    let dir = join_path(workspace_dir, ".opencode");
    let b = join_path(dir.as_str(), "opencode.json");
    push_arg(&mut out, b.as_str());
    assert(view_strs(out@) =~= seq![
        joined(workspace_dir@, "opencode.json"@),
        joined(joined(workspace_dir@, ".opencode"@), "opencode.json"@),
    ]);
    out
}

/// At most one key is the unique key for a base among given keys.
pub proof fn lemma_unique_key_determined(
    a: Seq<char>,
    b: Seq<char>,
    base: Seq<char>,
    used: Seq<Seq<char>>,
)
    requires
        is_unique_key(a, base, used),
        is_unique_key(b, base, used),
    ensures
        a == b,
{
    if used.contains(base) {
        let i = choose|i: nat| 2 <= i && a == #[trigger] numbered(base, i) && !used.contains(a)
            && all_taken(used, base, i);
        let j = choose|j: nat| 2 <= j && b == #[trigger] numbered(base, j) && !used.contains(b)
            && all_taken(used, base, j);
        if i < j {
            assert(used.contains(numbered(base, i)));
        } else if j < i {
            assert(used.contains(numbered(base, j)));
        }
    }
}

/// The projection of a registry is determined by the registry, the probes
/// and the workspace: preparing a mission directory twice from the same
/// inputs writes the same configuration.
pub proof fn lemma_projection_determined(
    configs: Seq<McpServerConfig>,
    probes: Seq<CommandProbe>,
    workspace_dir: Seq<char>,
    workspace_root: Seq<char>,
    kind: WorkspaceType,
    keys1: Seq<Seq<char>>,
    entries1: Seq<OpencodeEntryView>,
    keys2: Seq<Seq<char>>,
    entries2: Seq<OpencodeEntryView>,
    n: int,
)
    requires
        projected(configs, probes, workspace_dir, workspace_root, kind, keys1, entries1, n),
        projected(configs, probes, workspace_dir, workspace_root, kind, keys2, entries2, n),
    ensures
        keys1 == keys2,
        entries1 == entries2,
    decreases n,
{
    if n <= 0 {
        assert(keys1 =~= keys2);
        assert(entries1 =~= entries2);
    } else if !configs[n - 1].enabled {
        lemma_projection_determined(
            configs,
            probes,
            workspace_dir,
            workspace_root,
            kind,
            keys1,
            entries1,
            keys2,
            entries2,
            n - 1,
        );
    } else {
        lemma_projection_determined(
            configs,
            probes,
            workspace_dir,
            workspace_root,
            kind,
            keys1.drop_last(),
            entries1.drop_last(),
            keys2.drop_last(),
            entries2.drop_last(),
            n - 1,
        );
        lemma_unique_key_determined(
            keys1.last(),
            keys2.last(),
            sanitized_key(configs[n - 1].name@),
            keys1.drop_last(),
        );
        assert(keys1 =~= keys1.drop_last().push(keys1.last()));
        assert(keys2 =~= keys2.drop_last().push(keys2.last()));
        assert(entries1 =~= entries1.drop_last().push(entries1.last()));
        assert(entries2 =~= entries2.drop_last().push(entries2.last()));
    }
}

} // verus!
