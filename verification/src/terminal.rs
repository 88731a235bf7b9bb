//! Running shell commands for the agent.
//!
//! The caller spawns the process and waits for it. This module decides what
//! may run, with which options, through which program, and how the output is
//! handed back.

use crate::json::{
    bool_field, json_bool_field, json_members, json_str_field, json_u64_field, members, str_field,
    u64_field, view_members,
};
use crate::text::{
    chars_of, decimal, decimal_exec, extend_chars, extend_str, is_absolute, is_blank, is_blank_exec,
    join2, join3, join_path, joined, push_arg, push_joined, slice_chars, starts_with, starts_with_exec,
    str_eq, string_of, trim, trim_exec, view_opt, view_opt_str, view_pairs, view_strs,
};
use vstd::prelude::*;

verus! {

// ---------------------------------------------------------------------------
// The denylist
// ---------------------------------------------------------------------------

/// The command patterns that are never run, each with the advice given in
/// its place. They scan the whole file system or destroy it.
pub open spec fn dangerous_patterns() -> Seq<(Seq<char>, Seq<char>)> {
    seq![
        ("find /"@, "Use 'find /root/work/' or a specific directory path"@),
        ("find / "@, "Use 'find /root/work/' or a specific directory path"@),
        ("grep -r /"@, "Use 'grep -r /root/' or a specific directory path"@),
        ("grep -rn /"@, "Use 'grep -rn /root/' or a specific directory path"@),
        ("grep -R /"@, "Use 'grep -R /root/' or a specific directory path"@),
        ("ls -laR /"@, "Use a specific directory path instead of root"@),
        ("du -sh /"@, "Use a specific directory path instead of root"@),
        ("du -a /"@, "Use a specific directory path instead of root"@),
        ("rm -rf /"@, "This would destroy the entire system"@),
        ("rm -rf /*"@, "This would destroy the entire system"@),
        ("> /dev/"@, "Writing to device files is blocked"@),
        ("dd if=/dev/"@, "Direct disk operations are blocked"@),
    ]
}

/// The words that may stand before a command without hiding it.
pub open spec fn command_prefixes() -> Seq<Seq<char>> {
    seq!["sudo "@, "time "@, "nice "@, "nohup "@]
}

/// `cmd` begins with `prefix` and goes on with `pattern`.
pub open spec fn starts_with_after(cmd: Seq<char>, prefix: Seq<char>, pattern: Seq<char>) -> bool {
    starts_with(cmd, prefix) && starts_with(cmd.subrange(prefix.len() as int, cmd.len() as int), pattern)
}

/// The trimmed command `cmd` begins with `pattern`, directly or after one of
/// the prefixes.
pub open spec fn hits(cmd: Seq<char>, pattern: Seq<char>) -> bool {
    starts_with(cmd, pattern) || exists|i: int|
        0 <= i < command_prefixes().len() && starts_with_after(
            cmd,
            #[trigger] command_prefixes()[i],
            pattern,
        )
}

/// The first entry of `table` that the trimmed command `cmd` hits.
pub open spec fn first_hit(cmd: Seq<char>, table: Seq<(Seq<char>, Seq<char>)>) -> Option<
    (Seq<char>, Seq<char>),
>
    decreases table.len(),
{
    if table.len() == 0 {
        None
    } else if hits(cmd, table[0].0) {
        Some(table[0])
    } else {
        first_hit(cmd, table.drop_first())
    }
}

/// The message for a command that hits a pattern.
pub open spec fn blocked_message(entry: (Seq<char>, Seq<char>)) -> Seq<char> {
    "Blocked dangerous command pattern '"@ + entry.0 + "'. "@ + entry.1
}

/// The verdict on a command: the message of the first pattern it hits, or
/// nothing.
pub open spec fn command_verdict(cmd: Seq<char>) -> Option<Seq<char>> {
    match first_hit(trim(cmd), dangerous_patterns()) {
        Some(entry) => Some(blocked_message(entry)),
        None => None,
    }
}

fn dangerous_patterns_exec() -> (r: Vec<(String, String)>)
    ensures
        view_pairs(r@) == dangerous_patterns(),
{
    let mut t: Vec<(String, String)> = Vec::new();
    assert(view_pairs(t@) =~= Seq::<(Seq<char>, Seq<char>)>::empty());
    crate::text::push_pair(&mut t, "find /", "Use 'find /root/work/' or a specific directory path");
    crate::text::push_pair(
        &mut t,
        "find / ",
        "Use 'find /root/work/' or a specific directory path",
    );
    crate::text::push_pair(&mut t, "grep -r /", "Use 'grep -r /root/' or a specific directory path");
    crate::text::push_pair(
        &mut t,
        "grep -rn /",
        "Use 'grep -rn /root/' or a specific directory path",
    );
    crate::text::push_pair(&mut t, "grep -R /", "Use 'grep -R /root/' or a specific directory path");
    crate::text::push_pair(&mut t, "ls -laR /", "Use a specific directory path instead of root");
    crate::text::push_pair(&mut t, "du -sh /", "Use a specific directory path instead of root");
    crate::text::push_pair(&mut t, "du -a /", "Use a specific directory path instead of root");
    crate::text::push_pair(&mut t, "rm -rf /", "This would destroy the entire system");
    crate::text::push_pair(&mut t, "rm -rf /*", "This would destroy the entire system");
    crate::text::push_pair(&mut t, "> /dev/", "Writing to device files is blocked");
    crate::text::push_pair(&mut t, "dd if=/dev/", "Direct disk operations are blocked");
    assert(view_pairs(t@) =~= dangerous_patterns());
    t
}

fn hits_exec(cmd: &Vec<char>, pattern: &Vec<char>) -> (r: bool)
    ensures
        r == hits(cmd@, pattern@),
{
    if starts_with_exec(cmd, pattern) {
        return true;
    }
    let mut prefixes: Vec<String> = Vec::new();
    assert(view_strs(prefixes@) =~= Seq::<Seq<char>>::empty());
    push_arg(&mut prefixes, "sudo ");
    push_arg(&mut prefixes, "time ");
    push_arg(&mut prefixes, "nice ");
    push_arg(&mut prefixes, "nohup ");
    assert(view_strs(prefixes@) =~= command_prefixes());
    let mut i: usize = 0;
    while i < prefixes.len()
        invariant
            i <= prefixes.len(),
            view_strs(prefixes@) == command_prefixes(),
            !starts_with(cmd@, pattern@),
            forall|j: int|
                0 <= j < i ==> !starts_with_after(cmd@, #[trigger] command_prefixes()[j], pattern@),
        decreases prefixes.len() - i,
    {
        let p = chars_of(prefixes[i].as_str());
        assert(p@ == view_strs(prefixes@)[i as int]);
        if starts_with_exec(cmd, &p) {
            let rest = slice_chars(cmd, p.len(), cmd.len());
            if starts_with_exec(&rest, pattern) {
                assert(starts_with_after(cmd@, command_prefixes()[i as int], pattern@));
                return true;
            }
        }
        i = i + 1;
    }
    false
}

/// Checks a command against the denylist. A command that, trimmed, begins
/// with a dangerous pattern, also behind `sudo`, `time`, `nice` or `nohup`,
/// is turned down with the pattern and the advice for it; nothing is run.
pub fn validate_command(cmd: &str) -> (r: Result<(), String>)
    ensures
        match r {
            Ok(_) => command_verdict(cmd@) is None,
            Err(m) => command_verdict(cmd@) == Some(m@),
        },
{
    let c = chars_of(cmd);
    let trimmed = trim_exec(&c);
    let table = dangerous_patterns_exec();
    let mut i: usize = 0;
    assert(view_pairs(table@).skip(0) == view_pairs(table@));
    while i < table.len()
        invariant
            i <= table.len(),
            trimmed@ == trim(cmd@),
            view_pairs(table@) == dangerous_patterns(),
            first_hit(trimmed@, dangerous_patterns()) == first_hit(
                trimmed@,
                view_pairs(table@).skip(i as int),
            ),
        decreases table.len() - i,
    {
        let pattern = chars_of(table[i].0.as_str());
        assert(view_pairs(table@).skip(i as int)[0] == (table@[i as int].0@, table@[i as int].1@));
        assert(view_pairs(table@).skip(i as int).drop_first() == view_pairs(table@).skip(i + 1));
        if hits_exec(&trimmed, &pattern) {
            let mut out = chars_of("Blocked dangerous command pattern '");
            extend_chars(&mut out, &pattern);
            extend_str(&mut out, "'. ");
            extend_str(&mut out, table[i].1.as_str());
            return Err(string_of(&out));
        }
        i = i + 1;
    }
    Ok(())
}

// ---------------------------------------------------------------------------
// Output
// ---------------------------------------------------------------------------

/// A byte that does not belong in text: a control character other than line
/// feed, carriage return and tab.
pub open spec fn is_non_printable(b: u8) -> bool {
    b < 0x20 && b != 0x0a && b != 0x0d && b != 0x09
}

/// The number of bytes of `bytes` that do not belong in text.
pub open spec fn non_printable_count(bytes: Seq<u8>) -> nat
    decreases bytes.len(),
{
    if bytes.len() == 0 {
        0
    } else {
        non_printable_count(bytes.drop_last()) + if is_non_printable(bytes.last()) {
            1nat
        } else {
            0nat
        }
    }
}

/// Output counts as binary where it is longer than 100 bytes and more than a
/// tenth of it does not belong in text.
pub open spec fn looks_binary(bytes: Seq<u8>) -> bool {
    bytes.len() > 100 && non_printable_count(bytes) > bytes.len() / 10
}

/// The summary given in place of binary output.
pub open spec fn binary_summary(len: nat, count: nat) -> Seq<char> {
    "[Binary output detected - "@ + decimal(len) + " bytes, "@ + decimal(count * 100 / len)
        + "% non-printable. Use appropriate tools to process binary data.]"@
}

/// A control character: U+0000 to U+001F, and U+007F to U+009F.
pub open spec fn is_control(c: char) -> bool {
    let u = c as u32;
    u <= 0x1f || (0x7f <= u && u <= 0x9f)
}

/// A character that is kept in text output: line feed, carriage return, tab,
/// and every character that is no control character. The replacement
/// character, which stands for bytes that were no valid UTF-8, is kept.
pub open spec fn keeps(c: char) -> bool {
    c == '\n' || c == '\r' || c == '\t' || !is_control(c)
}

/// `s` without the characters that are not kept.
pub open spec fn kept(s: Seq<char>) -> Seq<char>
    decreases s.len(),
{
    if s.len() == 0 {
        s
    } else if keeps(s.last()) {
        kept(s.drop_last()).push(s.last())
    } else {
        kept(s.drop_last())
    }
}

/// The text that lossy UTF-8 decoding makes of bytes: valid sequences as
/// their characters, every invalid one as the replacement character.
pub uninterp spec fn utf8_lossy(bytes: Seq<u8>) -> Seq<char>;

/// `String::from_utf8_lossy` of the standard library.
#[verifier::external_body]
pub(crate) fn decode_lossy(bytes: &Vec<u8>) -> (r: String)
    ensures
        r@ == utf8_lossy(bytes@),
{
    String::from_utf8_lossy(bytes).into_owned()
}

/// What is handed back for the output `bytes` of a command.
pub open spec fn sanitized_output(bytes: Seq<u8>) -> Seq<char> {
    if looks_binary(bytes) {
        binary_summary(bytes.len(), non_printable_count(bytes))
    } else {
        kept(utf8_lossy(bytes))
    }
}

/// Counts the bytes that do not belong in text.
pub fn count_non_printable(bytes: &Vec<u8>) -> (n: usize)
    ensures
        n == non_printable_count(bytes@),
        n <= bytes.len(),
{
    let mut n: usize = 0;
    let mut i: usize = 0;
    while i < bytes.len()
        invariant
            i <= bytes.len(),
            n <= i,
            n == non_printable_count(bytes@.take(i as int)),
        decreases bytes.len() - i,
    {
        let b = bytes[i];
        assert(bytes@.take(i + 1).drop_last() == bytes@.take(i as int));
        assert(bytes@.take(i + 1).last() == b);
        if b < 0x20 && b != 0x0a && b != 0x0d && b != 0x09 {
            n = n + 1;
        }
        i = i + 1;
    }
    assert(bytes@.take(bytes@.len() as int) == bytes@);
    n
}

/// Removes from decoded output the control characters other than line feed,
/// carriage return and tab. Every other character stays, in order.
pub fn clean_text(text: &str) -> (r: String)
    ensures
        r@ == kept(text@),
{
    let t = chars_of(text);
    let mut out: Vec<char> = Vec::new();
    let mut i: usize = 0;
    assert(kept(t@.take(0)) == Seq::<char>::empty());
    while i < t.len()
        invariant
            i <= t.len(),
            out@ == kept(t@.take(i as int)),
        decreases t.len() - i,
    {
        let ch = t[i];
        assert(t@.take(i + 1).drop_last() == t@.take(i as int));
        assert(t@.take(i + 1).last() == ch);
        let u: u32 = ch as u32;
        if ch == '\n' || ch == '\r' || ch == '\t' || !(u <= 0x1f || (0x7f <= u && u <= 0x9f)) {
            out.push(ch);
        }
        i = i + 1;
    }
    assert(t@.take(t@.len() as int) == t@);
    string_of(&out)
}

/// Writes the summary that stands for binary output of `len` bytes, `count`
/// of them not text.
pub fn binary_summary_text(len: usize, count: usize) -> (r: String)
    requires
        len > 0,
        count <= len,
    ensures
        r@ == binary_summary(len as nat, count as nat),
{
    let mut out = chars_of("[Binary output detected - ");
    extend_chars(&mut out, &decimal_exec(len as u64));
    extend_str(&mut out, " bytes, ");
    assert((count as int) * 100 / (len as int) <= 100) by (nonlinear_arith)
        requires
            0 <= count <= len,
            len > 0,
    ;
    let percent: u64 = ((count as u128) * 100 / (len as u128)) as u64;
    extend_chars(&mut out, &decimal_exec(percent));
    extend_str(&mut out, "% non-printable. Use appropriate tools to process binary data.]");
    string_of(&out)
}

/// Makes the output of a command fit for a reader of text: binary output
/// collapses to a summary; other output is decoded, each invalid byte
/// sequence replaced by the replacement character, and stripped of control
/// characters other than line feed, carriage return and tab.
pub fn sanitize_output(bytes: &Vec<u8>) -> (r: String)
    ensures
        r@ == sanitized_output(bytes@),
{
    let count = count_non_printable(bytes);
    if bytes.len() > 100 && count > bytes.len() / 10 {
        return binary_summary_text(bytes.len(), count);
    }
    let text = decode_lossy(bytes);
    clean_text(text.as_str())
}

/// The text of a signed number.
pub open spec fn signed_decimal(n: int) -> Seq<char> {
    if n < 0 {
        "-"@ + decimal((-n) as nat)
    } else {
        decimal(n as nat)
    }
}

/// The report of a finished command. `raw` gives standard output and
/// standard error alone, a line break between them where both are there;
/// otherwise the exit code comes first, with a note where output was made in
/// spite of a failure status, and each stream under its heading.
pub open spec fn report(stdout: Seq<char>, stderr: Seq<char>, exit_code: int, raw: bool) -> Seq<
    char,
> {
    if raw {
        stdout + (if stdout.len() > 0 && stderr.len() > 0 {
            "\n"@
        } else {
            Seq::<char>::empty()
        }) + stderr
    } else {
        "Exit code: "@ + signed_decimal(exit_code) + "\n"@ + (if exit_code != 0 && stdout.len()
            > 0 {
            "Note: Non-zero exit code but output was produced. The command may have succeeded with warnings - verify output files exist.\n"@
        } else {
            Seq::<char>::empty()
        }) + (if stdout.len() > 0 {
            "\n--- stdout ---\n"@ + stdout
        } else {
            Seq::<char>::empty()
        }) + (if stderr.len() > 0 {
            "\n--- stderr ---\n"@ + stderr
        } else {
            Seq::<char>::empty()
        })
    }
}

/// The first `max` characters of `s` and a note, where `s` is longer.
pub open spec fn truncated(s: Seq<char>, max: nat) -> Seq<char> {
    if s.len() > max {
        s.subrange(0, max as int) + "\n... [output truncated]"@
    } else {
        s
    }
}

/// Writes the report of a finished command. A command that a signal ended
/// has no exit code and is reported with -1.
pub fn format_report(stdout: &str, stderr: &str, exit_code: Option<i32>, raw: bool) -> (r: String)
    ensures
        r@ == report(
            stdout@,
            stderr@,
            match exit_code {
                Some(c) => c as int,
                None => -1,
            },
            raw,
        ),
{
    let o = chars_of(stdout);
    let e = chars_of(stderr);
    let code: i32 = match exit_code {
        Some(c) => c,
        None => -1,
    };
    let mut out: Vec<char> = Vec::new();
    if raw {
        extend_chars(&mut out, &o);
        if o.len() > 0 && e.len() > 0 {
            extend_str(&mut out, "\n");
        }
        extend_chars(&mut out, &e);
        assert(out@ =~= report(stdout@, stderr@, code as int, raw));
    } else {
        extend_str(&mut out, "Exit code: ");
        if code < 0 {
            extend_str(&mut out, "-");
            let magnitude: u64 = (-(code as i64)) as u64;
            extend_chars(&mut out, &decimal_exec(magnitude));
        } else {
            extend_chars(&mut out, &decimal_exec(code as u64));
        }
        extend_str(&mut out, "\n");
        if code != 0 && o.len() > 0 {
            extend_str(
                &mut out,
                "Note: Non-zero exit code but output was produced. The command may have succeeded with warnings - verify output files exist.\n",
            );
        }
        if o.len() > 0 {
            extend_str(&mut out, "\n--- stdout ---\n");
            extend_chars(&mut out, &o);
        }
        if e.len() > 0 {
            extend_str(&mut out, "\n--- stderr ---\n");
            extend_chars(&mut out, &e);
        }
        assert(out@ =~= report(stdout@, stderr@, code as int, raw));
    }
    string_of(&out)
}

/// Cuts a report down to `max` characters, with a note that it was cut.
pub fn truncate_output(text: &str, max: usize) -> (r: String)
    ensures
        r@ == truncated(text@, max as nat),
{
    let t = chars_of(text);
    if t.len() > max {
        let mut out = slice_chars(&t, 0, max);
        extend_str(&mut out, "\n... [output truncated]");
        string_of(&out)
    } else {
        string_of(&t)
    }
}

// ---------------------------------------------------------------------------
// Options
// ---------------------------------------------------------------------------

/// Characters of output handed back where the caller names no limit.
pub const DEFAULT_MAX_OUTPUT_CHARS: usize = 10000;

/// The greatest limit on the characters of output.
pub const MAX_OUTPUT_CHARS_LIMIT: usize = 50000;

/// Seconds allowed to a command where the caller names no timeout.
pub const DEFAULT_TIMEOUT_SECS: u64 = 60;

/// A span of time in whole seconds and nanoseconds.
#[derive(Debug, Clone, Copy, PartialEq, Eq)]
pub struct Timeout {
    pub secs: u64,
    pub nanos: u32,
}

impl Timeout {
    /// The span in nanoseconds.
    pub open spec fn total_nanos(self) -> nat {
        (self.secs as nat) * 1_000_000_000 + self.nanos as nat
    }

    /// The nanoseconds stay under one second.
    pub open spec fn wf(self) -> bool {
        self.nanos < 1_000_000_000
    }

    /// A span of `ms` milliseconds.
    pub fn from_millis(ms: u64) -> (t: Timeout)
        ensures
            t.wf(),
            t.total_nanos() == (ms as nat) * 1_000_000,
    {
        let secs = ms / 1000;
        let nanos: u32 = ((ms % 1000) * 1_000_000) as u32;
        assert(((ms / 1000) as nat) * 1_000_000_000 + ((ms % 1000) * 1_000_000) as nat == (
        ms as nat) * 1_000_000) by (nonlinear_arith);
        Timeout { secs, nanos }
    }

    /// A span of `secs` seconds.
    pub fn from_secs(secs: u64) -> (t: Timeout)
        ensures
            t == (Timeout { secs, nanos: 0 }),
    {
        Timeout { secs, nanos: 0 }
    }
}

/// The timeout of a command. Milliseconds win over whole seconds, these over
/// a fractional number of seconds; each of the first two is raised to 1
/// where it is 0. `fractional` is the span that the caller made of a
/// positive fractional `timeout`. The default is 60 seconds.
pub open spec fn chosen_timeout(
    timeout_ms: Option<u64>,
    timeout_secs: Option<u64>,
    fractional: Option<Timeout>,
) -> Timeout {
    match timeout_ms {
        Some(ms) => {
            let m = if ms < 1 {
                1
            } else {
                ms
            };
            Timeout { secs: m / 1000, nanos: ((m % 1000) * 1_000_000) as u32 }
        },
        None => match timeout_secs {
            Some(s) => Timeout {
                secs: if s < 1 {
                    1
                } else {
                    s
                },
                nanos: 0,
            },
            None => match fractional {
                Some(t) => t,
                None => Timeout { secs: DEFAULT_TIMEOUT_SECS, nanos: 0 },
            },
        },
    }
}

/// Chooses the timeout from what the arguments hold.
pub fn choose_timeout(
    timeout_ms: Option<u64>,
    timeout_secs: Option<u64>,
    fractional: Option<Timeout>,
) -> (r: Timeout)
    ensures
        r == chosen_timeout(timeout_ms, timeout_secs, fractional),
{
    match timeout_ms {
        Some(ms) => {
            let m = if ms < 1 {
                1
            } else {
                ms
            };
            Timeout::from_millis(m)
        },
        None => match timeout_secs {
            Some(s) => Timeout::from_secs(
                if s < 1 {
                    1
                } else {
                    s
                },
            ),
            None => match fractional {
                Some(t) => t,
                None => Timeout::from_secs(DEFAULT_TIMEOUT_SECS),
            },
        },
    }
}

/// The limit on the characters of output for a requested one: at least 1, at
/// most 50 000, and 10 000 where none is asked for.
pub open spec fn output_limit(requested: Option<u64>) -> usize {
    match requested {
        None => DEFAULT_MAX_OUTPUT_CHARS,
        Some(n) => if n < 1 {
            1
        } else if n > MAX_OUTPUT_CHARS_LIMIT {
            MAX_OUTPUT_CHARS_LIMIT
        } else {
            n as usize
        },
    }
}

pub fn clamp_output_limit(requested: Option<u64>) -> (r: usize)
    ensures
        r == output_limit(requested),
        1 <= r <= MAX_OUTPUT_CHARS_LIMIT,
{
    match requested {
        None => DEFAULT_MAX_OUTPUT_CHARS,
        Some(n) => {
            if n < 1 {
                1
            } else if n > 50000 {
                MAX_OUTPUT_CHARS_LIMIT
            } else {
                n as usize
            }
        },
    }
}

/// The members of an object that hold a string, as pairs of name and value,
/// in order.
pub open spec fn string_members(ms: Seq<(Seq<char>, Option<Seq<char>>)>) -> Seq<
    (Seq<char>, Seq<char>),
>
    decreases ms.len(),
{
    if ms.len() == 0 {
        Seq::empty()
    } else {
        match ms.last().1 {
            Some(v) => string_members(ms.drop_last()).push((ms.last().0, v)),
            None => string_members(ms.drop_last()),
        }
    }
}

/// Keeps the members of an object whose value is a string: the environment
/// variables of a command.
pub fn env_from_members(ms: Vec<(String, Option<String>)>) -> (r: Vec<(String, String)>)
    ensures
        view_pairs(r@) == string_members(view_members(ms@)),
{
    let mut out: Vec<(String, String)> = Vec::new();
    let mut i: usize = 0;
    let ghost all = view_members(ms@);
    assert(view_pairs(out@) =~= string_members(all.take(0)));
    while i < ms.len()
        invariant
            i <= ms.len(),
            all == view_members(ms@),
            view_pairs(out@) == string_members(all.take(i as int)),
        decreases ms.len() - i,
    {
        assert(all.take(i + 1).drop_last() == all.take(i as int));
        assert(all.take(i + 1).last() == all[i as int]);
        let ghost before = out@;
        match &ms[i].1 {
            Some(v) => {
                out.push((ms[i].0.clone(), v.clone()));
                assert(view_pairs(out@) =~= view_pairs(before).push((ms@[i as int].0@, v@)));
            },
            None => {},
        }
        i = i + 1;
    }
    assert(all.take(all.len() as int) == all);
    out
}

/// The options of one command.
#[derive(Debug, Clone, PartialEq, Eq)]
pub struct CommandOptions {
    pub timeout: Timeout,
    /// Environment variables set for the command.
    pub env: Vec<(String, String)>,
    /// Whether the environment is cleared first.
    pub clear_env: bool,
    /// Text written to the command's standard input.
    pub stdin: Option<String>,
    /// The shell asked for.
    pub shell: Option<String>,
    pub max_output_chars: usize,
    /// Whether the output is handed back without exit code and headings.
    pub raw_output: bool,
}

/// The mathematical value of the options.
pub struct CommandOptionsView {
    pub timeout: Timeout,
    pub env: Seq<(Seq<char>, Seq<char>)>,
    pub clear_env: bool,
    pub stdin: Option<Seq<char>>,
    pub shell: Option<Seq<char>>,
    pub max_output_chars: usize,
    pub raw_output: bool,
}

impl View for CommandOptions {
    type V = CommandOptionsView;

    open spec fn view(&self) -> CommandOptionsView {
        CommandOptionsView {
            timeout: self.timeout,
            env: view_pairs(self.env@),
            clear_env: self.clear_env,
            stdin: view_opt(self.stdin),
            shell: view_opt(self.shell),
            max_output_chars: self.max_output_chars,
            raw_output: self.raw_output,
        }
    }
}

/// A boolean option that is off where it is absent.
pub open spec fn flag(value: Option<bool>) -> bool {
    value == Some(true)
}

/// The options that the JSON object `args` asks for.
pub open spec fn options_of(args: Seq<char>, fractional: Option<Timeout>) -> CommandOptionsView {
    CommandOptionsView {
        timeout: chosen_timeout(
            json_u64_field(args, "timeout_ms"@),
            json_u64_field(args, "timeout_secs"@),
            fractional,
        ),
        env: string_members(json_members(args, "env"@)),
        clear_env: flag(json_bool_field(args, "clear_env"@)),
        stdin: json_str_field(args, "stdin"@),
        shell: json_str_field(args, "shell"@),
        max_output_chars: output_limit(json_u64_field(args, "max_output_chars"@)),
        raw_output: flag(json_bool_field(args, "raw"@)),
    }
}

fn flag_exec(value: Option<bool>) -> (r: bool)
    ensures
        r == flag(value),
{
    match value {
        Some(b) => b,
        None => false,
    }
}

/// Reads the options of a command from its arguments, a JSON object.
/// `fractional` is the span that the caller made of the member `timeout`
/// where that is a positive number.
pub fn parse_command_options(args: &str, fractional: Option<Timeout>) -> (r: CommandOptions)
    ensures
        r@ == options_of(args@, fractional),
{
    let timeout = choose_timeout(
        u64_field(args, "timeout_ms"),
        u64_field(args, "timeout_secs"),
        fractional,
    );
    let env = env_from_members(members(args, "env"));
    let clear_env = flag_exec(bool_field(args, "clear_env"));
    let stdin = str_field(args, "stdin");
    let shell = str_field(args, "shell");
    let max_output_chars = clamp_output_limit(u64_field(args, "max_output_chars"));
    let raw_output = flag_exec(bool_field(args, "raw"));
    CommandOptions { timeout, env, clear_env, stdin, shell, max_output_chars, raw_output }
}

// ---------------------------------------------------------------------------
// Where a command runs
// ---------------------------------------------------------------------------

/// The path itself where it is absolute, and else the path under the working
/// directory.
pub fn resolve_path(path: &str, working_dir: &str) -> (r: String)
    ensures
        r@ == joined(working_dir@, path@),
{
    join_path(working_dir, path)
}

/// The path at which a shell is looked for: inside the container root for a
/// command that runs in a container, and else as it is.
pub open spec fn shell_location(shell: Seq<char>, container_root: Option<Seq<char>>) -> Seq<char> {
    match container_root {
        Some(root) => joined(
            root,
            if is_absolute(shell) {
                shell.subrange(1, shell.len() as int)
            } else {
                shell
            },
        ),
        None => shell,
    }
}

/// The path whose existence says whether a shell is there.
pub fn shell_probe_path(shell: &str, container_root: Option<&str>) -> (r: String)
    ensures
        r@ == shell_location(
            shell@,
            match container_root {
                Some(root) => Some(root@),
                None => None,
            },
        ),
{
    match container_root {
        Some(root) => {
            let s = chars_of(shell);
            let rel = if s.len() > 0 && s[0] == '/' {
                slice_chars(&s, 1, s.len())
            } else {
                s
            };
            let rel_text = string_of(&rel);
            join_path(root, rel_text.as_str())
        },
        None => shell.to_owned(),
    }
}

/// The shell that runs a command: the one asked for where it exists, else
/// `/bin/sh` where that exists, else the one asked for after all; `/bin/sh`
/// where none is asked for.
pub open spec fn resolved_shell(requested: Option<Seq<char>>, requested_exists: bool, sh_exists: bool) -> Seq<
    char,
> {
    match requested {
        Some(shell) => if requested_exists {
            shell
        } else if sh_exists {
            "/bin/sh"@
        } else {
            shell
        },
        None => "/bin/sh"@,
    }
}

/// Chooses the shell, given whether the requested shell and `/bin/sh` were
/// found at their probe paths.
pub fn resolve_shell(requested: Option<&str>, requested_exists: bool, sh_exists: bool) -> (r: String)
    ensures
        r@ == resolved_shell(
            match requested {
                Some(s) => Some(s@),
                None => None,
            },
            requested_exists,
            sh_exists,
        ),
{
    match requested {
        Some(shell) => {
            if requested_exists {
                shell.to_owned()
            } else if sh_exists {
                "/bin/sh".to_owned()
            } else {
                shell.to_owned()
            }
        },
        None => "/bin/sh".to_owned(),
    }
}

/// A workspace kind that stands for a container.
pub open spec fn is_container_kind(kind: Seq<char>) -> bool {
    kind == "chroot"@ || kind == "nspawn"@ || kind == "container"@
}

/// Decides from the environment whether commands run in a container: the
/// workspace type must be `chroot`, `nspawn` or `container`, and the root
/// must be set. The result is the container root.
pub fn container_root_from_env(workspace_type: Option<&str>, workspace_root: Option<&str>) -> (r:
    Option<String>)
    ensures
        view_opt(r) == (match (workspace_type, workspace_root) {
            (Some(kind), Some(root)) => if is_container_kind(kind@) {
                Some(root@)
            } else {
                None
            },
            _ => None,
        }),
{
    let kind = match workspace_type {
        Some(k) => k,
        None => {
            return None;
        },
    };
    if !(str_eq(kind, "chroot") || str_eq(kind, "nspawn") || str_eq(kind, "container")) {
        return None;
    }
    match workspace_root {
        Some(root) => Some(root.to_owned()),
        None => None,
    }
}

/// `cwd` relative to `root`: empty where they are the same directory, what
/// follows `root` and a slash where `cwd` lies below, and nothing where it
/// lies outside. Both are canonical paths.
pub open spec fn relative_to(cwd: Seq<char>, root: Seq<char>) -> Option<Seq<char>> {
    let base = crate::fs::trim_end_slashes(root);
    if cwd == root || cwd == base {
        Some(Seq::<char>::empty())
    } else if starts_with(cwd, base + "/"@) {
        Some(cwd.subrange(base.len() as int + 1, cwd.len() as int))
    } else {
        None
    }
}

/// A program with its arguments and working directory.
#[derive(Debug, Clone, PartialEq, Eq)]
pub struct Invocation {
    pub program: String,
    pub args: Vec<String>,
    pub cwd: Option<String>,
}

/// `args` followed by one `--setenv=NAME=VALUE` for each pair of `env`.
pub open spec fn with_setenv(args: Seq<Seq<char>>, env: Seq<(Seq<char>, Seq<char>)>) -> Seq<
    Seq<char>,
>
    decreases env.len(),
{
    if env.len() == 0 {
        args
    } else {
        with_setenv(args, env.drop_last()).push(
            "--setenv="@ + env.last().0 + "="@ + env.last().1,
        )
    }
}

/// The arguments of `systemd-nspawn` for a command in a container: the root,
/// the working directory relative to it, the display where one is known and
/// the X11 socket directory exists, the environment, and the shell with the
/// command.
pub open spec fn container_args(
    root: Seq<char>,
    rel: Seq<char>,
    display: Option<Seq<char>>,
    x11_socket: bool,
    env: Seq<(Seq<char>, Seq<char>)>,
    shell: Seq<char>,
    command: Seq<char>,
) -> Seq<Seq<char>> {
    let base = seq!["-D"@, root, "--quiet"@, "--chdir"@, "/"@ + rel];
    let shown = match display {
        Some(d) => if x11_socket {
            base.push("--bind=/tmp/.X11-unix"@).push("--setenv=DISPLAY="@ + d)
        } else {
            base
        },
        None => base,
    };
    with_setenv(shown, env).push(shell).push("-c"@).push(command)
}

/// The message for a working directory outside the container root.
pub open spec fn outside_root_message(cwd: Seq<char>) -> Seq<char> {
    "Working directory is outside container root: "@ + cwd
}

fn relative_to_exec(cwd: &str, root: &str) -> (r: Option<Vec<char>>)
    ensures
        match r {
            Some(v) => relative_to(cwd@, root@) == Some(v@),
            None => relative_to(cwd@, root@) is None,
        },
{
    let base_text = crate::fs::target_dir(root);
    if str_eq(cwd, root) || str_eq(cwd, base_text.as_str()) {
        return Some(Vec::new());
    }
    let c = chars_of(cwd);
    let mut prefix = chars_of(base_text.as_str());
    extend_str(&mut prefix, "/");
    if starts_with_exec(&c, &prefix) {
        proof {
            reveal_strlit("/");
        }
        Some(slice_chars(&c, prefix.len(), c.len()))
    } else {
        None
    }
}

/// Builds the `systemd-nspawn` invocation for a command in a container.
/// `root` and `cwd` are canonical; a working directory outside the root is
/// turned down.
pub fn container_invocation(
    root: &str,
    cwd: &str,
    display: Option<&str>,
    x11_socket: bool,
    env: &Vec<(String, String)>,
    shell: &str,
    command: &str,
) -> (r: Result<Invocation, String>)
    ensures
        match relative_to(cwd@, root@) {
            Some(rel) => r matches Ok(inv) && inv.program@ == "systemd-nspawn"@ && inv.cwd is None
                && view_strs(inv.args@) == container_args(
                root@,
                rel,
                match display {
                    Some(d) => Some(d@),
                    None => None,
                },
                x11_socket,
                view_pairs(env@),
                shell@,
                command@,
            ),
            None => r matches Err(m) && m@ == outside_root_message(cwd@),
        },
{
    let rel = match relative_to_exec(cwd, root) {
        Some(rel) => rel,
        None => {
            return Err(join2("Working directory is outside container root: ", cwd));
        },
    };
    let rel_text = string_of(&rel);
    let mut args: Vec<String> = Vec::new();
    assert(view_strs(args@) =~= Seq::<Seq<char>>::empty());
    push_arg(&mut args, "-D");
    push_arg(&mut args, root);
    push_arg(&mut args, "--quiet");
    push_arg(&mut args, "--chdir");
    push_joined(&mut args, "/", rel_text.as_str());
    assert(view_strs(args@) =~= seq!["-D"@, root@, "--quiet"@, "--chdir"@, "/"@ + rel@]);
    match display {
        Some(d) => {
            if x11_socket {
                push_arg(&mut args, "--bind=/tmp/.X11-unix");
                push_joined(&mut args, "--setenv=DISPLAY=", d);
            }
        },
        None => {},
    }
    let ghost shown = view_strs(args@);
    let mut i: usize = 0;
    assert(view_pairs(env@).take(0) =~= Seq::<(Seq<char>, Seq<char>)>::empty());
    while i < env.len()
        invariant
            i <= env.len(),
            view_strs(args@) == with_setenv(shown, view_pairs(env@).take(i as int)),
        decreases env.len() - i,
    {
        let mut item = chars_of("--setenv=");
        extend_str(&mut item, env[i].0.as_str());
        extend_str(&mut item, "=");
        extend_str(&mut item, env[i].1.as_str());
        let text = string_of(&item);
        proof {
            let all = view_pairs(env@);
            assert(all.take(i + 1).drop_last() == all.take(i as int));
            assert(all.take(i + 1).last() == (env@[i as int].0@, env@[i as int].1@));
        }
        push_arg(&mut args, text.as_str());
        i = i + 1;
    }
    assert(view_pairs(env@).take(env@.len() as int) == view_pairs(env@));
    push_arg(&mut args, shell);
    push_arg(&mut args, "-c");
    push_arg(&mut args, command);
    Ok(Invocation { program: "systemd-nspawn".to_owned(), args, cwd: None })
}

/// Builds the invocation for a command on the host: the shell with `-c` and
/// the command, in the working directory.
pub fn host_invocation(shell: &str, cwd: &str, command: &str) -> (r: Invocation)
    ensures
        r.program@ == shell@,
        view_strs(r.args@) == seq!["-c"@, command@],
        view_opt(r.cwd) == Some(cwd@),
{
    let mut args: Vec<String> = Vec::new();
    assert(view_strs(args@) =~= Seq::<Seq<char>>::empty());
    push_arg(&mut args, "-c");
    push_arg(&mut args, command);
    assert(view_strs(args@) =~= seq!["-c"@, command@]);
    Invocation { program: shell.to_owned(), args, cwd: Some(cwd.to_owned()) }
}

// ---------------------------------------------------------------------------
// The running display
// ---------------------------------------------------------------------------

/// Where the file that names the running display is looked for.
#[derive(Debug, Clone, PartialEq, Eq)]
pub enum DisplayFile {
    /// At this path, set by `OPEN_AGENT_RUNTIME_DISPLAY_FILE`.
    Fixed(String),
    /// At the first of these paths that exists.
    FirstExisting(Vec<String>),
}

/// The path of the display file under a base directory.
pub open spec fn display_file_under(base: Seq<char>) -> Seq<char> {
    joined(joined(joined(base, ".openagent"@), "runtime"@), "current_display.json"@)
}

/// The display files under the base directories that are set, in order.
pub open spec fn display_candidates(bases: Seq<Option<Seq<char>>>) -> Seq<Seq<char>>
    decreases bases.len(),
{
    if bases.len() == 0 {
        Seq::empty()
    } else {
        match bases.last() {
            Some(b) => display_candidates(bases.drop_last()).push(display_file_under(b)),
            None => display_candidates(bases.drop_last()),
        }
    }
}

fn display_file_under_exec(base: &str) -> (r: String)
    ensures
        r@ == display_file_under(base@),
{
    let a = join_path(base, ".openagent");
    let b = join_path(a.as_str(), "runtime");
    join_path(b.as_str(), "current_display.json")
}

/// Says where the display file is looked for, from the values of
/// `OPEN_AGENT_RUNTIME_DISPLAY_FILE`, `WORKING_DIR`,
/// `OPEN_AGENT_WORKSPACE_ROOT` and `HOME`: at the first where that is not
/// blank, and else under each of the other three that is set.
pub fn runtime_display_path(
    fixed: Option<&str>,
    working_dir: Option<&str>,
    workspace_root: Option<&str>,
    home: Option<&str>,
) -> (r: DisplayFile)
    ensures
        (fixed matches Some(f) && !is_blank(f@)) ==> (r matches DisplayFile::Fixed(p) && p@
            == fixed->0@),
        !(fixed matches Some(f) && !is_blank(f@)) ==> (r matches DisplayFile::FirstExisting(ps)
            && view_strs(ps@) == display_candidates(
            seq![view_opt_str(working_dir), view_opt_str(workspace_root), view_opt_str(home)],
        )),
{
    match fixed {
        Some(f) => {
            let v = chars_of(f);
            if !is_blank_exec(&v) {
                return DisplayFile::Fixed(f.to_owned());
            }
        },
        None => {},
    }
    let ghost b0 = view_opt_str(working_dir);
    let ghost b1 = view_opt_str(workspace_root);
    let ghost b2 = view_opt_str(home);
    let ghost bases = seq![b0, b1, b2];
    let mut out: Vec<String> = Vec::new();
    assert(view_strs(out@) =~= Seq::<Seq<char>>::empty());
    proof {
        assert(bases.drop_last().drop_last().drop_last() =~= Seq::<Option<Seq<char>>>::empty());
        assert(bases.drop_last().drop_last() =~= seq![b0]);
        assert(bases.drop_last() =~= seq![b0, b1]);
        assert(display_candidates(Seq::<Option<Seq<char>>>::empty()) == Seq::<
            Seq<char>,
        >::empty());
    }
    match working_dir {
        Some(s) => {
            let p = display_file_under_exec(s);
            push_arg(&mut out, p.as_str());
        },
        None => {},
    }
    assert(view_strs(out@) == display_candidates(seq![b0])) by {
        assert(seq![b0].drop_last() =~= Seq::<Option<Seq<char>>>::empty());
        assert(seq![b0].last() == b0);
    }
    match workspace_root {
        Some(s) => {
            let p = display_file_under_exec(s);
            push_arg(&mut out, p.as_str());
        },
        None => {},
    }
    assert(view_strs(out@) == display_candidates(seq![b0, b1])) by {
        assert(seq![b0, b1].drop_last() =~= seq![b0]);
        assert(seq![b0, b1].last() == b1);
    }
    match home {
        Some(s) => {
            let p = display_file_under_exec(s);
            push_arg(&mut out, p.as_str());
        },
        None => {},
    }
    assert(view_strs(out@) == display_candidates(bases)) by {
        assert(bases.last() == b2);
    }
    DisplayFile::FirstExisting(out)
}

/// The running display, from the value of `DESKTOP_DISPLAY` and the contents
/// of the display file: the first where it is not blank; else the member
/// `display` of the file where it holds JSON, and its trimmed text where it
/// does not and something is left.
pub open spec fn display_of(desktop_display: Option<Seq<char>>, file: Option<Seq<char>>) -> Option<
    Seq<char>,
> {
    if desktop_display matches Some(d) && !is_blank(d) {
        desktop_display
    } else {
        match file {
            None => None,
            Some(text) => if crate::json::json_is_valid(text) {
                json_str_field(text, "display"@)
            } else if trim(text).len() == 0 {
                None
            } else {
                Some(trim(text))
            },
        }
    }
}

/// Reads the running display from its two sources.
pub fn read_runtime_display(desktop_display: Option<&str>, file: Option<&str>) -> (r: Option<
    String,
>)
    ensures
        view_opt(r) == display_of(
            match desktop_display {
                Some(s) => Some(s@),
                None => None,
            },
            match file {
                Some(s) => Some(s@),
                None => None,
            },
        ),
{
    match desktop_display {
        Some(d) => {
            let v = chars_of(d);
            if !is_blank_exec(&v) {
                return Some(d.to_owned());
            }
        },
        None => {},
    }
    let text = match file {
        Some(t) => t,
        None => {
            return None;
        },
    };
    if crate::json::is_json(text) {
        return str_field(text, "display");
    }
    let t = trim_exec(&chars_of(text));
    if t.len() == 0 {
        None
    } else {
        Some(string_of(&t))
    }
}

// ---------------------------------------------------------------------------
// The tool
// ---------------------------------------------------------------------------

/// A command that has passed the denylist, with where and how it runs.
#[derive(Debug, Clone, PartialEq, Eq)]
pub struct PreparedCommand {
    pub command: String,
    /// The working directory.
    pub cwd: String,
    pub options: CommandOptions,
}

/// The message for arguments without a command.
pub open spec fn missing_command_message() -> Seq<char> {
    "Missing 'command' argument"@
}

/// The working directory of a command: the member `cwd` of the arguments
/// seen from the workspace, or the workspace itself.
pub open spec fn working_directory(args: Seq<char>, workspace: Seq<char>) -> Seq<char> {
    match json_str_field(args, "cwd"@) {
        Some(p) => joined(workspace, p),
        None => workspace,
    }
}

/// The JSON schema of the arguments of the tool.
pub const RUN_COMMAND_SCHEMA: &'static str = "{\"type\":\"object\",\"properties\":{\"command\":{\"type\":\"string\",\"description\":\"The shell command to execute. Relative paths in commands resolve from workspace.\"},\"cwd\":{\"type\":\"string\",\"description\":\"Optional: working directory. Defaults to workspace. Use relative paths (e.g., 'subdir/') or absolute for system access.\"},\"timeout_secs\":{\"type\":\"integer\",\"description\":\"Timeout in seconds (default: 60).\"},\"timeout_ms\":{\"type\":\"integer\",\"description\":\"Timeout in milliseconds (overrides timeout_secs).\"},\"timeout\":{\"type\":\"number\",\"description\":\"Timeout in seconds (float allowed).\"},\"env\":{\"type\":\"object\",\"description\":\"Environment variables to set for the command.\",\"additionalProperties\":{\"type\":\"string\"}},\"clear_env\":{\"type\":\"boolean\",\"description\":\"If true, clear the environment before applying env vars.\"},\"stdin\":{\"type\":\"string\",\"description\":\"Optional: string to pass to stdin.\"},\"shell\":{\"type\":\"string\",\"description\":\"Optional: shell executable path (default: /bin/sh).\"},\"max_output_chars\":{\"type\":\"integer\",\"description\":\"Maximum output characters to return (default: 10000).\"},\"raw\":{\"type\":\"boolean\",\"description\":\"Return combined stdout/stderr only (no headers or exit code).\"}},\"required\":[\"command\"]}";

/// The tool that runs a shell command.
#[derive(Debug, Clone, Copy, PartialEq, Eq)]
pub struct RunCommand;

impl RunCommand {
    pub fn name(&self) -> (r: &'static str)
        ensures
            r@ == "run_command"@,
    {
        "run_command"
    }

    pub fn description(&self) -> (r: &'static str)
        ensures
            r@
                == "Execute a shell command. Runs in workspace by default. Use for tests, builds, package installs, etc."@,
    {
        "Execute a shell command. Runs in workspace by default. Use for tests, builds, package installs, etc."
    }

    /// The JSON schema of the arguments.
    pub fn parameters_schema(&self) -> (r: &'static str)
        ensures
            r@ == RUN_COMMAND_SCHEMA@,
    {
        RUN_COMMAND_SCHEMA
    }

    /// Reads the arguments of a call, a JSON object. Arguments without a
    /// command, and a command on the denylist, are turned down with a
    /// message, and nothing is run.
    pub fn prepare(&self, args: &str, workspace: &str, fractional: Option<Timeout>) -> (r: Result<
        PreparedCommand,
        String,
    >)
        ensures
            match json_str_field(args@, "command"@) {
                None => r matches Err(m) && m@ == missing_command_message(),
                Some(command) => match command_verdict(command) {
                    Some(blocked) => r matches Err(m) && m@ == blocked,
                    None => r matches Ok(p) && p.command@ == command && p.cwd@
                        == working_directory(args@, workspace@) && p.options@ == options_of(
                        args@,
                        fractional,
                    ),
                },
            },
    {
        let command = match str_field(args, "command") {
            Some(c) => c,
            None => {
                return Err("Missing 'command' argument".to_owned());
            },
        };
        match validate_command(command.as_str()) {
            Err(m) => {
                return Err(m);
            },
            Ok(_) => {},
        }
        let cwd = match str_field(args, "cwd") {
            Some(p) => resolve_path(p.as_str(), workspace),
            None => workspace.to_owned(),
        };
        let options = parse_command_options(args, fractional);
        Ok(PreparedCommand { command, cwd, options })
    }

    /// Writes the result of a finished command: both streams made fit for a
    /// reader, the report written, and cut to the limit of the options.
    pub fn finish(
        &self,
        stdout: &Vec<u8>,
        stderr: &Vec<u8>,
        exit_code: Option<i32>,
        options: &CommandOptions,
    ) -> (r: String)
        ensures
            r@ == truncated(
                report(
                    sanitized_output(stdout@),
                    sanitized_output(stderr@),
                    match exit_code {
                        Some(c) => c as int,
                        None => -1,
                    },
                    options.raw_output,
                ),
                options.max_output_chars as nat,
            ),
    {
        let out = sanitize_output(stdout);
        let err = sanitize_output(stderr);
        let text = format_report(out.as_str(), err.as_str(), exit_code, options.raw_output);
        truncate_output(text.as_str(), options.max_output_chars)
    }
}

/// How the run of a command ended.
#[derive(Debug, Clone, PartialEq, Eq)]
pub enum RunEnd {
    /// The process ran to its end.
    Exited { stdout: Vec<u8>, stderr: Vec<u8>, exit_code: Option<i32> },
    /// The time allowed ran out before the process ended. `seconds` is the
    /// time allowed, as the caller writes it.
    TimedOut { seconds: String },
    /// The process could not be started or waited for.
    Failed { reason: String },
    /// The input could not be written to the process.
    InputFailed { reason: String },
}

/// What the caller of a command gets for the way its run ended: the report
/// of a process that ran to its end, and an error for every other end.
pub open spec fn conclusion(end: RunEnd, options: CommandOptions) -> Result<Seq<char>, Seq<char>> {
    match end {
        RunEnd::Exited { stdout, stderr, exit_code } => Ok(
            truncated(
                report(
                    sanitized_output(stdout@),
                    sanitized_output(stderr@),
                    match exit_code {
                        Some(c) => c as int,
                        None => -1,
                    },
                    options.raw_output,
                ),
                options.max_output_chars as nat,
            ),
        ),
        RunEnd::TimedOut { seconds } => Err("Command timed out after "@ + seconds@ + " seconds"@),
        RunEnd::Failed { reason } => Err("Failed to execute command: "@ + reason@),
        RunEnd::InputFailed { reason } => Err("Failed to write to stdin: "@ + reason@),
    }
}

impl RunCommand {
    /// Concludes the run of a command: the report where the process ran to
    /// its end, and else the error. A command that outlasts the time
    /// allowed ends in the timeout error, whatever it had written.
    pub fn conclude(&self, end: &RunEnd, options: &CommandOptions) -> (r: Result<String, String>)
        ensures
            match conclusion(*end, *options) {
                Ok(text) => r matches Ok(t) && t@ == text,
                Err(message) => r matches Err(m) && m@ == message,
            },
    {
        match end {
            RunEnd::Exited { stdout, stderr, exit_code } => Ok(
                self.finish(stdout, stderr, *exit_code, options),
            ),
            RunEnd::TimedOut { seconds } => Err(
                join3("Command timed out after ", seconds.as_str(), " seconds"),
            ),
            RunEnd::Failed { reason } => Err(join2("Failed to execute command: ", reason.as_str())),
            RunEnd::InputFailed { reason } => Err(
                join2("Failed to write to stdin: ", reason.as_str()),
            ),
        }
    }
}

/// A command that hits an entry of a table is never let through.
pub proof fn lemma_hit_is_blocked(cmd: Seq<char>, table: Seq<(Seq<char>, Seq<char>)>, i: int)
    requires
        0 <= i < table.len(),
        hits(cmd, table[i].0),
    ensures
        first_hit(cmd, table) is Some,
    decreases table.len(),
{
    if !hits(cmd, table[0].0) {
        assert(table.drop_first()[i - 1] == table[i]);
        lemma_hit_is_blocked(cmd, table.drop_first(), i - 1);
    }
}

/// Every command that, trimmed, begins with a dangerous pattern, directly
/// or behind one of the prefixes `sudo`, `time`, `nice` and `nohup`, is
/// turned down.
pub proof fn lemma_dangerous_is_refused(cmd: Seq<char>, i: int)
    requires
        0 <= i < dangerous_patterns().len(),
        starts_with(trim(cmd), dangerous_patterns()[i].0) || exists|j: int|
            0 <= j < command_prefixes().len() && starts_with_after(
                trim(cmd),
                #[trigger] command_prefixes()[j],
                dangerous_patterns()[i].0,
            ),
    ensures
        command_verdict(cmd) is Some,
{
    lemma_hit_is_blocked(trim(cmd), dangerous_patterns(), i);
}

/// A command that, trimmed, begins with `sudo `, `time `, `nice ` or
/// `nohup ` and goes on with a dangerous pattern is turned down.
pub proof fn lemma_prefixed_dangerous_is_refused(cmd: Seq<char>, prefix: Seq<char>, i: int)
    requires
        0 <= i < dangerous_patterns().len(),
        prefix == "sudo "@ || prefix == "time "@ || prefix == "nice "@ || prefix == "nohup "@,
        starts_with_after(trim(cmd), prefix, dangerous_patterns()[i].0),
    ensures
        command_verdict(cmd) is Some,
{
    let p = command_prefixes();
    assert(p.len() == 4);
    assert(p[0] == "sudo "@ && p[1] == "time "@ && p[2] == "nice "@ && p[3] == "nohup "@);
    let j = if prefix == "sudo "@ {
        0int
    } else if prefix == "time "@ {
        1int
    } else if prefix == "nice "@ {
        2int
    } else {
        3int
    };
    assert(starts_with_after(trim(cmd), command_prefixes()[j], dangerous_patterns()[i].0));
    lemma_dangerous_is_refused(cmd, i);
}

/// Cleaned text holds nothing but characters that are kept: no control
/// character other than line feed, carriage return and tab.
pub proof fn lemma_kept_is_clean(s: Seq<char>)
    ensures
        forall|i: int| 0 <= i < kept(s).len() ==> keeps(#[trigger] kept(s)[i]),
        kept(s).len() <= s.len(),
    decreases s.len(),
{
    if s.len() > 0 {
        lemma_kept_is_clean(s.drop_last());
    }
}

// ---------------------------------------------------------------------------
// The environment of a tool server
// ---------------------------------------------------------------------------

/// A piece of a path that counts as a component: not empty, and not `.`.
pub open spec fn is_component(piece: Seq<char>) -> bool {
    piece.len() > 0 && piece != seq!['.']
}

/// The name of a directory that holds container roots.
pub open spec fn is_container_area(piece: Seq<char>) -> bool {
    piece == "containers"@ || piece == "chroots"@
}

/// The index of the first component among `pieces` at or after `from`, or
/// the number of pieces where there is none.
pub open spec fn next_component(pieces: Seq<Seq<char>>, from: int) -> int
    decreases pieces.len() - from,
{
    if from < 0 || from >= pieces.len() {
        pieces.len() as int
    } else if is_component(pieces[from]) {
        from
    } else {
        next_component(pieces, from + 1)
    }
}

/// The components among the first `n` pieces, each with a slash before it
/// but for the first of a relative path.
pub open spec fn components_path(pieces: Seq<Seq<char>>, absolute: bool, n: int) -> Seq<char>
    decreases n,
{
    if n <= 0 {
        Seq::empty()
    } else {
        let head = components_path(pieces, absolute, n - 1);
        if !is_component(pieces[n - 1]) {
            head
        } else if head.len() == 0 && !absolute {
            pieces[n - 1]
        } else {
            head + seq!['/'] + pieces[n - 1]
        }
    }
}

/// The index behind the component that follows the first container area
/// among the components of `pieces` from `from` on; nothing where no area
/// has a component behind it.
pub open spec fn root_end(pieces: Seq<Seq<char>>, from: int) -> Option<int>
    decreases pieces.len() - from,
{
    if from < 0 || from >= pieces.len() {
        None
    } else if is_container_area(pieces[from]) {
        let next = next_component(pieces, from + 1);
        if next < pieces.len() {
            Some(next + 1)
        } else {
            None
        }
    } else {
        root_end(pieces, from + 1)
    }
}

/// The container root that a path lies in: the path up to and with the
/// component that follows the first component named `containers` or
/// `chroots`.
pub open spec fn container_root_of(path: Seq<char>) -> Option<Seq<char>> {
    let pieces = crate::text::split_on(path, '/');
    match root_end(pieces, 0) {
        Some(n) => Some(components_path(pieces, is_absolute(path), n)),
        None => None,
    }
}

/// Finds the container root that a workspace path lies in, if it lies in
/// one.
pub fn container_root_from_path(path: &str) -> (r: Option<String>)
    ensures
        view_opt(r) == container_root_of(path@),
{
    let p = chars_of(path);
    let absolute = p.len() > 0 && p[0] == '/';
    let pieces = crate::text::split_on_exec(&p, '/');
    let area_a = chars_of("containers");
    let area_b = chars_of("chroots");
    let mut out: Vec<char> = Vec::new();
    let mut i: usize = 0;
    let ghost all = crate::text::views(pieces@);
    while i < pieces.len()
        invariant
            i <= pieces.len(),
            all == crate::text::views(pieces@),
            all == crate::text::split_on(path@, '/'),
            absolute == is_absolute(path@),
            area_a@ == "containers"@,
            area_b@ == "chroots"@,
            out@ == components_path(all, absolute, i as int),
            root_end(all, 0) == root_end(all, i as int),
        decreases pieces.len() - i,
    {
        let piece = &pieces[i];
        assert(all[i as int] == piece@);
        let is_area = crate::text::chars_eq(piece, &area_a) || crate::text::chars_eq(
            piece,
            &area_b,
        );
        let counts = piece.len() > 0 && !(piece.len() == 1 && piece[0] == '.');
        assert(counts == is_component(piece@)) by {
            if piece.len() == 1 && piece[0] == '.' {
                assert(piece@ =~= seq!['.']);
            }
        }
        if counts {
            if out.len() > 0 || absolute {
                out.push('/');
            }
            extend_chars(&mut out, piece);
        }
        assert(out@ == components_path(all, absolute, i + 1));
        if is_area {
            let mut j: usize = i + 1;
            while j < pieces.len()
                invariant
                    i < j <= pieces.len(),
                    all == crate::text::views(pieces@),
                    all == crate::text::split_on(path@, '/'),
                    absolute == is_absolute(path@),
                    is_container_area(all[i as int]),
                    root_end(all, 0) == root_end(all, i as int),
                    out@ == components_path(all, absolute, j as int),
                    next_component(all, i + 1) == next_component(all, j as int),
                decreases pieces.len() - j,
            {
                let next = &pieces[j];
                assert(all[j as int] == next@);
                let next_counts = next.len() > 0 && !(next.len() == 1 && next[0] == '.');
                assert(next_counts == is_component(next@)) by {
                    if next.len() == 1 && next[0] == '.' {
                        assert(next@ =~= seq!['.']);
                    }
                }
                if next_counts {
                    if out.len() > 0 || absolute {
                        out.push('/');
                    }
                    extend_chars(&mut out, next);
                    assert(out@ == components_path(all, absolute, j + 1));
                    return Some(string_of(&out));
                }
                assert(out@ == components_path(all, absolute, j + 1));
                j = j + 1;
            }
            return None;
        }
        i = i + 1;
    }
    None
}

/// The variables that a tool server sets for itself when it starts, each
/// only where it is not set yet.
#[derive(Debug, Clone, PartialEq, Eq)]
pub struct WorkspaceEnv {
    /// The workspace directory of the server.
    pub workspace: String,
    /// The value to set for `OPEN_AGENT_WORKSPACE`.
    pub set_workspace: Option<String>,
    /// The value to set for `OPEN_AGENT_WORKSPACE_TYPE`.
    pub set_type: Option<String>,
    /// The value to set for `OPEN_AGENT_WORKSPACE_ROOT`.
    pub set_root: Option<String>,
}

/// The workspace of a tool server: the directory the client named, else the
/// value of `OPEN_AGENT_WORKSPACE`, else the current directory.
pub open spec fn chosen_workspace(
    named: Option<Seq<char>>,
    env_workspace: Option<Seq<char>>,
    cwd: Seq<char>,
) -> Seq<char> {
    match named {
        Some(p) => p,
        None => match env_workspace {
            Some(w) => w,
            None => cwd,
        },
    }
}

/// Works out the workspace of a tool server and what it sets in its
/// environment: the workspace, and, where no type is set, `chroot` with the
/// container root for a workspace inside a container area and `host` for
/// any other. `type_set` and `root_set` say whether the type and the root
/// are set already.
pub fn hydrate_workspace_env(
    named: Option<&str>,
    env_workspace: Option<&str>,
    type_set: bool,
    root_set: bool,
    cwd: &str,
) -> (r: WorkspaceEnv)
    ensures
        r.workspace@ == chosen_workspace(view_opt_str(named), view_opt_str(env_workspace), cwd@),
        view_opt(r.set_workspace) == (if env_workspace is None {
            Some(r.workspace@)
        } else {
            None
        }),
        view_opt(r.set_type) == (if type_set {
            None
        } else if container_root_of(r.workspace@) is Some {
            Some("chroot"@)
        } else {
            Some("host"@)
        }),
        view_opt(r.set_root) == (if type_set || root_set {
            None
        } else {
            container_root_of(r.workspace@)
        }),
{
    let workspace: String = match named {
        Some(p) => p.to_owned(),
        None => match env_workspace {
            Some(w) => w.to_owned(),
            None => cwd.to_owned(),
        },
    };
    let set_workspace = match env_workspace {
        Some(_) => None,
        None => Some(workspace.clone()),
    };
    if type_set {
        return WorkspaceEnv { workspace, set_workspace, set_type: None, set_root: None };
    }
    match container_root_from_path(workspace.as_str()) {
        Some(root) => WorkspaceEnv {
            workspace,
            set_workspace,
            set_type: Some("chroot".to_owned()),
            set_root: if root_set {
                None
            } else {
                Some(root)
            },
        },
        None => WorkspaceEnv {
            workspace,
            set_workspace,
            set_type: Some("host".to_owned()),
            set_root: None,
        },
    }
}

/// The path of the file from which a tool server reads the runtime state of
/// the workspace: the value of `OPEN_AGENT_RUNTIME_WORKSPACE_FILE` where it
/// is not blank, and else the file under the home directory, `/root` where
/// none is set.
pub fn runtime_workspace_path(fixed: Option<&str>, home: Option<&str>) -> (r: String)
    ensures
        r@ == (if fixed matches Some(f) && !is_blank(f@) {
            fixed->0@
        } else {
            joined(
                joined(
                    joined(
                        match home {
                            Some(h) => h@,
                            None => "/root"@,
                        },
                        ".openagent"@,
                    ),
                    "runtime"@,
                ),
                "current_workspace.json"@,
            )
        }),
{
    match fixed {
        Some(f) => {
            let v = chars_of(f);
            if !is_blank_exec(&v) {
                return f.to_owned();
            }
        },
        None => {},
    }
    let base = match home {
        Some(h) => h,
        None => "/root",
    };
    let a = join_path(base, ".openagent");
    let b = join_path(a.as_str(), "runtime");
    join_path(b.as_str(), "current_workspace.json")
}

/// The variables that a tool server sets from the runtime state of the
/// workspace: the working directory, the root and the kind, each where the
/// state holds it, in this order.
pub open spec fn runtime_env(
    working_dir: Option<Seq<char>>,
    root: Option<Seq<char>>,
    kind: Option<Seq<char>>,
) -> Seq<(Seq<char>, Seq<char>)> {
    let a = match working_dir {
        Some(d) => seq![("OPEN_AGENT_WORKSPACE"@, d)],
        None => Seq::empty(),
    };
    let b = match root {
        Some(r) => a.push(("OPEN_AGENT_WORKSPACE_ROOT"@, r)),
        None => a,
    };
    match kind {
        Some(k) => b.push(("OPEN_AGENT_WORKSPACE_TYPE"@, k)),
        None => b,
    }
}

/// Says which variables a tool server sets when it has read the runtime
/// state, so that commands are routed to the workspace in use.
pub fn apply_runtime_workspace(working_dir: Option<&str>, root: Option<&str>, kind: Option<&str>) -> (r:
    Vec<(String, String)>)
    ensures
        view_pairs(r@) == runtime_env(view_opt_str(working_dir), view_opt_str(root), view_opt_str(kind)),
{
    let mut out: Vec<(String, String)> = Vec::new();
    assert(view_pairs(out@) =~= Seq::<(Seq<char>, Seq<char>)>::empty());
    match working_dir {
        Some(d) => {
            crate::text::push_pair(&mut out, "OPEN_AGENT_WORKSPACE", d);
            assert(view_pairs(out@) =~= seq![("OPEN_AGENT_WORKSPACE"@, d@)]);
        },
        None => {},
    }
    match root {
        Some(r) => {
            crate::text::push_pair(&mut out, "OPEN_AGENT_WORKSPACE_ROOT", r);
        },
        None => {},
    }
    match kind {
        Some(k) => {
            crate::text::push_pair(&mut out, "OPEN_AGENT_WORKSPACE_TYPE", k);
        },
        None => {},
    }
    out
}

} // verus!
