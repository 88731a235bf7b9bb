//! File transfer: the rules behind listing, upload, chunked upload, download
//! and ingestion from a URL.
//!
//! The caller reads and writes files and talks to `ssh`, `sftp` and HTTP. What
//! is decided here: which names are safe, where a file ends up, which URLs may
//! be fetched, how chunks are named and put together.

use crate::text::{
    chars_of, decimal, decimal_exec, ends_with, ends_with_exec, extend_chars, extend_str,
    is_whitespace, join2, join3, lemma_trim, lower_hex, lower_hex_exec, matches_at, push_arg,
    slice_chars, str_eq, string_of, trim, trim_exec, view_opt, view_strs, zero_padded,
    zero_padded_exec,
};
use vstd::prelude::*;

verus! {

/// Whether the SSH target is this machine, so that files can be reached
/// directly.
pub fn is_localhost(host: &str) -> (r: bool)
    ensures
        r == (host@ == "localhost"@ || host@ == "127.0.0.1"@ || host@ == "::1"@),
{
    str_eq(host, "localhost") || str_eq(host, "127.0.0.1") || str_eq(host, "::1")
}

// ---------------------------------------------------------------------------
// Path components
// ---------------------------------------------------------------------------

/// A character that separates path components.
pub open spec fn is_separator(c: char) -> bool {
    c == '/' || c == '\\'
}

/// The index just behind the last separator of `s`, or 0 where there is none.
pub open spec fn basename_start(s: Seq<char>) -> int
    decreases s.len(),
{
    if s.len() == 0 {
        0
    } else if is_separator(s.last()) {
        s.len() as int
    } else {
        basename_start(s.drop_last())
    }
}

/// What follows the last separator of `s`.
pub open spec fn basename(s: Seq<char>) -> Seq<char> {
    s.subrange(basename_start(s), s.len() as int)
}

/// `s` with every pair of dots removed, pairs taken from the left.
pub open spec fn strip_dot_pairs(s: Seq<char>) -> Seq<char>
    decreases s.len(),
{
    if s.len() < 2 {
        s
    } else if s[0] == '.' && s[1] == '.' {
        strip_dot_pairs(s.skip(2))
    } else {
        seq![s[0]] + strip_dot_pairs(s.drop_first())
    }
}

/// `s` without its NUL characters.
pub open spec fn strip_nul(s: Seq<char>) -> Seq<char>
    decreases s.len(),
{
    if s.len() == 0 {
        s
    } else if s[0] == '\0' {
        strip_nul(s.drop_first())
    } else {
        seq![s[0]] + strip_nul(s.drop_first())
    }
}

/// The safe form of a path component: the part behind the last separator,
/// first without its NUL characters, then without pairs of dots, then
/// without surrounding white space.
pub open spec fn sanitized(s: Seq<char>) -> Seq<char> {
    trim(strip_dot_pairs(strip_nul(basename(s))))
}

/// Two dots stand side by side in `s`.
pub open spec fn has_dot_pair(s: Seq<char>) -> bool {
    exists|i: int| 0 <= i && i + 1 < s.len() && s[i] == '.' && #[trigger] s[i + 1] == '.'
}

proof fn lemma_basename_start(s: Seq<char>)
    ensures
        0 <= basename_start(s) <= s.len(),
        forall|k: int| basename_start(s) <= k < s.len() ==> !is_separator(#[trigger] s[k]),
    decreases s.len(),
{
    if s.len() > 0 && !is_separator(s.last()) {
        lemma_basename_start(s.drop_last());
        assert forall|k: int| basename_start(s) <= k < s.len() implies !is_separator(
            #[trigger] s[k],
        ) by {
            if k < s.len() - 1 {
                assert(s[k] == s.drop_last()[k]);
            }
        }
    }
}

proof fn lemma_strip_dot_pairs(s: Seq<char>)
    ensures
        !has_dot_pair(strip_dot_pairs(s)),
        forall|c: char| #[trigger] strip_dot_pairs(s).contains(c) ==> s.contains(c),
        s.len() > 0 && s[0] != '.' ==> strip_dot_pairs(s).len() > 0 && strip_dot_pairs(s)[0]
            == s[0],
        strip_dot_pairs(s).len() <= s.len(),
    decreases s.len(),
{
    let r = strip_dot_pairs(s);
    if s.len() < 2 {
    } else if s[0] == '.' && s[1] == '.' {
        let t = s.skip(2);
        lemma_strip_dot_pairs(t);
        assert forall|c: char| r.contains(c) implies s.contains(c) by {
            assert(strip_dot_pairs(t).contains(c));
            let i = choose|i: int| 0 <= i < t.len() && t[i] == c;
            assert(s[i + 2] == c);
        }
    } else {
        let t = s.drop_first();
        let rt = strip_dot_pairs(t);
        lemma_strip_dot_pairs(t);
        assert(r == seq![s[0]] + rt);
        assert forall|c: char| r.contains(c) implies s.contains(c) by {
            let i = choose|i: int| 0 <= i < r.len() && r[i] == c;
            if i == 0 {
                assert(s[0] == c);
            } else {
                assert(rt[i - 1] == c);
                assert(rt.contains(c));
                let j = choose|j: int| 0 <= j < t.len() && t[j] == c;
                assert(s[j + 1] == c);
            }
        }
        if has_dot_pair(r) {
            let i = choose|i: int| 0 <= i && i + 1 < r.len() && r[i] == '.' && #[trigger] r[i + 1]
                == '.';
            if i == 0 {
                assert(rt[0] == '.');
                assert(t[0] == s[1]);
            } else {
                assert(rt[i - 1] == '.' && rt[i - 1 + 1] == '.');
            }
        }
    }
}

proof fn lemma_strip_nul(s: Seq<char>)
    ensures
        !strip_nul(s).contains('\0'),
        forall|c: char| #[trigger] strip_nul(s).contains(c) ==> s.contains(c),
    decreases s.len(),
{
    let r = strip_nul(s);
    if s.len() > 0 {
        let t = s.drop_first();
        let rt = strip_nul(t);
        lemma_strip_nul(t);
        assert forall|c: char| r.contains(c) implies s.contains(c) by {
            let i = choose|i: int| 0 <= i < r.len() && r[i] == c;
            if s[0] != '\0' && i == 0 {
                assert(s[0] == c);
            } else {
                let i2 = if s[0] == '\0' {
                    i
                } else {
                    i - 1
                };
                assert(rt[i2] == c);
                assert(rt.contains(c));
                let j = choose|j: int| 0 <= j < t.len() && t[j] == c;
                assert(s[j + 1] == c);
            }
        }
        if r.contains('\0') {
            let i = choose|i: int| 0 <= i < r.len() && r[i] == '\0';
            if s[0] == '\0' {
                assert(rt.contains('\0'));
            } else {
                assert(i > 0);
                assert(rt[i - 1] == '\0');
                assert(rt.contains('\0'));
            }
        }
    }
}

/// The safe form of a path component holds no separator, no NUL and no pair
/// of dots, and neither begins nor ends with white space.
pub proof fn lemma_sanitized_is_safe(s: Seq<char>)
    ensures
        !sanitized(s).contains('/'),
        !sanitized(s).contains('\\'),
        !sanitized(s).contains('\0'),
        !has_dot_pair(sanitized(s)),
        sanitized(s).len() > 0 ==> !is_whitespace(sanitized(s)[0]) && !is_whitespace(
            sanitized(s).last(),
        ),
{
    let b = basename(s);
    let n = strip_nul(b);
    let d = strip_dot_pairs(n);
    let r = trim(d);
    lemma_basename_start(s);
    lemma_strip_nul(b);
    lemma_strip_dot_pairs(n);
    lemma_trim(d);
    let (lo, hi) = choose|lo: int, hi: int| 0 <= lo <= hi <= d.len() && r == d.subrange(lo, hi);
    assert forall|c: char| r.contains(c) implies b.contains(c) && c != '\0' by {
        let i = choose|i: int| 0 <= i < r.len() && r[i] == c;
        assert(d[lo + i] == c);
        assert(d.contains(c));
        assert(n.contains(c));
    }
    assert forall|c: char| is_separator(c) implies !b.contains(c) by {
        if b.contains(c) {
            let i = choose|i: int| 0 <= i < b.len() && b[i] == c;
            assert(s[basename_start(s) + i] == c);
        }
    }
    assert(is_separator('/') && is_separator('\\'));
    if has_dot_pair(r) {
        let i = choose|i: int| 0 <= i && i + 1 < r.len() && r[i] == '.' && #[trigger] r[i + 1]
            == '.';
        assert(d[lo + i] == '.' && d[lo + i + 1] == '.');
        assert(has_dot_pair(d));
    }
}

fn basename_exec(s: &Vec<char>) -> (r: Vec<char>)
    ensures
        r@ == basename(s@),
{
    let mut i: usize = s.len();
    assert(s@.take(i as int) == s@);
    while i > 0 && !(s[i - 1] == '/' || s[i - 1] == '\\')
        invariant
            i <= s.len(),
            basename_start(s@) == basename_start(s@.take(i as int)),
        decreases i,
    {
        assert(s@.take(i as int).drop_last() == s@.take(i - 1));
        i = i - 1;
    }
    proof {
        if i > 0 {
            assert(s@.take(i as int).last() == s@[i - 1]);
        }
    }
    slice_chars(s, i, s.len())
}

fn strip_dot_pairs_exec(s: &Vec<char>) -> (r: Vec<char>)
    ensures
        r@ == strip_dot_pairs(s@),
{
    let mut r: Vec<char> = Vec::new();
    let mut i: usize = 0;
    assert(s@.skip(0) == s@);
    while i < s.len()
        invariant
            i <= s.len(),
            strip_dot_pairs(s@) == r@ + strip_dot_pairs(s@.skip(i as int)),
        decreases s.len() - i,
    {
        let ghost rest = s@.skip(i as int);
        if i + 1 < s.len() && s[i] == '.' && s[i + 1] == '.' {
            assert(rest[0] == '.' && rest[1] == '.');
            assert(rest.skip(2) == s@.skip(i + 2));
            i = i + 2;
        } else {
            assert(rest.len() >= 2 ==> !(rest[0] == '.' && rest[1] == '.'));
            assert(rest.drop_first() == s@.skip(i + 1));
            proof {
                if rest.len() < 2 {
                    assert(strip_dot_pairs(rest.drop_first()) == Seq::<char>::empty());
                    assert(rest =~= seq![s@[i as int]] + Seq::<char>::empty());
                }
            }
            assert(strip_dot_pairs(rest) == seq![s@[i as int]] + strip_dot_pairs(
                s@.skip(i + 1),
            ));
            r.push(s[i]);
            assert(strip_dot_pairs(s@) == r@ + strip_dot_pairs(s@.skip(i + 1)));
            i = i + 1;
        }
    }
    assert(r@ + Seq::<char>::empty() == r@);
    r
}

fn strip_nul_exec(s: &Vec<char>) -> (r: Vec<char>)
    ensures
        r@ == strip_nul(s@),
{
    let mut r: Vec<char> = Vec::new();
    let mut i: usize = 0;
    assert(s@.skip(0) == s@);
    while i < s.len()
        invariant
            i <= s.len(),
            strip_nul(s@) == r@ + strip_nul(s@.skip(i as int)),
        decreases s.len() - i,
    {
        assert(s@.skip(i as int).drop_first() == s@.skip(i + 1));
        if s[i] != '\0' {
            r.push(s[i]);
            assert(strip_nul(s@) == r@ + strip_nul(s@.skip(i + 1)));
        }
        i = i + 1;
    }
    assert(r@ + Seq::<char>::empty() == r@);
    r
}

/// Makes a name safe to use as one path component: takes what follows the
/// last `/` or `\`, removes NUL characters and then pairs of dots, and trims
/// white space. Applied to upload ids and to every file name that comes from
/// a client, a header or a URL.
pub fn sanitize_path_component(s: &str) -> (r: String)
    ensures
        r@ == sanitized(s@),
        !r@.contains('/'),
        !r@.contains('\\'),
        !r@.contains('\0'),
        !has_dot_pair(r@),
        r@.len() > 0 ==> !is_whitespace(r@[0]) && !is_whitespace(r@.last()),
{
    let v = chars_of(s);
    let b = basename_exec(&v);
    let n = strip_nul_exec(&b);
    let d = strip_dot_pairs_exec(&n);
    let t = trim_exec(&d);
    proof {
        lemma_sanitized_is_safe(s@);
    }
    string_of(&t)
}

// ---------------------------------------------------------------------------
// Addresses
// ---------------------------------------------------------------------------

/// An IP address as plain numbers: four octets, or eight 16-bit segments.
#[derive(Debug, Clone, Copy, PartialEq, Eq)]
pub enum IpAddress {
    V4 { a: u8, b: u8, c: u8, d: u8 },
    V6 { s0: u16, s1: u16, s2: u16, s3: u16, s4: u16, s5: u16, s6: u16, s7: u16 },
}

/// 127.0.0.0/8.
pub open spec fn v4_loopback(a: u8, b: u8, c: u8, d: u8) -> bool {
    a == 127
}

/// 10.0.0.0/8, 172.16.0.0/12 and 192.168.0.0/16.
pub open spec fn v4_private(a: u8, b: u8, c: u8, d: u8) -> bool {
    a == 10 || (a == 172 && 16 <= b && b <= 31) || (a == 192 && b == 168)
}

/// 169.254.0.0/16, which holds the metadata address 169.254.169.254.
pub open spec fn v4_link_local(a: u8, b: u8, c: u8, d: u8) -> bool {
    a == 169 && b == 254
}

/// 255.255.255.255.
pub open spec fn v4_broadcast(a: u8, b: u8, c: u8, d: u8) -> bool {
    a == 255 && b == 255 && c == 255 && d == 255
}

/// 192.0.2.0/24, 198.51.100.0/24 and 203.0.113.0/24.
pub open spec fn v4_documentation(a: u8, b: u8, c: u8, d: u8) -> bool {
    (a == 192 && b == 0 && c == 2) || (a == 198 && b == 51 && c == 100) || (a == 203 && b == 0
        && c == 113)
}

/// 0.0.0.0.
pub open spec fn v4_unspecified(a: u8, b: u8, c: u8, d: u8) -> bool {
    a == 0 && b == 0 && c == 0 && d == 0
}

/// The metadata endpoint of cloud hosts, 169.254.169.254.
pub open spec fn v4_metadata(a: u8, b: u8, c: u8, d: u8) -> bool {
    a == 169 && b == 254 && c == 169 && d == 254
}

/// An IPv4 address that no fetched URL may point to.
pub open spec fn v4_internal(a: u8, b: u8, c: u8, d: u8) -> bool {
    ||| v4_loopback(a, b, c, d)
    ||| v4_private(a, b, c, d)
    ||| v4_link_local(a, b, c, d)
    ||| v4_broadcast(a, b, c, d)
    ||| v4_documentation(a, b, c, d)
    ||| v4_metadata(a, b, c, d)
    ||| v4_unspecified(a, b, c, d)
}

impl IpAddress {
    /// `::1`.
    pub open spec fn v6_loopback(self) -> bool {
        self matches IpAddress::V6 { s0, s1, s2, s3, s4, s5, s6, s7 } && s0 == 0 && s1 == 0 && s2
            == 0 && s3 == 0 && s4 == 0 && s5 == 0 && s6 == 0 && s7 == 1
    }

    /// `::`.
    pub open spec fn v6_unspecified(self) -> bool {
        self matches IpAddress::V6 { s0, s1, s2, s3, s4, s5, s6, s7 } && s0 == 0 && s1 == 0 && s2
            == 0 && s3 == 0 && s4 == 0 && s5 == 0 && s6 == 0 && s7 == 0
    }

    /// Unique local addresses, fc00::/7.
    pub open spec fn v6_unique_local(self) -> bool {
        self matches IpAddress::V6 { s0, .. } && (s0 & 0xfe00) == 0xfc00
    }

    /// Link-local addresses, fe80::/10.
    pub open spec fn v6_link_local(self) -> bool {
        self matches IpAddress::V6 { s0, .. } && (s0 & 0xffc0) == 0xfe80
    }

    /// The IPv4 address inside an IPv4-mapped address `::ffff:a.b.c.d`.
    pub open spec fn v6_mapped(self) -> Option<(u8, u8, u8, u8)> {
        match self {
            IpAddress::V6 { s0, s1, s2, s3, s4, s5, s6, s7 } => if s0 == 0 && s1 == 0 && s2 == 0
                && s3 == 0 && s4 == 0 && s5 == 0xffff {
                Some(((s6 >> 8) as u8, (s6 & 0xff) as u8, (s7 >> 8) as u8, (s7 & 0xff) as u8))
            } else {
                None
            },
            IpAddress::V4 { .. } => None,
        }
    }

    /// An address that no fetched URL may point to.
    pub open spec fn internal(self) -> bool {
        match self {
            IpAddress::V4 { a, b, c, d } => v4_internal(a, b, c, d),
            IpAddress::V6 { .. } => {
                ||| self.v6_loopback()
                ||| self.v6_unspecified()
                ||| (self.v6_mapped() matches Some(m) && v4_internal(m.0, m.1, m.2, m.3))
                ||| self.v6_unique_local()
                ||| self.v6_link_local()
            },
        }
    }
}

fn v4_is_internal(a: u8, b: u8, c: u8, d: u8) -> (r: bool)
    ensures
        r == v4_internal(a, b, c, d),
{
    a == 127 || a == 10 || (a == 172 && 16 <= b && b <= 31) || (a == 192 && b == 168) || (a == 169
        && b == 254) || (a == 255 && b == 255 && c == 255 && d == 255) || (a == 192 && b == 0 && c
        == 2) || (a == 198 && b == 51 && c == 100) || (a == 203 && b == 0 && c == 113) || (a == 0
        && b == 0 && c == 0 && d == 0)
}

/// Whether an address is internal: loopback, private, link-local, broadcast,
/// documentation, metadata or unspecified for IPv4; loopback, unspecified,
/// unique-local, link-local, or mapped from an internal IPv4 address for IPv6.
pub fn is_internal_ip(ip: &IpAddress) -> (r: bool)
    ensures
        r == ip.internal(),
{
    match ip {
        IpAddress::V4 { a, b, c, d } => v4_is_internal(*a, *b, *c, *d),
        IpAddress::V6 { s0, s1, s2, s3, s4, s5, s6, s7 } => {
            let zero_head = *s0 == 0 && *s1 == 0 && *s2 == 0 && *s3 == 0 && *s4 == 0;
            if zero_head && *s5 == 0 && *s6 == 0 && (*s7 == 0 || *s7 == 1) {
                return true;
            }
            if zero_head && *s5 == 0xffff {
                let hi: u16 = *s6;
                let lo: u16 = *s7;
                assert((hi >> 8) <= 0xff && (hi & 0xff) <= 0xff) by (bit_vector);
                assert((lo >> 8) <= 0xff && (lo & 0xff) <= 0xff) by (bit_vector);
                if v4_is_internal((hi >> 8) as u8, (hi & 0xff) as u8, (lo >> 8) as u8, (lo
                    & 0xff) as u8) {
                    return true;
                }
            }
            (*s0 & 0xfe00) == 0xfc00 || (*s0 & 0xffc0) == 0xfe80
        },
    }
}

/// The unique-local and link-local IPv6 ranges, by the value of the first
/// segment.
pub proof fn lemma_v6_ranges(ip: IpAddress)
    requires
        ip is V6,
    ensures
        ip.v6_unique_local() <==> 0xfc00 <= ip->s0 <= 0xfdff,
        ip.v6_link_local() <==> 0xfe80 <= ip->s0 <= 0xfebf,
{
    let s = ip->s0;
    assert(((s & 0xfe00) == 0xfc00) <==> (0xfc00 <= s && s <= 0xfdff)) by (bit_vector);
    assert(((s & 0xffc0) == 0xfe80) <==> (0xfe80 <= s && s <= 0xfebf)) by (bit_vector);
}

/// The text of an address: dotted decimal for IPv4, eight hexadecimal
/// segments separated by colons for IPv6.
pub open spec fn ip_text(ip: IpAddress) -> Seq<char> {
    match ip {
        IpAddress::V4 { a, b, c, d } => decimal(a as nat) + "."@ + decimal(b as nat) + "."@
            + decimal(c as nat) + "."@ + decimal(d as nat),
        IpAddress::V6 { s0, s1, s2, s3, s4, s5, s6, s7 } => lower_hex(s0 as nat) + ":"@
            + lower_hex(s1 as nat) + ":"@ + lower_hex(s2 as nat) + ":"@ + lower_hex(s3 as nat)
            + ":"@ + lower_hex(s4 as nat) + ":"@ + lower_hex(s5 as nat) + ":"@ + lower_hex(
            s6 as nat,
        ) + ":"@ + lower_hex(s7 as nat),
    }
}

fn push_decimal(out: &mut Vec<char>, n: u64)
    ensures
        final(out)@ == old(out)@ + decimal(n as nat),
{
    let d = decimal_exec(n);
    extend_chars(out, &d);
}

fn push_hex(out: &mut Vec<char>, n: u64)
    ensures
        final(out)@ == old(out)@ + lower_hex(n as nat),
{
    let d = lower_hex_exec(n);
    extend_chars(out, &d);
}

/// Writes an address as text.
pub fn format_ip(ip: &IpAddress) -> (r: String)
    ensures
        r@ == ip_text(*ip),
{
    let mut out: Vec<char> = Vec::new();
    match ip {
        IpAddress::V4 { a, b, c, d } => {
            push_decimal(&mut out, *a as u64);
            extend_str(&mut out, ".");
            push_decimal(&mut out, *b as u64);
            extend_str(&mut out, ".");
            push_decimal(&mut out, *c as u64);
            extend_str(&mut out, ".");
            push_decimal(&mut out, *d as u64);
            assert(out@ =~= ip_text(*ip));
        },
        IpAddress::V6 { s0, s1, s2, s3, s4, s5, s6, s7 } => {
            push_hex(&mut out, *s0 as u64);
            extend_str(&mut out, ":");
            push_hex(&mut out, *s1 as u64);
            extend_str(&mut out, ":");
            push_hex(&mut out, *s2 as u64);
            extend_str(&mut out, ":");
            push_hex(&mut out, *s3 as u64);
            extend_str(&mut out, ":");
            push_hex(&mut out, *s4 as u64);
            extend_str(&mut out, ":");
            push_hex(&mut out, *s5 as u64);
            extend_str(&mut out, ":");
            push_hex(&mut out, *s6 as u64);
            extend_str(&mut out, ":");
            push_hex(&mut out, *s7 as u64);
            assert(out@ =~= ip_text(*ip));
        },
    }
    string_of(&out)
}

// ---------------------------------------------------------------------------
// The guard against requests to internal targets
// ---------------------------------------------------------------------------

/// The host of a parsed URL.
#[derive(Debug, Clone, PartialEq, Eq)]
pub enum UrlHost {
    /// The URL has no host.
    Absent,
    /// A domain name, in the normalised form of the parser.
    Domain(String),
    /// An IPv4 literal, by its octets.
    V4([u8; 4]),
    /// An IPv6 literal, by its segments.
    V6([u16; 8]),
}

/// What the guard reads of a parsed URL.
#[derive(Debug, Clone, PartialEq, Eq)]
pub struct UrlParts {
    pub scheme: String,
    pub host: UrlHost,
}

/// The mathematical value of a host.
pub enum UrlHostView {
    Absent,
    Domain(Seq<char>),
    Ip(IpAddress),
}

/// The mathematical value of the parts of a URL.
pub struct UrlPartsView {
    pub scheme: Seq<char>,
    pub host: UrlHostView,
}

impl View for UrlHost {
    type V = UrlHostView;

    open spec fn view(&self) -> UrlHostView {
        match self {
            UrlHost::Absent => UrlHostView::Absent,
            UrlHost::Domain(d) => UrlHostView::Domain(d@),
            UrlHost::V4(o) => UrlHostView::Ip(
                IpAddress::V4 { a: o@[0], b: o@[1], c: o@[2], d: o@[3] },
            ),
            UrlHost::V6(s) => UrlHostView::Ip(
                IpAddress::V6 {
                    s0: s@[0],
                    s1: s@[1],
                    s2: s@[2],
                    s3: s@[3],
                    s4: s@[4],
                    s5: s@[5],
                    s6: s@[6],
                    s7: s@[7],
                },
            ),
        }
    }
}

impl View for UrlParts {
    type V = UrlPartsView;

    open spec fn view(&self) -> UrlPartsView {
        UrlPartsView { scheme: self.scheme@, host: self.host@ }
    }
}

/// What the URL parser makes of a text: the scheme and host of the URL, or
/// the parser's message where the text is no absolute URL.
pub uninterp spec fn url_parts(url: Seq<char>) -> Result<UrlPartsView, Seq<char>>;

/// The views of a parse result.
pub open spec fn view_parts(r: Result<UrlParts, String>) -> Result<UrlPartsView, Seq<char>> {
    match r {
        Ok(p) => Ok(p@),
        Err(e) => Err(e@),
    }
}

/// `url::Url::parse`, then `Url::scheme` and `Url::host` of the result; a
/// parse error is handed on as its `Display` text.
#[verifier::external_body]
fn split_url(url: &str) -> (r: Result<UrlParts, String>)
    ensures
        view_parts(r) == url_parts(url@),
{
    let parsed = url::Url::parse(url).map_err(|e| e.to_string())?;
    let host = match parsed.host() {
        Some(url::Host::Domain(d)) => UrlHost::Domain(d.to_string()),
        Some(url::Host::Ipv4(a)) => UrlHost::V4(a.octets()),
        Some(url::Host::Ipv6(a)) => UrlHost::V6(a.segments()),
        None => UrlHost::Absent,
    };
    Ok(UrlParts { scheme: parsed.scheme().to_string(), host })
}

/// Why the guard turns a URL down.
#[derive(Debug, Clone, PartialEq, Eq)]
pub enum SsrfError {
    /// The text is no URL; the parser's message.
    InvalidUrl(String),
    /// The scheme is neither `http` nor `https`.
    DisallowedScheme(String),
    /// The URL names no host.
    NoHost,
    /// The host is a name of this machine.
    Localhost,
    /// The host is a literal internal address.
    InternalIp(IpAddress),
    /// The host name resolves to an internal address.
    ResolvesToInternal(IpAddress),
}

/// The mathematical value of a guard error.
pub enum SsrfErrorView {
    InvalidUrl(Seq<char>),
    DisallowedScheme(Seq<char>),
    NoHost,
    Localhost,
    InternalIp(IpAddress),
    ResolvesToInternal(IpAddress),
}

impl View for SsrfError {
    type V = SsrfErrorView;

    open spec fn view(&self) -> SsrfErrorView {
        match self {
            SsrfError::InvalidUrl(m) => SsrfErrorView::InvalidUrl(m@),
            SsrfError::DisallowedScheme(s) => SsrfErrorView::DisallowedScheme(s@),
            SsrfError::NoHost => SsrfErrorView::NoHost,
            SsrfError::Localhost => SsrfErrorView::Localhost,
            SsrfError::InternalIp(ip) => SsrfErrorView::InternalIp(*ip),
            SsrfError::ResolvesToInternal(ip) => SsrfErrorView::ResolvesToInternal(*ip),
        }
    }
}

/// The reason sent to the client.
pub open spec fn ssrf_message(e: SsrfErrorView) -> Seq<char> {
    match e {
        SsrfErrorView::InvalidUrl(m) => "Invalid URL: "@ + m,
        SsrfErrorView::DisallowedScheme(s) => "Disallowed URL scheme: "@ + s,
        SsrfErrorView::NoHost => "URL has no host"@,
        SsrfErrorView::Localhost => "Requests to localhost are not allowed"@,
        SsrfErrorView::InternalIp(ip) => "Requests to internal IP addresses are not allowed: "@
            + ip_text(ip),
        SsrfErrorView::ResolvesToInternal(ip) => "URL resolves to internal IP address: "@
            + ip_text(ip),
    }
}

impl SsrfError {
    /// The reason sent to the client, with status 400.
    pub fn message(&self) -> (r: String)
        ensures
            r@ == ssrf_message(self@),
    {
        match self {
            SsrfError::InvalidUrl(m) => join2("Invalid URL: ", m.as_str()),
            SsrfError::DisallowedScheme(s) => join2("Disallowed URL scheme: ", s.as_str()),
            SsrfError::NoHost => "URL has no host".to_owned(),
            SsrfError::Localhost => "Requests to localhost are not allowed".to_owned(),
            SsrfError::InternalIp(ip) => {
                let text = format_ip(ip);
                join2("Requests to internal IP addresses are not allowed: ", text.as_str())
            },
            SsrfError::ResolvesToInternal(ip) => {
                let text = format_ip(ip);
                join2("URL resolves to internal IP address: ", text.as_str())
            },
        }
    }
}

/// A host name that stands for this machine: `localhost`, a name under
/// `.localhost`, or `0.0.0.0`, in any case of letters.
pub open spec fn names_this_machine(domain: Seq<char>) -> bool {
    let lower = crate::text::to_ascii_lower(domain);
    lower == "localhost"@ || ends_with(lower, ".localhost"@) || lower == "0.0.0.0"@
}

/// The first internal address of a list.
pub open spec fn first_internal(addrs: Seq<IpAddress>) -> Option<IpAddress>
    decreases addrs.len(),
{
    if addrs.len() == 0 {
        None
    } else if addrs[0].internal() {
        Some(addrs[0])
    } else {
        first_internal(addrs.drop_first())
    }
}

/// The guard's verdict on the parts of a URL before any lookup.
pub open spec fn parts_verdict(parts: UrlPartsView) -> Result<(), SsrfErrorView> {
    if parts.scheme != "http"@ && parts.scheme != "https"@ {
        Err(SsrfErrorView::DisallowedScheme(parts.scheme))
    } else {
        match parts.host {
            UrlHostView::Absent => Err(SsrfErrorView::NoHost),
            UrlHostView::Domain(d) => if names_this_machine(d) {
                Err(SsrfErrorView::Localhost)
            } else {
                Ok(())
            },
            UrlHostView::Ip(ip) => if ip == (IpAddress::V4 { a: 0, b: 0, c: 0, d: 0 }) {
                Err(SsrfErrorView::Localhost)
            } else if ip.internal() {
                Err(SsrfErrorView::InternalIp(ip))
            } else {
                Ok(())
            },
        }
    }
}

/// The guard's verdict on the addresses that the host resolved to: every one
/// of them must pass.
pub open spec fn resolved_verdict(addrs: Seq<IpAddress>) -> Result<(), SsrfErrorView> {
    match first_internal(addrs) {
        Some(ip) => Err(SsrfErrorView::ResolvesToInternal(ip)),
        None => Ok(()),
    }
}

/// The guard's verdict on a URL, given what the parser made of it and the
/// addresses that its host resolved to.
pub open spec fn ssrf_verdict(
    parsed: Result<UrlPartsView, Seq<char>>,
    resolved: Seq<IpAddress>,
) -> Result<(), SsrfErrorView> {
    match parsed {
        Err(m) => Err(SsrfErrorView::InvalidUrl(m)),
        Ok(parts) => match parts_verdict(parts) {
            Err(e) => Err(e),
            Ok(_) => resolved_verdict(resolved),
        },
    }
}

/// The views of a verdict.
pub open spec fn view_verdict(r: Result<(), SsrfError>) -> Result<(), SsrfErrorView> {
    match r {
        Ok(_) => Ok(()),
        Err(e) => Err(e@),
    }
}

/// The address of an IP literal host.
pub fn host_address(host: &UrlHost) -> (r: Option<IpAddress>)
    ensures
        r == (match host@ {
            UrlHostView::Ip(ip) => Some(ip),
            _ => None,
        }),
{
    match host {
        UrlHost::V4(o) => Some(IpAddress::V4 { a: o[0], b: o[1], c: o[2], d: o[3] }),
        UrlHost::V6(s) => Some(
            IpAddress::V6 {
                s0: s[0],
                s1: s[1],
                s2: s[2],
                s3: s[3],
                s4: s[4],
                s5: s[5],
                s6: s[6],
                s7: s[7],
            },
        ),
        _ => None,
    }
}

fn names_this_machine_exec(domain: &str) -> (r: bool)
    ensures
        r == names_this_machine(domain@),
{
    let d = chars_of(domain);
    let lower = crate::text::to_ascii_lower_exec(&d);
    let a = chars_of("localhost");
    let b = chars_of(".localhost");
    let z = chars_of("0.0.0.0");
    crate::text::chars_eq(&lower, &a) || ends_with_exec(&lower, &b) || crate::text::chars_eq(
        &lower,
        &z,
    )
}

/// Checks scheme and host of a parsed URL: only `http` and `https`, a host
/// must be there, and it may be neither a name of this machine nor an
/// internal address.
pub fn check_url_parts(parts: &UrlParts) -> (r: Result<(), SsrfError>)
    ensures
        view_verdict(r) == parts_verdict(parts@),
{
    if !str_eq(parts.scheme.as_str(), "http") && !str_eq(parts.scheme.as_str(), "https") {
        return Err(SsrfError::DisallowedScheme(parts.scheme.clone()));
    }
    match &parts.host {
        UrlHost::Absent => Err(SsrfError::NoHost),
        UrlHost::Domain(d) => {
            if names_this_machine_exec(d.as_str()) {
                Err(SsrfError::Localhost)
            } else {
                Ok(())
            }
        },
        _ => {
            let ip = host_address(&parts.host).unwrap();
            let zero = match ip {
                IpAddress::V4 { a, b, c, d } => a == 0 && b == 0 && c == 0 && d == 0,
                IpAddress::V6 { .. } => false,
            };
            if zero {
                Err(SsrfError::Localhost)
            } else if is_internal_ip(&ip) {
                Err(SsrfError::InternalIp(ip))
            } else {
                Ok(())
            }
        },
    }
}

/// Checks the addresses that a host name resolved to. The lookup is made by
/// the caller, before the request; one internal address among them is enough
/// to turn the URL down.
pub fn check_resolved(addrs: &Vec<IpAddress>) -> (r: Result<(), SsrfError>)
    ensures
        view_verdict(r) == resolved_verdict(addrs@),
{
    let mut i: usize = 0;
    assert(addrs@.skip(0) == addrs@);
    while i < addrs.len()
        invariant
            i <= addrs.len(),
            first_internal(addrs@) == first_internal(addrs@.skip(i as int)),
        decreases addrs.len() - i,
    {
        assert(addrs@.skip(i as int).drop_first() == addrs@.skip(i + 1));
        if is_internal_ip(&addrs[i]) {
            return Err(SsrfError::ResolvesToInternal(addrs[i]));
        }
        i = i + 1;
    }
    Ok(())
}

/// The guard's verdict given the parser's result.
pub fn check_parsed_url(parsed: Result<UrlParts, String>, resolved: &Vec<IpAddress>) -> (r: Result<
    (),
    SsrfError,
>)
    ensures
        view_verdict(r) == ssrf_verdict(view_parts(parsed), resolved@),
{
    match parsed {
        Err(m) => Err(SsrfError::InvalidUrl(m)),
        Ok(parts) => match check_url_parts(&parts) {
            Err(e) => Err(e),
            Ok(_) => check_resolved(resolved),
        },
    }
}

/// The host name that the caller resolves before it calls the guard: the
/// domain of the URL, where it has one.
pub fn lookup_host(url: &str) -> (r: Option<String>)
    ensures
        view_opt(r) == (match url_parts(url@) {
            Ok(parts) => match parts.host {
                UrlHostView::Domain(d) => Some(d),
                _ => None,
            },
            Err(_) => None,
        }),
{
    match split_url(url) {
        Ok(parts) => match parts.host {
            UrlHost::Domain(d) => Some(d),
            _ => None,
        },
        Err(_) => None,
    }
}

/// Validates a URL before it is fetched, and again the final URL after
/// redirects. `resolved` holds the addresses that the caller's lookup of the
/// host returned; it is empty where the host is an IP literal or the lookup
/// failed.
pub fn validate_url_for_ssrf(url: &str, resolved: &Vec<IpAddress>) -> (r: Result<(), SsrfError>)
    ensures
        view_verdict(r) == ssrf_verdict(url_parts(url@), resolved@),
{
    check_parsed_url(split_url(url), resolved)
}

/// Redirects followed at most when a URL is fetched.
pub const MAX_REDIRECTS: u32 = 5;

/// Time allowed for fetching a URL, in seconds.
pub const URL_FETCH_TIMEOUT_SECS: u64 = 300;

/// The guard turns down every URL whose host is a literal internal address,
/// and every URL whose host resolved to one, whatever else holds of it.
pub proof fn lemma_guard_rejects_internal(
    parts: UrlPartsView,
    resolved: Seq<IpAddress>,
    ip: IpAddress,
)
    requires
        ip.internal(),
        parts.host == UrlHostView::Ip(ip) || resolved.contains(ip),
    ensures
        ssrf_verdict(Ok(parts), resolved) is Err,
{
    if parts.host == UrlHostView::Ip(ip) {
    } else {
        lemma_first_internal(resolved, ip);
    }
}

proof fn lemma_first_internal(addrs: Seq<IpAddress>, ip: IpAddress)
    requires
        ip.internal(),
        addrs.contains(ip),
    ensures
        first_internal(addrs) is Some,
    decreases addrs.len(),
{
    if addrs.len() > 0 && !addrs[0].internal() {
        let i = choose|i: int| 0 <= i < addrs.len() && addrs[i] == ip;
        assert(addrs.drop_first()[i - 1] == ip);
        lemma_first_internal(addrs.drop_first(), ip);
    }
}

/// Each class of address that the guard names is internal.
pub proof fn lemma_internal_classes(ip: IpAddress)
    ensures
        ip matches IpAddress::V4 { a, b, c, d } ==> (v4_loopback(a, b, c, d) || v4_private(
            a,
            b,
            c,
            d,
        ) || v4_link_local(a, b, c, d) || v4_documentation(a, b, c, d) || v4_broadcast(a, b, c, d)
            || v4_unspecified(a, b, c, d) || v4_metadata(a, b, c, d) ==> ip.internal()),
        ip.v6_loopback() || ip.v6_unspecified() || ip.v6_unique_local() || ip.v6_link_local()
            ==> ip.internal(),
        ip.v6_mapped() matches Some(m) && v4_internal(m.0, m.1, m.2, m.3) ==> ip.internal(),
{
}

// ---------------------------------------------------------------------------
// File names and destinations
// ---------------------------------------------------------------------------

/// The part of `s` before the first `c`, or all of `s` where there is none.
pub open spec fn until_char(s: Seq<char>, c: char) -> Seq<char> {
    s.subrange(0, crate::text::index_of_char(s, c, 0))
}

fn until_char_exec(s: &Vec<char>, c: char) -> (r: Vec<char>)
    ensures
        r@ == until_char(s@, c),
{
    let k = crate::text::index_of_char_exec(s, c, 0);
    slice_chars(s, 0, k)
}

/// What follows the last `/` of `s`.
pub open spec fn after_last_slash(s: Seq<char>) -> Seq<char>
    decreases s.len(),
{
    if s.len() == 0 {
        s
    } else if s.last() == '/' {
        Seq::<char>::empty()
    } else {
        after_last_slash(s.drop_last()).push(s.last())
    }
}

fn after_last_slash_exec(s: &Vec<char>) -> (r: Vec<char>)
    ensures
        r@ == after_last_slash(s@),
{
    let mut i: usize = s.len();
    assert(s@.take(i as int) == s@);
    assert(s@.subrange(i as int, s.len() as int) == Seq::<char>::empty());
    while i > 0 && s[i - 1] != '/'
        invariant
            i <= s.len(),
            after_last_slash(s@) == after_last_slash(s@.take(i as int)) + s@.subrange(
                i as int,
                s.len() as int,
            ),
        decreases i,
    {
        assert(s@.take(i as int).drop_last() == s@.take(i - 1));
        assert(s@.take(i as int).last() == s@[i - 1]);
        assert(after_last_slash(s@.take(i - 1)).push(s@[i - 1]) + s@.subrange(
            i as int,
            s.len() as int,
        ) == after_last_slash(s@.take(i - 1)) + s@.subrange(i - 1, s.len() as int));
        i = i - 1;
    }
    proof {
        if i > 0 {
            assert(s@.take(i as int).last() == s@[i - 1]);
        }
        assert(Seq::<char>::empty() + s@.subrange(i as int, s.len() as int) == s@.subrange(
            i as int,
            s.len() as int,
        ));
    }
    slice_chars(s, i, s.len())
}

/// The index of the first character of `s` at or after `from` that ends an
/// unquoted file name: a semicolon or white space; the length of `s` where
/// there is none.
pub open spec fn unquoted_end(s: Seq<char>, from: int) -> int
    decreases s.len() - from,
{
    if from < 0 || from >= s.len() {
        s.len() as int
    } else if s[from] == ';' || is_whitespace(s[from]) {
        from
    } else {
        unquoted_end(s, from + 1)
    }
}

/// The text between the first `filename=` of a header value and the next
/// one, or the end.
pub open spec fn filename_segment(header: Seq<char>) -> Option<Seq<char>> {
    let key = "filename="@;
    match crate::text::find(header, key) {
        None => None,
        Some(k) => {
            let rest = header.subrange(k + key.len(), header.len() as int);
            match crate::text::find(rest, key) {
                Some(e) => Some(rest.subrange(0, e)),
                None => Some(rest),
            }
        },
    }
}

/// The file name in a `filename=` segment: between double or single quotes
/// where the trimmed segment opens with one, and else up to the first
/// semicolon or white space, if that is not empty.
pub open spec fn segment_name(segment: Seq<char>) -> Option<Seq<char>> {
    let t = trim(segment);
    if t.len() > 0 && t[0] == '"' {
        Some(until_char(t.drop_first(), '"'))
    } else if t.len() > 0 && t[0] == '\'' {
        Some(until_char(t.drop_first(), '\''))
    } else {
        let end = unquoted_end(t, 0);
        if end > 0 {
            Some(t.subrange(0, end))
        } else {
            None
        }
    }
}

/// The file name that a `Content-Disposition` header value gives.
pub open spec fn disposition_name(header: Seq<char>) -> Option<Seq<char>> {
    match filename_segment(header) {
        Some(seg) => segment_name(seg),
        None => None,
    }
}

/// Reads the file name out of a `Content-Disposition` header value such as
/// `attachment; filename="report.pdf"; size=1234`.
pub fn filename_from_content_disposition(header: &str) -> (r: Option<String>)
    ensures
        view_opt(r) == disposition_name(header@),
{
    let h = chars_of(header);
    let key = chars_of("filename=");
    let k = match crate::text::find_from_exec(&h, &key, 0) {
        Some(k) => k,
        None => {
            return None;
        },
    };
    proof {
        crate::text::lemma_find_from(h@, key@, 0);
        assert(matches_at(h@, key@, k as int));
        assert(k + key@.len() <= h@.len());
    }
    let key_len: usize = key.len();
    assert(k + key_len <= h.len());
    let rest = slice_chars(&h, k + key_len, h.len());
    let seg = match crate::text::find_from_exec(&rest, &key, 0) {
        Some(e) => {
            proof {
                crate::text::lemma_find_from(rest@, key@, 0);
                assert(matches_at(rest@, key@, e as int));
            }
            slice_chars(&rest, 0, e)
        },
        None => rest,
    };
    let t = trim_exec(&seg);
    if t.len() > 0 && t[0] == '"' {
        let inner = slice_chars(&t, 1, t.len());
        Some(string_of(&until_char_exec(&inner, '"')))
    } else if t.len() > 0 && t[0] == '\'' {
        let inner = slice_chars(&t, 1, t.len());
        Some(string_of(&until_char_exec(&inner, '\'')))
    } else {
        let mut end: usize = 0;
        while end < t.len() && !(t[end] == ';' || crate::text::is_whitespace_exec(t[end]))
            invariant
                end <= t.len(),
                unquoted_end(t@, 0) == unquoted_end(t@, end as int),
            decreases t.len() - end,
        {
            end = end + 1;
        }
        if end > 0 {
            Some(string_of(&slice_chars(&t, 0, end)))
        } else {
            None
        }
    }
}

/// The file name that a URL ends in: what follows its last `/`, up to a `?`.
pub open spec fn url_file_name(url: Seq<char>) -> Seq<char> {
    until_char(after_last_slash(url), '?')
}

/// The name of a downloaded file before it is made safe: the name that the
/// client asked for, else the one in the `Content-Disposition` header, else
/// the one the URL ends in.
pub open spec fn raw_download_name(
    requested: Option<Seq<char>>,
    disposition: Option<Seq<char>>,
    url: Seq<char>,
) -> Seq<char> {
    match requested {
        Some(n) => n,
        None => {
            let from_header = match disposition {
                Some(h) => disposition_name(h),
                None => None,
            };
            match from_header {
                Some(n) => n,
                None => url_file_name(url),
            }
        },
    }
}

/// The name under which a downloaded file is stored: the safe form of the raw
/// name, or `fallback` where nothing is left of it.
pub open spec fn download_name(
    requested: Option<Seq<char>>,
    disposition: Option<Seq<char>>,
    url: Seq<char>,
    fallback: Seq<char>,
) -> Seq<char> {
    let safe = sanitized(raw_download_name(requested, disposition, url));
    if safe.len() == 0 {
        fallback
    } else {
        safe
    }
}

/// Chooses the name under which a file fetched from `url` is stored.
/// `fallback` is a fresh name that the caller made up.
pub fn choose_download_name(
    requested: Option<&str>,
    disposition: Option<&str>,
    url: &str,
    fallback: &str,
) -> (r: String)
    ensures
        r@ == download_name(
            match requested {
                Some(s) => Some(s@),
                None => None,
            },
            match disposition {
                Some(s) => Some(s@),
                None => None,
            },
            url@,
            fallback@,
        ),
{
    let raw: String = match requested {
        Some(n) => n.to_owned(),
        None => {
            let from_header = match disposition {
                Some(h) => filename_from_content_disposition(h),
                None => None,
            };
            match from_header {
                Some(n) => n,
                None => {
                    let u = chars_of(url);
                    let tail = after_last_slash_exec(&u);
                    string_of(&until_char_exec(&tail, '?'))
                },
            }
        },
    };
    let safe = sanitize_path_component(raw.as_str());
    if safe.as_str().unicode_len() == 0 {
        fallback.to_owned()
    } else {
        safe
    }
}

/// The path of the file `name` in the directory `dir`.
pub open spec fn remote_path(dir: Seq<char>, name: Seq<char>) -> Seq<char> {
    if ends_with(dir, "/"@) {
        dir + name
    } else {
        dir + "/"@ + name
    }
}

/// `s` without its trailing slashes.
pub open spec fn trim_end_slashes(s: Seq<char>) -> Seq<char>
    decreases s.len(),
{
    if s.len() > 0 && s.last() == '/' {
        trim_end_slashes(s.drop_last())
    } else {
        s
    }
}

/// Where a file `name` sent to the directory `dir` ends up.
pub fn destination_path(dir: &str, name: &str) -> (r: String)
    ensures
        r@ == remote_path(dir@, name@),
{
    let d = chars_of(dir);
    let slash = chars_of("/");
    if ends_with_exec(&d, &slash) {
        join2(dir, name)
    } else {
        join3(dir, "/", name)
    }
}

/// The directory that must exist before a file is moved into `dir`: `dir`
/// without trailing slashes.
pub fn target_dir(dir: &str) -> (r: String)
    ensures
        r@ == trim_end_slashes(dir@),
{
    let d = chars_of(dir);
    let mut end: usize = d.len();
    assert(d@.take(end as int) == d@);
    while end > 0 && d[end - 1] == '/'
        invariant
            end <= d.len(),
            trim_end_slashes(d@) == trim_end_slashes(d@.take(end as int)),
        decreases end,
    {
        assert(d@.take(end as int).drop_last() == d@.take(end - 1));
        end = end - 1;
    }
    proof {
        if end > 0 {
            assert(d@.take(end as int).last() == d@[end - 1]);
        }
        assert(d@.take(end as int) == d@.subrange(0, end as int));
    }
    string_of(&slice_chars(&d, 0, end))
}

/// The value of the `Content-Disposition` header of a download of `path`.
pub fn download_disposition(path: &str) -> (r: String)
    ensures
        r@ == "attachment; filename=\""@ + after_last_slash(path@) + "\""@,
{
    let p = chars_of(path);
    let name = after_last_slash_exec(&p);
    let mut out = chars_of("attachment; filename=\"");
    extend_chars(&mut out, &name);
    extend_str(&mut out, "\"");
    string_of(&out)
}

/// How long a fetched temporary file is kept after a remote download, in
/// seconds.
pub const DOWNLOAD_CLEANUP_DELAY_SECS: u64 = 30;

/// The `sftp` batch that puts the local file `local` at `remote`.
pub fn sftp_put_batch(local: &str, remote: &str) -> (r: String)
    ensures
        r@ == "put -p \""@ + local@ + "\" \""@ + remote@ + "\"\n"@,
{
    let mut out = chars_of("put -p \"");
    extend_str(&mut out, local);
    extend_str(&mut out, "\" \"");
    extend_str(&mut out, remote);
    extend_str(&mut out, "\"\n");
    string_of(&out)
}

/// The `sftp` batch that gets the file `remote` into the local file `local`.
pub fn sftp_get_batch(remote: &str, local: &str) -> (r: String)
    ensures
        r@ == "get -p \""@ + remote@ + "\" \""@ + local@ + "\"\n"@,
{
    let mut out = chars_of("get -p \"");
    extend_str(&mut out, remote);
    extend_str(&mut out, "\" \"");
    extend_str(&mut out, local);
    extend_str(&mut out, "\"\n");
    string_of(&out)
}

/// The arguments of a remote `mkdir` that creates `path` with its parents.
pub fn mkdir_args(path: &str) -> (r: Vec<String>)
    ensures
        view_strs(r@) == seq!["-p"@, path@],
{
    let mut args: Vec<String> = Vec::new();
    assert(view_strs(args@) =~= Seq::<Seq<char>>::empty());
    push_arg(&mut args, "-p");
    push_arg(&mut args, path);
    assert(view_strs(args@) =~= seq!["-p"@, path@]);
    args
}

/// The arguments of a remote `rm` of `path`: forced, and recursive where
/// asked for.
pub fn rm_args(path: &str, recursive: Option<bool>) -> (r: Vec<String>)
    ensures
        view_strs(r@) == seq![
            if recursive == Some(true) {
                "-rf"@
            } else {
                "-f"@
            },
            path@,
        ],
{
    let mut args: Vec<String> = Vec::new();
    assert(view_strs(args@) =~= Seq::<Seq<char>>::empty());
    let deep = match recursive {
        Some(b) => b,
        None => false,
    };
    if deep {
        push_arg(&mut args, "-rf");
    } else {
        push_arg(&mut args, "-f");
    }
    push_arg(&mut args, path);
    assert(view_strs(args@) =~= seq![
        if recursive == Some(true) {
            "-rf"@
        } else {
            "-f"@
        },
        path@,
    ]);
    args
}

/// The kind of a directory entry as it is listed. A directory wins over a
/// symbolic link, a link over a regular file.
pub fn entry_kind(is_dir: bool, is_symlink: bool, is_file: bool) -> (r: &'static str)
    ensures
        r@ == (if is_dir {
            "dir"@
        } else if is_symlink {
            "link"@
        } else if is_file {
            "file"@
        } else {
            "other"@
        }),
{
    if is_dir {
        "dir"
    } else if is_symlink {
        "link"
    } else if is_file {
        "file"
    } else {
        "other"
    }
}

// ---------------------------------------------------------------------------
// Requests
// ---------------------------------------------------------------------------

/// A request that names one path.
#[derive(Debug, Clone, PartialEq, Eq)]
pub struct PathQuery {
    pub path: String,
}

/// A request to create a directory.
#[derive(Debug, Clone, PartialEq, Eq)]
pub struct MkdirRequest {
    pub path: String,
}

/// A request to remove a file, or a tree where `recursive` is set.
#[derive(Debug, Clone, PartialEq, Eq)]
pub struct RmRequest {
    pub path: String,
    pub recursive: Option<bool>,
}

/// One entry of a directory listing.
#[derive(Debug, Clone, PartialEq, Eq)]
pub struct FsEntry {
    pub name: String,
    pub path: String,
    /// `file`, `dir`, `link` or `other`.
    pub kind: String,
    pub size: u64,
    pub mtime: i64,
}

/// The query of one chunk of a chunked upload.
#[derive(Debug, Clone, PartialEq, Eq)]
pub struct ChunkUploadQuery {
    pub path: String,
    pub upload_id: String,
    pub chunk_index: u32,
    pub total_chunks: u32,
}

/// The request that ends a chunked upload.
#[derive(Debug, Clone, PartialEq, Eq)]
pub struct FinalizeUploadRequest {
    pub path: String,
    pub upload_id: String,
    pub file_name: String,
    pub total_chunks: u32,
}

/// A request to fetch a URL into a directory of the server.
#[derive(Debug, Clone, PartialEq, Eq)]
pub struct DownloadUrlRequest {
    pub url: String,
    pub path: String,
    pub file_name: Option<String>,
}

/// Why a transfer request is turned down, each with status 400.
#[derive(Debug, Clone, Copy, PartialEq, Eq)]
pub enum FsError {
    InvalidPath,
    InvalidUploadId,
    InvalidFileName,
    MissingFile,
    MissingChunk,
}

impl FsError {
    /// The reason sent to the client.
    pub open spec fn reason(self) -> Seq<char> {
        match self {
            FsError::InvalidPath => "Invalid path"@,
            FsError::InvalidUploadId => "Invalid upload_id"@,
            FsError::InvalidFileName => "Invalid file_name"@,
            FsError::MissingFile => "missing file"@,
            FsError::MissingChunk => "missing chunk data"@,
        }
    }

    pub fn message(&self) -> (r: &'static str)
        ensures
            r@ == self.reason(),
    {
        match self {
            FsError::InvalidPath => "Invalid path",
            FsError::InvalidUploadId => "Invalid upload_id",
            FsError::InvalidFileName => "Invalid file_name",
            FsError::MissingFile => "missing file",
            FsError::MissingChunk => "missing chunk data",
        }
    }
}

// ---------------------------------------------------------------------------
// Uploads
// ---------------------------------------------------------------------------

/// The name of the file that holds chunk `index`: `chunk_` and the index in
/// at least six decimal digits.
pub open spec fn chunk_name(index: nat) -> Seq<char> {
    "chunk_"@ + zero_padded(decimal(index), 6)
}

/// The name of the directory, under the system's temporary directory, that
/// holds the chunks of the upload with the safe id `id`.
pub open spec fn chunk_dir(id: Seq<char>) -> Seq<char> {
    "open_agent_chunks_"@ + id
}

/// The name of the file in which the chunks of an upload are put together.
pub open spec fn assembled_name(id: Seq<char>) -> Seq<char> {
    "open_agent_assembled_"@ + id
}

pub fn chunk_file_name(index: u32) -> (r: String)
    ensures
        r@ == chunk_name(index as nat),
{
    let digits = decimal_exec(index as u64);
    let padded = zero_padded_exec(&digits, 6);
    let mut out = chars_of("chunk_");
    extend_chars(&mut out, &padded);
    string_of(&out)
}

pub fn chunk_dir_name(safe_upload_id: &str) -> (r: String)
    ensures
        r@ == chunk_dir(safe_upload_id@),
{
    join2("open_agent_chunks_", safe_upload_id)
}

pub fn assembled_file_name(safe_upload_id: &str) -> (r: String)
    ensures
        r@ == assembled_name(safe_upload_id@),
{
    join2("open_agent_assembled_", safe_upload_id)
}

/// Where a plain upload goes.
#[derive(Debug, Clone, PartialEq, Eq)]
pub struct UploadPlan {
    /// The name of the file: the safe form of the one the client sent, or
    /// `upload.bin`.
    pub file_name: String,
    /// The path of the uploaded file.
    pub destination: String,
    /// The directory to create first.
    pub target_dir: String,
}

/// The name under which a plain upload is stored: the safe form of the name
/// that the client sent, and `upload.bin` where it sent none or nothing safe
/// is left of it.
pub open spec fn upload_name(sent: Option<Seq<char>>) -> Seq<char> {
    match sent {
        Some(n) => if sanitized(n).len() == 0 {
            "upload.bin"@
        } else {
            sanitized(n)
        },
        None => "upload.bin"@,
    }
}

/// Plans a plain upload of one file into the directory `dir`. The name that
/// the client sent goes through the sanitizer before it enters the
/// destination.
pub fn plan_upload(dir: &str, file_name: Option<&str>) -> (r: UploadPlan)
    ensures
        r.file_name@ == upload_name(crate::text::view_opt_str(file_name)),
        r.destination@ == remote_path(dir@, r.file_name@),
        r.target_dir@ == trim_end_slashes(dir@),
{
    let name = match file_name {
        Some(n) => {
            let safe = sanitize_path_component(n);
            if safe.as_str().unicode_len() == 0 {
                "upload.bin".to_owned()
            } else {
                safe
            }
        },
        None => "upload.bin".to_owned(),
    };
    let destination = destination_path(dir, name.as_str());
    UploadPlan { file_name: name, destination, target_dir: target_dir(dir) }
}

/// Where one chunk of a chunked upload is kept until the upload is finalized.
#[derive(Debug, Clone, PartialEq, Eq)]
pub struct ChunkTarget {
    /// The chunk directory, a name under the system's temporary directory.
    pub dir_name: String,
    /// The name of the chunk's file in it.
    pub file_name: String,
}

/// What a chunk request leads to.
pub open spec fn chunk_verdict(q: ChunkUploadQuery) -> Result<(Seq<char>, Seq<char>), FsError> {
    if crate::text::is_blank(q.path@) {
        Err(FsError::InvalidPath)
    } else if sanitized(q.upload_id@).len() == 0 {
        Err(FsError::InvalidUploadId)
    } else {
        Ok((chunk_dir(sanitized(q.upload_id@)), chunk_name(q.chunk_index as nat)))
    }
}

/// Decides where a chunk is stored. A blank path and an upload id of which
/// nothing safe is left are turned down.
pub fn plan_chunk_upload(q: &ChunkUploadQuery) -> (r: Result<ChunkTarget, FsError>)
    ensures
        match r {
            Ok(t) => chunk_verdict(*q) == Ok::<(Seq<char>, Seq<char>), FsError>(
                (t.dir_name@, t.file_name@),
            ),
            Err(e) => chunk_verdict(*q) == Err::<(Seq<char>, Seq<char>), FsError>(e),
        },
{
    let p = chars_of(q.path.as_str());
    if crate::text::is_blank_exec(&p) {
        return Err(FsError::InvalidPath);
    }
    let safe = sanitize_path_component(q.upload_id.as_str());
    if safe.as_str().unicode_len() == 0 {
        return Err(FsError::InvalidUploadId);
    }
    Ok(
        ChunkTarget {
            dir_name: chunk_dir_name(safe.as_str()),
            file_name: chunk_file_name(q.chunk_index),
        },
    )
}

/// What finalizing a chunked upload takes.
#[derive(Debug, Clone, PartialEq, Eq)]
pub struct FinalizePlan {
    /// The chunk directory, removed once the file is in place.
    pub chunk_dir: String,
    /// The file in which the chunks are put together.
    pub assembled: String,
    /// The chunk files to read, in this order.
    pub chunk_names: Vec<String>,
    /// The safe name of the file.
    pub file_name: String,
    /// The path of the finished file.
    pub destination: String,
    /// The directory to create first.
    pub target_dir: String,
}

/// The names of the chunks `0` to `total - 1`, in order.
pub open spec fn chunk_names(total: nat) -> Seq<Seq<char>> {
    Seq::new(total, |i: int| chunk_name(i as nat))
}

impl FinalizePlan {
    /// The plan for a request whose id and file name are safe.
    pub open spec fn matches(self, req: FinalizeUploadRequest) -> bool {
        &&& self.chunk_dir@ == chunk_dir(sanitized(req.upload_id@))
        &&& self.assembled@ == assembled_name(sanitized(req.upload_id@))
        &&& view_strs(self.chunk_names@) == chunk_names(req.total_chunks as nat)
        &&& self.file_name@ == sanitized(req.file_name@)
        &&& self.destination@ == remote_path(req.path@, sanitized(req.file_name@))
        &&& self.target_dir@ == trim_end_slashes(req.path@)
    }
}

/// Plans the end of a chunked upload: the chunks are read in index order and
/// put together, and the result is moved to the safe file name in the target
/// directory. An upload id or a file name of which nothing safe is left is
/// turned down.
pub fn plan_finalize(req: &FinalizeUploadRequest) -> (r: Result<FinalizePlan, FsError>)
    ensures
        sanitized(req.upload_id@).len() == 0 ==> r == Err::<FinalizePlan, FsError>(
            FsError::InvalidUploadId,
        ),
        sanitized(req.upload_id@).len() > 0 && sanitized(req.file_name@).len() == 0 ==> r == Err::<
            FinalizePlan,
            FsError,
        >(FsError::InvalidFileName),
        sanitized(req.upload_id@).len() > 0 && sanitized(req.file_name@).len() > 0 ==> (r matches Ok(
            plan,
        ) && plan.matches(*req)),
{
    let safe_id = sanitize_path_component(req.upload_id.as_str());
    if safe_id.as_str().unicode_len() == 0 {
        return Err(FsError::InvalidUploadId);
    }
    let safe_name = sanitize_path_component(req.file_name.as_str());
    if safe_name.as_str().unicode_len() == 0 {
        return Err(FsError::InvalidFileName);
    }
    let mut names: Vec<String> = Vec::new();
    let mut i: u32 = 0;
    while i < req.total_chunks
        invariant
            i <= req.total_chunks,
            view_strs(names@) =~= chunk_names(i as nat),
        decreases req.total_chunks - i,
    {
        let name = chunk_file_name(i);
        let ghost before = names@;
        names.push(name);
        assert(view_strs(names@) =~= view_strs(before).push(chunk_name(i as nat)));
        assert(chunk_names(i as nat).push(chunk_name(i as nat)) =~= chunk_names((i + 1) as nat));
        i = i + 1;
    }
    let destination = destination_path(req.path.as_str(), safe_name.as_str());
    Ok(
        FinalizePlan {
            chunk_dir: chunk_dir_name(safe_id.as_str()),
            assembled: assembled_file_name(safe_id.as_str()),
            chunk_names: names,
            file_name: safe_name,
            destination,
            target_dir: target_dir(req.path.as_str()),
        },
    )
}

/// The bytes of a list of chunks, one after the other.
pub open spec fn concat_all(chunks: Seq<Seq<u8>>) -> Seq<u8>
    decreases chunks.len(),
{
    if chunks.len() == 0 {
        Seq::<u8>::empty()
    } else {
        concat_all(chunks.drop_last()) + chunks.last()
    }
}

/// The views of a list of byte vectors.
pub open spec fn view_chunks(v: Seq<Vec<u8>>) -> Seq<Seq<u8>> {
    Seq::new(v.len(), |i: int| v[i]@)
}

/// Puts chunks together in the order given.
pub fn assemble_chunks(chunks: &Vec<Vec<u8>>) -> (r: Vec<u8>)
    ensures
        r@ == concat_all(view_chunks(chunks@)),
{
    let mut out: Vec<u8> = Vec::new();
    let mut i: usize = 0;
    while i < chunks.len()
        invariant
            i <= chunks.len(),
            out@ == concat_all(view_chunks(chunks@).take(i as int)),
        decreases chunks.len() - i,
    {
        let chunk = &chunks[i];
        let ghost before = out@;
        let mut j: usize = 0;
        while j < chunk.len()
            invariant
                j <= chunk.len(),
                out@ == before + chunk@.take(j as int),
            decreases chunk.len() - j,
        {
            out.push(chunk[j]);
            assert(chunk@.take(j + 1) == chunk@.take(j as int).push(chunk@[j as int]));
            j = j + 1;
        }
        proof {
            assert(chunk@.take(chunk@.len() as int) == chunk@);
            let all = view_chunks(chunks@);
            assert(all.take(i + 1).drop_last() == all.take(i as int));
            assert(all.take(i + 1).last() == chunk@);
        }
        i = i + 1;
    }
    assert(view_chunks(chunks@).take(chunks@.len() as int) == view_chunks(chunks@));
    out
}

/// Different chunks are kept under different names.
pub proof fn lemma_chunk_names_differ(i: nat, j: nat)
    requires
        chunk_name(i) == chunk_name(j),
    ensures
        i == j,
{
    let head = "chunk_"@;
    let a = zero_padded(decimal(i), 6);
    let b = zero_padded(decimal(j), 6);
    assert((head + a).subrange(head.len() as int, (head + a).len() as int) =~= a);
    assert((head + b).subrange(head.len() as int, (head + b).len() as int) =~= b);
    crate::text::lemma_numeral_value_padded(decimal(i), 6);
    crate::text::lemma_numeral_value_padded(decimal(j), 6);
    crate::text::lemma_numeral_value_decimal(i);
    crate::text::lemma_numeral_value_decimal(j);
}

/// The chunk directory after the chunks `parts[0]`, `parts[1]`, ... have been
/// uploaded into an empty one, each under the name of its index.
pub open spec fn uploaded(parts: Seq<Seq<u8>>) -> Map<Seq<char>, Seq<u8>>
    decreases parts.len(),
{
    if parts.len() == 0 {
        Map::empty()
    } else {
        uploaded(parts.drop_last()).insert(chunk_name((parts.len() - 1) as nat), parts.last())
    }
}

/// What finalizing reads from a chunk directory: the chunks `0` to
/// `total - 1`, in order, where all of them are there.
pub open spec fn read_chunks(dir: Map<Seq<char>, Seq<u8>>, total: nat) -> Option<Seq<Seq<u8>>> {
    if forall|i: nat| i < total ==> dir.contains_key(#[trigger] chunk_name(i)) {
        Some(Seq::new(total, |i: int| dir[chunk_name(i as nat)]))
    } else {
        None
    }
}

proof fn lemma_uploaded(parts: Seq<Seq<u8>>, i: nat)
    requires
        i < parts.len(),
    ensures
        uploaded(parts).contains_key(chunk_name(i)),
        uploaded(parts)[chunk_name(i)] == parts[i as int],
    decreases parts.len(),
{
    if i + 1 < parts.len() {
        lemma_uploaded(parts.drop_last(), i);
        if chunk_name(i) == chunk_name((parts.len() - 1) as nat) {
            lemma_chunk_names_differ(i, (parts.len() - 1) as nat);
        }
    }
}

/// Uploading the chunks of a file one by one and then finalizing with their
/// number yields the file: the chunks are read back as they were sent, and
/// their concatenation is what `assemble_chunks` returns for them.
pub proof fn lemma_chunked_upload_round_trip(parts: Seq<Seq<u8>>)
    ensures
        read_chunks(uploaded(parts), parts.len()) == Some(parts),
{
    let dir = uploaded(parts);
    assert forall|i: nat| i < parts.len() implies dir.contains_key(#[trigger] chunk_name(i)) by {
        lemma_uploaded(parts, i);
    }
    let got = Seq::new(parts.len(), |i: int| dir[chunk_name(i as nat)]);
    assert forall|i: int| 0 <= i < parts.len() implies got[i] == parts[i] by {
        lemma_uploaded(parts, i as nat);
    }
    assert(got =~= parts);
}

// ---------------------------------------------------------------------------
// The remote side
// ---------------------------------------------------------------------------

/// The options that every `ssh` and `sftp` invocation carries: the key,
/// batch mode, host keys accepted on first use and kept in a file of this
/// process.
pub open spec fn ssh_options(key_path: Seq<char>, known_hosts: Seq<char>) -> Seq<Seq<char>> {
    seq![
        "-i"@,
        key_path,
        "-o"@,
        "BatchMode=yes"@,
        "-o"@,
        "StrictHostKeyChecking=accept-new"@,
        "-o"@,
        "UserKnownHostsFile="@ + known_hosts,
    ]
}

/// The SSH target of the file transfer.
#[derive(Debug, Clone, PartialEq, Eq)]
pub struct SshTarget {
    pub host: String,
    pub port: u16,
    pub user: String,
}

fn push_ssh_options(args: &mut Vec<String>, key_path: &str, known_hosts: &str)
    requires
        view_strs(old(args)@) == Seq::<Seq<char>>::empty(),
    ensures
        view_strs(final(args)@) == ssh_options(key_path@, known_hosts@),
{
    push_arg(args, "-i");
    push_arg(args, key_path);
    push_arg(args, "-o");
    push_arg(args, "BatchMode=yes");
    push_arg(args, "-o");
    push_arg(args, "StrictHostKeyChecking=accept-new");
    push_arg(args, "-o");
    crate::text::push_joined(args, "UserKnownHostsFile=", known_hosts);
    assert(view_strs(args@) =~= ssh_options(key_path@, known_hosts@));
}

/// The arguments of `ssh` that run `program` with `argv` on the target.
pub fn ssh_exec_args(
    target: &SshTarget,
    key_path: &str,
    known_hosts: &str,
    program: &str,
    argv: &Vec<String>,
) -> (r: Vec<String>)
    ensures
        view_strs(r@) == ssh_options(key_path@, known_hosts@) + seq![
            "-p"@,
            decimal(target.port as nat),
            target.user@ + "@"@ + target.host@,
            program@,
        ] + view_strs(argv@),
{
    let mut args: Vec<String> = Vec::new();
    assert(view_strs(args@) =~= Seq::<Seq<char>>::empty());
    push_ssh_options(&mut args, key_path, known_hosts);
    push_arg(&mut args, "-p");
    let port_text = string_of(&decimal_exec(target.port as u64));
    push_arg(&mut args, port_text.as_str());
    let who = join3(target.user.as_str(), "@", target.host.as_str());
    push_arg(&mut args, who.as_str());
    push_arg(&mut args, program);
    let ghost head = view_strs(args@);
    assert(head =~= ssh_options(key_path@, known_hosts@) + seq![
        "-p"@,
        decimal(target.port as nat),
        target.user@ + "@"@ + target.host@,
        program@,
    ]);
    let mut i: usize = 0;
    while i < argv.len()
        invariant
            i <= argv.len(),
            view_strs(args@) =~= head + view_strs(argv@).take(i as int),
        decreases argv.len() - i,
    {
        push_arg(&mut args, argv[i].as_str());
        assert(view_strs(argv@).take(i + 1) =~= view_strs(argv@).take(i as int).push(
            argv@[i as int]@,
        ));
        i = i + 1;
    }
    assert(view_strs(argv@).take(argv@.len() as int) == view_strs(argv@));
    args
}

/// The arguments of `sftp` that run the batch on its standard input against
/// the target.
pub fn sftp_batch_args(target: &SshTarget, key_path: &str, known_hosts: &str) -> (r: Vec<String>)
    ensures
        view_strs(r@) == ssh_options(key_path@, known_hosts@) + seq![
            "-P"@,
            decimal(target.port as nat),
            "-b"@,
            "-"@,
            target.user@ + "@"@ + target.host@,
        ],
{
    let mut args: Vec<String> = Vec::new();
    assert(view_strs(args@) =~= Seq::<Seq<char>>::empty());
    push_ssh_options(&mut args, key_path, known_hosts);
    push_arg(&mut args, "-P");
    let port_text = string_of(&decimal_exec(target.port as u64));
    push_arg(&mut args, port_text.as_str());
    push_arg(&mut args, "-b");
    push_arg(&mut args, "-");
    let who = join3(target.user.as_str(), "@", target.host.as_str());
    push_arg(&mut args, who.as_str());
    assert(view_strs(args@) =~= ssh_options(key_path@, known_hosts@) + seq![
        "-P"@,
        decimal(target.port as nat),
        "-b"@,
        "-"@,
        target.user@ + "@"@ + target.host@,
    ]);
    args
}

/// The script that lists a directory on the remote side. It prints a JSON
/// array of entries with name, path, kind, size and time of change; a
/// directory that is not there gives an empty array.
pub const LIST_SCRIPT: &'static str = "\nimport os, sys, json, stat\n\npath = sys.argv[1]\nout = []\ntry:\n  with os.scandir(path) as it:\n    for e in it:\n      try:\n        st = e.stat(follow_symlinks=False)\n        mode = st.st_mode\n        if stat.S_ISDIR(mode):\n          kind = \"dir\"\n        elif stat.S_ISREG(mode):\n          kind = \"file\"\n        elif stat.S_ISLNK(mode):\n          kind = \"link\"\n        else:\n          kind = \"other\"\n        out.append({\n          \"name\": e.name,\n          \"path\": os.path.join(path, e.name),\n          \"kind\": kind,\n          \"size\": int(st.st_size),\n          \"mtime\": int(st.st_mtime),\n        })\n      except Exception:\n        continue\nexcept FileNotFoundError:\n  out = []\n\nprint(json.dumps(out))\n";

/// The arguments of the remote `python3` that runs the list script from its
/// standard input on `path`.
pub fn list_args(path: &str) -> (r: Vec<String>)
    ensures
        view_strs(r@) == seq!["-"@, path@],
{
    let mut args: Vec<String> = Vec::new();
    assert(view_strs(args@) =~= Seq::<Seq<char>>::empty());
    push_arg(&mut args, "-");
    push_arg(&mut args, path);
    assert(view_strs(args@) =~= seq!["-"@, path@]);
    args
}

/// How a file that lies in a local temporary file reaches its destination.
#[derive(Debug, Clone, PartialEq, Eq)]
pub enum Transfer {
    /// The target is this machine: create the directory, then move the file
    /// to its destination, copying where it cannot be renamed.
    Local { create_dir: String, destination: String },
    /// The target is remote: create the directory with `mkdir` over `ssh`,
    /// then run the batch with `sftp`, then remove the temporary file.
    Remote { mkdir: Vec<String>, batch: String },
}

/// The mathematical value of a transfer.
pub enum TransferView {
    Local { create_dir: Seq<char>, destination: Seq<char> },
    Remote { mkdir: Seq<Seq<char>>, batch: Seq<char> },
}

impl View for Transfer {
    type V = TransferView;

    open spec fn view(&self) -> TransferView {
        match self {
            Transfer::Local { create_dir, destination } => TransferView::Local {
                create_dir: create_dir@,
                destination: destination@,
            },
            Transfer::Remote { mkdir, batch } => TransferView::Remote {
                mkdir: view_strs(mkdir@),
                batch: batch@,
            },
        }
    }
}

/// The transfer of the temporary file `local` to the file `file_name` in
/// the directory `dir` of the target `host`.
pub open spec fn transfer_to(
    host: Seq<char>,
    local: Seq<char>,
    dir: Seq<char>,
    file_name: Seq<char>,
) -> TransferView {
    if host == "localhost"@ || host == "127.0.0.1"@ || host == "::1"@ {
        TransferView::Local {
            create_dir: trim_end_slashes(dir),
            destination: remote_path(dir, file_name),
        }
    } else {
        TransferView::Remote {
            mkdir: seq!["-p"@, trim_end_slashes(dir)],
            batch: "put -p \""@ + local + "\" \""@ + remote_path(dir, file_name) + "\"\n"@,
        }
    }
}

/// Plans the last step of an upload: the move of the temporary file `local`
/// to the file `file_name` in the directory `dir` of the target `host`.
pub fn plan_transfer(host: &str, local: &str, dir: &str, file_name: &str) -> (r: Transfer)
    ensures
        r@ == transfer_to(host@, local@, dir@, file_name@),
{
    let destination = destination_path(dir, file_name);
    let directory = target_dir(dir);
    if is_localhost(host) {
        Transfer::Local { create_dir: directory, destination }
    } else {
        Transfer::Remote {
            mkdir: mkdir_args(directory.as_str()),
            batch: sftp_put_batch(local, destination.as_str()),
        }
    }
}

/// Why a transfer request fails, with the HTTP status that reports it.
#[derive(Debug, Clone, PartialEq, Eq)]
pub enum TransferFailure {
    /// No SSH target is configured for the console; status 503.
    NotConfigured,
    /// The request itself is turned down; status 400.
    Rejected(FsError),
    /// The guard against internal targets turned the URL down; status 400.
    Blocked(SsrfError),
    /// The guard turned down the URL that redirects led to; status 400.
    RedirectBlocked(SsrfError),
    /// The URL could not be fetched; status 400.
    FetchFailed(String),
    /// The URL answered with a failure status; status 400.
    BadStatus(String),
    /// The file to download is not there; status 404.
    NotFound(String),
    /// A step on the server or the remote side failed; status 500. The text
    /// is that of the step's error or standard error.
    Operation(String),
}

impl TransferFailure {
    /// The HTTP status of the failure.
    pub open spec fn spec_status(self) -> u16 {
        match self {
            TransferFailure::NotConfigured => 503,
            TransferFailure::Rejected(_) => 400,
            TransferFailure::Blocked(_) => 400,
            TransferFailure::RedirectBlocked(_) => 400,
            TransferFailure::FetchFailed(_) => 400,
            TransferFailure::BadStatus(_) => 400,
            TransferFailure::NotFound(_) => 404,
            TransferFailure::Operation(_) => 500,
        }
    }

    /// The reason sent with the status.
    pub open spec fn spec_reason(self) -> Seq<char> {
        match self {
            TransferFailure::NotConfigured => "Console SSH not configured"@,
            TransferFailure::Rejected(e) => e.reason(),
            TransferFailure::Blocked(e) => ssrf_message(e@),
            TransferFailure::RedirectBlocked(e) => "Redirect target blocked: "@ + ssrf_message(e@),
            TransferFailure::FetchFailed(e) => "Failed to fetch URL: "@ + e@,
            TransferFailure::BadStatus(s) => "URL returned error: "@ + s@,
            TransferFailure::NotFound(e) => "File not found: "@ + e@,
            TransferFailure::Operation(e) => e@,
        }
    }

    pub fn status(&self) -> (r: u16)
        ensures
            r == self.spec_status(),
    {
        match self {
            TransferFailure::NotConfigured => 503,
            TransferFailure::NotFound(_) => 404,
            TransferFailure::Operation(_) => 500,
            _ => 400,
        }
    }

    pub fn reason(&self) -> (r: String)
        ensures
            r@ == self.spec_reason(),
    {
        match self {
            TransferFailure::NotConfigured => "Console SSH not configured".to_owned(),
            TransferFailure::Rejected(e) => e.message().to_owned(),
            TransferFailure::Blocked(e) => e.message(),
            TransferFailure::RedirectBlocked(e) => {
                let m = e.message();
                join2("Redirect target blocked: ", m.as_str())
            },
            TransferFailure::FetchFailed(e) => join2("Failed to fetch URL: ", e.as_str()),
            TransferFailure::BadStatus(s) => join2("URL returned error: ", s.as_str()),
            TransferFailure::NotFound(e) => join2("File not found: ", e.as_str()),
            TransferFailure::Operation(e) => e.clone(),
        }
    }
}

/// What a request to fetch a URL leads to, once the URL has been fetched.
#[derive(Debug, Clone, PartialEq, Eq)]
pub struct DownloadPlan {
    /// The safe name of the file.
    pub file_name: String,
    /// How the fetched file reaches its destination.
    pub transfer: Transfer,
}

/// The checks that a request to fetch a URL passes before anything is
/// fetched: the guard, with the addresses that the host resolved to.
pub fn check_download_request(req: &DownloadUrlRequest, resolved: &Vec<IpAddress>) -> (r: Result<
    (),
    TransferFailure,
>)
    ensures
        match ssrf_verdict(url_parts(req.url@), resolved@) {
            Ok(_) => r is Ok,
            Err(e) => r matches Err(TransferFailure::Blocked(b)) && b@ == e,
        },
{
    match validate_url_for_ssrf(req.url.as_str(), resolved) {
        Ok(_) => Ok(()),
        Err(e) => Err(TransferFailure::Blocked(e)),
    }
}

/// Plans what follows the fetch. The final URL, after redirects, passes the
/// guard again with the addresses that its host resolved to; a failure
/// status of the answer ends the request; then the file gets its safe name
/// and goes to the directory asked for. `status_text` is the text of the
/// status of the answer, `fallback` a fresh name, `local` the temporary
/// file that holds what was fetched.
pub fn plan_download(
    req: &DownloadUrlRequest,
    host: &str,
    final_url: &str,
    final_resolved: &Vec<IpAddress>,
    success: bool,
    status_text: &str,
    disposition: Option<&str>,
    fallback: &str,
    local: &str,
) -> (r: Result<DownloadPlan, TransferFailure>)
    ensures
        match ssrf_verdict(url_parts(final_url@), final_resolved@) {
            Err(e) => r matches Err(TransferFailure::RedirectBlocked(b)) && b@ == e,
            Ok(_) => if !success {
                r matches Err(TransferFailure::BadStatus(s)) && s@ == status_text@
            } else {
                r matches Ok(plan) && plan.file_name@ == download_name(
                    view_opt(req.file_name),
                    crate::text::view_opt_str(disposition),
                    req.url@,
                    fallback@,
                ) && plan.transfer@ == transfer_to(host@, local@, req.path@, plan.file_name@)
            },
        },
{
    match validate_url_for_ssrf(final_url, final_resolved) {
        Err(e) => {
            return Err(TransferFailure::RedirectBlocked(e));
        },
        Ok(_) => {},
    }
    if !success {
        return Err(TransferFailure::BadStatus(status_text.to_owned()));
    }
    let requested: Option<&str> = match &req.file_name {
        Some(n) => Some(n.as_str()),
        None => None,
    };
    let name = choose_download_name(requested, disposition, req.url.as_str(), fallback);
    let transfer = plan_transfer(host, local, req.path.as_str(), name.as_str());
    Ok(DownloadPlan { file_name: name, transfer })
}

// ---------------------------------------------------------------------------
// The private key
// ---------------------------------------------------------------------------

/// Where the private key of the console comes from.
#[derive(Debug, Clone, PartialEq, Eq)]
pub enum KeySource {
    /// The file at this path, used as it is.
    File(String),
    /// This PEM text, written to a file of its own that is removed after
    /// use.
    Pem(String),
}

/// `key` ends in a line feed.
pub open spec fn ends_in_newline(key: Seq<char>) -> bool {
    key.len() > 0 && key.last() == '\n'
}

/// The text of a key file: the key, and a line feed behind it unless it ends
/// in one.
pub open spec fn key_file_text(key: Seq<char>) -> Seq<char> {
    if ends_in_newline(key) {
        key
    } else {
        key + seq!['\n']
    }
}

/// Tells a configured key apart: text that holds `-----BEGIN` is PEM, and so
/// is text that is no path of an existing file; the trimmed text is a path
/// where such a file exists. `exists_as_path` says whether it does.
pub fn private_key_source(key: &str, exists_as_path: bool) -> (r: KeySource)
    ensures
        (!crate::text::contains(key@, "-----BEGIN"@) && exists_as_path) ==> (r matches KeySource::File(
            p,
        ) && p@ == trim(key@)),
        !(!crate::text::contains(key@, "-----BEGIN"@) && exists_as_path) ==> (r matches KeySource::Pem(
            t,
        ) && t@ == key_file_text(key@)),
{
    let k = chars_of(key);
    let marker = chars_of("-----BEGIN");
    if !crate::text::contains_exec(&k, &marker) && exists_as_path {
        KeySource::File(string_of(&trim_exec(&k)))
    } else {
        let mut text = k;
        if text.len() == 0 || text[text.len() - 1] != '\n' {
            text.push('\n');
        }
        KeySource::Pem(string_of(&text))
    }
}

/// What listing a directory on this machine returns where the directory
/// could not be read: an empty listing for a directory that is not there,
/// and the failure otherwise.
pub fn unreadable_directory(not_found: bool, error: &str) -> (r: Result<Vec<FsEntry>, TransferFailure>)
    ensures
        not_found ==> (r matches Ok(entries) && entries@.len() == 0),
        !not_found ==> (r matches Err(TransferFailure::Operation(e)) && e@ == error@),
{
    if not_found {
        Ok(Vec::new())
    } else {
        Err(TransferFailure::Operation(error.to_owned()))
    }
}

} // verus!
