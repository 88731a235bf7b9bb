//! Reconnectable terminal sessions.
//!
//! A session is a child process behind a pseudo-terminal. The pool keeps a
//! session alive for a while after its socket has gone, so that the next
//! socket with the same key can take it over. This module holds the rules:
//! how keys are derived, when a session is reused, replaced or reaped, which
//! command a new session runs, and how client frames are read. Spawning,
//! killing and the sockets themselves belong to the caller, which refers to
//! a child by the handle it registered.

use crate::json::{json_str_field, json_u64_field, str_field, u64_field};
use crate::text::{
    chars_of, contains, contains_exec, is_blank, is_blank_exec, join2, join3, push_arg, push_joined,
    push_pair, split_on, split_on_exec, str_eq, string_of, strip_prefix, strip_prefix_exec, trim,
    trim_exec, view_opt, view_pairs, view_strs, views,
};
use crate::terminal::{decode_lossy, utf8_lossy};
use crate::workspace::WorkspaceType;
use vstd::prelude::*;

verus! {

/// How long a session outlives its socket, in milliseconds.
pub const SESSION_POOL_TIMEOUT_MS: u64 = 30000;

/// How often the pool is swept, in milliseconds.
pub const CLEANUP_INTERVAL_MS: u64 = 10000;

/// Rows of a new pseudo-terminal.
pub const INITIAL_ROWS: u16 = 24;

/// Columns of a new pseudo-terminal.
pub const INITIAL_COLS: u16 = 80;

// ---------------------------------------------------------------------------
// Client frames
// ---------------------------------------------------------------------------

/// A frame sent by the client over the text channel.
#[derive(Debug, Clone, PartialEq, Eq)]
pub enum ClientMsg {
    /// Bytes for the child's standard input.
    Input { d: String },
    /// New dimensions of the pseudo-terminal: columns, then rows.
    Resize { c: u16, r: u16 },
}

/// The mathematical value of a client frame.
pub enum ClientMsgView {
    Input { d: Seq<char> },
    Resize { c: u16, r: u16 },
}

impl View for ClientMsg {
    type V = ClientMsgView;

    open spec fn view(&self) -> ClientMsgView {
        match self {
            ClientMsg::Input { d } => ClientMsgView::Input { d: d@ },
            ClientMsg::Resize { c, r } => ClientMsgView::Resize { c: *c, r: *r },
        }
    }
}

/// The frame that the fields of a JSON object stand for: tag `"i"` with a
/// string `d` is input; tag `"r"` with numbers `c` and `r` that fit 16 bits is
/// a resize; anything else is no frame.
pub open spec fn frame_of_fields(
    tag: Option<Seq<char>>,
    data: Option<Seq<char>>,
    cols: Option<u64>,
    rows: Option<u64>,
) -> Option<ClientMsgView> {
    if tag == Some("i"@) {
        match data {
            Some(d) => Some(ClientMsgView::Input { d }),
            None => None,
        }
    } else if tag == Some("r"@) {
        match (cols, rows) {
            (Some(c), Some(r)) => if c <= 0xffff && r <= 0xffff {
                Some(ClientMsgView::Resize { c: c as u16, r: r as u16 })
            } else {
                None
            },
            _ => None,
        }
    } else {
        None
    }
}

/// The views of an optional frame.
pub open spec fn view_frame(o: Option<ClientMsg>) -> Option<ClientMsgView> {
    match o {
        Some(m) => Some(m@),
        None => None,
    }
}

/// Builds a frame from the fields read out of a JSON object.
pub fn client_msg_from_fields(
    tag: Option<String>,
    data: Option<String>,
    cols: Option<u64>,
    rows: Option<u64>,
) -> (r: Option<ClientMsg>)
    ensures
        view_frame(r) == frame_of_fields(view_opt(tag), view_opt(data), cols, rows),
{
    match tag {
        None => None,
        Some(t) => {
            if str_eq(t.as_str(), "i") {
                match data {
                    Some(d) => Some(ClientMsg::Input { d }),
                    None => None,
                }
            } else if str_eq(t.as_str(), "r") {
                match (cols, rows) {
                    (Some(c), Some(r)) => {
                        if c <= 0xffff && r <= 0xffff {
                            Some(ClientMsg::Resize { c: c as u16, r: r as u16 })
                        } else {
                            None
                        }
                    },
                    _ => None,
                }
            } else {
                None
            }
        },
    }
}

/// Reads a client frame from the text of a socket message. Text that is no
/// JSON object, or whose fields make no frame, yields `None` and is dropped
/// by the caller.
pub fn parse_client_msg(text: &str) -> (r: Option<ClientMsg>)
    ensures
        view_frame(r) == frame_of_fields(
            json_str_field(text@, "t"@),
            json_str_field(text@, "d"@),
            json_u64_field(text@, "c"@),
            json_u64_field(text@, "r"@),
        ),
{
    let tag = str_field(text, "t");
    let data = str_field(text, "d");
    let cols = u64_field(text, "c");
    let rows = u64_field(text, "r");
    client_msg_from_fields(tag, data, cols, rows)
}

/// A message as it arrives on the socket.
#[derive(Debug, Clone, PartialEq, Eq)]
pub enum SocketMessage {
    Text(String),
    Binary,
    Ping,
    Pong,
    Close,
}

/// What the read loop does with a socket message.
#[derive(Debug, Clone, PartialEq, Eq)]
pub enum ReadAction {
    /// Hand the frame to the writer of the pseudo-terminal.
    Forward(ClientMsg),
    /// Drop the message and go on reading.
    Ignore,
    /// End the read loop.
    Stop,
}

/// The action for one socket message: a text message that holds a frame is
/// forwarded, a close frame stops the loop, everything else is ignored.
pub fn read_action(message: &SocketMessage) -> (r: ReadAction)
    ensures
        match message {
            SocketMessage::Text(t) => match frame_of_fields(
                json_str_field(t@, "t"@),
                json_str_field(t@, "d"@),
                json_u64_field(t@, "c"@),
                json_u64_field(t@, "r"@),
            ) {
                Some(f) => r matches ReadAction::Forward(m) && m@ == f,
                None => r == ReadAction::Ignore,
            },
            SocketMessage::Close => r == ReadAction::Stop,
            _ => r == ReadAction::Ignore,
        },
{
    match message {
        SocketMessage::Text(t) => match parse_client_msg(t.as_str()) {
            Some(m) => ReadAction::Forward(m),
            None => ReadAction::Ignore,
        },
        SocketMessage::Close => ReadAction::Stop,
        _ => ReadAction::Ignore,
    }
}

// ---------------------------------------------------------------------------
// Handshake
// ---------------------------------------------------------------------------

/// The token that one entry of the subprotocol list carries: the entry,
/// trimmed, is `jwt.` followed by a non-empty token.
pub open spec fn jwt_of_part(part: Seq<char>) -> Option<Seq<char>> {
    match strip_prefix(trim(part), "jwt."@) {
        Some(rest) => if rest.len() > 0 {
            Some(rest)
        } else {
            None
        },
        None => None,
    }
}

/// The token of the first entry that carries one.
pub open spec fn first_jwt(parts: Seq<Seq<char>>) -> Option<Seq<char>>
    decreases parts.len(),
{
    if parts.len() == 0 {
        None
    } else {
        match jwt_of_part(parts[0]) {
            Some(t) => Some(t),
            None => first_jwt(parts.drop_first()),
        }
    }
}

/// The token in a `Sec-WebSocket-Protocol` header value, a list of
/// subprotocols separated by commas.
pub open spec fn jwt_from_protocols(header: Seq<char>) -> Option<Seq<char>> {
    first_jwt(split_on(header, ','))
}

/// Takes the token out of the subprotocol list that the client sent. A
/// browser cannot set an authorization header on a socket upgrade, so the
/// client offers the subprotocols `openagent` and `jwt.<token>`.
pub fn extract_jwt_from_protocols(header: Option<&str>) -> (r: Option<String>)
    ensures
        view_opt(r) == (match header {
            Some(h) => jwt_from_protocols(h@),
            None => None,
        }),
{
    let raw = match header {
        Some(h) => chars_of(h),
        None => {
            return None;
        },
    };
    let parts = split_on_exec(&raw, ',');
    let prefix = chars_of("jwt.");
    let mut i: usize = 0;
    assert(views(parts@).skip(0) == views(parts@));
    while i < parts.len()
        invariant
            i <= parts.len(),
            prefix@ == "jwt."@,
            header matches Some(h) && views(parts@) == split_on(h@, ','),
            first_jwt(views(parts@)) == first_jwt(views(parts@).skip(i as int)),
        decreases parts.len() - i,
    {
        let t = trim_exec(&parts[i]);
        assert(views(parts@).skip(i as int)[0] == parts@[i as int]@);
        assert(views(parts@).skip(i as int).drop_first() == views(parts@).skip(i + 1));
        match strip_prefix_exec(&t, &prefix) {
            Some(rest) => {
                if rest.len() > 0 {
                    return Some(string_of(&rest));
                }
            },
            None => {},
        }
        i = i + 1;
    }
    None
}

/// The subprotocol that the server selects.
pub fn selected_subprotocol() -> (r: &'static str)
    ensures
        r@ == "openagent"@,
{
    "openagent"
}

/// Why a socket upgrade is turned down.
#[derive(Debug, Clone, Copy, PartialEq, Eq)]
pub enum HandshakeError {
    /// Authentication is enforced and the client sent no token.
    MissingToken,
    /// The token did not verify.
    InvalidToken,
    /// No workspace has the requested id.
    WorkspaceNotFound,
    /// The workspace is a container that is not ready.
    WorkspaceNotReady,
}

impl HandshakeError {
    /// The HTTP status sent in place of the upgrade.
    pub open spec fn spec_status(self) -> u16 {
        match self {
            HandshakeError::MissingToken => 401,
            HandshakeError::InvalidToken => 401,
            HandshakeError::WorkspaceNotFound => 404,
            HandshakeError::WorkspaceNotReady => 400,
        }
    }

    pub fn status(&self) -> (r: u16)
        ensures
            r == self.spec_status(),
    {
        match self {
            HandshakeError::MissingToken => 401,
            HandshakeError::InvalidToken => 401,
            HandshakeError::WorkspaceNotFound => 404,
            HandshakeError::WorkspaceNotReady => 400,
        }
    }

    /// The reason sent with the status, for a socket that asked for the
    /// workspace with the id `workspace_id`, which has the given status.
    pub open spec fn spec_reason(
        self,
        workspace_id: Seq<char>,
        status: crate::workspace::WorkspaceStatus,
    ) -> Seq<char> {
        match self {
            HandshakeError::MissingToken => "Missing websocket JWT"@,
            HandshakeError::InvalidToken => "Invalid or expired token"@,
            HandshakeError::WorkspaceNotFound => "Workspace "@ + workspace_id + " not found"@,
            HandshakeError::WorkspaceNotReady => "Workspace "@ + workspace_id
                + " is not ready (status: "@ + status.label() + ")"@,
        }
    }

    pub fn reason(&self, workspace_id: &str, status: crate::workspace::WorkspaceStatus) -> (r:
        String)
        ensures
            r@ == self.spec_reason(workspace_id@, status),
    {
        match self {
            HandshakeError::MissingToken => "Missing websocket JWT".to_owned(),
            HandshakeError::InvalidToken => "Invalid or expired token".to_owned(),
            HandshakeError::WorkspaceNotFound => join3("Workspace ", workspace_id, " not found"),
            HandshakeError::WorkspaceNotReady => {
                let mut out = chars_of("Workspace ");
                crate::text::extend_str(&mut out, workspace_id);
                crate::text::extend_str(&mut out, " is not ready (status: ");
                crate::text::extend_str(&mut out, status.as_str());
                crate::text::extend_str(&mut out, ")");
                string_of(&out)
            },
        }
    }
}

/// Whether a socket may be upgraded. Without enforced authentication every
/// socket may. With it, the client must have sent a token, and the token must
/// have verified.
pub fn authorize_socket(auth_required: bool, token_present: bool, token_valid: bool) -> (r: Result<
    (),
    HandshakeError,
>)
    ensures
        r == (if !auth_required {
            Ok::<(), HandshakeError>(())
        } else if !token_present {
            Err(HandshakeError::MissingToken)
        } else if !token_valid {
            Err(HandshakeError::InvalidToken)
        } else {
            Ok(())
        }),
{
    if !auth_required {
        Ok(())
    } else if !token_present {
        Err(HandshakeError::MissingToken)
    } else if !token_valid {
        Err(HandshakeError::InvalidToken)
    } else {
        Ok(())
    }
}

/// Whether a shell may be opened in a workspace, given what the store knows
/// of it: the workspace must exist, and a container must be ready.
pub fn authorize_workspace_shell(
    workspace: Option<(WorkspaceType, crate::workspace::WorkspaceStatus)>,
) -> (r: Result<(), HandshakeError>)
    ensures
        r == (match workspace {
            None => Err::<(), HandshakeError>(HandshakeError::WorkspaceNotFound),
            Some((kind, status)) => if kind == WorkspaceType::Chroot && status
                != crate::workspace::WorkspaceStatus::Ready {
                Err(HandshakeError::WorkspaceNotReady)
            } else {
                Ok(())
            },
        }),
{
    match workspace {
        None => Err(HandshakeError::WorkspaceNotFound),
        Some((kind, status)) => {
            if kind == WorkspaceType::Chroot && status != crate::workspace::WorkspaceStatus::Ready {
                Err(HandshakeError::WorkspaceNotReady)
            } else {
                Ok(())
            }
        },
    }
}

// ---------------------------------------------------------------------------
// Session keys
// ---------------------------------------------------------------------------

/// The MD5 digest of the UTF-8 bytes of `data`, as 32 small hexadecimal
/// digits.
pub uninterp spec fn md5_hex(data: Seq<char>) -> Seq<char>;

/// `md5::compute` on the bytes of `data`, formatted with the digest's
/// `LowerHex`.
#[verifier::external_body]
fn md5_hex_of(data: &str) -> (r: String)
    ensures
        r@ == md5_hex(data@),
{
    format!("{:x}", md5::compute(data))
}

/// The key of a console session, given the digest of the client's token:
/// `auth:` and the digest, or `dev:default` where authentication is not
/// enforced and there is no digest.
pub open spec fn console_key(digest: Option<Seq<char>>) -> Seq<char> {
    match digest {
        Some(d) => "auth:"@ + d,
        None => "dev:default"@,
    }
}

/// The key of a shell session in the workspace `id`, given the digest of the
/// client's token: `workspace:`, the id, `:` and the digest, or `dev` in the
/// digest's place.
pub open spec fn workspace_key(id: Seq<char>, digest: Option<Seq<char>>) -> Seq<char> {
    match digest {
        Some(d) => "workspace:"@ + id + ":"@ + d,
        None => "workspace:"@ + id + ":dev"@,
    }
}

/// The digest of an optional token.
pub open spec fn token_digest(token: Option<Seq<char>>) -> Option<Seq<char>> {
    match token {
        Some(t) => Some(md5_hex(t)),
        None => None,
    }
}

/// The console key for a token's digest.
pub fn console_key_from_digest(digest: Option<&str>) -> (r: String)
    ensures
        r@ == console_key(
            match digest {
                Some(d) => Some(d@),
                None => None,
            },
        ),
{
    match digest {
        Some(d) => join2("auth:", d),
        None => "dev:default".to_owned(),
    }
}

/// The workspace-shell key for a token's digest.
pub fn workspace_key_from_digest(workspace_id: &str, digest: Option<&str>) -> (r: String)
    ensures
        r@ == workspace_key(
            workspace_id@,
            match digest {
                Some(d) => Some(d@),
                None => None,
            },
        ),
{
    let head = join2("workspace:", workspace_id);
    match digest {
        Some(d) => join3(head.as_str(), ":", d),
        None => join2(head.as_str(), ":dev"),
    }
}

/// The pool key of the console session of a client. `token` is the verified
/// token where authentication is enforced, and `None` where it is not.
pub fn console_session_key(token: Option<&str>) -> (r: String)
    ensures
        r@ == console_key(
            token_digest(
                match token {
                    Some(t) => Some(t@),
                    None => None,
                },
            ),
        ),
{
    match token {
        Some(t) => {
            let digest = md5_hex_of(t);
            console_key_from_digest(Some(digest.as_str()))
        },
        None => console_key_from_digest(None),
    }
}

/// The pool key of a client's shell session in the workspace `workspace_id`.
pub fn workspace_session_key(workspace_id: &str, token: Option<&str>) -> (r: String)
    ensures
        r@ == workspace_key(
            workspace_id@,
            token_digest(
                match token {
                    Some(t) => Some(t@),
                    None => None,
                },
            ),
        ),
{
    match token {
        Some(t) => {
            let digest = md5_hex_of(t);
            workspace_key_from_digest(workspace_id, Some(digest.as_str()))
        },
        None => workspace_key_from_digest(workspace_id, None),
    }
}

/// The token by whose digest the session of a socket is keyed: the client's
/// token where authentication is enforced, and none where it is not,
/// whatever the client sent.
pub open spec fn keying_token(auth_required: bool, token: Option<Seq<char>>) -> Option<Seq<char>> {
    if auth_required {
        token
    } else {
        None
    }
}

/// Why a socket is turned away before the upgrade, if it is.
pub open spec fn socket_refusal(
    auth_required: bool,
    token_present: bool,
    token_valid: bool,
) -> Option<HandshakeError> {
    if !auth_required {
        None
    } else if !token_present {
        Some(HandshakeError::MissingToken)
    } else if !token_valid {
        Some(HandshakeError::InvalidToken)
    } else {
        None
    }
}

/// Admits the socket of a console session and gives the pool key of the
/// session. `token` is what the client sent, and `token_valid` whether it
/// verified. A socket that is turned away gets no key.
pub fn console_socket_key(auth_required: bool, token: Option<&str>, token_valid: bool) -> (r:
    Result<String, HandshakeError>)
    ensures
        socket_refusal(auth_required, token is Some, token_valid) matches Some(e) ==> r == Err::<
            String,
            HandshakeError,
        >(e),
        socket_refusal(auth_required, token is Some, token_valid) is None ==> (r matches Ok(key)
            && key@ == console_key(
            token_digest(keying_token(auth_required, crate::text::view_opt_str(token))),
        )),
{
    match authorize_socket(auth_required, token.is_some(), token_valid) {
        Err(e) => Err(e),
        Ok(()) => Ok(
            if auth_required {
                console_session_key(token)
            } else {
                console_session_key(None)
            },
        ),
    }
}

/// Admits the socket of a shell session in the workspace `workspace_id` and
/// gives the pool key of the session. A socket that is turned away gets no
/// key.
pub fn workspace_socket_key(
    workspace_id: &str,
    auth_required: bool,
    token: Option<&str>,
    token_valid: bool,
) -> (r: Result<String, HandshakeError>)
    ensures
        socket_refusal(auth_required, token is Some, token_valid) matches Some(e) ==> r == Err::<
            String,
            HandshakeError,
        >(e),
        socket_refusal(auth_required, token is Some, token_valid) is None ==> (r matches Ok(key)
            && key@ == workspace_key(
            workspace_id@,
            token_digest(keying_token(auth_required, crate::text::view_opt_str(token))),
        )),
{
    match authorize_socket(auth_required, token.is_some(), token_valid) {
        Err(e) => Err(e),
        Ok(()) => Ok(
            if auth_required {
                workspace_session_key(workspace_id, token)
            } else {
                workspace_session_key(workspace_id, None)
            },
        ),
    }
}

// ---------------------------------------------------------------------------
// Output of the terminal
// ---------------------------------------------------------------------------

/// A byte that continues a character of more than one byte.
pub open spec fn is_continuation(b: u8) -> bool {
    0x80 <= b && b <= 0xbf
}

/// The number of bytes of the character that begins with `lead`, and 0
/// where no character begins with it.
pub open spec fn sequence_len(lead: u8) -> nat {
    if lead < 0x80 {
        1
    } else if 0xc2 <= lead && lead <= 0xdf {
        2
    } else if 0xe0 <= lead && lead <= 0xef {
        3
    } else if 0xf0 <= lead && lead <= 0xf4 {
        4
    } else {
        0
    }
}

/// The number of bytes at the end of `bytes` that begin a character and do
/// not finish it: the first byte of a longer character, followed by
/// continuation bytes alone and by fewer of them than the character has.
pub open spec fn unfinished(bytes: Seq<u8>) -> nat {
    let n = bytes.len() as int;
    if n >= 1 && sequence_len(bytes[n - 1]) > 1 {
        1
    } else if n >= 2 && is_continuation(bytes[n - 1]) && sequence_len(bytes[n - 2]) > 2 {
        2
    } else if n >= 3 && is_continuation(bytes[n - 1]) && is_continuation(bytes[n - 2])
        && sequence_len(bytes[n - 3]) > 3 {
        3
    } else {
        0
    }
}

fn sequence_len_exec(lead: u8) -> (r: usize)
    ensures
        r == sequence_len(lead),
{
    if lead < 0x80 {
        1
    } else if 0xc2 <= lead && lead <= 0xdf {
        2
    } else if 0xe0 <= lead && lead <= 0xef {
        3
    } else if 0xf0 <= lead && lead <= 0xf4 {
        4
    } else {
        0
    }
}

fn unfinished_exec(bytes: &Vec<u8>) -> (k: usize)
    ensures
        k == unfinished(bytes@),
        k <= 3,
        k <= bytes.len(),
{
    let n: usize = bytes.len();
    if n >= 1 && sequence_len_exec(bytes[n - 1]) > 1 {
        1
    } else if n >= 2 && 0x80 <= bytes[n - 1] && bytes[n - 1] <= 0xbf && sequence_len_exec(
        bytes[n - 2],
    ) > 2 {
        2
    } else if n >= 3 && 0x80 <= bytes[n - 1] && bytes[n - 1] <= 0xbf && 0x80 <= bytes[n - 2]
        && bytes[n - 2] <= 0xbf && sequence_len_exec(bytes[n - 3]) > 3 {
        3
    } else {
        0
    }
}

/// The bytes that are decoded at a read: all but the unfinished end.
pub open spec fn decoded_part(bytes: Seq<u8>) -> Seq<u8> {
    bytes.subrange(0, bytes.len() - unfinished(bytes))
}

/// The bytes that are held back at a read: the unfinished end.
pub open spec fn held_part(bytes: Seq<u8>) -> Seq<u8> {
    bytes.subrange(bytes.len() - unfinished(bytes), bytes.len() as int)
}

/// What one read from the terminal gives the client.
#[derive(Debug, Clone, PartialEq, Eq)]
pub struct Decoded {
    /// The text to send.
    pub text: String,
    /// The bytes held back for the next read: the beginning of a character
    /// whose end has not been read yet.
    pub rest: Vec<u8>,
}

/// Decodes what was read from the terminal. `pending` are the bytes held
/// back at the last read, `chunk` the bytes read now. The bytes are decoded
/// in the order in which they were read, invalid sequences replaced; a
/// character that the read has cut in two is held back until its end
/// arrives, so that no read boundary shows in the text. No byte is dropped:
/// the bytes decoded and the bytes held back are together the bytes
/// handed in.
pub fn decode_output(pending: &Vec<u8>, chunk: &Vec<u8>) -> (r: Decoded)
    ensures
        r.text@ == utf8_lossy(decoded_part(pending@ + chunk@)),
        r.rest@ == held_part(pending@ + chunk@),
        r.rest@.len() <= 3,
{
    let mut all: Vec<u8> = Vec::new();
    let mut i: usize = 0;
    while i < pending.len()
        invariant
            i <= pending.len(),
            all@ == pending@.subrange(0, i as int),
        decreases pending.len() - i,
    {
        all.push(pending[i]);
        i = i + 1;
        assert(all@ =~= pending@.subrange(0, i as int));
    }
    assert(all@ =~= pending@);
    let mut j: usize = 0;
    while j < chunk.len()
        invariant
            j <= chunk.len(),
            all@ == pending@ + chunk@.subrange(0, j as int),
        decreases chunk.len() - j,
    {
        all.push(chunk[j]);
        j = j + 1;
        assert(all@ =~= pending@ + chunk@.subrange(0, j as int));
    }
    assert(all@ =~= pending@ + chunk@);
    let k = unfinished_exec(&all);
    let cut: usize = all.len() - k;
    let mut head: Vec<u8> = Vec::new();
    let mut rest: Vec<u8> = Vec::new();
    let mut m: usize = 0;
    while m < all.len()
        invariant
            m <= all.len(),
            cut <= all.len(),
            head@ == all@.subrange(0, if m < cut { m as int } else { cut as int }),
            rest@ == all@.subrange(cut as int, if m < cut { cut as int } else { m as int }),
        decreases all.len() - m,
    {
        if m < cut {
            head.push(all[m]);
            assert(head@ =~= all@.subrange(0, m + 1));
        } else {
            rest.push(all[m]);
            assert(rest@ =~= all@.subrange(cut as int, m + 1));
        }
        m = m + 1;
    }
    Decoded { text: decode_lossy(&head), rest }
}

/// The bytes of the terminal reach the client in the order in which they
/// were read: over two reads in a row, the bytes decoded at the first, the
/// bytes decoded at the second and the bytes then held back are, in this
/// order, the bytes held back before and the bytes of the two reads.
pub proof fn lemma_output_keeps_order(pending: Seq<u8>, first: Seq<u8>, second: Seq<u8>)
    ensures
        decoded_part(pending + first) + held_part(pending + first) == pending + first,
        decoded_part(pending + first) + decoded_part(held_part(pending + first) + second)
            + held_part(held_part(pending + first) + second) == pending + first + second,
{
    let a = pending + first;
    let b = held_part(a) + second;
    assert(decoded_part(a) + held_part(a) =~= a);
    assert(decoded_part(b) + held_part(b) =~= b);
    assert(decoded_part(a) + decoded_part(b) + held_part(b) =~= decoded_part(a) + (decoded_part(b)
        + held_part(b)));
    assert(decoded_part(a) + (held_part(a) + second) =~= (decoded_part(a) + held_part(a))
        + second);
}

/// Decodes the bytes still held back when the terminal has closed: nothing
/// more will arrive to finish them.
pub fn finish_output(pending: &Vec<u8>) -> (r: String)
    ensures
        r@ == utf8_lossy(pending@),
{
    decode_lossy(pending)
}

// ---------------------------------------------------------------------------
// Commands of new sessions
// ---------------------------------------------------------------------------

/// A command for the caller to spawn on the slave side of a pseudo-terminal.
#[derive(Debug, Clone, PartialEq, Eq)]
pub struct PtyCommand {
    pub program: String,
    pub args: Vec<String>,
    /// Environment variables set for the child, in order.
    pub env: Vec<(String, String)>,
    /// The working directory, where one is set.
    pub cwd: Option<String>,
}

/// The mathematical value of a command.
pub struct PtyCommandView {
    pub program: Seq<char>,
    pub args: Seq<Seq<char>>,
    pub env: Seq<(Seq<char>, Seq<char>)>,
    pub cwd: Option<Seq<char>>,
}

impl View for PtyCommand {
    type V = PtyCommandView;

    open spec fn view(&self) -> PtyCommandView {
        PtyCommandView {
            program: self.program@,
            args: view_strs(self.args@),
            env: view_pairs(self.env@),
            cwd: view_opt(self.cwd),
        }
    }
}

/// Whether a private key is configured: there is one, and it is not blank.
pub fn ssh_key_configured(private_key: Option<&str>) -> (r: bool)
    ensures
        r == (private_key matches Some(k) && !is_blank(k@)),
{
    match private_key {
        Some(k) => {
            let v = chars_of(k);
            !is_blank_exec(&v)
        },
        None => false,
    }
}

/// The arguments of the `ssh` child of a console session: batch mode, host
/// keys accepted on first use and kept in the given file, a terminal forced
/// on the remote side.
pub open spec fn console_ssh_args(
    key_path: Seq<char>,
    ssh_port: Seq<char>,
    user: Seq<char>,
    host: Seq<char>,
    known_hosts: Seq<char>,
) -> Seq<Seq<char>> {
    seq![
        "-i"@,
        key_path,
        "-p"@,
        ssh_port,
        "-o"@,
        "BatchMode=yes"@,
        "-o"@,
        "StrictHostKeyChecking=accept-new"@,
        "-o"@,
        "UserKnownHostsFile="@ + known_hosts,
        "-tt"@,
        user + "@"@ + host,
    ]
}

/// The command of a new console session: `ssh` to `user@host` with the key in
/// the file `key_path`, and `TERM` set to `xterm-256color`.
pub fn console_ssh_command(
    key_path: &str,
    ssh_port: u16,
    user: &str,
    host: &str,
    known_hosts: &str,
) -> (r: PtyCommand)
    ensures
        r@ == (PtyCommandView {
            program: "ssh"@,
            args: console_ssh_args(
                key_path@,
                crate::text::decimal(ssh_port as nat),
                user@,
                host@,
                known_hosts@,
            ),
            env: seq![("TERM"@, "xterm-256color"@)],
            cwd: None,
        }),
{
    let mut args: Vec<String> = Vec::new();
    assert(view_strs(args@) =~= Seq::<Seq<char>>::empty());
    push_arg(&mut args, "-i");
    push_arg(&mut args, key_path);
    push_arg(&mut args, "-p");
    let digits = crate::text::decimal_exec(ssh_port as u64);
    let port_text = string_of(&digits);
    push_arg(&mut args, port_text.as_str());
    push_arg(&mut args, "-o");
    push_arg(&mut args, "BatchMode=yes");
    push_arg(&mut args, "-o");
    push_arg(&mut args, "StrictHostKeyChecking=accept-new");
    push_arg(&mut args, "-o");
    push_joined(&mut args, "UserKnownHostsFile=", known_hosts);
    push_arg(&mut args, "-tt");
    let target = join3(user, "@", host);
    push_arg(&mut args, target.as_str());
    let mut env: Vec<(String, String)> = Vec::new();
    assert(view_pairs(env@) =~= Seq::<(Seq<char>, Seq<char>)>::empty());
    push_pair(&mut env, "TERM", "xterm-256color");
    assert(view_strs(args@) =~= console_ssh_args(
        key_path@,
        crate::text::decimal(ssh_port as nat),
        user@,
        host@,
        known_hosts@,
    ));
    assert(view_pairs(env@) =~= seq![("TERM"@, "xterm-256color"@)]);
    PtyCommand { program: "ssh".to_owned(), args, env, cwd: None }
}

/// The arguments of the `systemd-nspawn` child of a container shell. The
/// display is bound and propagated only where one is known and the host's X11
/// socket directory exists; `bash` is used as a login shell where the
/// container has it, `sh` otherwise.
pub open spec fn container_shell_args(
    root: Seq<char>,
    name: Seq<char>,
    id: Seq<char>,
    display: Option<Seq<char>>,
    x11_socket: bool,
    has_bash: bool,
) -> Seq<Seq<char>> {
    let base = seq!["-D"@, root, "--machine="@ + name, "--quiet"@];
    let shown = match display {
        Some(d) => if x11_socket {
            base.push("--bind=/tmp/.X11-unix"@).push("--setenv=DISPLAY="@ + d)
        } else {
            base
        },
        None => base,
    };
    let set = shown.push("--setenv=TERM=xterm-256color"@).push("--setenv=WORKSPACE_ID="@ + id).push(
        "--setenv=WORKSPACE_NAME="@ + name,
    );
    if has_bash {
        set.push("/bin/bash"@).push("--login"@)
    } else {
        set.push("/bin/sh"@)
    }
}

/// The environment of every workspace shell.
pub open spec fn shell_env(id: Seq<char>, name: Seq<char>) -> Seq<(Seq<char>, Seq<char>)> {
    seq![("TERM"@, "xterm-256color"@), ("WORKSPACE_ID"@, id), ("WORKSPACE_NAME"@, name)]
}

/// The command of a new workspace shell.
pub open spec fn workspace_shell_spec(
    kind: WorkspaceType,
    root: Seq<char>,
    name: Seq<char>,
    id: Seq<char>,
    display: Option<Seq<char>>,
    x11_socket: bool,
    has_bash: bool,
    host_shell: Option<Seq<char>>,
) -> PtyCommandView {
    match kind {
        WorkspaceType::Chroot => PtyCommandView {
            program: "systemd-nspawn"@,
            args: container_shell_args(root, name, id, display, x11_socket, has_bash),
            env: shell_env(id, name),
            cwd: None,
        },
        WorkspaceType::Host => PtyCommandView {
            program: match host_shell {
                Some(s) => s,
                None => "/bin/bash"@,
            },
            args: seq!["--login"@],
            env: shell_env(id, name),
            cwd: Some(root),
        },
    }
}

/// The command of a new shell session in a workspace. For a container it
/// enters the root with `systemd-nspawn` under the workspace's name as
/// machine name; for a host workspace it is the user's shell, as a login
/// shell, in the workspace root. `display` is the running display, if any;
/// `x11_socket` says whether the host's X11 socket directory exists,
/// `has_bash` whether the container root holds `bin/bash`, and `host_shell`
/// is the value of `SHELL`.
pub fn workspace_shell_command(
    kind: WorkspaceType,
    root: &str,
    name: &str,
    id: &str,
    display: Option<&str>,
    x11_socket: bool,
    has_bash: bool,
    host_shell: Option<&str>,
) -> (r: PtyCommand)
    ensures
        r@ == workspace_shell_spec(
            kind,
            root@,
            name@,
            id@,
            match display {
                Some(d) => Some(d@),
                None => None,
            },
            x11_socket,
            has_bash,
            match host_shell {
                Some(s) => Some(s@),
                None => None,
            },
        ),
{
    let mut env: Vec<(String, String)> = Vec::new();
    assert(view_pairs(env@) =~= Seq::<(Seq<char>, Seq<char>)>::empty());
    push_pair(&mut env, "TERM", "xterm-256color");
    push_pair(&mut env, "WORKSPACE_ID", id);
    push_pair(&mut env, "WORKSPACE_NAME", name);
    assert(view_pairs(env@) =~= shell_env(id@, name@));
    let mut args: Vec<String> = Vec::new();
    assert(view_strs(args@) =~= Seq::<Seq<char>>::empty());
    match kind {
        WorkspaceType::Chroot => {
            push_arg(&mut args, "-D");
            push_arg(&mut args, root);
            push_joined(&mut args, "--machine=", name);
            push_arg(&mut args, "--quiet");
            assert(view_strs(args@) =~= seq!["-D"@, root@, "--machine="@ + name@, "--quiet"@]);
            match display {
                Some(d) => {
                    if x11_socket {
                        push_arg(&mut args, "--bind=/tmp/.X11-unix");
                        push_joined(&mut args, "--setenv=DISPLAY=", d);
                    }
                },
                None => {},
            }
            push_arg(&mut args, "--setenv=TERM=xterm-256color");
            push_joined(&mut args, "--setenv=WORKSPACE_ID=", id);
            push_joined(&mut args, "--setenv=WORKSPACE_NAME=", name);
            if has_bash {
                push_arg(&mut args, "/bin/bash");
                push_arg(&mut args, "--login");
            } else {
                push_arg(&mut args, "/bin/sh");
            }
            PtyCommand { program: "systemd-nspawn".to_owned(), args, env, cwd: None }
        },
        WorkspaceType::Host => {
            push_arg(&mut args, "--login");
            assert(view_strs(args@) =~= seq!["--login"@]);
            let program = match host_shell {
                Some(s) => s.to_owned(),
                None => "/bin/bash".to_owned(),
            };
            PtyCommand { program, args, env, cwd: Some(root.to_owned()) }
        },
    }
}

/// How long the caller waits after terminating a stale machine, in
/// milliseconds.
pub const TERMINATE_SETTLE_MS: u64 = 500;

/// The arguments of `machinectl` that ask for the state of a machine.
pub fn machine_show_args(machine: &str) -> (r: Vec<String>)
    ensures
        view_strs(r@) == seq!["show"@, machine@, "--property=State"@],
{
    let mut args: Vec<String> = Vec::new();
    assert(view_strs(args@) =~= Seq::<Seq<char>>::empty());
    push_arg(&mut args, "show");
    push_arg(&mut args, machine);
    push_arg(&mut args, "--property=State");
    assert(view_strs(args@) =~= seq!["show"@, machine@, "--property=State"@]);
    args
}

/// The arguments of `machinectl` that terminate a machine.
pub fn machine_terminate_args(machine: &str) -> (r: Vec<String>)
    ensures
        view_strs(r@) == seq!["terminate"@, machine@],
{
    let mut args: Vec<String> = Vec::new();
    assert(view_strs(args@) =~= Seq::<Seq<char>>::empty());
    push_arg(&mut args, "terminate");
    push_arg(&mut args, machine);
    assert(view_strs(args@) =~= seq!["terminate"@, machine@]);
    args
}

/// Whether the output of `machinectl show` reports a running machine. A
/// machine that still runs holds the directory tree of its root, so it is
/// terminated before a new interactive session enters the container.
pub fn machine_is_running(show_output: &str) -> (r: bool)
    ensures
        r == contains(show_output@, "State=running"@),
{
    let out = chars_of(show_output);
    let pat = chars_of("State=running");
    contains_exec(&out, &pat)
}

// ---------------------------------------------------------------------------
// Failures while a session is set up
// ---------------------------------------------------------------------------

/// The kind of session that a socket asks for.
#[derive(Debug, Clone, Copy, PartialEq, Eq)]
pub enum SessionKind {
    Console,
    WorkspaceShell,
}

/// What went wrong before the session entered the pool.
#[derive(Debug, Clone, PartialEq, Eq)]
pub enum SetupFailure {
    /// No private key is configured for the console.
    KeyNotConfigured,
    /// The private key could not be written to its file.
    KeyUnreadable(String),
    /// The workspace with this id has vanished since the handshake.
    WorkspaceGone(String),
    /// No pseudo-terminal could be opened.
    PtyUnavailable(String),
    /// The child could not be spawned.
    SpawnFailed(String),
    /// The reader or the writer of the pseudo-terminal could not be taken.
    ChannelUnavailable,
    /// The pool refused the session: the key is in use by another socket.
    KeyInUse,
}

/// How the caller winds up a failed setup. The socket is closed in every
/// case.
#[derive(Debug, Clone, PartialEq, Eq)]
pub struct SetupAbort {
    /// The text message sent to the client before the socket closes.
    pub message: Option<String>,
    /// Whether a child has been spawned that must be killed.
    pub kill_child: bool,
}

/// The message sent to the client for a failed setup.
pub open spec fn setup_message(kind: SessionKind, failure: SetupFailure) -> Option<Seq<char>> {
    match failure {
        SetupFailure::KeyNotConfigured => Some("Console SSH is not configured on the server."@),
        SetupFailure::KeyUnreadable(e) => Some("Failed to load SSH key: "@ + e@),
        SetupFailure::WorkspaceGone(id) => Some("Workspace "@ + id@ + " not found"@),
        SetupFailure::PtyUnavailable(e) => Some("Failed to open PTY: "@ + e@),
        SetupFailure::SpawnFailed(e) => match kind {
            SessionKind::Console => Some("Failed to spawn ssh: "@ + e@),
            SessionKind::WorkspaceShell => Some("Failed to spawn shell: "@ + e@),
        },
        SetupFailure::ChannelUnavailable => None,
        SetupFailure::KeyInUse => None,
    }
}

/// Whether a child exists by the time the failure occurs.
pub open spec fn child_spawned(failure: SetupFailure) -> bool {
    failure is ChannelUnavailable || failure is KeyInUse
}

/// Decides how a failed setup ends: which message the client gets, and
/// whether the newly spawned child is killed. A session that is in use under
/// the same key is never disturbed.
pub fn abort_setup(kind: SessionKind, failure: &SetupFailure) -> (r: SetupAbort)
    ensures
        view_opt(r.message) == setup_message(kind, *failure),
        r.kill_child == child_spawned(*failure),
{
    match failure {
        SetupFailure::KeyNotConfigured => SetupAbort {
            message: Some("Console SSH is not configured on the server.".to_owned()),
            kill_child: false,
        },
        SetupFailure::KeyUnreadable(e) => SetupAbort {
            message: Some(join2("Failed to load SSH key: ", e.as_str())),
            kill_child: false,
        },
        SetupFailure::WorkspaceGone(id) => SetupAbort {
            message: Some(join3("Workspace ", id.as_str(), " not found")),
            kill_child: false,
        },
        SetupFailure::PtyUnavailable(e) => SetupAbort {
            message: Some(join2("Failed to open PTY: ", e.as_str())),
            kill_child: false,
        },
        SetupFailure::SpawnFailed(e) => match kind {
            SessionKind::Console => SetupAbort {
                message: Some(join2("Failed to spawn ssh: ", e.as_str())),
                kill_child: false,
            },
            SessionKind::WorkspaceShell => SetupAbort {
                message: Some(join2("Failed to spawn shell: ", e.as_str())),
                kill_child: false,
            },
        },
        SetupFailure::ChannelUnavailable => SetupAbort { message: None, kill_child: true },
        SetupFailure::KeyInUse => SetupAbort { message: None, kill_child: true },
    }
}

// ---------------------------------------------------------------------------
// The session pool
// ---------------------------------------------------------------------------

/// What the pool records of one session.
#[derive(Debug, Clone, Copy, PartialEq, Eq)]
pub struct PooledSession {
    /// The handle under which the caller keeps the child process and its
    /// channels. The pool issues it, and issues no handle twice.
    pub handle: u64,
    /// Whether a socket is attached.
    pub in_use: bool,
    /// When the last socket detached, in milliseconds on the caller's
    /// monotonic clock; absent while a socket is attached.
    pub disconnected_at: Option<u64>,
}

impl PooledSession {
    /// A session has a detach time exactly while no socket is attached.
    pub open spec fn wf(self) -> bool {
        self.in_use <==> self.disconnected_at is None
    }

    /// The session of a socket that has just attached.
    pub open spec fn attached(handle: u64) -> PooledSession {
        PooledSession { handle, in_use: true, disconnected_at: None }
    }

    /// The session of a socket that detached at `now`.
    pub open spec fn detached(handle: u64, now: u64) -> PooledSession {
        PooledSession { handle, in_use: false, disconnected_at: Some(now) }
    }

    /// The sweeper takes a session that is idle and whose detach time lies
    /// more than the pool timeout before `now`.
    pub open spec fn expired(self, now: u64) -> bool {
        &&& !self.in_use
        &&& self.disconnected_at matches Some(t)
        &&& now - t > SESSION_POOL_TIMEOUT_MS
    }

    pub fn is_expired(&self, now: u64) -> (r: bool)
        ensures
            r == self.expired(now),
    {
        if self.in_use {
            return false;
        }
        match self.disconnected_at {
            Some(t) => now > t && now - t > SESSION_POOL_TIMEOUT_MS,
            None => false,
        }
    }
}

/// One entry of the pool: a key and its session.
pub struct PoolEntry {
    pub key: String,
    pub session: PooledSession,
}

/// The keys of a list of entries.
pub open spec fn keys_of(es: Seq<PoolEntry>) -> Seq<Seq<char>> {
    Seq::new(es.len(), |i: int| es[i].key@)
}

/// No key occurs twice, and every session is well-formed.
pub open spec fn entries_wf(es: Seq<PoolEntry>) -> bool {
    &&& keys_of(es).no_duplicates()
    &&& forall|i: int| 0 <= i < es.len() ==> (#[trigger] es[i]).session.wf()
}

/// Every handle is below `issued`, and no two entries share a handle.
pub open spec fn handles_wf(es: Seq<PoolEntry>, issued: u64) -> bool {
    &&& forall|a: int| 0 <= a < es.len() ==> (#[trigger] es[a]).session.handle < issued
    &&& forall|a: int, b: int|
        0 <= a < b < es.len() ==> (#[trigger] es[a]).session.handle != (
        #[trigger] es[b]).session.handle
}

proof fn lemma_handles_update(es: Seq<PoolEntry>, i: int, e: PoolEntry, issued: u64, after: u64)
    requires
        handles_wf(es, issued),
        0 <= i < es.len(),
        e.session.handle == es[i].session.handle || e.session.handle >= issued,
        e.session.handle < after,
        issued <= after,
    ensures
        handles_wf(es.update(i, e), after),
{
    let es2 = es.update(i, e);
    assert forall|a: int| 0 <= a < es2.len() implies (#[trigger] es2[a]).session.handle
        < after by {
        if a != i {
            assert(es2[a] == es[a]);
        }
    }
    assert forall|a: int, b: int| 0 <= a < b < es2.len() implies (#[trigger] es2[a]).session.handle
        != (#[trigger] es2[b]).session.handle by {
        let x = es[a];
        let y = es[b];
        let z = es[i];
    }
}

proof fn lemma_handles_push(es: Seq<PoolEntry>, e: PoolEntry, issued: u64, after: u64)
    requires
        handles_wf(es, issued),
        issued <= e.session.handle < after,
    ensures
        handles_wf(es.push(e), after),
{
    let es2 = es.push(e);
    assert forall|a: int| 0 <= a < es2.len() implies (#[trigger] es2[a]).session.handle
        < after by {
        if a < es.len() {
            assert(es2[a] == es[a]);
        }
    }
    assert forall|a: int, b: int| 0 <= a < b < es2.len() implies (#[trigger] es2[a]).session.handle
        != (#[trigger] es2[b]).session.handle by {
        let x = es[a];
        if b < es.len() {
            let y = es[b];
        }
    }
}

proof fn lemma_handles_remove(es: Seq<PoolEntry>, i: int, issued: u64)
    requires
        handles_wf(es, issued),
        0 <= i < es.len(),
    ensures
        handles_wf(es.remove(i), issued),
{
    let es2 = es.remove(i);
    assert forall|a: int| 0 <= a < es2.len() implies (#[trigger] es2[a]).session.handle
        < issued by {
        let a1 = if a < i { a } else { a + 1 };
        assert(es2[a] == es[a1]);
    }
    assert forall|a: int, b: int| 0 <= a < b < es2.len() implies (#[trigger] es2[a]).session.handle
        != (#[trigger] es2[b]).session.handle by {
        let a1 = if a < i { a } else { a + 1 };
        let b1 = if b < i { b } else { b + 1 };
        assert(es2[a] == es[a1]);
        assert(es2[b] == es[b1]);
    }
}

/// Two keys of one list of entries hold sessions with different handles.
proof fn lemma_handles_differ(es: Seq<PoolEntry>, issued: u64, k1: Seq<char>, k2: Seq<char>)
    requires
        entries_wf(es),
        handles_wf(es, issued),
        map_of(es).contains_key(k1),
        map_of(es).contains_key(k2),
        k1 != k2,
    ensures
        map_of(es)[k1].handle != map_of(es)[k2].handle,
        map_of(es)[k1].handle < issued,
{
    let i = lemma_map_key(es, k1);
    let j = lemma_map_key(es, k2);
    let x = es[i];
    let y = es[j];
    assert(i != j);
}

/// The map from key to session that a list of entries stands for.
pub open spec fn map_of(es: Seq<PoolEntry>) -> Map<Seq<char>, PooledSession> {
    Map::new(
        |k: Seq<char>| keys_of(es).contains(k),
        |k: Seq<char>| es[keys_of(es).index_of(k)].session,
    )
}

proof fn lemma_map_at(es: Seq<PoolEntry>, i: int)
    requires
        entries_wf(es),
        0 <= i < es.len(),
    ensures
        map_of(es).contains_key(es[i].key@),
        map_of(es)[es[i].key@] == es[i].session,
{
    let ks = keys_of(es);
    assert(ks[i] == es[i].key@);
    assert(ks.contains(es[i].key@));
    let j = ks.index_of(es[i].key@);
    assert(0 <= j < ks.len() && ks[j] == es[i].key@);
}

proof fn lemma_map_key(es: Seq<PoolEntry>, k: Seq<char>) -> (i: int)
    requires
        entries_wf(es),
        map_of(es).contains_key(k),
    ensures
        0 <= i < es.len(),
        es[i].key@ == k,
        map_of(es)[k] == es[i].session,
{
    let ks = keys_of(es);
    let i = ks.index_of(k);
    assert(0 <= i < ks.len() && ks[i] == k);
    i
}

proof fn lemma_entries_update(es: Seq<PoolEntry>, i: int, e: PoolEntry)
    requires
        entries_wf(es),
        0 <= i < es.len(),
        e.key@ == es[i].key@,
        e.session.wf(),
    ensures
        entries_wf(es.update(i, e)),
        map_of(es.update(i, e)) == map_of(es).insert(e.key@, e.session),
{
    let es2 = es.update(i, e);
    assert(keys_of(es2) =~= keys_of(es));
    assert forall|j: int| 0 <= j < es2.len() implies (#[trigger] es2[j]).session.wf() by {
        if j != i {
            assert(es2[j] == es[j]);
        }
    }
    assert forall|k: Seq<char>| #[trigger] map_of(es2).contains_key(k) implies map_of(es2)[k]
        == map_of(es).insert(e.key@, e.session)[k] by {
        let j = lemma_map_key(es2, k);
        if j != i {
            assert(es2[j] == es[j]);
            lemma_map_at(es, j);
            assert(keys_of(es)[j] == k && keys_of(es)[i] == e.key@);
        }
    }
    assert(map_of(es2) =~= map_of(es).insert(e.key@, e.session));
}

proof fn lemma_entries_push(es: Seq<PoolEntry>, e: PoolEntry)
    requires
        entries_wf(es),
        !map_of(es).contains_key(e.key@),
        e.session.wf(),
    ensures
        entries_wf(es.push(e)),
        map_of(es.push(e)) == map_of(es).insert(e.key@, e.session),
{
    let es2 = es.push(e);
    assert(keys_of(es2) =~= keys_of(es).push(e.key@));
    assert forall|a: int, b: int| 0 <= a < b < es2.len() implies keys_of(es2)[a] != keys_of(
        es2,
    )[b] by {
        if b == es.len() {
            assert(keys_of(es)[a] == keys_of(es2)[a]);
            assert(keys_of(es).contains(keys_of(es)[a]));
        } else {
            assert(keys_of(es)[a] == keys_of(es2)[a] && keys_of(es)[b] == keys_of(es2)[b]);
        }
    }
    assert(keys_of(es2).no_duplicates());
    assert forall|j: int| 0 <= j < es2.len() implies (#[trigger] es2[j]).session.wf() by {
        if j < es.len() {
            assert(es2[j] == es[j]);
        }
    }
    assert forall|k: Seq<char>| #[trigger] map_of(es2).contains_key(k) implies map_of(es).insert(
        e.key@,
        e.session,
    ).contains_key(k) && map_of(es2)[k] == map_of(es).insert(e.key@, e.session)[k] by {
        let j = lemma_map_key(es2, k);
        if j < es.len() {
            assert(es2[j] == es[j]);
            lemma_map_at(es, j);
        }
    }
    assert forall|k: Seq<char>| #[trigger]
        map_of(es).insert(e.key@, e.session).contains_key(k) implies map_of(es2).contains_key(
        k,
    ) by {
        if k == e.key@ {
            lemma_map_at(es2, es.len() as int);
        } else {
            let j = lemma_map_key(es, k);
            assert(es2[j] == es[j]);
            lemma_map_at(es2, j);
        }
    }
    assert(map_of(es2) =~= map_of(es).insert(e.key@, e.session));
}

proof fn lemma_entries_remove(es: Seq<PoolEntry>, i: int)
    requires
        entries_wf(es),
        0 <= i < es.len(),
    ensures
        entries_wf(es.remove(i)),
        map_of(es.remove(i)) == map_of(es).remove(es[i].key@),
{
    let es2 = es.remove(i);
    assert forall|j: int| 0 <= j < es2.len() implies #[trigger] keys_of(es2)[j] == keys_of(es)[if j
        < i {
        j
    } else {
        j + 1
    }] by {}
    assert forall|a: int, b: int| 0 <= a < b < es2.len() implies keys_of(es2)[a] != keys_of(
        es2,
    )[b] by {
        let a1 = if a < i { a } else { a + 1 };
        let b1 = if b < i { b } else { b + 1 };
        assert(keys_of(es2)[a] == keys_of(es)[a1]);
        assert(keys_of(es2)[b] == keys_of(es)[b1]);
    }
    assert(keys_of(es2).no_duplicates());
    assert forall|j: int| 0 <= j < es2.len() implies (#[trigger] es2[j]).session.wf() by {
        let j1 = if j < i { j } else { j + 1 };
        assert(es2[j] == es[j1]);
    }
    let m = map_of(es).remove(es[i].key@);
    assert forall|k: Seq<char>| #[trigger] map_of(es2).contains_key(k) implies m.contains_key(k)
        && map_of(es2)[k] == m[k] by {
        let j = lemma_map_key(es2, k);
        let j1 = if j < i { j } else { j + 1 };
        assert(es2[j] == es[j1]);
        lemma_map_at(es, j1);
        assert(keys_of(es)[j1] == k && keys_of(es)[i] == es[i].key@);
    }
    assert forall|k: Seq<char>| #[trigger] m.contains_key(k) implies map_of(es2).contains_key(
        k,
    ) by {
        let j = lemma_map_key(es, k);
        let j2 = if j < i { j } else { j - 1 };
        assert(es2[j2] == es[j]);
        lemma_map_at(es2, j2);
    }
    assert(map_of(es2) =~= m);
}

/// The outcome of offering a newly spawned session to the pool.
#[derive(Debug, Clone, Copy, PartialEq, Eq)]
pub enum Admission {
    /// The key is held by a session with a socket attached: the pool is
    /// unchanged, and the caller kills the child it has just spawned.
    Refused,
    /// The new session is in the pool under `handle`, which the pool has
    /// issued for it. `replaced` is the handle of the stale session that it
    /// took the place of, for the caller to kill.
    Installed { handle: u64, replaced: Option<u64> },
}

/// The sessions kept for reconnection, by key, and the count of the handles
/// issued so far.
pub struct SessionPool {
    entries: Vec<PoolEntry>,
    issued: u64,
}

impl View for SessionPool {
    type V = Map<Seq<char>, PooledSession>;

    closed spec fn view(&self) -> Map<Seq<char>, PooledSession> {
        map_of(self.entries@)
    }
}

impl SessionPool {
    /// The pool's invariant: one entry per key, each session well-formed,
    /// no handle held by two sessions, and every handle one that the pool
    /// has issued.
    pub closed spec fn wf(&self) -> bool {
        entries_wf(self.entries@) && handles_wf(self.entries@, self.issued)
    }

    /// The number of handles issued so far. The handles are the numbers
    /// below it, in the order of their issue.
    pub closed spec fn issued(&self) -> u64 {
        self.issued
    }

    /// The entries as the pool holds them.
    pub closed spec fn listing(&self) -> Seq<PoolEntry> {
        self.entries@
    }

    /// An empty pool, which has issued no handle.
    pub fn new() -> (pool: Self)
        ensures
            pool.wf(),
            pool@ == Map::<Seq<char>, PooledSession>::empty(),
            pool.issued() == 0,
    {
        let pool = SessionPool { entries: Vec::new(), issued: 0 };
        assert(pool@ =~= Map::<Seq<char>, PooledSession>::empty());
        pool
    }

    fn position(&self, key: &str) -> (r: Option<usize>)
        requires
            self.wf(),
        ensures
            match r {
                Some(i) => i < self.entries@.len() && self.entries@[i as int].key@ == key@
                    && self@.contains_key(key@) && self@[key@] == self.entries@[i as int].session,
                None => !self@.contains_key(key@),
            },
    {
        let mut i: usize = 0;
        while i < self.entries.len()
            invariant
                self.wf(),
                i <= self.entries@.len(),
                forall|j: int| 0 <= j < i ==> keys_of(self.entries@)[j] != key@,
            decreases self.entries@.len() - i,
        {
            if str_eq(self.entries[i].key.as_str(), key) {
                proof {
                    lemma_map_at(self.entries@, i as int);
                }
                return Some(i);
            }
            i = i + 1;
        }
        proof {
            if self@.contains_key(key@) {
                let j = lemma_map_key(self.entries@, key@);
                assert(keys_of(self.entries@)[j] == key@);
            }
        }
        None
    }

    /// Whether the pool can still issue a handle.
    pub fn has_room(&self) -> (r: bool)
        ensures
            r == (self.issued() < u64::MAX),
    {
        self.issued < u64::MAX
    }

    /// The number of sessions in the pool.
    pub fn len(&self) -> (n: usize)
        requires
            self.wf(),
        ensures
            n == self.listing().len(),
    {
        self.entries.len()
    }

    /// The session kept under `key`, if any.
    pub fn get(&self, key: &str) -> (r: Option<PooledSession>)
        requires
            self.wf(),
        ensures
            r == (if self@.contains_key(key@) {
                Some(self@[key@])
            } else {
                None
            }),
            r matches Some(s) ==> s.wf(),
    {
        match self.position(key) {
            Some(i) => Some(self.entries[i].session),
            None => None,
        }
    }

    /// Whether a socket that arrives with `key` takes over the session kept
    /// under it: there is one, no socket is attached to it, and its input
    /// channel is still open.
    pub open spec fn reusable(&self, key: Seq<char>, input_closed: bool) -> bool {
        self@.contains_key(key) && !self@[key].in_use && !input_closed
    }

    /// A socket arrives with `key`. Where the session under that key is
    /// reusable, it is marked in use, its detach time is cleared, and its
    /// handle is returned; otherwise nothing changes and the caller spawns a
    /// new session.
    pub fn try_reuse(&mut self, key: &str, input_closed: bool) -> (r: Option<u64>)
        requires
            old(self).wf(),
        ensures
            final(self).wf(),
            old(self).reusable(key@, input_closed) ==> r == Some(old(self)@[key@].handle)
                && final(self)@ == old(self)@.insert(
                key@,
                PooledSession::attached(old(self)@[key@].handle),
            ),
            !old(self).reusable(key@, input_closed) ==> r is None && final(self)@ == old(self)@,
            final(self).issued() == old(self).issued(),
    {
        match self.position(key) {
            Some(i) => {
                let session = self.entries[i].session;
                if session.in_use || input_closed {
                    return None;
                }
                let entry = PoolEntry {
                    key: key.to_owned(),
                    session: PooledSession {
                        handle: session.handle,
                        in_use: true,
                        disconnected_at: None,
                    },
                };
                proof {
                    lemma_entries_update(self.entries@, i as int, entry);
                    lemma_handles_update(
                        self.entries@,
                        i as int,
                        entry,
                        self.issued,
                        self.issued,
                    );
                }
                self.entries.set(i, entry);
                Some(session.handle)
            },
            None => None,
        }
    }

    /// A newly spawned session is offered under `key`. Where the key is held
    /// by a session in use, the offer is refused and the pool is unchanged.
    /// Otherwise the new session takes the key, in use, under a handle that
    /// the pool issues now and that no session has had before; the handle of
    /// a stale session that it replaces is returned with it.
    pub fn offer(&mut self, key: &str) -> (r: Admission)
        requires
            old(self).wf(),
            old(self).issued() < u64::MAX,
        ensures
            final(self).wf(),
            old(self)@.contains_key(key@) && old(self)@[key@].in_use ==> r == Admission::Refused
                && final(self)@ == old(self)@ && final(self).issued() == old(self).issued(),
            !(old(self)@.contains_key(key@) && old(self)@[key@].in_use) ==> r
                == (Admission::Installed {
                handle: old(self).issued(),
                replaced: if old(self)@.contains_key(key@) {
                    Some(old(self)@[key@].handle)
                } else {
                    None
                },
            }) && final(self)@ == old(self)@.insert(
                key@,
                PooledSession::attached(old(self).issued()),
            ) && final(self).issued() == old(self).issued() + 1,
    {
        let handle: u64 = self.issued;
        let entry = PoolEntry {
            key: key.to_owned(),
            session: PooledSession { handle, in_use: true, disconnected_at: None },
        };
        match self.position(key) {
            Some(i) => {
                let session = self.entries[i].session;
                if session.in_use {
                    return Admission::Refused;
                }
                proof {
                    lemma_entries_update(self.entries@, i as int, entry);
                    lemma_handles_update(
                        self.entries@,
                        i as int,
                        entry,
                        self.issued,
                        (self.issued + 1) as u64,
                    );
                }
                self.entries.set(i, entry);
                self.issued = handle + 1;
                Admission::Installed { handle, replaced: Some(session.handle) }
            },
            None => {
                proof {
                    lemma_entries_push(self.entries@, entry);
                    lemma_handles_push(
                        self.entries@,
                        entry,
                        self.issued,
                        (self.issued + 1) as u64,
                    );
                }
                self.entries.push(entry);
                self.issued = handle + 1;
                Admission::Installed { handle, replaced: None }
            },
        }
    }

    /// The socket of the session with `handle` under `key` has closed at
    /// `now`: the session becomes idle and is stamped with the time. The child
    /// is left running. A key that no longer holds that handle is left alone.
    pub fn release(&mut self, key: &str, handle: u64, now: u64)
        requires
            old(self).wf(),
        ensures
            final(self).wf(),
            old(self)@.contains_key(key@) && old(self)@[key@].handle == handle ==> final(self)@
                == old(self)@.insert(key@, PooledSession::detached(handle, now)),
            !(old(self)@.contains_key(key@) && old(self)@[key@].handle == handle) ==> final(self)@
                == old(self)@,
            final(self).issued() == old(self).issued(),
    {
        match self.position(key) {
            Some(i) => {
                if self.entries[i].session.handle == handle {
                    let entry = PoolEntry {
                        key: key.to_owned(),
                        session: PooledSession {
                            handle,
                            in_use: false,
                            disconnected_at: Some(now),
                        },
                    };
                    proof {
                        lemma_entries_update(self.entries@, i as int, entry);
                        lemma_handles_update(
                            self.entries@,
                            i as int,
                            entry,
                            self.issued,
                            self.issued,
                        );
                    }
                    self.entries.set(i, entry);
                }
            },
            None => {},
        }
    }

    /// The sweeper takes the session under `key` at `now`: it has expired,
    /// and no other task holds it.
    pub open spec fn takes(&self, key: Seq<char>, now: u64, busy: Seq<Seq<char>>) -> bool {
        self@.contains_key(key) && self@[key].expired(now) && !busy.contains(key)
    }

    /// One sweep at `now`. Every expired session leaves the pool, and the
    /// handles of those sessions are returned, each once, for the caller to
    /// kill. The
    /// sessions under the keys `busy`, which another task holds at the
    /// moment, are passed over in this round. No other session is touched,
    /// and the handle of no session that stays is among those returned.
    pub fn reap_skipping(&mut self, now: u64, busy: &Vec<String>) -> (killed: Vec<u64>)
        requires
            old(self).wf(),
        ensures
            final(self).wf(),
            forall|k: Seq<char>| #[trigger]
                final(self)@.contains_key(k) <==> old(self)@.contains_key(k) && !old(self).takes(
                    k,
                    now,
                    view_strs(busy@),
                ),
            forall|k: Seq<char>| #[trigger]
                final(self)@.contains_key(k) ==> final(self)@[k] == old(self)@[k],
            forall|h: u64| #[trigger]
                killed@.contains(h) ==> exists|k: Seq<char>| #[trigger]
                    old(self).takes(k, now, view_strs(busy@)) && old(self)@[k].handle == h,
            forall|k: Seq<char>| #[trigger]
                old(self).takes(k, now, view_strs(busy@)) ==> killed@.contains(
                    old(self)@[k].handle,
                ),
            forall|k: Seq<char>| #[trigger]
                final(self)@.contains_key(k) ==> !killed@.contains(final(self)@[k].handle),
            killed@.no_duplicates(),
            final(self).issued() == old(self).issued(),
    {
        let mut killed: Vec<u64> = Vec::new();
        let mut i: usize = 0;
        let ghost before = self@;
        let ghost held = view_strs(busy@);
        while i < self.entries.len()
            invariant
                i <= self.entries@.len(),
                self.wf(),
                old(self).wf(),
                self.issued == old(self).issued,
                before == old(self)@,
                held == view_strs(busy@),
                forall|k: Seq<char>| #[trigger]
                    self@.contains_key(k) ==> before.contains_key(k) && self@[k] == before[k],
                forall|k: Seq<char>| #[trigger]
                    before.contains_key(k) && !(before[k].expired(now) && !held.contains(k))
                        ==> self@.contains_key(k),
                forall|j: int|
                    0 <= j < i ==> !((#[trigger] self.entries@[j]).session.expired(now)
                        && !held.contains(self.entries@[j].key@)),
                forall|h: u64| #[trigger]
                    killed@.contains(h) ==> exists|k: Seq<char>| #[trigger]
                        old(self).takes(k, now, held) && before[k].handle == h
                            && !self@.contains_key(k),
                forall|k: Seq<char>| #[trigger]
                    before.contains_key(k) && before[k].expired(now) && !held.contains(k)
                        && !self@.contains_key(k) ==> killed@.contains(before[k].handle),
                killed@.no_duplicates(),
            decreases self.entries@.len() - i,
        {
            let session = self.entries[i].session;
            let skip = crate::text::strings_contain(busy, self.entries[i].key.as_str());
            if session.is_expired(now) && !skip {
                let ghost es = self.entries@;
                let ghost key = es[i as int].key@;
                let ghost prev_killed = killed@;
                proof {
                    lemma_map_at(es, i as int);
                    lemma_entries_remove(es, i as int);
                    lemma_handles_remove(es, i as int, self.issued);
                    assert(self@.contains_key(key) && self@[key] == session);
                    assert(before.contains_key(key) && before[key] == session);
                    assert(old(self).takes(key, now, held));
                    assert forall|k: Seq<char>| k != key && #[trigger] before.contains_key(k)
                        && !map_of(es).contains_key(k) implies (before[k].expired(now)
                        && !held.contains(k)) && killed@.contains(before[k].handle) by {
                        assert(!self@.contains_key(k));
                        if !(before[k].expired(now) && !held.contains(k)) {
                            assert(self@.contains_key(k));
                        }
                    }
                }
                self.entries.remove(i);
                killed.push(session.handle);
                proof {
                    assert(self@ == map_of(es).remove(key));
                    assert(killed@ == prev_killed.push(session.handle));
                    assert(!prev_killed.contains(session.handle)) by {
                        if prev_killed.contains(session.handle) {
                            let k = choose|k: Seq<char>| #[trigger]
                                old(self).takes(k, now, held) && before[k].handle == session.handle
                                    && !map_of(es).contains_key(k);
                            lemma_handles_differ(old(self).entries@, old(self).issued, key, k);
                        }
                    }
                    assert(killed@.no_duplicates()) by {
                        assert forall|a: int, b: int|
                            0 <= a < killed@.len() && 0 <= b < killed@.len() && a != b implies killed@[a]
                            != killed@[b] by {
                            if a < prev_killed.len() {
                                assert(prev_killed.contains(killed@[a]));
                            }
                            if b < prev_killed.len() {
                                assert(prev_killed.contains(killed@[b]));
                            }
                        }
                    }
                    assert forall|h: u64| #[trigger] killed@.contains(h) implies exists|
                        k: Seq<char>,
                    | #[trigger]
                        old(self).takes(k, now, held) && before[k].handle == h
                            && !self@.contains_key(k) by {
                        if prev_killed.contains(h) {
                            let k = choose|k: Seq<char>| #[trigger]
                                old(self).takes(k, now, held) && before[k].handle == h
                                    && !map_of(es).contains_key(k);
                            assert(old(self).takes(k, now, held) && before[k].handle == h
                                && !self@.contains_key(k));
                        } else {
                            assert(h == session.handle);
                            assert(old(self).takes(key, now, held) && before[key].handle == h
                                && !self@.contains_key(key));
                        }
                    }
                    assert forall|k: Seq<char>| #[trigger]
                        before.contains_key(k) && before[k].expired(now) && !held.contains(k)
                            && !self@.contains_key(k) implies killed@.contains(
                        before[k].handle,
                    ) by {
                        if k == key {
                            assert(killed@[prev_killed.len() as int] == session.handle);
                        } else {
                            assert(!map_of(es).contains_key(k));
                            assert(prev_killed.contains(before[k].handle));
                            let w = choose|w: int|
                                0 <= w < prev_killed.len() && prev_killed[w] == before[k].handle;
                            assert(killed@[w] == before[k].handle);
                        }
                    }
                    assert forall|j: int| 0 <= j < i implies !((#[trigger] self.entries@[j]).session.expired(
                        now,
                    ) && !held.contains(self.entries@[j].key@)) by {
                        assert(self.entries@[j] == es[j]);
                    }
                }
            } else {
                i = i + 1;
            }
        }
        proof {
            assert forall|k: Seq<char>| #[trigger] self@.contains_key(k) implies !(
            before[k].expired(now) && !held.contains(k)) by {
                let j = lemma_map_key(self.entries@, k);
            }
            assert forall|k: Seq<char>| #[trigger]
                old(self).takes(k, now, held) implies killed@.contains(before[k].handle) by {
                assert(!self@.contains_key(k));
            }
            assert forall|k: Seq<char>| #[trigger] self@.contains_key(k) implies !killed@.contains(
                self@[k].handle,
            ) by {
                if killed@.contains(self@[k].handle) {
                    let h = self@[k].handle;
                    let k2 = choose|k2: Seq<char>| #[trigger]
                        old(self).takes(k2, now, held) && before[k2].handle == h;
                    assert(!self@.contains_key(k2));
                    lemma_handles_differ(old(self).entries@, old(self).issued, k, k2);
                }
            }
        }
        killed
    }

    /// What one sweep at `now` with nobody busy leaves: the pool `after`
    /// and the handles `killed`.
    pub open spec fn swept(&self, now: u64, after: SessionPool, killed: Seq<u64>) -> bool {
        &&& after.wf()
        &&& forall|k: Seq<char>| #[trigger]
            after@.contains_key(k) <==> self@.contains_key(k) && !self@[k].expired(now)
        &&& forall|k: Seq<char>| #[trigger] after@.contains_key(k) ==> after@[k] == self@[k]
        &&& forall|h: u64| #[trigger]
            killed.contains(h) ==> exists|k: Seq<char>| #[trigger]
                self@.contains_key(k) && self@[k].expired(now) && self@[k].handle == h
        &&& forall|k: Seq<char>| #[trigger]
            self@.contains_key(k) && self@[k].expired(now) ==> killed.contains(self@[k].handle)
    }

    /// One sweep at `now` in which no session is held by another task:
    /// every expired session leaves the pool, and the handles of those
    /// sessions are returned, each once, for the caller to kill. No other
    /// session is touched, and the handle of no session that stays is among
    /// those returned.
    pub fn reap(&mut self, now: u64) -> (killed: Vec<u64>)
        requires
            old(self).wf(),
        ensures
            final(self).wf(),
            forall|k: Seq<char>| #[trigger]
                final(self)@.contains_key(k) <==> old(self)@.contains_key(k) && !old(
                    self,
                )@[k].expired(now),
            forall|k: Seq<char>| #[trigger]
                final(self)@.contains_key(k) ==> final(self)@[k] == old(self)@[k],
            forall|h: u64| #[trigger]
                killed@.contains(h) ==> exists|k: Seq<char>| #[trigger]
                    old(self)@.contains_key(k) && old(self)@[k].expired(now) && old(self)@[k].handle
                        == h,
            forall|k: Seq<char>| #[trigger]
                old(self)@.contains_key(k) && old(self)@[k].expired(now) ==> killed@.contains(
                    old(self)@[k].handle,
                ),
            forall|k: Seq<char>| #[trigger]
                final(self)@.contains_key(k) ==> !killed@.contains(final(self)@[k].handle),
            killed@.no_duplicates(),
            final(self).issued() == old(self).issued(),
            old(self).swept(now, *final(self), killed@),
    {
        let nobody: Vec<String> = Vec::new();
        assert(view_strs(nobody@) =~= Seq::<Seq<char>>::empty());
        let killed = self.reap_skipping(now, &nobody);
        proof {
            let held = view_strs(nobody@);
            assert forall|k: Seq<char>| #[trigger]
                old(self)@.contains_key(k) && old(self)@[k].expired(now) implies killed@.contains(
                old(self)@[k].handle,
            ) by {
                assert(old(self).takes(k, now, held));
            }
            assert forall|h: u64| #[trigger] killed@.contains(h) implies exists|k: Seq<char>|
                #[trigger] old(self)@.contains_key(k) && old(self)@[k].expired(now) && old(
                    self,
                )@[k].handle == h by {
                let k = choose|k: Seq<char>| #[trigger]
                    old(self).takes(k, now, held) && old(self)@[k].handle == h;
                assert(old(self)@.contains_key(k) && old(self)@[k].expired(now) && old(self)@[k].handle
                    == h);
            }
        }
        killed
    }
}

/// At any instant a key has at most one entry in the pool, so at most one
/// session that is in use.
pub proof fn lemma_one_session_per_key(pool: SessionPool, i: int, j: int)
    requires
        pool.wf(),
        0 <= i < pool.listing().len(),
        0 <= j < pool.listing().len(),
        pool.listing()[i].key@ == pool.listing()[j].key@,
    ensures
        i == j,
{
    let ks = keys_of(pool.listing());
    assert(ks[i] == pool.listing()[i].key@);
    assert(ks[j] == pool.listing()[j].key@);
}

/// No two sessions of a pool share a handle, and every handle in the pool
/// is one that the pool has issued.
pub proof fn lemma_handles_are_distinct(pool: SessionPool, a: Seq<char>, b: Seq<char>)
    requires
        pool.wf(),
        pool@.contains_key(a),
        pool@.contains_key(b),
        a != b,
    ensures
        pool@[a].handle != pool@[b].handle,
        pool@[a].handle < pool.issued(),
{
    lemma_handles_differ(pool.listing(), pool.issued(), a, b);
}

/// A sweep kills no session that has not expired: a session that is in use,
/// or that has been idle for no longer than the pool timeout, stays in the
/// pool as it was, and its handle is not among those that the sweep returns
/// for killing.
pub proof fn lemma_sweep_spares_the_living(
    before: SessionPool,
    after: SessionPool,
    killed: Seq<u64>,
    now: u64,
    key: Seq<char>,
)
    requires
        before.wf(),
        before.swept(now, after, killed),
        before@.contains_key(key),
        !before@[key].expired(now),
    ensures
        after@.contains_key(key),
        after@[key] == before@[key],
        !killed.contains(before@[key].handle),
{
    let h = before@[key].handle;
    if killed.contains(h) {
        let k = choose|k: Seq<char>| #[trigger]
            before@.contains_key(k) && before@[k].expired(now) && before@[k].handle == h;
        lemma_handles_are_distinct(before, key, k);
    }
}

/// Every session in a well-formed pool has a detach time exactly while it is
/// idle.
pub proof fn lemma_pooled_sessions_wf(pool: SessionPool, key: Seq<char>)
    requires
        pool.wf(),
        pool@.contains_key(key),
    ensures
        pool@[key].wf(),
        pool@[key].disconnected_at is None ==> pool@[key].in_use,
{
    let i = lemma_map_key(pool.listing(), key);
}

/// The frames that the read loop forwards for the messages of a socket, in
/// the order in which they arrived: the frames of the text messages up to
/// the first close frame.
pub open spec fn forwarded(messages: Seq<SocketMessage>) -> Seq<ClientMsgView>
    decreases messages.len(),
{
    if messages.len() == 0 {
        Seq::empty()
    } else {
        match messages[0] {
            SocketMessage::Close => Seq::empty(),
            SocketMessage::Text(t) => match frame_of_fields(
                json_str_field(t@, "t"@),
                json_str_field(t@, "d"@),
                json_u64_field(t@, "c"@),
                json_u64_field(t@, "r"@),
            ) {
                Some(f) => seq![f] + forwarded(messages.drop_first()),
                None => forwarded(messages.drop_first()),
            },
            _ => forwarded(messages.drop_first()),
        }
    }
}

/// The views of a list of frames.
pub open spec fn view_frames(v: Seq<ClientMsg>) -> Seq<ClientMsgView> {
    Seq::new(v.len(), |i: int| v[i]@)
}

/// Runs the read loop over the messages of a socket: the frames handed to
/// the writer of the pseudo-terminal, in the order of their messages.
pub fn read_loop(messages: &Vec<SocketMessage>) -> (r: Vec<ClientMsg>)
    ensures
        view_frames(r@) == forwarded(messages@),
{
    let mut out: Vec<ClientMsg> = Vec::new();
    let mut i: usize = 0;
    assert(messages@.skip(0) == messages@);
    assert(view_frames(out@) =~= Seq::<ClientMsgView>::empty());
    while i < messages.len()
        invariant
            i <= messages.len(),
            forwarded(messages@) == view_frames(out@) + forwarded(messages@.skip(i as int)),
        decreases messages.len() - i,
    {
        let ghost rest = messages@.skip(i as int);
        assert(rest[0] == messages@[i as int]);
        assert(rest.drop_first() == messages@.skip(i + 1));
        match read_action(&messages[i]) {
            ReadAction::Forward(m) => {
                let ghost before = out@;
                let ghost f = m@;
                out.push(m);
                assert(view_frames(out@) =~= view_frames(before).push(f));
                assert(forwarded(rest) == seq![f] + forwarded(messages@.skip(i + 1)));
                assert(forwarded(messages@) =~= view_frames(out@) + forwarded(
                    messages@.skip(i + 1),
                ));
            },
            ReadAction::Ignore => {},
            ReadAction::Stop => {
                assert(forwarded(rest) == Seq::<ClientMsgView>::empty());
                assert(view_frames(out@) + Seq::<ClientMsgView>::empty() =~= view_frames(out@));
                return out;
            },
        }
        i = i + 1;
    }
    assert(view_frames(out@) + Seq::<ClientMsgView>::empty() =~= view_frames(out@));
    out
}

/// A session whose socket has closed stays in the pool for the whole
/// timeout: the sweeper takes it only once more than the timeout has passed
/// since it was released.
pub proof fn lemma_grace_window(handle: u64, released_at: u64, now: u64)
    ensures
        PooledSession::detached(handle, released_at).expired(now) <==> now - released_at
            > SESSION_POOL_TIMEOUT_MS,
        now <= released_at + SESSION_POOL_TIMEOUT_MS ==> !PooledSession::detached(
            handle,
            released_at,
        ).expired(now),
        !PooledSession::attached(handle).expired(now),
{
}

/// What is done before an interactive session enters a container.
#[derive(Debug, Clone, PartialEq, Eq)]
pub struct Preflight {
    /// The arguments of `machinectl` that terminate the stale machine.
    pub terminate: Vec<String>,
    /// How long to wait afterwards, in milliseconds.
    pub settle_ms: u64,
}

/// Decides from the output of `machinectl show` whether a machine of the
/// same name still runs and has to be terminated first: a running machine
/// keeps the directory tree of its root busy.
pub fn container_preflight(machine: &str, show_output: &str) -> (r: Option<Preflight>)
    ensures
        !contains(show_output@, "State=running"@) ==> r is None,
        contains(show_output@, "State=running"@) ==> (r matches Some(p) && view_strs(p.terminate@)
            == seq!["terminate"@, machine@] && p.settle_ms == TERMINATE_SETTLE_MS),
{
    if machine_is_running(show_output) {
        Some(Preflight { terminate: machine_terminate_args(machine), settle_ms: TERMINATE_SETTLE_MS })
    } else {
        None
    }
}

} // verus!
