//! What the raw TCP and WebSocket client endpoints do with what a client
//! sends, and what a WebSocket client is shown when it connects.
//!
//! The sockets themselves belong to the host program.

use vstd::prelude::*;
use vstd::utf8::encode_utf8;

use crate::text::{bytes_to_vec, concat_strs, ends_with, owned};

verus! {

/// Why a client that may not write is refused.
pub open spec fn read_only_reason() -> Seq<char> {
    "client is read-only"@
}

/// The line a raw TCP client is sent when its bytes are refused.
pub fn tcp_denial_line(reason: &str) -> (s: String)
    ensures
        s@ == "!ohmyserial tx denied: "@ + reason@ + "\n"@,
{
    let a = concat_strs("!ohmyserial tx denied: ", reason);
    concat_strs(a.as_str(), "\n")
}

/// What a raw TCP endpoint does with bytes a client sent.
#[derive(Debug, Clone, PartialEq, Eq)]
pub enum TcpInbound {
    /// Send the client this line; the broker is not asked.
    Refuse(String),
    /// Hand the bytes to the broker, as one atomic write when `atomic`.
    Submit { atomic: bool },
}

/// A client that may not write is told so; other bytes go to the broker
/// as the endpoint is configured.
pub fn tcp_inbound(can_write: bool, atomic: bool) -> (r: TcpInbound)
    ensures
        !can_write ==> (r matches TcpInbound::Refuse(line) && line@ == "!ohmyserial tx denied: "@ + read_only_reason() + "\n"@),
        can_write ==> r == (TcpInbound::Submit { atomic }),
{
    if !can_write {
        return TcpInbound::Refuse(tcp_denial_line("client is read-only"));
    }
    TcpInbound::Submit { atomic }
}

/// A message a WebSocket client sent.
#[derive(Debug, Clone, PartialEq, Eq)]
pub enum WsMessage {
    Binary(Vec<u8>),
    Text(String),
    Close,
    Ping,
    Pong,
}

/// What a WebSocket endpoint does with a message.
#[derive(Debug, Clone, PartialEq, Eq)]
pub enum WsDecision {
    /// Answer with an error frame carrying this reason.
    Refuse(String),
    /// Hand `data` to the broker, as one atomic write when `atomic`.
    Submit { data: Vec<u8>, atomic: bool },
    /// The client closed the connection.
    Stop,
    /// Nothing to do.
    Ignore,
}

/// A text message as the bytes it sends: its UTF-8, ending with a newline.
pub open spec fn text_line(t: Seq<char>) -> Seq<u8> {
    if ends_with(t, "\n"@) {
        encode_utf8(t)
    } else {
        encode_utf8(t + "\n"@)
    }
}

/// Binary messages are sent as one atomic write, text messages as a line
/// (a newline is added when missing); a client that may not write is
/// refused; a close ends the connection; pings and pongs are ignored.
pub fn ws_inbound(can_write: bool, message: WsMessage) -> (d: WsDecision)
    ensures
        match message {
            WsMessage::Binary(b) => if !can_write {
                d matches WsDecision::Refuse(m) && m@ == read_only_reason()
            } else {
                d matches WsDecision::Submit { data, atomic } && data@ == b@ && atomic
            },
            WsMessage::Text(t) => if !can_write {
                d matches WsDecision::Refuse(m) && m@ == read_only_reason()
            } else {
                d matches WsDecision::Submit { data, atomic } && data@ == text_line(t@) && !atomic
            },
            WsMessage::Close => d == WsDecision::Stop,
            WsMessage::Ping | WsMessage::Pong => d == WsDecision::Ignore,
        },
{
    match message {
        WsMessage::Binary(b) => {
            if !can_write {
                return WsDecision::Refuse(owned("client is read-only"));
            }
            WsDecision::Submit { data: b, atomic: true }
        },
        WsMessage::Text(t) => {
            if !can_write {
                return WsDecision::Refuse(owned("client is read-only"));
            }
            let cs = crate::text::chars_of(t.as_str());
            let ends = cs.len() > 0 && cs[cs.len() - 1] == '\n';
            proof {
                reveal_strlit("\n");
                if ends {
                    assert(t@.subrange(t@.len() - 1, t@.len() as int) =~= "\n"@);
                } else if t@.len() > 0 {
                    assert(t@.subrange(t@.len() - 1, t@.len() as int)[0] == t@[t@.len() - 1]);
                }
            }
            let line = if ends {
                t
            } else {
                concat_strs(t.as_str(), "\n")
            };
            WsDecision::Submit { data: bytes_to_vec(line.as_str().as_bytes()), atomic: false }
        },
        WsMessage::Close => WsDecision::Stop,
        WsMessage::Ping | WsMessage::Pong => WsDecision::Ignore,
    }
}

/// The history a WebSocket client is sent when it connects: the last
/// `limit` bytes of the history (all of it when shorter), when the client
/// may read, the limit is positive and there is any history.
pub fn ws_history(can_read: bool, limit: usize, history: &[u8]) -> (r: Option<Vec<u8>>)
    ensures
        !can_read || limit == 0 || history@.len() == 0 ==> r is None,
        can_read && limit > 0 && history@.len() > 0 ==> (r matches Some(tail) && tail@ == history@.subrange(
            history@.len() - (if history@.len() < limit { history@.len() as int } else { limit as int }),
            history@.len() as int,
        )),
{
    if !can_read || limit == 0 || history.len() == 0 {
        return None;
    }
    let take = if history.len() < limit {
        history.len()
    } else {
        limit
    };
    let start = history.len() - take;
    let mut tail: Vec<u8> = Vec::new();
    let mut i = start;
    while i < history.len()
        invariant
            start <= i <= history@.len(),
            tail@ == history@.subrange(start as int, i as int),
        decreases history@.len() - i,
    {
        tail.push(history[i]);
        i = i + 1;
    }
    Some(tail)
}

/// How a read or write on a PTY master failed.
#[derive(Debug, Clone, Copy, PartialEq, Eq, Structural)]
pub enum PtyFailure {
    /// The descriptor is nonblocking and nothing was ready.
    WouldBlock,
    /// A signal interrupted the call.
    Interrupted,
    /// No process holds the slave side open yet.
    NoPeer,
    /// Anything else.
    Other,
}

/// A PTY read is retried after a short pause when it would block, was
/// interrupted, or no host tool holds the slave open; anything else ends
/// the endpoint's reader.
pub fn pty_read_retries(failure: PtyFailure) -> (r: bool)
    ensures
        r == !(failure is Other),
{
    match failure {
        PtyFailure::Other => false,
        _ => true,
    }
}

/// A PTY write is retried after a short pause when it would block or no
/// host tool holds the slave open, so the endpoint outlives a tool that is
/// not connected yet; anything else ends the endpoint's writer.
pub fn pty_write_retries(failure: PtyFailure) -> (r: bool)
    ensures
        r == (failure is WouldBlock || failure is NoPeer),
{
    match failure {
        PtyFailure::WouldBlock | PtyFailure::NoPeer => true,
        _ => false,
    }
}

/// What stands at a PTY endpoint's link path.
#[derive(Debug, Clone, PartialEq, Eq)]
pub enum LinkEntry {
    Symlink,
    NotSymlink,
    Missing,
    /// Its metadata could not be read, for this reason.
    Unreadable(String),
}

/// Whether the link path must be removed before the endpoint's symlink is
/// made (or when it is cleaned up): an old symlink is removed, a missing
/// path needs nothing, and anything else is never deleted.
pub fn link_cleanup(entry: LinkEntry, link: &str) -> (r: Result<bool, String>)
    ensures
        match entry {
            LinkEntry::Symlink => r == Ok::<bool, String>(true),
            LinkEntry::Missing => r == Ok::<bool, String>(false),
            LinkEntry::NotSymlink => r matches Err(e) && e@ == "refusing to replace non-symlink PTY link path "@ + link@,
            LinkEntry::Unreadable(m) => r == Err::<bool, String>(m),
        },
{
    match entry {
        LinkEntry::Symlink => Ok(true),
        LinkEntry::Missing => Ok(false),
        LinkEntry::NotSymlink => Err(concat_strs("refusing to replace non-symlink PTY link path ", link)),
        LinkEntry::Unreadable(m) => Err(m),
    }
}

} // verus!
