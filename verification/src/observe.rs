//! Session log lines. Timestamps, the console and the log file are the
//! host's; this module decides what a line says.

use vstd::prelude::*;

use crate::text::{concat_strs, hex_fixed, hex_fixed_chars, owned, str_eq, string_from_chars};

verus! {

/// Which way bytes travelled.
#[derive(Debug, Clone, Copy, PartialEq, Eq, Structural)]
pub enum Direction {
    Rx,
    Tx,
}

impl Direction {
    /// `RX` or `TX`.
    pub fn tag(self) -> (s: &'static str)
        ensures
            s@ == match self {
                Direction::Rx => "RX"@,
                Direction::Tx => "TX"@,
            },
    {
        match self {
            Direction::Rx => "RX",
            Direction::Tx => "TX",
        }
    }
}

/// How data is rendered in the session log.
#[derive(Debug, Clone, Copy, PartialEq, Eq, Structural)]
pub enum LogFormat {
    Text,
    Hex,
    HexText,
}

impl LogFormat {
    /// `text` and `hex` name their formats; anything else is hex and text.
    pub fn parse(s: &str) -> (f: LogFormat)
        ensures
            f == if s@ == "text"@ {
                LogFormat::Text
            } else if s@ == "hex"@ {
                LogFormat::Hex
            } else {
                LogFormat::HexText
            },
    {
        if str_eq(s, "text") {
            LogFormat::Text
        } else if str_eq(s, "hex") {
            LogFormat::Hex
        } else {
            LogFormat::HexText
        }
    }
}

/// Two hex digits per byte, joined by spaces.
pub open spec fn hex_words(b: Seq<u8>) -> Seq<char>
    decreases b.len(),
{
    if b.len() == 0 {
        Seq::empty()
    } else if b.len() == 1 {
        hex_fixed(b[0] as nat, 2)
    } else {
        hex_words(b.drop_last()) + " "@ + hex_fixed(b.last() as nat, 2)
    }
}

/// The first `max` bytes as hex words, then ` ...` when bytes were left out.
pub open spec fn preview_of(b: Seq<u8>, max: nat) -> Seq<char> {
    if b.len() > max {
        hex_words(b.subrange(0, max as int)) + " ..."@
    } else {
        hex_words(b)
    }
}

proof fn lemma_hex_fixed_len(n: nat, width: nat)
    ensures
        hex_fixed(n, width).len() == width,
    decreases width,
{
    if width > 0 {
        lemma_hex_fixed_len(n / 16, (width - 1) as nat);
    }
}

/// Render up to `max` bytes of `data` as hex words.
pub fn hex_preview(data: &[u8], max: usize) -> (s: String)
    ensures
        s@ == preview_of(data@, max as nat),
{
    let take = if data.len() > max { max } else { data.len() };
    let mut out: Vec<char> = Vec::new();
    let mut i: usize = 0;
    while i < take
        invariant
            i <= take <= data@.len(),
            out@ == hex_words(data@.subrange(0, i as int)),
        decreases take - i,
    {
        proof {
            assert(data@.subrange(0, i + 1).drop_last() =~= data@.subrange(0, i as int));
        }
        let ghost before = out@;
        if i > 0 {
            out.push(' ');
        }
        let pair = hex_fixed_chars(data[i] as u64, 2);
        proof {
            lemma_hex_fixed_len(data[i as int] as nat, 2);
        }
        out.push(pair[0]);
        out.push(pair[1]);
        proof {
            assert(pair@ =~= seq![pair@[0], pair@[1]]);
            if i == 0 {
                assert(out@ =~= hex_fixed(data@[0] as nat, 2));
                assert(data@.subrange(0, 1)[0] == data@[0]);
            } else {
                assert(out@ =~= before + " "@ + pair@) by {
                    reveal_strlit(" ");
                }
            }
        }
        i = i + 1;
    }
    let words = string_from_chars(out.as_slice());
    if data.len() > max {
        concat_strs(words.as_str(), " ...")
    } else {
        proof {
            assert(data@.subrange(0, take as int) =~= data@);
        }
        words
    }
}

/// What `String::from_utf8_lossy(bytes)` gives: the text of the bytes with
/// each invalid UTF-8 sequence replaced.
pub uninterp spec fn utf8_lossy(bytes: Seq<u8>) -> Seq<char>;

/// What `text.escape_debug()` renders.
pub uninterp spec fn debug_escaped(text: Seq<char>) -> Seq<char>;

/// `String::from_utf8_lossy(bytes)`, tied to the bytes through `utf8_lossy`.
#[verifier::external_body]
fn lossy_text(bytes: &[u8]) -> (s: String)
    ensures
        s@ == utf8_lossy(bytes@),
{
    String::from_utf8_lossy(bytes).into_owned()
}

/// `text.escape_debug().to_string()`: control and quote characters escaped,
/// tied to the text through `debug_escaped`.
#[verifier::external_body]
fn escape_debug_text(text: &str) -> (s: String)
    ensures
        s@ == debug_escaped(text@),
{
    text.escape_debug().to_string()
}

/// The logged text of bytes: invalid UTF-8 replaced, then escaped.
pub open spec fn escaped_text(bytes: Seq<u8>) -> Seq<char> {
    debug_escaped(utf8_lossy(bytes))
}

/// `String::from_utf8_lossy(bytes).escape_debug().to_string()`.
fn escape_lossy(bytes: &[u8]) -> (s: String)
    ensures
        s@ == escaped_text(bytes@),
{
    let text = lossy_text(bytes);
    escape_debug_text(text.as_str())
}

/// The session-log line for `data` travelling `dir` for `client` (or `-`),
/// stamped `ts`; an empty write logs nothing.
pub open spec fn log_line_of(format: LogFormat, ts: Seq<char>, dir: Direction, client: Option<Seq<char>>, data: Seq<u8>) -> Option<Seq<char>> {
    let tag = match dir {
        Direction::Rx => "RX"@,
        Direction::Tx => "TX"@,
    };
    let who = match client {
        Some(c) => c,
        None => "-"@,
    };
    let head = ts + " "@ + tag + " "@ + who + " "@;
    if data.len() == 0 {
        None
    } else {
        Some(
            match format {
                LogFormat::Text => head + escaped_text(data) + "\n"@,
                LogFormat::Hex => head + preview_of(data, usize::MAX as nat) + "\n"@,
                LogFormat::HexText => head + "hex="@ + preview_of(data, 64) + " text="@ + escaped_text(data) + "\n"@,
            },
        )
    }
}

/// Compose a session-log line.
pub fn log_line(format: LogFormat, ts: &str, dir: Direction, client: Option<&str>, data: &[u8]) -> (r: Option<String>)
    ensures
        opt_view(r) == log_line_of(
            format,
            ts@,
            dir,
            match client {
                Some(c) => Some(c@),
                None => None,
            },
            data@,
        ),
{
    if data.len() == 0 {
        return None;
    }
    let who = match client {
        Some(c) => c,
        None => "-",
    };
    let a = concat_strs(ts, " ");
    let b = concat_strs(a.as_str(), dir.tag());
    let c = concat_strs(b.as_str(), " ");
    let d = concat_strs(c.as_str(), who);
    let head = concat_strs(d.as_str(), " ");
    let body = match format {
        LogFormat::Text => concat_strs(head.as_str(), escape_lossy(data).as_str()),
        LogFormat::Hex => concat_strs(head.as_str(), hex_preview(data, usize::MAX).as_str()),
        LogFormat::HexText => {
            let x = concat_strs(head.as_str(), "hex=");
            let y = concat_strs(x.as_str(), hex_preview(data, 64).as_str());
            let z = concat_strs(y.as_str(), " text=");
            concat_strs(z.as_str(), escape_lossy(data).as_str())
        },
    };
    Some(concat_strs(body.as_str(), "\n"))
}

/// The view of an optional string.
pub open spec fn opt_view(o: Option<String>) -> Option<Seq<char>> {
    match o {
        Some(v) => Some(v@),
        None => None,
    }
}

/// The session-log line of a hub event, stamped `ts`.
pub fn event_line(ts: &str, msg: &str) -> (s: String)
    ensures
        s@ == ts@ + " EVENT "@ + msg@ + "\n"@,
{
    let a = concat_strs(ts, " EVENT ");
    let b = concat_strs(a.as_str(), msg);
    concat_strs(b.as_str(), "\n")
}

} // verus!
