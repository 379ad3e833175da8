//! Options and pure rules of the append-only segment store: segment names,
//! line framing and digests. Files themselves are read and written by the
//! host program.

use vstd::prelude::*;

use crate::codec::{rfc3339_parses, rfc3339_valid, sha256, sha256_digest, uuid_hyphenated, uuid_text};
use crate::schema::{envelope_error_text, EventEnvelope};
use crate::text::{
    chars_of, concat_strs, decimal, decimal_chars, decimal_string, str_eq, ends_with, hex_fixed, hex_fixed_chars, owned,
    parse_u64_chars, parsed_u64, starts_with, string_from_chars,
};

verus! {

/// Where and how the store writes its segments.
#[derive(Clone, Debug, PartialEq, Eq)]
pub struct StoreOptions {
    pub directory: String,
    pub segment_max_bytes: u64,
    pub segment_max_events: u64,
    /// Flush the userspace writer after this many appended events.
    pub flush_every_events: u64,
    /// Call `sync_data` whenever the configured flush threshold is reached.
    pub fsync_on_flush: bool,
}

impl Default for StoreOptions {
    fn default() -> (o: Self)
        ensures
            o.directory@ == "ohmyserial-ledger"@,
            o.segment_max_bytes == 64 * 1024 * 1024,
            o.segment_max_events == 100_000,
            o.flush_every_events == 1,
            !o.fsync_on_flush,
    {
        StoreOptions {
            directory: owned("ohmyserial-ledger"),
            segment_max_bytes: 64 * 1024 * 1024,
            segment_max_events: 100_000,
            flush_every_events: 1,
            fsync_on_flush: false,
        }
    }
}

/// Why the store refused an operation.
#[derive(Clone, Debug, PartialEq, Eq)]
pub enum StoreError {
    InvalidOptions(String),
    Sequence(String),
    Degraded,
    Sealed,
    Recovery(String),
}

impl StoreOptions {
    /// Every limit must be positive; the first zero one is named.
    pub fn validate(&self) -> (r: Result<(), StoreError>)
        ensures
            self.segment_max_bytes == 0 ==> (r matches Err(StoreError::InvalidOptions(m)) && m@
                == "segment_max_bytes must be greater than zero"@),
            self.segment_max_bytes > 0 && self.segment_max_events == 0 ==> (r matches Err(
                StoreError::InvalidOptions(m),
            ) && m@ == "segment_max_events must be greater than zero"@),
            self.segment_max_bytes > 0 && self.segment_max_events > 0 && self.flush_every_events
                == 0 ==> (r matches Err(StoreError::InvalidOptions(m)) && m@
                == "flush_every_events must be greater than zero"@),
            r is Ok <==> (self.segment_max_bytes > 0 && self.segment_max_events > 0
                && self.flush_every_events > 0),
    {
        if self.segment_max_bytes == 0 {
            return Err(StoreError::InvalidOptions(owned("segment_max_bytes must be greater than zero")));
        }
        if self.segment_max_events == 0 {
            return Err(StoreError::InvalidOptions(owned("segment_max_events must be greater than zero")));
        }
        if self.flush_every_events == 0 {
            return Err(StoreError::InvalidOptions(owned("flush_every_events must be greater than zero")));
        }
        Ok(())
    }
}

/// The schema name in every segment header and footer.
pub const SEGMENT_SCHEMA: &'static str = "ohmyserial.segment";

/// The segment format version.
pub const SEGMENT_VERSION: u16 = 1;

// ---------------------------------------------------------------------------
// Line framing
// ---------------------------------------------------------------------------

/// Scanning bytes left to right: the complete (newline-terminated) lines so
/// far and the unterminated tail.
pub open spec fn line_scan(b: Seq<u8>) -> (Seq<Seq<u8>>, Seq<u8>)
    decreases b.len(),
{
    if b.len() == 0 {
        (Seq::empty(), Seq::empty())
    } else {
        let (lines, tail) = line_scan(b.drop_last());
        let cur = tail.push(b.last());
        if b.last() == 10u8 {
            (lines.push(cur), Seq::empty())
        } else {
            (lines, cur)
        }
    }
}

/// The newline-terminated lines of `b`, each with its `\n`; an unterminated
/// tail is not a line.
pub open spec fn complete_lines_of(b: Seq<u8>) -> Seq<Seq<u8>> {
    line_scan(b).0
}

/// Lines laid end to end.
pub open spec fn joined(lines: Seq<Seq<u8>>) -> Seq<u8>
    decreases lines.len(),
{
    if lines.len() == 0 {
        Seq::empty()
    } else {
        joined(lines.drop_last()) + lines.last()
    }
}

/// Framing loses nothing: the complete lines followed by the unterminated
/// tail are the input; every line ends with its only newline, and the tail
/// has none.
pub proof fn law_framing_is_lossless(b: Seq<u8>)
    ensures
        joined(line_scan(b).0) + line_scan(b).1 == b,
        forall|k: int| 0 <= k < line_scan(b).0.len() ==> (#[trigger] line_scan(b).0[k]).len() > 0
            && line_scan(b).0[k].last() == 10u8,
        forall|k: int, j: int| 0 <= k < line_scan(b).0.len() && 0 <= j < line_scan(b).0[k].len() - 1
            ==> line_scan(b).0[k][j] != 10u8,
        forall|j: int| 0 <= j < line_scan(b).1.len() ==> line_scan(b).1[j] != 10u8,
    decreases b.len(),
{
    if b.len() > 0 {
        let prev = b.drop_last();
        law_framing_is_lossless(prev);
        let (lines, tail) = line_scan(prev);
        let cur = tail.push(b.last());
        if b.last() == 10u8 {
            assert(lines.push(cur).drop_last() =~= lines);
            assert(joined(lines.push(cur)) + Seq::<u8>::empty() =~= joined(lines) + tail + seq![b.last()]);
            assert(b =~= prev.push(b.last()));
            assert forall|k: int, j: int| 0 <= k < lines.push(cur).len() && 0 <= j < lines.push(cur)[k].len() - 1
                implies lines.push(cur)[k][j] != 10u8 by {
                if k < lines.len() {
                    assert(lines.push(cur)[k] == lines[k]);
                } else {
                    assert(lines.push(cur)[k] == cur);
                    assert(cur[j] == tail[j]);
                }
            }
        } else {
            assert(joined(lines) + cur =~= joined(lines) + tail + seq![b.last()]);
            assert(b =~= prev.push(b.last()));
        }
    }
}

/// Split `bytes` into its complete lines.
pub fn complete_lines(bytes: &[u8]) -> (lines: Vec<Vec<u8>>)
    ensures
        lines@.map_values(|l: Vec<u8>| l@) == complete_lines_of(bytes@),
{
    let mut lines: Vec<Vec<u8>> = Vec::new();
    let mut cur: Vec<u8> = Vec::new();
    let mut i: usize = 0;
    while i < bytes.len()
        invariant
            i <= bytes@.len(),
            (lines@.map_values(|l: Vec<u8>| l@), cur@) == line_scan(bytes@.subrange(0, i as int)),
        decreases bytes@.len() - i,
    {
        proof {
            assert(bytes@.subrange(0, i + 1).drop_last() =~= bytes@.subrange(0, i as int));
        }
        let ghost before = lines@.map_values(|l: Vec<u8>| l@);
        cur.push(bytes[i]);
        if bytes[i] == 10u8 {
            let done = cur;
            cur = Vec::new();
            lines.push(done);
            proof {
                assert(lines@.map_values(|l: Vec<u8>| l@) =~= before.push(done@));
                assert(cur@ =~= Seq::<u8>::empty());
            }
        }
        i = i + 1;
    }
    proof {
        assert(bytes@.subrange(0, i as int) =~= bytes@);
    }
    lines
}

/// A line without its `\n`, then without a `\r` before it.
pub open spec fn without_line_ending(l: Seq<u8>) -> Seq<u8> {
    let a = if l.len() > 0 && l.last() == 10u8 {
        l.drop_last()
    } else {
        l
    };
    if a.len() > 0 && a.last() == 13u8 {
        a.drop_last()
    } else {
        a
    }
}

/// Strip the line ending of `line`.
pub fn trim_line_ending(line: &[u8]) -> (r: Vec<u8>)
    ensures
        r@ == without_line_ending(line@),
{
    let mut end = line.len();
    if end > 0 && line[end - 1] == 10u8 {
        end = end - 1;
    }
    if end > 0 && line[end - 1] == 13u8 {
        end = end - 1;
    }
    let mut r: Vec<u8> = Vec::new();
    let mut i: usize = 0;
    while i < end
        invariant
            i <= end <= line@.len(),
            r@ == line@.subrange(0, i as int),
        decreases end - i,
    {
        r.push(line[i]);
        i = i + 1;
    }
    proof {
        assert(r@ =~= without_line_ending(line@));
    }
    r
}

// ---------------------------------------------------------------------------
// Digests
// ---------------------------------------------------------------------------

/// Two lower-case hexadecimal digits per byte.
pub open spec fn hex_of(b: Seq<u8>) -> Seq<char>
    decreases b.len(),
{
    if b.len() == 0 {
        Seq::empty()
    } else {
        hex_of(b.drop_last()) + hex_fixed(b.last() as nat, 2)
    }
}

/// Render bytes as lower-case hexadecimal.
pub fn hex_digest(bytes: &[u8]) -> (s: String)
    ensures
        s@ == hex_of(bytes@),
{
    let mut out: Vec<char> = Vec::new();
    let mut i: usize = 0;
    while i < bytes.len()
        invariant
            i <= bytes@.len(),
            out@ == hex_of(bytes@.subrange(0, i as int)),
        decreases bytes@.len() - i,
    {
        proof {
            assert(bytes@.subrange(0, i + 1).drop_last() =~= bytes@.subrange(0, i as int));
        }
        let pair = hex_fixed_chars(bytes[i] as u64, 2);
        let mut k: usize = 0;
        let ghost start = out@;
        while k < pair.len()
            invariant
                k <= pair@.len(),
                out@ == start + pair@.subrange(0, k as int),
            decreases pair@.len() - k,
        {
            out.push(pair[k]);
            k = k + 1;
            proof {
                assert(start + pair@.subrange(0, k as int) =~= (start + pair@.subrange(0, k - 1)).push(pair@[k - 1]));
            }
        }
        proof {
            assert(pair@.subrange(0, k as int) =~= pair@);
        }
        i = i + 1;
    }
    proof {
        assert(bytes@.subrange(0, i as int) =~= bytes@);
    }
    string_from_chars(out.as_slice())
}

/// The SHA-256 of `bytes`, in hexadecimal.
pub open spec fn sha256_hex(bytes: Seq<u8>) -> Seq<char> {
    hex_of(sha256(bytes))
}

/// Hash `bytes` with SHA-256 and render the digest in hexadecimal.
pub fn sha256_text(bytes: &[u8]) -> (s: String)
    ensures
        s@ == sha256_hex(bytes@),
{
    let d = sha256_digest(bytes);
    hex_digest(d.as_slice())
}

// ---------------------------------------------------------------------------
// Segment file names
// ---------------------------------------------------------------------------

/// `n` in decimal, zero-padded to at least `width` digits.
pub open spec fn padded_decimal(n: nat, width: nat) -> Seq<char> {
    if decimal(n).len() < width {
        Seq::new((width - decimal(n).len()) as nat, |i: int| '0') + decimal(n)
    } else {
        decimal(n)
    }
}

/// `session-{uuid}-segment-`, the name prefix of a session's segments.
pub open spec fn segment_prefix(session_id: u128) -> Seq<char> {
    "session-"@ + uuid_hyphenated(session_id) + "-segment-"@
}

/// `session-{uuid}-segment-{index:020}.{extension}`.
pub open spec fn segment_name(session_id: u128, index: u64, extension: Seq<char>) -> Seq<char> {
    segment_prefix(session_id) + padded_decimal(index as nat, 20) + "."@ + extension
}

/// The file name of a segment.
pub fn segment_file_name(session_id: u128, index: u64, extension: &str) -> (s: String)
    ensures
        s@ == segment_name(session_id, index, extension@),
{
    let digits = decimal_chars(index);
    let mut padded: Vec<char> = Vec::new();
    let width: usize = 20;
    let zeros: usize = if digits.len() < width { width - digits.len() } else { 0 };
    let mut i: usize = 0;
    while i < zeros
        invariant
            i <= zeros,
            padded@ == Seq::new(i as nat, |k: int| '0'),
        decreases zeros - i,
    {
        padded.push('0');
        i = i + 1;
        proof {
            assert(padded@ =~= Seq::new(i as nat, |k: int| '0'));
        }
    }
    let mut k: usize = 0;
    let ghost start = padded@;
    while k < digits.len()
        invariant
            k <= digits@.len(),
            padded@ == start + digits@.subrange(0, k as int),
        decreases digits@.len() - k,
    {
        padded.push(digits[k]);
        k = k + 1;
        proof {
            assert(start + digits@.subrange(0, k as int) =~= (start + digits@.subrange(0, k - 1)).push(digits@[k - 1]));
        }
    }
    proof {
        assert(digits@.subrange(0, k as int) =~= digits@);
        if digits@.len() >= 20 {
            assert(start =~= Seq::<char>::empty());
        }
        assert(padded@ =~= padded_decimal(index as nat, 20));
    }
    let id = uuid_text(session_id);
    let a = concat_strs("session-", id.as_str());
    let b = concat_strs(a.as_str(), "-segment-");
    let c = concat_strs(b.as_str(), string_from_chars(padded.as_slice()).as_str());
    let d = concat_strs(c.as_str(), ".");
    concat_strs(d.as_str(), extension)
}

/// The segment index a file name gives for a session and extension: the
/// text between `session-{uuid}-segment-` and `.{extension}`, parsed as a
/// `u64`.
pub open spec fn segment_index_of(name: Seq<char>, session_id: u128, extension: Seq<char>) -> Option<u64> {
    let prefix = segment_prefix(session_id);
    let suffix = "."@ + extension;
    if starts_with(name, prefix) && ends_with(name.subrange(prefix.len() as int, name.len() as int), suffix) {
        parsed_u64(name.subrange(prefix.len() as int, name.len() - suffix.len()))
    } else {
        None
    }
}

/// Parse a segment file name of `session_id` with `extension`.
pub fn parse_segment_name(name: &str, session_id: u128, extension: &str) -> (r: Option<u64>)
    ensures
        r == segment_index_of(name@, session_id, extension@),
{
    let id = uuid_text(session_id);
    let a = concat_strs("session-", id.as_str());
    let prefix = chars_of(concat_strs(a.as_str(), "-segment-").as_str());
    let suffix = chars_of(concat_strs(".", extension).as_str());
    let n = chars_of(name);
    if n.len() < prefix.len() {
        return None;
    }
    let mut i: usize = 0;
    while i < prefix.len()
        invariant
            i <= prefix@.len() <= n@.len(),
            n@ == name@,
            prefix@ == segment_prefix(session_id),
            forall|k: int| 0 <= k < i ==> n@[k] == prefix@[k],
        decreases prefix@.len() - i,
    {
        if n[i] != prefix[i] {
            proof {
                assert(n@.subrange(0, prefix@.len() as int)[i as int] != prefix@[i as int]);
            }
            return None;
        }
        i = i + 1;
    }
    proof {
        assert(n@.subrange(0, prefix@.len() as int) =~= prefix@);
    }
    let rest_len = n.len() - prefix.len();
    if rest_len < suffix.len() {
        return None;
    }
    let start = n.len() - suffix.len();
    let ghost rest = n@.subrange(prefix@.len() as int, n@.len() as int);
    let mut j: usize = 0;
    while j < suffix.len()
        invariant
            j <= suffix@.len(),
            start + suffix@.len() == n@.len(),
            n@.len() == n.len(),
            start >= prefix@.len(),
            n@ == name@,
            prefix@ == segment_prefix(session_id),
            suffix@ == "."@ + extension@,
            starts_with(n@, prefix@),
            rest == n@.subrange(prefix@.len() as int, n@.len() as int),
            forall|k: int| 0 <= k < j ==> n@[start + k] == suffix@[k],
        decreases suffix@.len() - j,
    {
        if n[start + j] != suffix[j] {
            proof {
                assert(rest.subrange(rest.len() - suffix@.len(), rest.len() as int)[j as int] != suffix@[j as int]);
            }
            return None;
        }
        j = j + 1;
    }
    proof {
        assert(rest.subrange(rest.len() - suffix@.len(), rest.len() as int) =~= suffix@);
    }
    proof {
        assert(ends_with(rest, suffix@));
    }
    let mut middle: Vec<char> = Vec::new();
    let mut k: usize = prefix.len();
    while k < start
        invariant
            prefix@.len() <= k <= start,
            start <= n@.len(),
            middle@ == n@.subrange(prefix@.len() as int, k as int),
        decreases start - k,
    {
        middle.push(n[k]);
        k = k + 1;
        proof {
            assert(middle@ =~= n@.subrange(prefix@.len() as int, k as int));
        }
    }
    proof {
        assert(middle@ =~= name@.subrange(prefix@.len() as int, name@.len() - suffix@.len()));
    }
    parse_u64_chars(middle.as_slice())
}

// ---------------------------------------------------------------------------
// Segment records and verification
// ---------------------------------------------------------------------------

/// One line of a segment file.
#[derive(Debug)]
pub enum DiskRecord {
    Header {
        schema: String,
        version: u16,
        session_id: u128,
        segment_index: u64,
        created_at: String,
        previous_segment_sha256: Option<String>,
    },
    Event { event: EventEnvelope },
    Footer {
        schema: String,
        version: u16,
        session_id: u128,
        segment_index: u64,
        event_count: u64,
        first_seq: Option<u64>,
        last_seq: Option<u64>,
        content_sha256: String,
        previous_segment_sha256: Option<String>,
    },
}

/// Why a persisted session could not be read.
#[derive(Debug)]
pub enum LedgerReadError {
    PersistenceDisabled,
    Io { path: String, source: std::io::Error },
    InvalidSegment { path: String, detail: String },
    NoSegments(String),
    MultipleSessions,
}

/// What verifying one sealed segment established.
#[derive(Clone, Debug, PartialEq, Eq)]
pub struct SegmentVerification {
    pub path: String,
    pub session_id: u128,
    pub segment_index: u64,
    pub event_count: u64,
    pub first_seq: Option<u64>,
    pub last_seq: Option<u64>,
    pub content_sha256: String,
    pub segment_sha256: String,
    pub previous_segment_sha256: Option<String>,
}

/// A verified segment and its events, in order.
#[derive(Debug)]
pub struct VerifiedSegment {
    pub verification: SegmentVerification,
    pub events: Vec<EventEnvelope>,
}

/// The view of an optional string.
pub open spec fn opt_text(o: Option<String>) -> Option<Seq<char>> {
    match o {
        Some(v) => Some(v@),
        None => None,
    }
}

/// `a + 1`, held at `u64::MAX`.
pub open spec fn succ(a: u64) -> u64 {
    if a == u64::MAX {
        a
    } else {
        (a + 1) as u64
    }
}

/// Accept the record of event line `line_no` after the events `evs`.
pub open spec fn event_step(evs: Seq<EventEnvelope>, r: Result<DiskRecord, String>, session_id: u128, line_no: nat) -> Result<Seq<EventEnvelope>, Seq<char>> {
    match r {
        Err(e) => Err("invalid event line "@ + decimal(line_no) + ": "@ + e@),
        Ok(DiskRecord::Event { event }) => match envelope_error_text(event) {
            Some(t) => Err(t),
            None => if event.session_id != session_id {
                Err("event session id mismatch"@)
            } else if evs.len() > 0 && event.seq != succ(evs.last().seq) {
                Err("event sequence is not contiguous within segment"@)
            } else {
                Ok(evs.push(event))
            },
        },
        Ok(_) => Err("non-event record at line "@ + decimal(line_no)),
    }
}

/// The events of the middle records of a segment (lines 2, 3, ...), or the
/// first refusal.
pub open spec fn events_check(recs: Seq<Result<DiskRecord, String>>, session_id: u128) -> Result<Seq<EventEnvelope>, Seq<char>>
    decreases recs.len(),
{
    if recs.len() == 0 {
        Ok(Seq::empty())
    } else {
        match events_check(recs.drop_last(), session_id) {
            Err(e) => Err(e),
            Ok(evs) => event_step(evs, recs.last(), session_id, recs.len() + 1),
        }
    }
}

/// What a valid segment establishes.
pub struct SegmentFacts {
    pub session_id: u128,
    pub segment_index: u64,
    pub previous: Option<Seq<char>>,
    pub events: Seq<EventEnvelope>,
    pub content: Seq<char>,
}

/// The sequence number of the first event, if any.
pub open spec fn first_seq_of(evs: Seq<EventEnvelope>) -> Option<u64> {
    if evs.len() == 0 {
        None
    } else {
        Some(evs[0].seq)
    }
}

/// The sequence number of the last event, if any.
pub open spec fn last_seq_of(evs: Seq<EventEnvelope>) -> Option<u64> {
    if evs.len() == 0 {
        None
    } else {
        Some(evs.last().seq)
    }
}

/// Check the footer record against what the earlier lines established.
pub open spec fn footer_check(r: Result<DiskRecord, String>, session_id: u128, segment_index: u64, previous: Option<Seq<char>>, evs: Seq<EventEnvelope>, content: Seq<char>) -> Result<SegmentFacts, Seq<char>> {
    match r {
        Err(e) => Err("invalid footer: "@ + e@),
        Ok(DiskRecord::Footer {
            schema,
            version,
            session_id: fs,
            segment_index: fi,
            event_count,
            first_seq,
            last_seq,
            content_sha256,
            previous_segment_sha256,
        }) => if schema@ != SEGMENT_SCHEMA@ || version != SEGMENT_VERSION {
            Err("invalid segment footer"@)
        } else if fs != session_id || fi != segment_index || event_count != evs.len() || first_seq
            != first_seq_of(evs) || last_seq != last_seq_of(evs) || content_sha256@ != content
            || opt_text(previous_segment_sha256) != previous {
            Err("footer metadata or content hash mismatch"@)
        } else {
            Ok(SegmentFacts { session_id, segment_index, previous, events: evs, content })
        },
        Ok(_) => Err("invalid segment footer"@),
    }
}

/// The outcome of verifying a sealed segment whose bytes are `bytes` and
/// whose complete lines, without their line endings, parse to `recs`: the
/// header (schema, version, RFC 3339 creation time), then only valid events
/// of the header's session with contiguous sequence numbers, then a footer
/// whose counts, sequence range, chain link and SHA-256 of every line before
/// it match.
pub open spec fn segment_check(bytes: Seq<u8>, recs: Seq<Result<DiskRecord, String>>) -> Result<SegmentFacts, Seq<char>> {
    let lines = complete_lines_of(bytes);
    let n = lines.len() as int;
    if bytes.len() == 0 || bytes.last() != 10u8 {
        Err("segment is empty or has an incomplete final line"@)
    } else if n < 2 {
        Err("missing header or footer"@)
    } else {
        match recs[0] {
            Err(e) => Err("invalid header: "@ + e@),
            Ok(DiskRecord::Header { schema, version, session_id, segment_index, created_at, previous_segment_sha256 }) => {
                if schema@ != SEGMENT_SCHEMA@ || version != SEGMENT_VERSION {
                    Err("invalid segment header"@)
                } else if !rfc3339_valid(created_at@) {
                    Err("invalid header timestamp"@)
                } else {
                    match events_check(recs.subrange(1, n - 1), session_id) {
                        Err(e) => Err(e),
                        Ok(evs) => footer_check(
                            recs[n - 1],
                            session_id,
                            segment_index,
                            opt_text(previous_segment_sha256),
                            evs,
                            sha256_hex(joined(lines.subrange(0, n - 1))),
                        ),
                    }
                }
            },
            Ok(_) => Err("invalid segment header"@),
        }
    }
}

proof fn lemma_events_error_prefix(recs: Seq<Result<DiskRecord, String>>, m: int, session_id: u128)
    requires
        0 <= m <= recs.len(),
        events_check(recs.subrange(0, m), session_id) is Err,
    ensures
        events_check(recs, session_id) == events_check(recs.subrange(0, m), session_id),
    decreases recs.len(),
{
    if m < recs.len() {
        assert(recs.drop_last().subrange(0, m) =~= recs.subrange(0, m));
        lemma_events_error_prefix(recs.drop_last(), m, session_id);
    } else {
        assert(recs.subrange(0, m) =~= recs);
    }
}

fn invalid(path: &str, detail: String) -> (e: LedgerReadError)
    ensures
        e matches LedgerReadError::InvalidSegment { path: p, detail: d } && p@ == path@ && d@ == detail@,
{
    LedgerReadError::InvalidSegment { path: owned(path), detail }
}

fn take_record(recs: &mut Vec<Result<DiskRecord, String>>, k: usize) -> (r: Result<DiskRecord, String>)
    requires
        k < old(recs)@.len(),
    ensures
        r == old(recs)@[k as int],
        final(recs)@.len() == old(recs)@.len(),
        forall|j: int| 0 <= j < old(recs)@.len() && j != k ==> final(recs)@[j] == old(recs)@[j],
{
    let mut slot: Result<DiskRecord, String> = Err(String::new());
    std::mem::swap(&mut slot, &mut recs[k]);
    slot
}

fn append_bytes(out: &mut Vec<u8>, more: &Vec<u8>)
    ensures
        final(out)@ == old(out)@ + more@,
{
    let mut i: usize = 0;
    let ghost start = out@;
    while i < more.len()
        invariant
            i <= more@.len(),
            out@ == start + more@.subrange(0, i as int),
        decreases more@.len() - i,
    {
        out.push(more[i]);
        i = i + 1;
        proof {
            assert(start + more@.subrange(0, i as int) =~= (start + more@.subrange(0, i - 1)).push(more@[i - 1]));
        }
    }
    proof {
        assert(more@.subrange(0, i as int) =~= more@);
    }
}

fn opt_string_eq(a: &Option<String>, b: &Option<String>) -> (r: bool)
    ensures
        r == (opt_text(*a) == opt_text(*b)),
{
    match (a, b) {
        (Some(x), Some(y)) => str_eq(x.as_str(), y.as_str()),
        (None, None) => true,
        _ => false,
    }
}

fn line_error(prefix: &str, line_no: usize, rest: &str) -> (s: String)
    ensures
        s@ == prefix@ + decimal(line_no as nat) + rest@,
{
    let a = concat_strs(prefix, decimal_string(line_no as u64).as_str());
    concat_strs(a.as_str(), rest)
}

/// Whether the segment's facts are what `v` reports, for the file at `path`
/// with contents `bytes`.
pub open spec fn reports_segment(v: VerifiedSegment, f: SegmentFacts, path: Seq<char>, bytes: Seq<u8>) -> bool {
    &&& v.events@ == f.events
    &&& v.verification.path@ == path
    &&& v.verification.session_id == f.session_id
    &&& v.verification.segment_index == f.segment_index
    &&& v.verification.event_count == f.events.len()
    &&& v.verification.first_seq == first_seq_of(f.events)
    &&& v.verification.last_seq == last_seq_of(f.events)
    &&& v.verification.content_sha256@ == f.content
    &&& v.verification.segment_sha256@ == sha256_hex(bytes)
    &&& opt_text(v.verification.previous_segment_sha256) == f.previous
}

/// Verify a sealed segment read from `path`. `records` holds the parse of
/// each complete line of `bytes` with its line ending removed, in order (the
/// parse error's text where a line is not a record).
#[verifier::rlimit(60)]
pub fn verify_segment(path: &str, bytes: &[u8], records: Vec<Result<DiskRecord, String>>) -> (r: Result<VerifiedSegment, LedgerReadError>)
    requires
        records@.len() == complete_lines_of(bytes@).len(),
    ensures
        match segment_check(bytes@, records@) {
            Err(d) => r matches Err(LedgerReadError::InvalidSegment { path: p, detail }) && p@ == path@
                && detail@ == d,
            Ok(f) => r matches Ok(v) && reports_segment(v, f, path@, bytes@),
        },
{
    if bytes.len() == 0 || bytes[bytes.len() - 1] != 10u8 {
        return Err(invalid(path, owned("segment is empty or has an incomplete final line")));
    }
    let lines = complete_lines(bytes);
    let n = lines.len();
    let ghost ls = complete_lines_of(bytes@);
    assert(lines@.len() == ls.len());
    if n < 2 {
        return Err(invalid(path, owned("missing header or footer")));
    }
    let ghost recs0 = records@;
    let mut recs = records;
    let header = take_record(&mut recs, 0);
    let (session_id, segment_index, previous) = match header {
        Err(e) => {
            return Err(invalid(path, concat_strs("invalid header: ", e.as_str())));
        },
        Ok(DiskRecord::Header { schema, version, session_id, segment_index, created_at, previous_segment_sha256 }) => {
            if !str_eq(schema.as_str(), SEGMENT_SCHEMA) || version != SEGMENT_VERSION {
                return Err(invalid(path, owned("invalid segment header")));
            }
            if !rfc3339_parses(created_at.as_str()) {
                return Err(invalid(path, owned("invalid header timestamp")));
            }
            (session_id, segment_index, previous_segment_sha256)
        },
        Ok(_) => {
            return Err(invalid(path, owned("invalid segment header")));
        },
    };
    let mut content: Vec<u8> = Vec::new();
    append_bytes(&mut content, &lines[0]);
    proof {
        assert(ls[0] == lines@[0]@);
        assert(ls.subrange(0, 1).drop_last() =~= Seq::<Seq<u8>>::empty());
        assert(joined(ls.subrange(0, 1)) =~= joined(Seq::<Seq<u8>>::empty()) + ls[0]);
        assert(recs0.subrange(1, 1) =~= Seq::<Result<DiskRecord, String>>::empty());
    }
    let ghost mids = recs0.subrange(1, n - 1);
    let ghost tail_check = match events_check(mids, session_id) {
        Err(e) => Err(e),
        Ok(evs) => footer_check(
            recs0[n - 1],
            session_id,
            segment_index,
            opt_text(previous),
            evs,
            sha256_hex(joined(ls.subrange(0, n - 1))),
        ),
    };
    assert(segment_check(bytes@, recs0) == tail_check);
    let mut events: Vec<EventEnvelope> = Vec::new();
    let mut k: usize = 1;
    while k < n - 1
        invariant
            1 <= k <= n - 1,
            n == lines@.len(),
            n == ls.len(),
            n >= 2,
            recs0.len() == n,
            recs0 == records@,
            mids == recs0.subrange(1, n - 1),
            segment_check(bytes@, recs0) == tail_check,
            tail_check == match events_check(mids, session_id) {
                Err(e) => Err(e),
                Ok(evs) => footer_check(
                    recs0[n - 1],
                    session_id,
                    segment_index,
                    opt_text(previous),
                    evs,
                    sha256_hex(joined(ls.subrange(0, n - 1))),
                ),
            },
            recs@.len() == n,
            forall|j: int| k <= j < n ==> recs@[j] == recs0[j],
            lines@.map_values(|l: Vec<u8>| l@) == ls,
            content@ == joined(ls.subrange(0, k as int)),
            events_check(recs0.subrange(1, k as int), session_id) == Ok::<Seq<EventEnvelope>, Seq<char>>(events@),
        decreases n - 1 - k,
    {
        proof {
            assert(recs0.subrange(1, k + 1).drop_last() =~= recs0.subrange(1, k as int));
            assert(recs0.subrange(1, k + 1).last() == recs0[k as int]);
            assert(ls.subrange(0, k + 1).drop_last() =~= ls.subrange(0, k as int));
            assert(ls.subrange(0, k + 1).last() == lines@[k as int]@);
            assert(mids.subrange(0, k as int) =~= recs0.subrange(1, k + 1));
        }
        let rec = take_record(&mut recs, k);
        proof {
            if events_check(recs0.subrange(1, k + 1), session_id) is Err {
                lemma_events_error_prefix(mids, k as int, session_id);
            }
        }
        match rec {
            Err(e) => {
                return Err(invalid(path, line_error("invalid event line ", k + 1, concat_strs(": ", e.as_str()).as_str())));
            },
            Ok(DiskRecord::Event { event }) => {
                match event.validate() {
                    Err(se) => {
                        return Err(invalid(path, se.message()));
                    },
                    Ok(()) => {},
                }
                if event.session_id != session_id {
                    return Err(invalid(path, owned("event session id mismatch")));
                }
                if events.len() > 0 && event.seq != events[events.len() - 1].seq.saturating_add(1) {
                    return Err(invalid(path, owned("event sequence is not contiguous within segment")));
                }
                append_bytes(&mut content, &lines[k]);
                events.push(event);
            },
            Ok(_) => {
                return Err(invalid(path, concat_strs("non-event record at line ", decimal_string((k + 1) as u64).as_str())));
            },
        }
        k = k + 1;
    }
    let ghost evs = events@;
    let footer = take_record(&mut recs, n - 1);
    match footer {
        Err(e) => Err(invalid(path, concat_strs("invalid footer: ", e.as_str()))),
        Ok(DiskRecord::Footer {
            schema,
            version,
            session_id: footer_session,
            segment_index: footer_index,
            event_count,
            first_seq,
            last_seq,
            content_sha256,
            previous_segment_sha256,
        }) => {
            if !str_eq(schema.as_str(), SEGMENT_SCHEMA) || version != SEGMENT_VERSION {
                return Err(invalid(path, owned("invalid segment footer")));
            }
            let computed = sha256_text(content.as_slice());
            let actual_first: Option<u64> = if events.len() == 0 { None } else { Some(events[0].seq) };
            let actual_last: Option<u64> = if events.len() == 0 { None } else { Some(events[events.len() - 1].seq) };
            if footer_session != session_id || footer_index != segment_index || event_count != events.len() as u64
                || first_seq != actual_first || last_seq != actual_last || !str_eq(content_sha256.as_str(), computed.as_str())
                || !opt_string_eq(&previous_segment_sha256, &previous) {
                return Err(invalid(path, owned("footer metadata or content hash mismatch")));
            }
            let segment_sha256 = sha256_text(bytes);
            Ok(VerifiedSegment {
                verification: SegmentVerification {
                    path: owned(path),
                    session_id,
                    segment_index,
                    event_count,
                    first_seq,
                    last_seq,
                    content_sha256,
                    segment_sha256,
                    previous_segment_sha256: previous,
                },
                events,
            })
        },
        Ok(_) => Err(invalid(path, owned("invalid segment footer"))),
    }
}

// ---------------------------------------------------------------------------
// Recovery of an unsealed segment
// ---------------------------------------------------------------------------

/// Where a scan of an unsealed segment stands.
pub struct RecoveryScan {
    /// Lines kept: the header and the events accepted after it.
    pub valid: nat,
    pub events: Seq<EventEnvelope>,
    /// Bytes of the lines consumed, the footer's included.
    pub parsed: nat,
    pub saw_footer: bool,
    pub stopped: Option<Seq<char>>,
    /// The scan stopped at this line.
    pub done: bool,
    pub expected_seq: u64,
}

/// `line {n}: ` for the line at index `i`.
pub open spec fn line_tag(i: nat) -> Seq<char> {
    "line "@ + decimal(i + 1) + ": "@
}

/// One line of the scan: line `i`, of `len` bytes, parsed to `r`.
pub open spec fn recovery_step(
    st: RecoveryScan,
    i: nat,
    r: Result<DiskRecord, String>,
    len: nat,
    session_id: u128,
    segment_index: u64,
    expected_previous: Option<Seq<char>>,
) -> RecoveryScan {
    match r {
        Err(e) => RecoveryScan { stopped: Some(line_tag(i) + e@), done: true, ..st },
        Ok(DiskRecord::Header { schema, version, session_id: s, segment_index: x, previous_segment_sha256, .. }) if i == 0 => {
            if schema@ != SEGMENT_SCHEMA@ || version != SEGMENT_VERSION || s != session_id || x != segment_index
                || opt_text(previous_segment_sha256) != expected_previous {
                RecoveryScan { stopped: Some("header does not match session/chain"@), done: true, ..st }
            } else {
                RecoveryScan { valid: st.valid + 1, parsed: st.parsed + len, ..st }
            }
        },
        Ok(DiskRecord::Event { event }) if st.valid > 0 && !st.saw_footer => {
            match envelope_error_text(event) {
                Some(t) => RecoveryScan { stopped: Some(line_tag(i) + t), done: true, ..st },
                None => if event.session_id != session_id || event.seq != st.expected_seq {
                    RecoveryScan {
                        stopped: Some(
                            line_tag(i) + "expected seq "@ + decimal(st.expected_seq as nat) + ", got session "@
                                + uuid_hyphenated(event.session_id) + " seq "@ + decimal(event.seq as nat),
                        ),
                        done: true,
                        ..st
                    }
                } else {
                    RecoveryScan {
                        valid: st.valid + 1,
                        events: st.events.push(event),
                        parsed: st.parsed + len,
                        expected_seq: succ(st.expected_seq),
                        ..st
                    }
                },
            }
        },
        Ok(DiskRecord::Footer { .. }) if st.valid > 0 && !st.saw_footer => RecoveryScan {
            saw_footer: true,
            parsed: st.parsed + len,
            done: true,
            ..st
        },
        Ok(_) => RecoveryScan { stopped: Some(line_tag(i) + "unexpected record order"@), done: true, ..st },
    }
}

/// The scan over the first `recs.len()` lines; it stops at the first line
/// it cannot keep, or after a footer.
pub open spec fn recovery_scan(
    recs: Seq<Result<DiskRecord, String>>,
    lines: Seq<Seq<u8>>,
    session_id: u128,
    segment_index: u64,
    expected_previous: Option<Seq<char>>,
    expected_seq: u64,
) -> RecoveryScan
    decreases recs.len(),
{
    if recs.len() == 0 {
        RecoveryScan {
            valid: 0,
            events: Seq::empty(),
            parsed: 0,
            saw_footer: false,
            stopped: None,
            done: false,
            expected_seq,
        }
    } else {
        let st = recovery_scan(recs.drop_last(), lines, session_id, segment_index, expected_previous, expected_seq);
        if st.done {
            st
        } else {
            recovery_step(
                st,
                (recs.len() - 1) as nat,
                recs.last(),
                lines[recs.len() - 1].len(),
                session_id,
                segment_index,
                expected_previous,
            )
        }
    }
}

/// What recovering an unsealed segment keeps and reports.
#[derive(Debug)]
pub struct RecoveryPlan {
    /// The first `valid_lines` complete lines are kept: the header and the events.
    pub valid_lines: usize,
    pub events: Vec<EventEnvelope>,
    /// Bytes after the kept lines (and a footer line, when one was read).
    pub discarded_tail_bytes: u64,
    pub stopped_at_error: Option<String>,
    /// The footer that seals the kept lines, when there are any.
    pub footer: Option<DiskRecord>,
}

/// A recovered segment that the host has written and renamed.
#[derive(Clone, Debug, PartialEq, Eq)]
pub struct RecoveryReport {
    pub source: String,
    pub preserved_source: String,
    pub recovered_segment: Option<String>,
    pub recovered_events: u64,
    pub discarded_tail_bytes: u64,
    pub stopped_at_error: Option<String>,
}

/// The footer a recovered segment is sealed with: the kept events' count and
/// range, the SHA-256 of the kept lines and the expected chain link.
pub open spec fn recovered_footer_ok(f: DiskRecord, session_id: u128, segment_index: u64, evs: Seq<EventEnvelope>, kept: Seq<u8>, expected_previous: Option<Seq<char>>) -> bool {
    f matches DiskRecord::Footer {
        schema,
        version,
        session_id: fs,
        segment_index: fi,
        event_count,
        first_seq,
        last_seq,
        content_sha256,
        previous_segment_sha256,
    } && schema@ == SEGMENT_SCHEMA@ && version == SEGMENT_VERSION && fs == session_id && fi == segment_index
        && event_count == evs.len() && first_seq == first_seq_of(evs) && last_seq == last_seq_of(evs)
        && content_sha256@ == sha256_hex(kept) && opt_text(previous_segment_sha256) == expected_previous
}

fn opt_owned(s: Option<&str>) -> (r: Option<String>)
    ensures
        opt_text(r) == match s {
            Some(v) => Some(v@),
            None => None,
        },
{
    match s {
        Some(v) => Some(owned(v)),
        None => None,
    }
}

fn recovery_line_tag(i: usize) -> (s: String)
    requires
        i < usize::MAX,
    ensures
        s@ == line_tag(i as nat),
{
    let a = concat_strs("line ", decimal_string((i + 1) as u64).as_str());
    concat_strs(a.as_str(), ": ")
}

/// Plan the recovery of an unsealed segment of `session_id`, number
/// `segment_index`, whose header must link to `expected_previous` and whose
/// first event must be `expected_seq`. `records` holds the parse of each
/// complete line of `bytes`, line ending removed, in order. The kept prefix
/// ends at the first line that cannot be kept or at a footer; an unsealed
/// footer ends the scan without an error.
#[verifier::rlimit(80)]
pub fn plan_recovery(
    bytes: &[u8],
    records: Vec<Result<DiskRecord, String>>,
    session_id: u128,
    segment_index: u64,
    expected_previous: Option<&str>,
    expected_seq: u64,
) -> (plan: RecoveryPlan)
    requires
        records@.len() == complete_lines_of(bytes@).len(),
    ensures
        ({
            let prev = match expected_previous {
                Some(v) => Some(v@),
                None => None,
            };
            let lines = complete_lines_of(bytes@);
            let st = recovery_scan(records@, lines, session_id, segment_index, prev, expected_seq);
            &&& plan.valid_lines == st.valid
            &&& plan.events@ == st.events
            &&& plan.discarded_tail_bytes == bytes@.len() - st.parsed
            &&& opt_text(plan.stopped_at_error) == if st.saw_footer {
                None
            } else if st.valid == 0 && st.stopped is None {
                Some("missing complete valid header line"@)
            } else {
                st.stopped
            }
            &&& (st.valid == 0) == (plan.footer is None)
            &&& plan.footer matches Some(f) ==> recovered_footer_ok(
                f,
                session_id,
                segment_index,
                st.events,
                joined(lines.subrange(0, st.valid as int)),
                prev,
            )
        }),
{
    let ghost prev = match expected_previous {
        Some(v) => Some(v@),
        None => None,
    };
    let lines = complete_lines(bytes);
    let ghost ls = complete_lines_of(bytes@);
    let n = lines.len();
    let ghost recs0 = records@;
    let mut recs = records;
    let mut valid: usize = 0;
    let mut events: Vec<EventEnvelope> = Vec::new();
    let mut parsed: usize = 0;
    let mut saw_footer = false;
    let mut stopped: Option<String> = None;
    let mut expected = expected_seq;
    let mut kept: Vec<u8> = Vec::new();
    let mut done = false;
    let total = bytes.len();
    let mut i: usize = 0;
    proof {
        assert(recs0.subrange(0, 0) =~= Seq::<Result<DiskRecord, String>>::empty());
        assert(ls.subrange(0, 0) =~= Seq::<Seq<u8>>::empty());
    }
    while i < n && !done
        invariant
            i <= n,
            n == ls.len(),
            ls == complete_lines_of(bytes@),
            total == bytes@.len(),
            n == recs0.len(),
            recs@.len() == n,
            recs0 == records@,
            lines@.map_values(|l: Vec<u8>| l@) == ls,
            forall|j: int| i <= j < n ==> recs@[j] == recs0[j],
            parsed <= joined(ls.subrange(0, i as int)).len(),
            joined(ls.subrange(0, i as int)).len() <= bytes@.len(),
            valid <= i,
            ({
                let st = recovery_scan(recs0.subrange(0, i as int), ls, session_id, segment_index, prev, expected_seq);
                &&& st.valid == valid
                &&& st.events == events@
                &&& st.parsed == parsed
                &&& st.saw_footer == saw_footer
                &&& st.stopped == opt_text(stopped)
                &&& st.done == done
                &&& st.expected_seq == expected
            }),
            kept@ == joined(ls.subrange(0, valid as int)),
            prev == match expected_previous {
                Some(v) => Some(v@),
                None => None,
            },
        decreases n - i,
    {
        proof {
            assert(recs0.subrange(0, i + 1).drop_last() =~= recs0.subrange(0, i as int));
            assert(recs0.subrange(0, i + 1).last() == recs0[i as int]);
            assert(ls[i as int] == lines@[i as int]@);
            assert(ls.subrange(0, i + 1).drop_last() =~= ls.subrange(0, i as int));
            crate::store::lemma_joined_prefix_len(ls, i + 1, bytes@);
            assert(joined(ls.subrange(0, i + 1)).len() == joined(ls.subrange(0, i as int)).len() + ls[i as int].len());
        }
        let len = lines[i].len();
        let rec = take_record(&mut recs, i);
        match rec {
            Err(e) => {
                stopped = Some(concat_strs(recovery_line_tag(i).as_str(), e.as_str()));
                done = true;
            },
            Ok(DiskRecord::Header { schema, version, session_id: s, segment_index: x, previous_segment_sha256, .. }) if i == 0 => {
                if !str_eq(schema.as_str(), SEGMENT_SCHEMA) || version != SEGMENT_VERSION || s != session_id
                    || x != segment_index || !opt_string_eq(&previous_segment_sha256, &opt_owned(expected_previous)) {
                    stopped = Some(owned("header does not match session/chain"));
                    done = true;
                } else {
                    append_bytes(&mut kept, &lines[i]);
                    proof {
                        assert(ls.subrange(0, 1).drop_last() =~= ls.subrange(0, 0));
                    }
                    valid = valid + 1;
                    parsed = parsed + len;
                }
            },
            Ok(DiskRecord::Event { event }) if valid > 0 && !saw_footer => {
                match event.validate() {
                    Err(se) => {
                        stopped = Some(concat_strs(recovery_line_tag(i).as_str(), se.message().as_str()));
                        done = true;
                    },
                    Ok(()) => {
                        if event.session_id != session_id || event.seq != expected {
                            let a = concat_strs(recovery_line_tag(i).as_str(), "expected seq ");
                            let b = concat_strs(a.as_str(), decimal_string(expected).as_str());
                            let c = concat_strs(b.as_str(), ", got session ");
                            let d = concat_strs(c.as_str(), uuid_text(event.session_id).as_str());
                            let e = concat_strs(d.as_str(), " seq ");
                            stopped = Some(concat_strs(e.as_str(), decimal_string(event.seq).as_str()));
                            done = true;
                        } else {
                            proof {
                                assert(valid == i) by {
                                    crate::store::lemma_scan_keeps_prefix(recs0.subrange(0, i as int), ls, session_id, segment_index, prev, expected_seq);
                                }
                                assert(ls.subrange(0, valid + 1).drop_last() =~= ls.subrange(0, valid as int));
                            }
                            append_bytes(&mut kept, &lines[i]);
                            expected = expected.saturating_add(1);
                            events.push(event);
                            valid = valid + 1;
                            parsed = parsed + len;
                        }
                    },
                }
            },
            Ok(DiskRecord::Footer { .. }) if valid > 0 && !saw_footer => {
                saw_footer = true;
                parsed = parsed + len;
                done = true;
            },
            Ok(_) => {
                stopped = Some(concat_strs(recovery_line_tag(i).as_str(), "unexpected record order"));
                done = true;
            },
        }
        i = i + 1;
    }
    proof {
        if i < n {
            crate::store::lemma_scan_stays_done(recs0, ls, i as int, session_id, segment_index, prev, expected_seq);
        } else {
            assert(recs0.subrange(0, i as int) =~= recs0);
        }
        crate::store::lemma_joined_prefix_len(ls, i as int, bytes@);
    }
    let stopped_at_error = if saw_footer {
        None
    } else if valid == 0 && stopped.is_none() {
        Some(owned("missing complete valid header line"))
    } else {
        stopped
    };
    let footer = if valid == 0 {
        None
    } else {
        let first: Option<u64> = if events.len() == 0 { None } else { Some(events[0].seq) };
        let last: Option<u64> = if events.len() == 0 { None } else { Some(events[events.len() - 1].seq) };
        Some(DiskRecord::Footer {
            schema: owned(SEGMENT_SCHEMA),
            version: SEGMENT_VERSION,
            session_id,
            segment_index,
            event_count: events.len() as u64,
            first_seq: first,
            last_seq: last,
            content_sha256: sha256_text(kept.as_slice()),
            previous_segment_sha256: opt_owned(expected_previous),
        })
    };
    RecoveryPlan {
        valid_lines: valid,
        events,
        discarded_tail_bytes: (bytes.len() - parsed) as u64,
        stopped_at_error,
        footer,
    }
}

/// The report of a recovery the host carried out as planned.
pub fn recovery_report(source: &str, preserved_source: &str, recovered_segment: Option<String>, plan: &RecoveryPlan) -> (r: RecoveryReport)
    ensures
        r.source@ == source@,
        r.preserved_source@ == preserved_source@,
        r.recovered_segment == recovered_segment,
        r.recovered_events == plan.events@.len(),
        r.discarded_tail_bytes == plan.discarded_tail_bytes,
        opt_text(r.stopped_at_error) == opt_text(plan.stopped_at_error),
{
    RecoveryReport {
        source: owned(source),
        preserved_source: owned(preserved_source),
        recovered_segment,
        recovered_events: plan.events.len() as u64,
        discarded_tail_bytes: plan.discarded_tail_bytes,
        stopped_at_error: match &plan.stopped_at_error {
            Some(e) => Some(owned(e.as_str())),
            None => None,
        },
    }
}

/// Once the scan has stopped it stays where it stopped.
proof fn lemma_scan_stays_done(
    recs: Seq<Result<DiskRecord, String>>,
    lines: Seq<Seq<u8>>,
    m: int,
    session_id: u128,
    segment_index: u64,
    prev: Option<Seq<char>>,
    expected_seq: u64,
)
    requires
        0 <= m <= recs.len(),
        recovery_scan(recs.subrange(0, m), lines, session_id, segment_index, prev, expected_seq).done,
    ensures
        recovery_scan(recs, lines, session_id, segment_index, prev, expected_seq)
            == recovery_scan(recs.subrange(0, m), lines, session_id, segment_index, prev, expected_seq),
    decreases recs.len(),
{
    if m < recs.len() {
        assert(recs.drop_last().subrange(0, m) =~= recs.subrange(0, m));
        lemma_scan_stays_done(recs.drop_last(), lines, m, session_id, segment_index, prev, expected_seq);
    } else {
        assert(recs.subrange(0, m) =~= recs);
    }
}

/// While the scan runs, every line it has seen is kept.
proof fn lemma_scan_keeps_prefix(
    recs: Seq<Result<DiskRecord, String>>,
    lines: Seq<Seq<u8>>,
    session_id: u128,
    segment_index: u64,
    prev: Option<Seq<char>>,
    expected_seq: u64,
)
    ensures
        ({
            let st = recovery_scan(recs, lines, session_id, segment_index, prev, expected_seq);
            !st.done ==> st.valid == recs.len() && !st.saw_footer
        }),
    decreases recs.len(),
{
    if recs.len() > 0 {
        lemma_scan_keeps_prefix(recs.drop_last(), lines, session_id, segment_index, prev, expected_seq);
    }
}

/// The lines of a prefix are no longer than the bytes they came from.
proof fn lemma_joined_prefix_len(lines: Seq<Seq<u8>>, m: int, b: Seq<u8>)
    requires
        lines == complete_lines_of(b),
        0 <= m <= lines.len(),
    ensures
        joined(lines.subrange(0, m)).len() <= joined(lines).len() <= b.len(),
{
    law_framing_is_lossless(b);
    lemma_joined_len_prefix(lines, m);
}

proof fn lemma_joined_len_prefix(lines: Seq<Seq<u8>>, m: int)
    requires
        0 <= m <= lines.len(),
    ensures
        joined(lines.subrange(0, m)).len() <= joined(lines).len(),
    decreases lines.len(),
{
    if m < lines.len() {
        assert(lines.drop_last().subrange(0, m) =~= lines.subrange(0, m));
        lemma_joined_len_prefix(lines.drop_last(), m);
    } else {
        assert(lines.subrange(0, m) =~= lines);
    }
}

// ---------------------------------------------------------------------------
// Reading a session back
// ---------------------------------------------------------------------------

/// A sealed session read back and verified.
#[derive(Debug)]
pub struct SessionRead {
    pub session_id: u128,
    pub events: Vec<EventEnvelope>,
    pub segments: Vec<SegmentVerification>,
}

/// A session's sealed segments, accepted in index order.
#[derive(Debug)]
pub struct SessionChain {
    pub session_id: u128,
    pub expected_index: u64,
    pub expected_seq: u64,
    pub previous_hash: Option<String>,
    pub events: Vec<EventEnvelope>,
    pub segments: Vec<SegmentVerification>,
}

/// The canonical sequence number of the event at position `i` of a session.
pub open spec fn canonical_seq(i: int) -> u64 {
    if i + 1 > u64::MAX {
        u64::MAX
    } else {
        (i + 1) as u64
    }
}

/// The segment index at position `k` of a session.
pub open spec fn canonical_index(k: int) -> u64 {
    if k > u64::MAX {
        u64::MAX
    } else {
        k as u64
    }
}

/// A session read so far is consistent: every segment belongs to the
/// session and sits at its index; each links to the hash of the one before
/// (the first to none); the events are numbered 1, 2, 3, ... without a gap.
pub open spec fn chain_ok(session_id: u128, segs: Seq<SegmentVerification>, evs: Seq<EventEnvelope>) -> bool {
    &&& forall|k: int| 0 <= k < segs.len() ==> (#[trigger] segs[k]).session_id == session_id
    &&& forall|k: int| 0 <= k < segs.len() ==> (#[trigger] segs[k]).segment_index == canonical_index(k)
    &&& segs.len() > 0 ==> segs[0].previous_segment_sha256 is None
    &&& forall|k: int| 0 < k < segs.len() ==> opt_text((#[trigger] segs[k]).previous_segment_sha256) == Some(
        segs[k - 1].segment_sha256@,
    )
    &&& forall|i: int| 0 <= i < evs.len() ==> (#[trigger] evs[i]).seq == canonical_seq(i)
}

proof fn lemma_first_bad_seq(evs: Seq<EventEnvelope>, base: int, i: int)
    requires
        0 <= i < evs.len(),
        evs[i].seq != canonical_seq(base + i),
        forall|j: int| 0 <= j < i ==> #[trigger] evs[j].seq == canonical_seq(base + j),
    ensures
        exists|c: int| 0 <= c < evs.len() && #[trigger] evs[c].seq != canonical_seq(base + c),
        (choose|c: int| 0 <= c < evs.len() && #[trigger] evs[c].seq != canonical_seq(base + c)
            && forall|j: int| 0 <= j < c ==> #[trigger] evs[j].seq == canonical_seq(base + j)) == i,
{
    let c = choose|c: int| 0 <= c < evs.len() && #[trigger] evs[c].seq != canonical_seq(base + c)
        && forall|j: int| 0 <= j < c ==> #[trigger] evs[j].seq == canonical_seq(base + j);
    assert(c == i) by {
        if c < i {
            assert(evs[c].seq == canonical_seq(base + c));
        } else if c > i {
            assert(evs[i].seq == canonical_seq(base + i));
        }
    }
}

impl SessionChain {
    /// The chain's bookkeeping agrees with what it has accepted.
    pub open spec fn wf(&self) -> bool {
        &&& chain_ok(self.session_id, self.segments@, self.events@)
        &&& self.expected_index == canonical_index(self.segments@.len() as int)
        &&& self.expected_seq == canonical_seq(self.events@.len() as int)
        &&& opt_text(self.previous_hash) == if self.segments@.len() == 0 {
            None
        } else {
            Some(self.segments@.last().segment_sha256@)
        }
    }

    /// An empty chain for `session_id`.
    pub fn new(session_id: u128) -> (c: SessionChain)
        ensures
            c.wf(),
            c.session_id == session_id,
            c.segments@.len() == 0,
            c.events@.len() == 0,
    {
        SessionChain {
            session_id,
            expected_index: 0,
            expected_seq: 1,
            previous_hash: None,
            events: Vec::new(),
            segments: Vec::new(),
        }
    }

    /// Segment files must be numbered 0, 1, 2, ... without a gap.
    pub fn check_index(&self, path: &str, index: u64) -> (r: Result<(), LedgerReadError>)
        ensures
            index == self.expected_index ==> r is Ok,
            index != self.expected_index ==> (r matches Err(LedgerReadError::InvalidSegment { path: p, detail })
                && p@ == path@ && detail@ == "expected segment index "@ + decimal(self.expected_index as nat)
                + ", got "@ + decimal(index as nat)),
    {
        if index != self.expected_index {
            let a = concat_strs("expected segment index ", decimal_string(self.expected_index).as_str());
            let b = concat_strs(a.as_str(), ", got ");
            return Err(invalid(path, concat_strs(b.as_str(), decimal_string(index).as_str())));
        }
        Ok(())
    }

    /// Accept the verified segment read from the file numbered `index`: it
    /// must belong to the session, carry that index, link to the previous
    /// segment's hash and continue the canonical numbering. A refused segment
    /// leaves the chain as it was.
    #[verifier::rlimit(40)]
    pub fn accept(&mut self, path: &str, index: u64, verified: VerifiedSegment) -> (r: Result<(), LedgerReadError>)
        requires
            old(self).wf(),
            old(self).expected_index == index,
        ensures
            final(self).wf(),
            final(self).session_id == old(self).session_id,
            ({
                let v = verified.verification;
                let evs = verified.events@;
                let base = old(self).events@.len() as int;
                if v.session_id != old(self).session_id {
                    r matches Err(LedgerReadError::InvalidSegment { path: p, detail }) && p@ == path@
                        && detail@ == "session id mismatch"@
                } else if v.segment_index != index {
                    r matches Err(LedgerReadError::InvalidSegment { path: p, detail }) && p@ == path@
                        && detail@ == "filename/header index mismatch"@
                } else if opt_text(v.previous_segment_sha256) != opt_text(old(self).previous_hash) {
                    r matches Err(LedgerReadError::InvalidSegment { path: p, detail }) && p@ == path@
                        && detail@ == "previous segment hash does not match chain"@
                } else if exists|i: int| 0 <= i < evs.len() && #[trigger] evs[i].seq != canonical_seq(base + i) {
                    let i = choose|i: int| 0 <= i < evs.len() && #[trigger] evs[i].seq != canonical_seq(base + i)
                        && forall|j: int| 0 <= j < i ==> #[trigger] evs[j].seq == canonical_seq(base + j);
                    r matches Err(LedgerReadError::InvalidSegment { path: p, detail }) && p@ == path@
                        && detail@ == "expected canonical seq "@ + decimal(canonical_seq(base + i) as nat)
                        + ", got "@ + decimal(evs[i].seq as nat)
                } else {
                    &&& r is Ok
                    &&& final(self).events@ == old(self).events@ + evs
                    &&& final(self).segments@ == old(self).segments@.push(v)
                }
            }),
            r is Err ==> final(self).events@ == old(self).events@ && final(self).segments@ == old(self).segments@,
    {
        let v = &verified.verification;
        if v.session_id != self.session_id {
            return Err(invalid(path, owned("session id mismatch")));
        }
        if v.segment_index != index {
            return Err(invalid(path, owned("filename/header index mismatch")));
        }
        if !opt_string_eq(&v.previous_segment_sha256, &self.previous_hash) {
            return Err(invalid(path, owned("previous segment hash does not match chain")));
        }
        let ghost base = self.events@.len() as int;
        let mut expected = self.expected_seq;
        let mut i: usize = 0;
        while i < verified.events.len()
            invariant
                i <= verified.events@.len(),
                self.wf(),
                self.session_id == old(self).session_id,
                self.events@ == old(self).events@,
                self.segments@ == old(self).segments@,
                base == self.events@.len(),
                verified.verification.session_id == old(self).session_id,
                verified.verification.segment_index == index,
                opt_text(verified.verification.previous_segment_sha256) == opt_text(old(self).previous_hash),
                expected == canonical_seq(base + i),
                forall|j: int| 0 <= j < i ==> #[trigger] verified.events@[j].seq == canonical_seq(base + j),
            decreases verified.events@.len() - i,
        {
            let seq = verified.events[i].seq;
            if seq != expected {
                proof {
                    lemma_first_bad_seq(verified.events@, base, i as int);
                }
                let a = concat_strs("expected canonical seq ", decimal_string(expected).as_str());
                let b = concat_strs(a.as_str(), ", got ");
                return Err(invalid(path, concat_strs(b.as_str(), decimal_string(seq).as_str())));
            }
            expected = expected.saturating_add(1);
            i = i + 1;
        }
        let VerifiedSegment { verification, events } = verified;
        let mut more = events;
        self.previous_hash = Some(owned(verification.segment_sha256.as_str()));
        self.expected_index = self.expected_index.saturating_add(1);
        self.segments.push(verification);
        self.events.append(&mut more);
        self.expected_seq = expected;
        Ok(())
    }

    /// The session read so far.
    pub fn finish(self) -> (read: SessionRead)
        ensures
            read.session_id == self.session_id,
            read.events@ == self.events@,
            read.segments@ == self.segments@,
    {
        SessionRead { session_id: self.session_id, events: self.events, segments: self.segments }
    }
}

/// The summary `verify_session` reports of a session read back.
#[derive(Debug)]
pub struct VerificationReport {
    pub session_id: u128,
    pub segment_count: u64,
    pub event_count: u64,
    pub first_seq: Option<u64>,
    pub last_seq: Option<u64>,
    pub chain_head_sha256: Option<String>,
    pub segments: Vec<SegmentVerification>,
}

/// Summarize a verified session: counts, sequence range and the hash of the
/// last segment (the chain head).
pub fn verification_report(read: SessionRead) -> (r: VerificationReport)
    ensures
        r.session_id == read.session_id,
        r.segment_count == read.segments@.len(),
        r.event_count == read.events@.len(),
        r.first_seq == first_seq_of(read.events@),
        r.last_seq == last_seq_of(read.events@),
        opt_text(r.chain_head_sha256) == if read.segments@.len() == 0 {
            None
        } else {
            Some(read.segments@.last().segment_sha256@)
        },
        r.segments@ == read.segments@,
{
    let first: Option<u64> = if read.events.len() == 0 { None } else { Some(read.events[0].seq) };
    let last: Option<u64> = if read.events.len() == 0 { None } else { Some(read.events[read.events.len() - 1].seq) };
    let head = if read.segments.len() == 0 {
        None
    } else {
        Some(owned(read.segments[read.segments.len() - 1].segment_sha256.as_str()))
    };
    VerificationReport {
        session_id: read.session_id,
        segment_count: read.segments.len() as u64,
        event_count: read.events.len() as u64,
        first_seq: first,
        last_seq: last,
        chain_head_sha256: head,
        segments: read.segments,
    }
}

/// The one session a directory holds, given the session of each sealed
/// segment found there.
pub fn single_session(path: &str, found: &Vec<u128>) -> (r: Result<u128, LedgerReadError>)
    ensures
        found@.len() == 0 ==> (r matches Err(LedgerReadError::NoSegments(p)) && p@ == path@),
        found@.len() > 0 && (exists|i: int| 0 <= i < found@.len() && #[trigger] found@[i] != found@[0]) ==> r matches Err(
            LedgerReadError::MultipleSessions,
        ),
        found@.len() > 0 && (forall|i: int| 0 <= i < found@.len() ==> #[trigger] found@[i] == found@[0]) ==> r == Ok::<
            u128,
            LedgerReadError,
        >(found@[0]),
{
    if found.len() == 0 {
        return Err(LedgerReadError::NoSegments(owned(path)));
    }
    let first = found[0];
    let mut i: usize = 1;
    while i < found.len()
        invariant
            1 <= i <= found@.len(),
            first == found@[0],
            forall|j: int| 0 <= j < i ==> found@[j] == first,
        decreases found@.len() - i,
    {
        if found[i] != first {
            return Err(LedgerReadError::MultipleSessions);
        }
        i = i + 1;
    }
    Ok(first)
}

/// Where a store resumes after its sealed segments: the next segment index,
/// the next event sequence and the hash the next segment links to.
pub open spec fn resume_point(read: SessionRead) -> (u64, u64, Option<Seq<char>>) {
    let segs = read.segments@;
    let evs = read.events@;
    (
        if segs.len() == 0 { 0 } else { succ(segs.last().segment_index) },
        if evs.len() == 0 { 1 } else { succ(evs.last().seq) },
        if segs.len() == 0 { None } else { Some(segs.last().segment_sha256@) },
    )
}

/// The next segment index, next event sequence and chain link after the
/// sealed segments of `read`.
pub fn resume_after(read: &SessionRead) -> (r: (u64, u64, Option<String>))
    ensures
        r.0 == resume_point(*read).0,
        r.1 == resume_point(*read).1,
        opt_text(r.2) == resume_point(*read).2,
{
    let next_index = if read.segments.len() == 0 {
        0
    } else {
        read.segments[read.segments.len() - 1].segment_index.saturating_add(1)
    };
    let next_seq = if read.events.len() == 0 {
        1
    } else {
        read.events[read.events.len() - 1].seq.saturating_add(1)
    };
    let previous = if read.segments.len() == 0 {
        None
    } else {
        Some(owned(read.segments[read.segments.len() - 1].segment_sha256.as_str()))
    };
    (next_index, next_seq, previous)
}

/// What to recover when a store opens: nothing, or the single unsealed
/// segment, which must be the one after the sealed ones. The result gives
/// its index, the hash it must link to and its first expected sequence.
pub fn stale_recovery_target(session_id: u128, before: &SessionRead, stale: &Vec<u64>) -> (r: Result<Option<(u64, Option<String>, u64)>, StoreError>)
    ensures
        ({
            let (next_index, next_seq, previous) = resume_point(*before);
            if stale@.len() > 1 {
                r matches Err(StoreError::Recovery(m)) && m@ == "found "@ + decimal(stale@.len()) + " .open segments for session "@
                    + uuid_hyphenated(session_id) + "; refusing ambiguous recovery"@
            } else if stale@.len() == 1 && stale@[0] != next_index {
                r matches Err(StoreError::Recovery(m)) && m@ == "stale segment index "@ + decimal(stale@[0] as nat)
                    + " does not follow sealed index "@ + decimal((if next_index == 0 { 0 } else { next_index - 1 }) as nat)
            } else if stale@.len() == 1 {
                r matches Ok(Some((i, p, q))) && i == next_index && opt_text(p) == previous && q == next_seq
            } else {
                r matches Ok(None)
            }
        }),
{
    let (next_index, next_seq, previous) = resume_after(before);
    if stale.len() > 1 {
        let a = concat_strs("found ", decimal_string(stale.len() as u64).as_str());
        let b = concat_strs(a.as_str(), " .open segments for session ");
        let c = concat_strs(b.as_str(), uuid_text(session_id).as_str());
        return Err(StoreError::Recovery(concat_strs(c.as_str(), "; refusing ambiguous recovery")));
    }
    if stale.len() == 1 {
        let index = stale[0];
        if index != next_index {
            let a = concat_strs("stale segment index ", decimal_string(index).as_str());
            let b = concat_strs(a.as_str(), " does not follow sealed index ");
            let sealed = if next_index == 0 { 0 } else { next_index - 1 };
            return Err(StoreError::Recovery(concat_strs(b.as_str(), decimal_string(sealed).as_str())));
        }
        return Ok(Some((index, previous, next_seq)));
    }
    Ok(None)
}

// ---------------------------------------------------------------------------
// The writer's state
// ---------------------------------------------------------------------------

/// Counters of the segment being written.
#[derive(Clone, Copy, Debug, PartialEq, Eq)]
pub struct OpenSegmentState {
    pub segment_index: u64,
    pub bytes_written: u64,
    pub event_count: u64,
    pub first_seq: Option<u64>,
    pub last_seq: Option<u64>,
    pub events_since_flush: u64,
}

/// What the segment writer decides with: where the chain stands, whether
/// the store is degraded or sealed, and the open segment's counters. Files,
/// the writer and the running hash are the host's.
#[derive(Debug)]
pub struct StoreState {
    pub session_id: u128,
    pub options: StoreOptions,
    pub next_segment_index: u64,
    pub expected_next_seq: u64,
    pub previous_segment_sha256: Option<String>,
    pub degraded: bool,
    pub sealed: bool,
    pub current: Option<OpenSegmentState>,
}

/// `a + b`, held at `u64::MAX`.
pub open spec fn sat_add(a: u64, b: u64) -> u64 {
    if a + b > u64::MAX {
        u64::MAX
    } else {
        (a + b) as u64
    }
}

/// The message of an out-of-order append.
pub open spec fn sequence_message(expected_session: u128, expected_seq: u64, session_id: u128, seq: u64) -> Seq<char> {
    "expected session "@ + uuid_hyphenated(expected_session) + " seq "@ + decimal(expected_seq as nat)
        + ", got session "@ + uuid_hyphenated(session_id) + " seq "@ + decimal(seq as nat)
}

/// The footer that seals the open segment of `st` after `written` bytes: the
/// segment's schema and version, session, index, event count and sequence
/// range, the SHA-256 of `written`, and the link to the previous segment.
pub open spec fn sealing_footer(st: StoreState, written: Seq<u8>, f: DiskRecord) -> bool {
    let c = st.current.unwrap();
    f matches DiskRecord::Footer {
        schema,
        version,
        session_id,
        segment_index,
        event_count,
        first_seq,
        last_seq,
        content_sha256: h,
        previous_segment_sha256,
    } && schema@ == SEGMENT_SCHEMA@ && version == SEGMENT_VERSION && session_id == st.session_id
        && segment_index == c.segment_index && event_count == c.event_count && first_seq == c.first_seq
        && last_seq == c.last_seq && h@ == sha256_hex(written) && opt_text(previous_segment_sha256) == opt_text(
        st.previous_segment_sha256,
    )
}

/// The footer the writer seals a segment with is the one the verifier
/// expects: for the events the segment holds (as many as the writer
/// counted, from the first to the last sequence number it wrote), the
/// verifier's footer check accepts it, taking the SHA-256 of the bytes
/// written before the footer as the content hash and the writer's link to
/// the previous segment as the chain link.
pub proof fn law_sealing_footer_passes_the_check(st: StoreState, written: Seq<u8>, f: DiskRecord, evs: Seq<EventEnvelope>)
    requires
        st.current is Some,
        sealing_footer(st, written, f),
        st.current.unwrap().event_count == evs.len(),
        st.current.unwrap().first_seq == first_seq_of(evs),
        st.current.unwrap().last_seq == last_seq_of(evs),
    ensures
        footer_check(
            Ok(f),
            st.session_id,
            st.current.unwrap().segment_index,
            opt_text(st.previous_segment_sha256),
            evs,
            sha256_hex(written),
        ) == Ok::<SegmentFacts, Seq<char>>(
            SegmentFacts {
                session_id: st.session_id,
                segment_index: st.current.unwrap().segment_index,
                previous: opt_text(st.previous_segment_sha256),
                events: evs,
                content: sha256_hex(written),
            },
        ),
{
}

impl StoreState {
    /// An open segment never holds more events than the limit.
    pub open spec fn wf(&self) -> bool {
        &&& self.options.segment_max_events > 0
        &&& self.options.segment_max_bytes > 0
        &&& self.options.flush_every_events > 0
        &&& self.current matches Some(c) ==> c.event_count <= self.options.segment_max_events
    }

    /// A writer that resumes at `next_segment_index` and `expected_next_seq`,
    /// linking its first segment to `previous_segment_sha256`.
    pub fn new(
        session_id: u128,
        options: StoreOptions,
        next_segment_index: u64,
        expected_next_seq: u64,
        previous_segment_sha256: Option<String>,
    ) -> (r: Result<StoreState, StoreError>)
        ensures
            match r {
                Ok(st) => {
                    &&& st.wf()
                    &&& st.session_id == session_id
                    &&& st.options == options
                    &&& st.next_segment_index == next_segment_index
                    &&& st.expected_next_seq == expected_next_seq
                    &&& st.previous_segment_sha256 == previous_segment_sha256
                    &&& !st.degraded && !st.sealed && st.current is None
                },
                Err(e) => e is InvalidOptions,
            },
            r is Ok <==> (options.segment_max_bytes > 0 && options.segment_max_events > 0
                && options.flush_every_events > 0),
    {
        match options.validate() {
            Err(e) => Err(e),
            Ok(()) => Ok(StoreState {
                session_id,
                options,
                next_segment_index,
                expected_next_seq,
                previous_segment_sha256,
                degraded: false,
                sealed: false,
                current: None,
            }),
        }
    }

    /// Whether an event may be appended: the store is neither degraded nor
    /// sealed, and the event is the next one of this session.
    pub fn accepts_append(&self, session_id: u128, seq: u64) -> (r: Result<(), StoreError>)
        ensures
            self.degraded ==> r == Err::<(), StoreError>(StoreError::Degraded),
            !self.degraded && self.sealed ==> r == Err::<(), StoreError>(StoreError::Sealed),
            !self.degraded && !self.sealed && (session_id != self.session_id || seq != self.expected_next_seq) ==> (r matches Err(
                StoreError::Sequence(m),
            ) && m@ == sequence_message(self.session_id, self.expected_next_seq, session_id, seq)),
            r is Ok <==> (!self.degraded && !self.sealed && session_id == self.session_id && seq
                == self.expected_next_seq),
    {
        if self.degraded {
            return Err(StoreError::Degraded);
        }
        if self.sealed {
            return Err(StoreError::Sealed);
        }
        if session_id != self.session_id || seq != self.expected_next_seq {
            let a = concat_strs("expected session ", uuid_text(self.session_id).as_str());
            let b = concat_strs(a.as_str(), " seq ");
            let c = concat_strs(b.as_str(), decimal_string(self.expected_next_seq).as_str());
            let d = concat_strs(c.as_str(), ", got session ");
            let e = concat_strs(d.as_str(), uuid_text(session_id).as_str());
            let f = concat_strs(e.as_str(), " seq ");
            return Err(StoreError::Sequence(concat_strs(f.as_str(), decimal_string(seq).as_str())));
        }
        Ok(())
    }

    /// The open segment holds events and is full by count, or a line of
    /// `line_len` bytes would take it past the byte limit.
    pub open spec fn must_rotate(&self, line_len: u64) -> bool {
        self.current matches Some(c) && c.event_count > 0 && (c.event_count >= self.options.segment_max_events
            || sat_add(c.bytes_written, line_len) > self.options.segment_max_bytes)
    }

    /// Whether the open segment must be sealed before a line of `line_len`
    /// bytes: it holds events and is full by count, or the line would take
    /// it past the byte limit.
    pub fn rotate_before(&self, line_len: u64) -> (r: bool)
        ensures
            r == self.must_rotate(line_len),
    {
        match &self.current {
            Some(c) => c.event_count > 0 && (c.event_count >= self.options.segment_max_events
                || c.bytes_written.saturating_add(line_len) > self.options.segment_max_bytes),
            None => false,
        }
    }

    /// The header of the next segment, created at `created_at`.
    pub fn header_record(&self, created_at: String) -> (h: DiskRecord)
        ensures
            h matches DiskRecord::Header { schema, version, session_id, segment_index, created_at: c, previous_segment_sha256 }
                && schema@ == SEGMENT_SCHEMA@ && version == SEGMENT_VERSION && session_id == self.session_id
                && segment_index == self.next_segment_index && c == created_at
                && opt_text(previous_segment_sha256) == opt_text(self.previous_segment_sha256),
    {
        DiskRecord::Header {
            schema: owned(SEGMENT_SCHEMA),
            version: SEGMENT_VERSION,
            session_id: self.session_id,
            segment_index: self.next_segment_index,
            created_at,
            previous_segment_sha256: match &self.previous_segment_sha256 {
                Some(p) => Some(owned(p.as_str())),
                None => None,
            },
        }
    }

    /// The next segment was opened with a header line of `header_len` bytes.
    pub fn opened(&mut self, header_len: u64)
        requires
            old(self).wf(),
            old(self).current is None,
        ensures
            final(self).wf(),
            final(self).current == Some(
                OpenSegmentState {
                    segment_index: old(self).next_segment_index,
                    bytes_written: header_len,
                    event_count: 0,
                    first_seq: None,
                    last_seq: None,
                    events_since_flush: 0,
                },
            ),
            final(self).next_segment_index == old(self).next_segment_index,
            final(self).expected_next_seq == old(self).expected_next_seq,
            final(self).previous_segment_sha256 == old(self).previous_segment_sha256,
            final(self).options == old(self).options,
            final(self).session_id == old(self).session_id,
            final(self).degraded == old(self).degraded,
            final(self).sealed == old(self).sealed,
    {
        self.current = Some(
            OpenSegmentState {
                segment_index: self.next_segment_index,
                bytes_written: header_len,
                event_count: 0,
                first_seq: None,
                last_seq: None,
                events_since_flush: 0,
            },
        );
    }

    /// Event `seq` was written to the open segment as a line of `line_len`
    /// bytes; the result says whether the writer is due a flush.
    pub fn appended(&mut self, seq: u64, line_len: u64) -> (flush: bool)
        requires
            old(self).wf(),
            old(self).current is Some,
            !old(self).must_rotate(line_len) || old(self).current.unwrap().event_count == 0,
        ensures
            final(self).wf(),
            ({
                let c = old(self).current.unwrap();
                let n = sat_add(c.events_since_flush, 1);
                &&& final(self).current == Some(
                    OpenSegmentState {
                        segment_index: c.segment_index,
                        bytes_written: sat_add(c.bytes_written, line_len),
                        event_count: sat_add(c.event_count, 1),
                        first_seq: if c.first_seq is Some { c.first_seq } else { Some(seq) },
                        last_seq: Some(seq),
                        events_since_flush: n,
                    },
                )
                &&& flush == (n >= old(self).options.flush_every_events)
            }),
            final(self).expected_next_seq == sat_add(old(self).expected_next_seq, 1),
            final(self).next_segment_index == old(self).next_segment_index,
            final(self).previous_segment_sha256 == old(self).previous_segment_sha256,
            final(self).options == old(self).options,
            final(self).session_id == old(self).session_id,
            final(self).degraded == old(self).degraded,
            final(self).sealed == old(self).sealed,
    {
        let c = self.current.unwrap();
        let n = c.events_since_flush.saturating_add(1);
        self.current = Some(
            OpenSegmentState {
                segment_index: c.segment_index,
                bytes_written: c.bytes_written.saturating_add(line_len),
                event_count: c.event_count.saturating_add(1),
                first_seq: if c.first_seq.is_some() { c.first_seq } else { Some(seq) },
                last_seq: Some(seq),
                events_since_flush: n,
            },
        );
        self.expected_next_seq = self.expected_next_seq.saturating_add(1);
        n >= self.options.flush_every_events
    }

    /// The writer was flushed.
    pub fn flushed(&mut self)
        requires
            old(self).wf(),
        ensures
            final(self).wf(),
            final(self).current == match old(self).current {
                Some(c) => Some(OpenSegmentState { events_since_flush: 0, ..c }),
                None => None,
            },
            final(self).next_segment_index == old(self).next_segment_index,
            final(self).expected_next_seq == old(self).expected_next_seq,
            final(self).previous_segment_sha256 == old(self).previous_segment_sha256,
            final(self).options == old(self).options,
            final(self).session_id == old(self).session_id,
            final(self).degraded == old(self).degraded,
            final(self).sealed == old(self).sealed,
    {
        match self.current {
            Some(c) => {
                self.current = Some(OpenSegmentState { events_since_flush: 0, ..c });
            },
            None => {},
        }
    }

    /// The footer that seals the open segment, given the bytes written to it
    /// so far (its header and event lines): their SHA-256 is its content hash.
    pub fn footer_record(&self, written: &[u8]) -> (f: DiskRecord)
        requires
            self.current is Some,
        ensures
            sealing_footer(*self, written@, f),
    {
        let c = self.current.unwrap();
        let content_sha256 = sha256_text(written);
        DiskRecord::Footer {
            schema: owned(SEGMENT_SCHEMA),
            version: SEGMENT_VERSION,
            session_id: self.session_id,
            segment_index: c.segment_index,
            event_count: c.event_count,
            first_seq: c.first_seq,
            last_seq: c.last_seq,
            content_sha256,
            previous_segment_sha256: match &self.previous_segment_sha256 {
                Some(p) => Some(owned(p.as_str())),
                None => None,
            },
        }
    }

    /// The open segment was sealed and renamed, its file holding
    /// `sealed_bytes`: their SHA-256 is what the next segment links to.
    pub fn segment_sealed(&mut self, sealed_bytes: &[u8])
        requires
            old(self).wf(),
            old(self).current is Some,
        ensures
            final(self).wf(),
            final(self).current is None,
            final(self).previous_segment_sha256 matches Some(h) && h@ == sha256_hex(sealed_bytes@),
            final(self).next_segment_index == succ(old(self).current.unwrap().segment_index),
            final(self).expected_next_seq == old(self).expected_next_seq,
            final(self).options == old(self).options,
            final(self).session_id == old(self).session_id,
            final(self).degraded == old(self).degraded,
            final(self).sealed == old(self).sealed,
    {
        let c = self.current.unwrap();
        self.previous_segment_sha256 = Some(sha256_text(sealed_bytes));
        self.next_segment_index = c.segment_index.saturating_add(1);
        self.current = None;
    }

    /// Whether a checkpoint may seal the open segment.
    pub fn checkpoint_gate(&self) -> (r: Result<(), StoreError>)
        ensures
            self.degraded ==> r == Err::<(), StoreError>(StoreError::Degraded),
            !self.degraded && self.sealed ==> r == Err::<(), StoreError>(StoreError::Sealed),
            !self.degraded && !self.sealed ==> r is Ok,
    {
        if self.degraded {
            return Err(StoreError::Degraded);
        }
        if self.sealed {
            return Err(StoreError::Sealed);
        }
        Ok(())
    }

    /// Whether sealing the store has work to do: none once sealed; refused
    /// while degraded.
    pub fn seal_gate(&self) -> (r: Result<bool, StoreError>)
        ensures
            self.sealed ==> r == Ok::<bool, StoreError>(false),
            !self.sealed && self.degraded ==> r == Err::<bool, StoreError>(StoreError::Degraded),
            !self.sealed && !self.degraded ==> r == Ok::<bool, StoreError>(true),
    {
        if self.sealed {
            return Ok(false);
        }
        if self.degraded {
            return Err(StoreError::Degraded);
        }
        Ok(true)
    }

    /// The store was sealed for good.
    pub fn mark_sealed(&mut self)
        requires
            old(self).wf(),
        ensures
            final(self).wf(),
            final(self).sealed,
            final(self).degraded == old(self).degraded,
            final(self).current == old(self).current,
            final(self).session_id == old(self).session_id,
    {
        self.sealed = true;
    }

    /// A write failed; the unsealed source is left for recovery.
    pub fn mark_degraded(&mut self)
        requires
            old(self).wf(),
        ensures
            final(self).wf(),
            final(self).degraded,
            final(self).sealed == old(self).sealed,
            final(self).current == old(self).current,
            final(self).session_id == old(self).session_id,
    {
        self.degraded = true;
    }
}

} // verus!
