//! Bounded, linear device workflows.
//!
//! A workflow can lease, send, wait, expect, assert and issue a named
//! control operation: no loops, branches, retries, variables, network calls
//! or file access. Its pattern matcher consumes the canonical event stream
//! and fails closed when the evidence cursor cannot prove continuity. The
//! asynchronous runner that awaits the runtime lives in the host program;
//! every decision it takes is here.

use vstd::prelude::*;
use vstd::utf8::encode_utf8;

use crate::broker::{ControlCommand, bad_break};
use crate::codec::{b64_decode, b64_encode, base64_decode};
use crate::schema::{
    ConnectionState, EventEnvelope, EventPayload, GapScope, payload_bytes,
};
use crate::text::{
    any_control, ascii_lower_seq, blank, bytes_to_vec, chars_eq, chars_of, chars_start_with,
    concat_strs, decimal, decimal_string, has_control, is_ascii_space_char, is_blank,
    lower_ascii_all, owned, parse_u64_chars, parsed_u64, push_char, starts_with, str_eq,
    string_from_chars, trim_chars, trim_seq, utf8_len, utf8_len_exceeds,
};

verus! {

pub const DEFAULT_MAX_STEPS: usize = 32;

pub const DEFAULT_MAX_DURATION_MS: u64 = 30_000;

pub const DEFAULT_MAX_PATTERN_BYTES: usize = 4_096;

pub const DEFAULT_MAX_CAPTURE_BYTES: usize = 65_536;

pub const DEFAULT_MAX_EVIDENCE_ITEMS: usize = 256;

/// Bytes written explicitly as text, hexadecimal or standard base64.
#[derive(Clone, Debug, PartialEq, Eq)]
pub enum ByteValue {
    Text { text: String },
    Hex { hex: String },
    Base64 { base64: String },
}

/// One step of a workflow.
#[derive(Clone, Debug, PartialEq, Eq)]
pub enum WorkflowStep {
    /// Validate or acquire the caller's write lease through the runtime.
    Lease,
    /// Send one atomic byte sequence; the runtime confirms the host write.
    Send { bytes: ByteValue },
    /// Wait for one exact byte pattern in the canonical RX stream.
    Expect { pattern: ByteValue, timeout_ms: Option<u64>, capture: Option<String> },
    /// Assert a small, explicit runtime fact.
    Assert { assertion: WorkflowAssertion },
    Wait { duration_ms: u64 },
    /// Named device control, interpreted by the serial owner.
    Control { name: String, value: Option<String> },
}

/// A fact a workflow can assert.
#[derive(Clone, Debug, PartialEq, Eq, Structural)]
pub enum WorkflowAssertion {
    PortConnected,
    ConnectionEpoch { equals: u64 },
}

/// A workflow.
#[derive(Clone, Debug, PartialEq, Eq)]
pub struct WorkflowDefinition {
    pub id: String,
    pub name: Option<String>,
    pub steps: Vec<WorkflowStep>,
}

/// Bounds every workflow run is held to.
#[derive(Clone, Copy, Debug, PartialEq, Eq, Structural)]
pub struct WorkflowLimits {
    pub max_steps: usize,
    pub max_duration_ms: u64,
    pub max_pattern_bytes: usize,
    pub max_capture_bytes: usize,
    pub max_evidence_items: usize,
}

impl Default for WorkflowLimits {
    fn default() -> (l: Self)
        ensures
            l.max_steps == 32,
            l.max_duration_ms == 30_000,
            l.max_pattern_bytes == 4_096,
            l.max_capture_bytes == 65_536,
            l.max_evidence_items == 256,
    {
        WorkflowLimits {
            max_steps: DEFAULT_MAX_STEPS,
            max_duration_ms: DEFAULT_MAX_DURATION_MS,
            max_pattern_bytes: DEFAULT_MAX_PATTERN_BYTES,
            max_capture_bytes: DEFAULT_MAX_CAPTURE_BYTES,
            max_evidence_items: DEFAULT_MAX_EVIDENCE_ITEMS,
        }
    }
}

/// Why a workflow is refused or stopped.
#[derive(Debug, Clone, PartialEq, Eq)]
pub enum WorkflowError {
    InvalidDefinition(String),
    InvalidLimits,
    StepLimit { count: usize, max: usize },
    DurationLimit { duration_ms: u64, max: u64 },
    BytesLimit { size: usize, max: usize },
    PatternLimit { size: usize, max: usize },
    InvalidBytes(String),
    ReadDenied,
    WriteDenied,
    ControlDenied,
    RequestInProgress,
    InvalidRequestId,
    Cancelled,
    Timeout,
    CursorUnavailable(String),
    EvidenceGap { expected: u64, actual: u64 },
    WrongSession,
    EpochChanged { expected: u64, actual: u64 },
    Disconnected,
    RxGap(String),
    ExpectTimeout,
    Assertion(String),
    EvidenceLimit,
    Runtime(String),
}

/// The kind and data of a definition fault, with text as character sequences.
pub enum DefinitionFault {
    InvalidDefinition(Seq<char>),
    InvalidLimits,
    StepLimit { count: nat, max: nat },
    DurationLimit { duration_ms: nat, max: nat },
    BytesLimit { size: nat, max: nat },
    PatternLimit { size: nat, max: nat },
    InvalidBytes(Seq<char>),
}

/// `e` reports fault `f`.
pub open spec fn reports(e: WorkflowError, f: DefinitionFault) -> bool {
    match (e, f) {
        (WorkflowError::InvalidDefinition(m), DefinitionFault::InvalidDefinition(n)) => m@ == n,
        (WorkflowError::InvalidLimits, DefinitionFault::InvalidLimits) => true,
        (WorkflowError::StepLimit { count, max }, DefinitionFault::StepLimit { count: c, max: m }) => count == c && max == m,
        (WorkflowError::DurationLimit { duration_ms, max }, DefinitionFault::DurationLimit { duration_ms: d, max: m }) => duration_ms == d && max == m,
        (WorkflowError::BytesLimit { size, max }, DefinitionFault::BytesLimit { size: s, max: m }) => size == s && max == m,
        (WorkflowError::PatternLimit { size, max }, DefinitionFault::PatternLimit { size: s, max: m }) => size == s && max == m,
        (WorkflowError::InvalidBytes(m), DefinitionFault::InvalidBytes(n)) => m@ == n,
        _ => false,
    }
}

// ---------------------------------------------------------------------------
// Byte values
// ---------------------------------------------------------------------------

/// The characters of `s` other than ASCII whitespace, in order.
pub open spec fn strip_ascii_space(s: Seq<char>) -> Seq<char>
    decreases s.len(),
{
    if s.len() == 0 {
        Seq::empty()
    } else if is_ascii_space_char(s.last()) {
        strip_ascii_space(s.drop_last())
    } else {
        strip_ascii_space(s.drop_last()).push(s.last())
    }
}

/// The value of a hexadecimal digit byte.
pub open spec fn hex_value(b: u8) -> Option<u8> {
    if 0x30 <= b <= 0x39 {
        Some((b - 0x30) as u8)
    } else if 0x61 <= b <= 0x66 {
        Some((b - 0x61 + 10) as u8)
    } else if 0x41 <= b <= 0x46 {
        Some((b - 0x41 + 10) as u8)
    } else {
        None
    }
}

/// What hexadecimal text decodes to: ASCII whitespace is ignored, the rest
/// must be a non-empty, even number of hex digits.
pub open spec fn hex_decoded(input: Seq<char>) -> Result<Seq<u8>, Seq<char>> {
    let b = encode_utf8(strip_ascii_space(input));
    if b.len() == 0 || b.len() % 2 == 1 {
        Err("hex must contain an even number of digits"@)
    } else if exists|i: int| 0 <= i < b.len() && #[trigger] hex_value(b[i]) is None {
        Err("invalid hexadecimal byte string"@)
    } else {
        Ok(Seq::new(
            (b.len() / 2) as nat,
            |k: int| (hex_value(b[2 * k]).unwrap() * 16 + hex_value(b[2 * k + 1]).unwrap()) as u8,
        ))
    }
}

/// What a byte value decodes to, or the reason it does not.
pub open spec fn byte_value_decoded(v: ByteValue) -> Result<Seq<u8>, Seq<char>> {
    match v {
        ByteValue::Text { text } => Ok(encode_utf8(text@)),
        ByteValue::Hex { hex } => hex_decoded(hex@),
        ByteValue::Base64 { base64 } => match base64_decode(base64@) {
            Some(b) => Ok(b),
            None => Err("invalid standard base64"@),
        },
    }
}

proof fn lemma_no_ascii_space_is_kept(s: Seq<char>)
    requires
        forall|i: int| 0 <= i < s.len() ==> !is_ascii_space_char(#[trigger] s[i]),
    ensures
        strip_ascii_space(s) == s,
    decreases s.len(),
{
    if s.len() > 0 {
        lemma_no_ascii_space_is_kept(s.drop_last());
        assert(!is_ascii_space_char(s[s.len() - 1]));
        assert(s.drop_last().push(s.last()) =~= s);
    }
}

/// Hexadecimal byte values are pairs of hex digits: a text without
/// whitespace decodes exactly when it is a non-empty, even number of
/// characters `0`-`9`, `a`-`f`, `A`-`F` (no sign, no other character, no
/// non-ASCII text), and byte `k` is then the value of digit pair `k`.
pub proof fn law_hex_byte_values_are_digit_pairs(s: Seq<char>)
    requires
        forall|i: int| 0 <= i < s.len() ==> !is_ascii_space_char(#[trigger] s[i]),
    ensures
        (hex_decoded(s) is Ok) == (s.len() > 0 && s.len() % 2 == 0 && forall|i: int|
            0 <= i < s.len() ==> crate::api::is_hex_char(#[trigger] s[i])),
        hex_decoded(s) matches Ok(v) ==> v.len() == s.len() / 2 && forall|k: int|
            0 <= k < v.len() ==> #[trigger] v[k] == 16 * crate::api::hex_char_digit(s[2 * k])
                + crate::api::hex_char_digit(s[2 * k + 1]),
{
    lemma_no_ascii_space_is_kept(s);
    let b = encode_utf8(s);
    crate::api::lemma_hex_chars_encode(s);
    if forall|i: int| 0 <= i < s.len() ==> crate::api::is_hex_char(#[trigger] s[i]) {
        assert forall|j: int| 0 <= j < s.len() implies #[trigger] hex_value(b[j]) == Some(
            crate::api::hex_char_digit(s[j]) as u8,
        ) by {
            assert(crate::api::is_hex_char(s[j]));
            assert(b[j] == (s[j] as u32) as u8);
        }
        if s.len() > 0 && s.len() % 2 == 0 {
            let v = hex_decoded(s)->Ok_0;
            assert forall|k: int| 0 <= k < v.len() implies #[trigger] v[k] == 16 * crate::api::hex_char_digit(s[2 * k])
                + crate::api::hex_char_digit(s[2 * k + 1]) by {
                assert(hex_value(b[2 * k]) == Some(crate::api::hex_char_digit(s[2 * k]) as u8));
                assert(hex_value(b[2 * k + 1]) == Some(crate::api::hex_char_digit(s[2 * k + 1]) as u8));
            }
        }
    } else {
        let j = choose|j: int| 0 <= j < b.len() && #[trigger] crate::api::hex_digit_value(b[j]) is None;
        assert(hex_value(b[j]) is None);
    }
}

fn hex_digit(b: u8) -> (r: Option<u8>)
    ensures
        r == hex_value(b),
{
    if 0x30 <= b && b <= 0x39 {
        Some(b - 0x30)
    } else if 0x61 <= b && b <= 0x66 {
        Some(b - 0x61 + 10)
    } else if 0x41 <= b && b <= 0x46 {
        Some(b - 0x41 + 10)
    } else {
        None
    }
}

/// Decode hexadecimal text, ignoring ASCII whitespace.
pub fn decode_hex(input: &str) -> (r: Result<Vec<u8>, WorkflowError>)
    ensures
        match hex_decoded(input@) {
            Ok(b) => r matches Ok(v) && v@ == b,
            Err(m) => r matches Err(WorkflowError::InvalidBytes(e)) && e@ == m,
        },
{
    let cs = chars_of(input);
    let mut compact = String::new();
    let mut i: usize = 0;
    proof {
        assert(compact@ =~= strip_ascii_space(cs@.subrange(0, 0)));
    }
    while i < cs.len()
        invariant
            i <= cs@.len(),
            compact@ == strip_ascii_space(cs@.subrange(0, i as int)),
        decreases cs@.len() - i,
    {
        proof {
            assert(cs@.subrange(0, i + 1).drop_last() =~= cs@.subrange(0, i as int));
        }
        let c = cs[i];
        if !(c == ' ' || c == '\t' || c == '\n' || c == '\x0C' || c == '\r') {
            push_char(&mut compact, c);
        }
        i = i + 1;
    }
    proof {
        assert(cs@.subrange(0, i as int) =~= input@);
    }
    let bytes = compact.as_str().as_bytes();
    let ghost b = encode_utf8(strip_ascii_space(input@));
    assert(bytes@ == b);
    if bytes.len() == 0 || bytes.len() % 2 == 1 {
        return Err(WorkflowError::InvalidBytes(owned("hex must contain an even number of digits")));
    }
    let mut out: Vec<u8> = Vec::new();
    let mut k: usize = 0;
    let half: usize = bytes.len() / 2;
    while k < half
        invariant
            bytes@ == b,
            b.len() <= usize::MAX,
            b == encode_utf8(strip_ascii_space(input@)),
            b.len() % 2 == 0,
            half == b.len() / 2,
            k <= half,
            forall|j: int| 0 <= j < 2 * k ==> #[trigger] hex_value(b[j]) is Some,
            out@.len() == k,
            forall|j: int|
                0 <= j < k ==> #[trigger] out@[j] == (hex_value(b[2 * j]).unwrap() * 16 + hex_value(
                    b[2 * j + 1],
                ).unwrap()) as u8,
        decreases half - k,
    {
        let high = hex_digit(bytes[2 * k]);
        let low = hex_digit(bytes[2 * k + 1]);
        match (high, low) {
            (Some(h), Some(l)) => {
                out.push(h * 16 + l);
                proof {
                    assert forall|j: int| 0 <= j < 2 * (k + 1) implies #[trigger] hex_value(b[j]) is Some by {
                        if j >= 2 * k {
                            assert(j == 2 * k || j == 2 * k + 1);
                        }
                    }
                }
            },
            _ => {
                proof {
                    let w: int = if high is None {
                        2 * k as int
                    } else {
                        2 * k + 1
                    };
                    assert(hex_value(b[w]) is None);
                    assert(0 <= w < b.len());
                    assert(exists|i: int| 0 <= i < b.len() && #[trigger] hex_value(b[i]) is None);
                    assert(hex_decoded(input@) == Err::<Seq<u8>, Seq<char>>("invalid hexadecimal byte string"@));
                }
                return Err(WorkflowError::InvalidBytes(owned("invalid hexadecimal byte string")));
            },
        }
        k = k + 1;
    }
    proof {
        assert(out@ =~= Seq::new(
            (b.len() / 2) as nat,
            |j: int| (hex_value(b[2 * j]).unwrap() * 16 + hex_value(b[2 * j + 1]).unwrap()) as u8,
        ));
    }
    Ok(out)
}

impl ByteValue {
    /// The bytes this value denotes: the UTF-8 of text, decoded hexadecimal,
    /// or decoded standard padded base64.
    pub fn decode(&self) -> (r: Result<Vec<u8>, WorkflowError>)
        ensures
            match byte_value_decoded(*self) {
                Ok(b) => r matches Ok(v) && v@ == b,
                Err(m) => r matches Err(WorkflowError::InvalidBytes(e)) && e@ == m,
            },
    {
        match self {
            ByteValue::Text { text } => Ok(bytes_to_vec(text.as_str().as_bytes())),
            ByteValue::Hex { hex } => decode_hex(hex.as_str()),
            ByteValue::Base64 { base64 } => match b64_decode(base64.as_str()) {
                Some(v) => Ok(v),
                None => Err(WorkflowError::InvalidBytes(owned("invalid standard base64"))),
            },
        }
    }
}

// ---------------------------------------------------------------------------
// Definitions and limits
// ---------------------------------------------------------------------------

/// Every limit is positive.
pub open spec fn limits_ok(l: WorkflowLimits) -> bool {
    l.max_steps > 0 && l.max_duration_ms > 0 && l.max_pattern_bytes > 0 && l.max_capture_bytes > 0
        && l.max_evidence_items > 0
}

impl WorkflowLimits {
    /// Every limit must be positive.
    pub fn validate(&self) -> (r: Result<(), WorkflowError>)
        ensures
            r is Ok <==> limits_ok(*self),
            r is Err ==> r == Err::<(), WorkflowError>(WorkflowError::InvalidLimits),
    {
        if self.max_steps == 0 || self.max_duration_ms == 0 || self.max_pattern_bytes == 0
            || self.max_capture_bytes == 0 || self.max_evidence_items == 0 {
            return Err(WorkflowError::InvalidLimits);
        }
        Ok(())
    }
}

/// A capture name is 1..=64 bytes without control characters.
pub open spec fn capture_name_ok(name: Seq<char>) -> bool {
    name.len() > 0 && utf8_len(name) <= 64 && !has_control(name)
}

/// Why one step is refused, if it is.
pub open spec fn step_fault(step: WorkflowStep, l: WorkflowLimits) -> Option<DefinitionFault> {
    match step {
        WorkflowStep::Send { bytes } => match byte_value_decoded(bytes) {
            Err(m) => Some(DefinitionFault::InvalidBytes(m)),
            Ok(d) => if d.len() == 0 {
                Some(DefinitionFault::InvalidDefinition("send bytes cannot be empty"@))
            } else if d.len() > l.max_capture_bytes {
                Some(DefinitionFault::BytesLimit { size: d.len(), max: l.max_capture_bytes as nat })
            } else {
                None
            },
        },
        WorkflowStep::Expect { pattern, capture, .. } => match byte_value_decoded(pattern) {
            Err(m) => Some(DefinitionFault::InvalidBytes(m)),
            Ok(d) => if d.len() == 0 {
                Some(DefinitionFault::InvalidDefinition("expect pattern cannot be empty"@))
            } else if d.len() > l.max_pattern_bytes {
                Some(DefinitionFault::PatternLimit { size: d.len(), max: l.max_pattern_bytes as nat })
            } else if capture is Some && !capture_name_ok(capture.unwrap()@) {
                Some(DefinitionFault::InvalidDefinition("capture name is invalid"@))
            } else {
                None
            },
        },
        WorkflowStep::Control { name, value } => if name@.len() == 0 || utf8_len(name@) > 128
            || has_control(name@) {
            Some(DefinitionFault::InvalidDefinition("control name is invalid"@))
        } else if value is Some && utf8_len(value.unwrap()@) > 1024 {
            Some(DefinitionFault::InvalidDefinition("control value is too long"@))
        } else {
            None
        },
        _ => None,
    }
}

/// The fault of the first refused step, if any.
pub open spec fn first_step_fault(steps: Seq<WorkflowStep>, l: WorkflowLimits) -> Option<DefinitionFault>
    decreases steps.len(),
{
    if steps.len() == 0 {
        None
    } else {
        match first_step_fault(steps.drop_last(), l) {
            Some(f) => Some(f),
            None => step_fault(steps.last(), l),
        }
    }
}

/// How long a step may wait, in milliseconds.
pub open spec fn step_wait(step: WorkflowStep) -> nat {
    match step {
        WorkflowStep::Expect { timeout_ms, .. } => match timeout_ms {
            Some(t) => t as nat,
            None => 0,
        },
        WorkflowStep::Wait { duration_ms } => duration_ms as nat,
        _ => 0,
    }
}

/// The total declared waiting time.
pub open spec fn total_wait(steps: Seq<WorkflowStep>) -> nat
    decreases steps.len(),
{
    if steps.len() == 0 {
        0
    } else {
        total_wait(steps.drop_last()) + step_wait(steps.last())
    }
}

/// `n` held at `u64::MAX`.
pub open spec fn capped(n: nat) -> nat {
    if n > u64::MAX {
        u64::MAX as nat
    } else {
        n
    }
}

/// Why a definition is refused under `l`, if it is: limits, then the id,
/// then the step count, then each step in order, then the total wait.
pub open spec fn definition_fault(d: WorkflowDefinition, l: WorkflowLimits) -> Option<DefinitionFault> {
    if !limits_ok(l) {
        Some(DefinitionFault::InvalidLimits)
    } else if is_blank(d.id@) || utf8_len(d.id@) > 128 || has_control(d.id@) {
        Some(DefinitionFault::InvalidDefinition("id must be 1..=128 non-control characters"@))
    } else if d.steps@.len() == 0 || d.steps@.len() > l.max_steps {
        Some(DefinitionFault::StepLimit { count: d.steps@.len(), max: l.max_steps as nat })
    } else if first_step_fault(d.steps@, l) is Some {
        first_step_fault(d.steps@, l)
    } else if capped(total_wait(d.steps@)) > l.max_duration_ms {
        Some(DefinitionFault::DurationLimit { duration_ms: capped(total_wait(d.steps@)), max: l.max_duration_ms as nat })
    } else {
        None
    }
}

fn label_too_long_or_bad(s: &str, limit: usize) -> (r: bool)
    ensures
        r == (s@.len() == 0 || utf8_len(s@) > limit || has_control(s@)),
{
    let cs = chars_of(s);
    cs.len() == 0 || utf8_len_exceeds(cs.as_slice(), limit) || any_control(cs.as_slice())
}

fn check_step(step: &WorkflowStep, limits: &WorkflowLimits) -> (r: Result<(), WorkflowError>)
    ensures
        match step_fault(*step, *limits) {
            Some(f) => r matches Err(e) && reports(e, f),
            None => r is Ok,
        },
{
    match step {
        WorkflowStep::Send { bytes } => {
            let data = match bytes.decode() {
                Ok(d) => d,
                Err(e) => {
                    return Err(e);
                },
            };
            if data.len() == 0 {
                return Err(WorkflowError::InvalidDefinition(owned("send bytes cannot be empty")));
            }
            if data.len() > limits.max_capture_bytes {
                return Err(WorkflowError::BytesLimit { size: data.len(), max: limits.max_capture_bytes });
            }
            Ok(())
        },
        WorkflowStep::Expect { pattern, capture, .. } => {
            let data = match pattern.decode() {
                Ok(d) => d,
                Err(e) => {
                    return Err(e);
                },
            };
            if data.len() == 0 {
                return Err(WorkflowError::InvalidDefinition(owned("expect pattern cannot be empty")));
            }
            if data.len() > limits.max_pattern_bytes {
                return Err(WorkflowError::PatternLimit { size: data.len(), max: limits.max_pattern_bytes });
            }
            match capture {
                Some(name) => {
                    if label_too_long_or_bad(name.as_str(), 64) {
                        return Err(WorkflowError::InvalidDefinition(owned("capture name is invalid")));
                    }
                },
                None => {},
            }
            Ok(())
        },
        WorkflowStep::Control { name, value } => {
            if label_too_long_or_bad(name.as_str(), 128) {
                return Err(WorkflowError::InvalidDefinition(owned("control name is invalid")));
            }
            match value {
                Some(v) => {
                    let cs = chars_of(v.as_str());
                    if utf8_len_exceeds(cs.as_slice(), 1024) {
                        return Err(WorkflowError::InvalidDefinition(owned("control value is too long")));
                    }
                },
                None => {},
            }
            Ok(())
        },
        _ => Ok(()),
    }
}

impl WorkflowDefinition {
    /// Check the definition against `limits`; the first fault is reported.
    pub fn validate(&self, limits: &WorkflowLimits) -> (r: Result<(), WorkflowError>)
        ensures
            match definition_fault(*self, *limits) {
                Some(f) => r matches Err(e) && reports(e, f),
                None => r is Ok,
            },
    {
        match limits.validate() {
            Err(e) => {
                return Err(e);
            },
            Ok(()) => {},
        }
        let cs = chars_of(self.id.as_str());
        if blank(cs.as_slice()) || utf8_len_exceeds(cs.as_slice(), 128) || any_control(cs.as_slice()) {
            return Err(WorkflowError::InvalidDefinition(owned("id must be 1..=128 non-control characters")));
        }
        if self.steps.len() == 0 || self.steps.len() > limits.max_steps {
            return Err(WorkflowError::StepLimit { count: self.steps.len(), max: limits.max_steps });
        }
        let mut total: u64 = 0;
        let mut i: usize = 0;
        while i < self.steps.len()
            invariant
                i <= self.steps@.len(),
                limits_ok(*limits),
                !(is_blank(self.id@) || utf8_len(self.id@) > 128 || has_control(self.id@)),
                !(self.steps@.len() == 0 || self.steps@.len() > limits.max_steps),
                first_step_fault(self.steps@.subrange(0, i as int), *limits) is None,
                total == capped(total_wait(self.steps@.subrange(0, i as int))),
            decreases self.steps@.len() - i,
        {
            proof {
                assert(self.steps@.subrange(0, i + 1).drop_last() =~= self.steps@.subrange(0, i as int));
            }
            match check_step(&self.steps[i], limits) {
                Err(e) => {
                    proof {
                        lemma_first_fault_prefix(self.steps@, *limits, i + 1);
                    }
                    return Err(e);
                },
                Ok(()) => {},
            }
            let wait: u64 = match &self.steps[i] {
                WorkflowStep::Expect { timeout_ms, .. } => match timeout_ms {
                    Some(t) => *t,
                    None => 0,
                },
                WorkflowStep::Wait { duration_ms } => *duration_ms,
                _ => 0,
            };
            total = total.saturating_add(wait);
            i = i + 1;
        }
        proof {
            assert(self.steps@.subrange(0, i as int) =~= self.steps@);
        }
        if total > limits.max_duration_ms {
            return Err(WorkflowError::DurationLimit { duration_ms: total, max: limits.max_duration_ms });
        }
        Ok(())
    }
}

/// A fault among the first `n` steps is the first fault of all steps.
proof fn lemma_first_fault_prefix(steps: Seq<WorkflowStep>, l: WorkflowLimits, n: int)
    requires
        0 <= n <= steps.len(),
        first_step_fault(steps.subrange(0, n), l) is Some,
    ensures
        first_step_fault(steps, l) == first_step_fault(steps.subrange(0, n), l),
    decreases steps.len(),
{
    if n == steps.len() {
        assert(steps.subrange(0, n) =~= steps);
    } else {
        assert(steps.drop_last().subrange(0, n) =~= steps.subrange(0, n));
        lemma_first_fault_prefix(steps.drop_last(), l, n);
    }
}

// ---------------------------------------------------------------------------
// Pattern matching (Knuth-Morris-Pratt)
// ---------------------------------------------------------------------------

/// The first `k` bytes of `p` are also the last `k` of its first `n`, and
/// `k < n`: a proper border of that prefix.
pub open spec fn is_border(p: Seq<u8>, n: int, k: int) -> bool {
    &&& 0 <= k < n <= p.len()
    &&& forall|j: int| 0 <= j < k ==> #[trigger] p[j] == p[n - k + j]
}

/// `t[i]` is the length of the longest proper border of the first `i + 1`
/// bytes of `p`.
pub open spec fn is_prefix_table(p: Seq<u8>, t: Seq<usize>) -> bool {
    &&& t.len() == p.len()
    &&& forall|i: int| 0 <= i < p.len() ==> #[trigger] is_border(p, i + 1, t[i] as int)
    &&& forall|i: int, k: int| 0 <= i < p.len() && t[i] < k <= i ==> !#[trigger] is_border(p, i + 1, k)
}

proof fn lemma_border_trans(p: Seq<u8>, n: int, b: int, c: int)
    requires
        is_border(p, n, b),
        is_border(p, b, c),
    ensures
        is_border(p, n, c),
{
    assert forall|j: int| 0 <= j < c implies #[trigger] p[j] == p[n - c + j] by {
        assert(p[j] == p[b - c + j]);
        assert(p[b - c + j] == p[n - b + (b - c + j)]);
    }
}

proof fn lemma_border_nested(p: Seq<u8>, n: int, b: int, c: int)
    requires
        is_border(p, n, b),
        is_border(p, n, c),
        c < b,
    ensures
        is_border(p, b, c),
{
    assert forall|j: int| 0 <= j < c implies #[trigger] p[j] == p[b - c + j] by {
        assert(p[j] == p[n - c + j]);
        assert(p[b - c + j] == p[n - b + (b - c + j)]);
    }
}

proof fn lemma_border_extend(p: Seq<u8>, n: int, m: int)
    requires
        1 <= m <= n < p.len(),
    ensures
        is_border(p, n + 1, m) <==> (is_border(p, n, m - 1) && p[m - 1] == p[n]),
{
    if is_border(p, n + 1, m) {
        assert(p[m - 1] == p[n + 1 - m + (m - 1)]);
        assert forall|j: int| 0 <= j < m - 1 implies #[trigger] p[j] == p[n - (m - 1) + j] by {
            assert(p[j] == p[n + 1 - m + j]);
        }
    }
    if is_border(p, n, m - 1) && p[m - 1] == p[n] {
        assert forall|j: int| 0 <= j < m implies #[trigger] p[j] == p[n + 1 - m + j] by {
            if j < m - 1 {
                assert(p[j] == p[n - (m - 1) + j]);
            }
        }
    }
}

/// The Knuth-Morris-Pratt failure table of `pattern`.
pub fn prefix_table(pattern: &[u8]) -> (table: Vec<usize>)
    ensures
        is_prefix_table(pattern@, table@),
{
    let ghost p = pattern@;
    let mut table: Vec<usize> = Vec::new();
    if pattern.len() == 0 {
        return table;
    }
    table.push(0);
    let mut index: usize = 1;
    let mut length: usize = 0;
    while index < pattern.len()
        invariant
            p == pattern@,
            1 <= index <= p.len(),
            table@.len() == index,
            length == table@[index - 1],
            forall|i: int| 0 <= i < index ==> #[trigger] is_border(p, i + 1, table@[i] as int),
            forall|i: int, k: int| 0 <= i < index && table@[i] < k <= i ==> !#[trigger] is_border(p, i + 1, k),
        decreases p.len() - index,
    {
        proof {
            let im = index - 1;
            assert(is_border(p, im + 1, table@[im] as int));
            assert forall|k: int| length < k < index && #[trigger] is_border(p, index as int, k) implies p[k] != p[index as int] by {
                assert(!is_border(p, im + 1, k));
            }
        }
        while length > 0 && pattern[index] != pattern[length]
            invariant
                p == pattern@,
                1 <= index < p.len(),
                table@.len() == index,
                is_border(p, index as int, length as int),
                forall|k: int| length < k < index && #[trigger] is_border(p, index as int, k) ==> p[k] != p[index as int],
                forall|i: int| 0 <= i < index ==> #[trigger] is_border(p, i + 1, table@[i] as int),
                forall|i: int, k: int| 0 <= i < index && table@[i] < k <= i ==> !#[trigger] is_border(p, i + 1, k),
            decreases length,
        {
            let next = table[length - 1];
            proof {
                let lm = length - 1;
                assert(is_border(p, lm + 1, table@[lm] as int));
                lemma_border_trans(p, index as int, length as int, next as int);
                assert forall|k: int| next < k < index && #[trigger] is_border(p, index as int, k) implies p[k] != p[index as int] by {
                    if k < length {
                        lemma_border_nested(p, index as int, length as int, k);
                        assert(!is_border(p, lm + 1, k));
                    }
                }
            }
            length = next;
        }
        if pattern[index] == pattern[length] {
            length = length + 1;
            proof {
                lemma_border_extend(p, index as int, length as int);
                assert forall|k: int| length < k <= index implies !#[trigger] is_border(p, index + 1, k) by {
                    lemma_border_extend(p, index as int, k);
                }
            }
        } else {
            proof {
                assert(is_border(p, index + 1, 0));
                assert forall|k: int| 0 < k <= index implies !#[trigger] is_border(p, index + 1, k) by {
                    lemma_border_extend(p, index as int, k);
                }
            }
        }
        table.push(length);
        index = index + 1;
    }
    table
}

/// The last `k` bytes of `text` are the first `k` bytes of `p`.
pub open spec fn ends_with_prefix(p: Seq<u8>, text: Seq<u8>, k: int) -> bool {
    &&& 0 <= k <= p.len()
    &&& k <= text.len()
    &&& forall|j: int| 0 <= j < k ==> #[trigger] p[j] == text[text.len() - k + j]
}

proof fn lemma_suffix_border(p: Seq<u8>, t: Seq<u8>, m: int, c: int)
    requires
        ends_with_prefix(p, t, m),
        is_border(p, m, c),
    ensures
        ends_with_prefix(p, t, c),
{
    assert forall|j: int| 0 <= j < c implies #[trigger] p[j] == t[t.len() - c + j] by {
        assert(p[j] == p[m - c + j]);
        assert(p[m - c + j] == t[t.len() - m + (m - c + j)]);
    }
}

proof fn lemma_suffix_nested(p: Seq<u8>, t: Seq<u8>, m: int, k: int)
    requires
        ends_with_prefix(p, t, m),
        ends_with_prefix(p, t, k),
        k < m,
    ensures
        is_border(p, m, k),
{
    assert forall|j: int| 0 <= j < k implies #[trigger] p[j] == p[m - k + j] by {
        assert(p[j] == t[t.len() - k + j]);
        assert(p[m - k + j] == t[t.len() - m + (m - k + j)]);
    }
}

proof fn lemma_suffix_extend(p: Seq<u8>, t: Seq<u8>, b: u8, k: int)
    requires
        1 <= k <= p.len(),
    ensures
        ends_with_prefix(p, t.push(b), k) <==> (ends_with_prefix(p, t, k - 1) && p[k - 1] == b),
{
    let u = t.push(b);
    if ends_with_prefix(p, u, k) {
        assert(p[k - 1] == u[u.len() - k + (k - 1)]);
        assert forall|j: int| 0 <= j < k - 1 implies #[trigger] p[j] == t[t.len() - (k - 1) + j] by {
            assert(p[j] == u[u.len() - k + j]);
        }
    }
    if ends_with_prefix(p, t, k - 1) && p[k - 1] == b {
        assert forall|j: int| 0 <= j < k implies #[trigger] p[j] == u[u.len() - k + j] by {
            if j < k - 1 {
                assert(p[j] == t[t.len() - (k - 1) + j]);
            }
        }
    }
}

/// A streaming matcher for one non-empty byte pattern.
pub struct Matcher {
    pattern: Vec<u8>,
    table: Vec<usize>,
    matched: usize,
    seen: Ghost<Seq<u8>>,
}

impl Matcher {
    /// The pattern sought.
    pub closed spec fn pattern_bytes(&self) -> Seq<u8> {
        self.pattern@
    }

    /// Every byte fed so far.
    pub closed spec fn seen(&self) -> Seq<u8> {
        self.seen@
    }

    /// The matcher's state is the longest proper prefix of the pattern that
    /// ends the bytes seen.
    pub closed spec fn wf(&self) -> bool {
        let p = self.pattern@;
        &&& p.len() > 0
        &&& is_prefix_table(p, self.table@)
        &&& self.matched < p.len()
        &&& ends_with_prefix(p, self.seen@, self.matched as int)
        &&& forall|k: int| self.matched < k < p.len() ==> !#[trigger] ends_with_prefix(p, self.seen@, k)
    }

    /// The pattern sought.
    pub fn pattern(&self) -> (p: &[u8])
        ensures
            p@ == self.pattern_bytes(),
    {
        self.pattern.as_slice()
    }

    /// A matcher for `pattern` that has seen nothing.
    pub fn new(pattern: Vec<u8>) -> (m: Matcher)
        requires
            pattern@.len() > 0,
        ensures
            m.wf(),
            m.pattern_bytes() == pattern@,
            m.seen() == Seq::<u8>::empty(),
    {
        let table = prefix_table(pattern.as_slice());
        let m = Matcher { pattern, table, matched: 0, seen: Ghost(Seq::empty()) };
        assert forall|k: int| 0 < k < m.pattern@.len() implies !#[trigger] ends_with_prefix(m.pattern@, m.seen@, k) by {}
        m
    }

    /// Feed one byte; returns whether the pattern now ends the bytes seen.
    pub fn feed(&mut self, byte: u8) -> (found: bool)
        requires
            old(self).wf(),
        ensures
            final(self).wf(),
            final(self).pattern_bytes() == old(self).pattern_bytes(),
            final(self).seen() == old(self).seen().push(byte),
            found == ends_with_prefix(old(self).pattern_bytes(), final(self).seen(), old(self).pattern_bytes().len() as int),
    {
        let ghost p = self.pattern@;
        let ghost t = self.seen@;
        let ghost u = t.push(byte);
        let mut length = self.matched;
        let plen = self.pattern.len();
        while length > 0 && self.pattern[length] != byte
            invariant
                p == self.pattern@,
                p.len() == plen,
                t == self.seen@,
                p.len() > 0,
                is_prefix_table(p, self.table@),
                length < p.len(),
                ends_with_prefix(p, t, length as int),
                forall|k: int| length < k < p.len() && #[trigger] ends_with_prefix(p, t, k) ==> p[k] != byte,
            decreases length,
        {
            let next = self.table[length - 1];
            proof {
                let lm = length - 1;
                assert(is_border(p, lm + 1, self.table@[lm] as int));
                lemma_suffix_border(p, t, length as int, next as int);
                assert forall|k: int| next < k < p.len() && #[trigger] ends_with_prefix(p, t, k) implies p[k] != byte by {
                    if k < length {
                        lemma_suffix_nested(p, t, length as int, k);
                        assert(!is_border(p, lm + 1, k));
                    }
                }
            }
            length = next;
        }
        if self.pattern[length] == byte {
            length = length + 1;
        }
        proof {
            assert forall|k: int| length < k <= p.len() implies !#[trigger] ends_with_prefix(p, u, k) by {
                lemma_suffix_extend(p, t, byte, k);
            }
            if length > 0 {
                lemma_suffix_extend(p, t, byte, length as int);
            }
        }
        self.seen = Ghost(u);
        if length == self.pattern.len() {
            let next = self.table[length - 1];
            proof {
                let lm = length - 1;
                assert(is_border(p, lm + 1, self.table@[lm] as int));
                lemma_suffix_border(p, u, length as int, next as int);
                assert forall|k: int| next < k < p.len() implies !#[trigger] ends_with_prefix(p, u, k) by {
                    if ends_with_prefix(p, u, k) {
                        lemma_suffix_nested(p, u, length as int, k);
                        assert(!is_border(p, lm + 1, k));
                    }
                }
            }
            self.matched = next;
            true
        } else {
            self.matched = length;
            false
        }
    }
}

/// The matcher reports the pattern exactly where it ends: after feeding a
/// byte, it answers `true` iff the bytes seen so far end with the pattern.
/// Split across any chunking, the same bytes give the same answers.
pub proof fn law_matcher_finds_exactly_the_occurrences(p: Seq<u8>, seen: Seq<u8>)
    requires
        p.len() > 0,
    ensures
        ends_with_prefix(p, seen, p.len() as int) <==> (p.len() <= seen.len() && seen.subrange(
            seen.len() - p.len(),
            seen.len() as int,
        ) == p),
{
    if ends_with_prefix(p, seen, p.len() as int) {
        assert(seen.subrange(seen.len() - p.len(), seen.len() as int) =~= p);
    }
    if p.len() <= seen.len() && seen.subrange(seen.len() - p.len(), seen.len() as int) == p {
        assert forall|j: int| 0 <= j < p.len() implies #[trigger] p[j] == seen[seen.len() - p.len() + j] by {
            assert(seen.subrange(seen.len() - p.len(), seen.len() as int)[j] == p[j]);
        }
    }
}

// ---------------------------------------------------------------------------
// Evidence cursor and expectation
// ---------------------------------------------------------------------------

/// Where a run's evidence stands in the canonical event stream.
#[derive(Clone, Debug, PartialEq, Eq)]
pub struct EvidenceCursor {
    pub session_id: u128,
    pub port_id: String,
    pub connection_epoch: u64,
    pub seq: u64,
    pub byte_offset: u64,
}

/// The port as the runtime reports it.
#[derive(Clone, Copy, Debug, PartialEq, Eq, Structural)]
pub struct WorkflowPortState {
    pub connected: bool,
    pub connection_epoch: u64,
}

/// What the caller of a run may do. The lease token is opaque to the
/// workflow and never copied into evidence.
#[derive(Clone, Debug, PartialEq, Eq)]
pub struct WorkflowAuthorization {
    pub can_read: bool,
    pub can_write: bool,
    pub can_control: bool,
    pub lease_token: Option<String>,
}

/// What the runtime reports of a confirmed send.
#[derive(Clone, Debug, PartialEq, Eq)]
pub struct SendReceipt {
    pub bytes: usize,
    pub tx_seq: Option<u64>,
}

/// What the runtime reports of a granted or renewed lease.
#[derive(Clone, Debug, PartialEq, Eq)]
pub struct LeaseReceipt {
    pub expires_ms: u64,
    pub lease_token: Option<String>,
}

/// The evidence of one completed step.
#[derive(Clone, Debug, PartialEq, Eq)]
pub struct StepEvidence {
    pub step: usize,
    pub op: String,
    pub status: String,
    pub start_seq: Option<u64>,
    pub end_seq: Option<u64>,
    pub capture_base64: Option<String>,
}

/// Why an event breaks the cursor's continuity, if it does.
pub open spec fn cursor_fault(c: EvidenceCursor, e: EventEnvelope) -> Option<WorkflowError> {
    if c.session_id != e.session_id || c.port_id@ != e.port_id@ {
        Some(WorkflowError::WrongSession)
    } else if e.seq <= c.seq {
        None
    } else if e.seq != (if c.seq == u64::MAX { c.seq } else { (c.seq + 1) as u64 }) {
        Some(WorkflowError::EvidenceGap {
            expected: if c.seq == u64::MAX { c.seq } else { (c.seq + 1) as u64 },
            actual: e.seq,
        })
    } else if e.connection_epoch != c.connection_epoch {
        Some(WorkflowError::EpochChanged { expected: c.connection_epoch, actual: e.connection_epoch })
    } else {
        None
    }
}

/// Advance the cursor over `event`. Events at or before the cursor are
/// accepted without moving it; the next one moves it and resets the byte
/// offset; anything else breaks continuity.
pub fn consume_event(cursor: &mut EvidenceCursor, event: &EventEnvelope) -> (r: Result<(), WorkflowError>)
    ensures
        match cursor_fault(*old(cursor), *event) {
            Some(f) => r == Err::<(), WorkflowError>(f) && *final(cursor) == *old(cursor),
            None => r is Ok && if event.seq <= old(cursor).seq {
                *final(cursor) == *old(cursor)
            } else {
                *final(cursor) == EvidenceCursor { seq: event.seq, byte_offset: 0, ..*old(cursor) }
            },
        },
{
    if cursor.session_id != event.session_id || !crate::text::str_eq(cursor.port_id.as_str(), event.port_id.as_str()) {
        return Err(WorkflowError::WrongSession);
    }
    if event.seq <= cursor.seq {
        return Ok(());
    }
    let expected = cursor.seq.saturating_add(1);
    if event.seq != expected {
        return Err(WorkflowError::EvidenceGap { expected, actual: event.seq });
    }
    if event.connection_epoch != cursor.connection_epoch {
        return Err(WorkflowError::EpochChanged { expected: cursor.connection_epoch, actual: event.connection_epoch });
    }
    cursor.seq = event.seq;
    cursor.byte_offset = 0;
    Ok(())
}

/// The port must stay connected on the cursor's connection epoch.
pub fn check_port(state: WorkflowPortState, cursor: &EvidenceCursor) -> (r: Result<(), WorkflowError>)
    ensures
        !state.connected ==> r == Err::<(), WorkflowError>(WorkflowError::Disconnected),
        state.connected && state.connection_epoch != cursor.connection_epoch ==> r == Err::<(), WorkflowError>(
            WorkflowError::EpochChanged { expected: cursor.connection_epoch, actual: state.connection_epoch },
        ),
        state.connected && state.connection_epoch == cursor.connection_epoch ==> r is Ok,
{
    if !state.connected {
        return Err(WorkflowError::Disconnected);
    }
    if state.connection_epoch != cursor.connection_epoch {
        return Err(WorkflowError::EpochChanged { expected: cursor.connection_epoch, actual: state.connection_epoch });
    }
    Ok(())
}

/// No prefix of `data` of length 1..=`m` completes the pattern after `seen`.
pub open spec fn no_match_within(p: Seq<u8>, seen: Seq<u8>, data: Seq<u8>, m: int) -> bool {
    forall|j: int| 1 <= j <= m ==> !#[trigger] ends_with_prefix(p, seen + data.take(j), p.len() as int)
}

impl Matcher {
    /// Feed `data` until the pattern completes. Returns whether it did; the
    /// matcher has then seen `data` up to and including the completing
    /// byte, which is the first place the pattern ends. Otherwise it has
    /// seen all of `data`.
    pub fn feed_all(&mut self, data: &[u8]) -> (found: bool)
        requires
            old(self).wf(),
        ensures
            final(self).wf(),
            final(self).pattern_bytes() == old(self).pattern_bytes(),
            found ==> exists|m: int|
                1 <= m <= data@.len() && final(self).seen() == old(self).seen() + data@.take(m)
                    && ends_with_prefix(old(self).pattern_bytes(), final(self).seen(), old(self).pattern_bytes().len() as int)
                    && no_match_within(old(self).pattern_bytes(), old(self).seen(), data@, m - 1),
            !found ==> final(self).seen() == old(self).seen() + data@ && no_match_within(
                old(self).pattern_bytes(),
                old(self).seen(),
                data@,
                data@.len() as int,
            ),
    {
        let ghost p = self.pattern_bytes();
        let ghost start = self.seen();
        let mut i: usize = 0;
        proof {
            assert(start + data@.take(0) =~= start);
        }
        while i < data.len()
            invariant
                self.wf(),
                p == self.pattern_bytes(),
                p == old(self).pattern_bytes(),
                start == old(self).seen(),
                i <= data@.len(),
                self.seen() == start + data@.take(i as int),
                no_match_within(p, start, data@, i as int),
            decreases data@.len() - i,
        {
            let ghost before = self.seen();
            let hit = self.feed(data[i]);
            proof {
                assert(start + data@.take(i + 1) =~= before.push(data@[i as int]));
            }
            if hit {
                proof {
                    let m = i + 1;
                    assert(1 <= m <= data@.len() && self.seen() == start + data@.take(m));
                    assert(ends_with_prefix(p, self.seen(), p.len() as int));
                    assert(no_match_within(p, start, data@, m - 1));
                }
                return true;
            }
            proof {
                assert forall|j: int| 1 <= j <= i + 1 implies !#[trigger] ends_with_prefix(p, start + data@.take(j), p.len() as int) by {
                    if j == i + 1 {
                        assert(start + data@.take(j) == self.seen());
                    }
                }
            }
            i = i + 1;
        }
        proof {
            assert(data@.take(i as int) =~= data@);
        }
        false
    }
}

/// What one event means for an expectation in progress, if it ends it.
pub enum ExpectProgress {
    /// The pattern completed.
    Found,
    /// Keep waiting.
    Pending,
}

/// Apply one canonical event to an expectation: check the cursor's
/// continuity, feed RX bytes to the matcher (stopping at the pattern), and
/// fail on a disconnect, an epoch change, or any gap other than a client's
/// delivery gap.
pub fn expect_event(cursor: &mut EvidenceCursor, matcher: &mut Matcher, event: &EventEnvelope) -> (r: Result<ExpectProgress, WorkflowError>)
    requires
        old(matcher).wf(),
    ensures
        final(matcher).wf(),
        final(matcher).pattern_bytes() == old(matcher).pattern_bytes(),
        final(cursor).session_id == old(cursor).session_id,
        final(cursor).port_id == old(cursor).port_id,
        final(cursor).connection_epoch == old(cursor).connection_epoch,
        final(cursor).seq >= old(cursor).seq,
        r is Ok ==> final(cursor).seq == (if event.seq <= old(cursor).seq { old(cursor).seq } else { event.seq }),
        cursor_fault(*old(cursor), *event) matches Some(f) ==> r == Err::<ExpectProgress, WorkflowError>(f)
            && final(matcher).seen() == old(matcher).seen(),
        cursor_fault(*old(cursor), *event) is None ==> match event.event {
            EventPayload::Rx(b) => match payload_bytes(b) {
                None => r matches Err(WorkflowError::Runtime(_)),
                Some(data) => {
                    &&& (r matches Ok(ExpectProgress::Found)) <==> exists|m: int| 1 <= m <= data.len() && ends_with_prefix(
                        old(matcher).pattern_bytes(),
                        old(matcher).seen() + data.take(m),
                        old(matcher).pattern_bytes().len() as int,
                    )
                    &&& r is Ok
                },
            },
            EventPayload::Connection(c) => if !(c.state is Connected) {
                r == Err::<ExpectProgress, WorkflowError>(WorkflowError::Disconnected)
            } else if event.connection_epoch != old(cursor).connection_epoch {
                r == Err::<ExpectProgress, WorkflowError>(WorkflowError::EpochChanged { expected: old(cursor).connection_epoch, actual: event.connection_epoch })
            } else {
                r matches Ok(ExpectProgress::Pending)
            },
            EventPayload::Gap(g) => if g.scope != GapScope::ClientDelivery {
                r matches Err(WorkflowError::RxGap(reason)) && reason == g.reason
            } else {
                r matches Ok(ExpectProgress::Pending)
            },
            _ => r matches Ok(ExpectProgress::Pending),
        },
{
    match consume_event(cursor, event) {
        Err(e) => {
            return Err(e);
        },
        Ok(()) => {},
    }
    match &event.event {
        EventPayload::Rx(bytes) => {
            let data = match bytes.decode() {
                Ok(d) => d,
                Err(e) => {
                    return Err(WorkflowError::Runtime(e.message()));
                },
            };
            let ghost before = matcher.seen();
            if matcher.feed_all(data.as_slice()) {
                return Ok(ExpectProgress::Found);
            }
            proof {
                assert forall|m: int| 1 <= m <= data@.len() implies !ends_with_prefix(
                    matcher.pattern_bytes(),
                    before + data@.take(m),
                    matcher.pattern_bytes().len() as int,
                ) by {
                    assert(!ends_with_prefix(matcher.pattern_bytes(), before + data@.take(m), matcher.pattern_bytes().len() as int));
                }
            }
            cursor.byte_offset = data.len() as u64;
            Ok(ExpectProgress::Pending)
        },
        EventPayload::Connection(connection) => {
            match connection.state {
                ConnectionState::Connected => {},
                _ => {
                    return Err(WorkflowError::Disconnected);
                },
            }
            if event.connection_epoch != cursor.connection_epoch {
                return Err(WorkflowError::EpochChanged { expected: cursor.connection_epoch, actual: event.connection_epoch });
            }
            Ok(ExpectProgress::Pending)
        },
        EventPayload::Gap(gap) => {
            if gap.scope != GapScope::ClientDelivery {
                return Err(WorkflowError::RxGap(gap.reason.clone()));
            }
            Ok(ExpectProgress::Pending)
        },
        _ => Ok(ExpectProgress::Pending),
    }
}

// ---------------------------------------------------------------------------
// Control steps
// ---------------------------------------------------------------------------

/// The level a control value names: `on/true/1/high` or `off/false/0/low`
/// (trimmed, ASCII case ignored).
pub open spec fn level_named(v: Seq<char>) -> Option<bool> {
    let w = ascii_lower_seq(trim_seq(v));
    if w == "on"@ || w == "true"@ || w == "1"@ || w == "high"@ {
        Some(true)
    } else if w == "off"@ || w == "false"@ || w == "0"@ || w == "low"@ {
        Some(false)
    } else {
        None
    }
}

fn is_word(w: &[char], word: &str) -> (r: bool)
    ensures
        r == (w@ == word@),
{
    let cs = chars_of(word);
    chars_eq(w, cs.as_slice())
}

/// The line level of a DTR or RTS control step.
pub fn parse_level(value: Option<&str>, name: &str) -> (r: Result<bool, String>)
    ensures
        match value {
            Some(v) => match level_named(v@) {
                Some(b) => r == Ok::<bool, String>(b),
                None => r matches Err(e) && e@ == name@ + " control requires value on/off (or true/false)"@,
            },
            None => r matches Err(e) && e@ == name@ + " control requires value on/off (or true/false)"@,
        },
{
    match value {
        Some(v) => {
            let t = trim_chars(chars_of(v).as_slice());
            let w = lower_ascii_all(t.as_slice());
            if is_word(w.as_slice(), "on") || is_word(w.as_slice(), "true") || is_word(w.as_slice(), "1")
                || is_word(w.as_slice(), "high") {
                return Ok(true);
            }
            if is_word(w.as_slice(), "off") || is_word(w.as_slice(), "false") || is_word(w.as_slice(), "0")
                || is_word(w.as_slice(), "low") {
                return Ok(false);
            }
            Err(concat_strs(name, " control requires value on/off (or true/false)"))
        },
        None => Err(concat_strs(name, " control requires value on/off (or true/false)")),
    }
}

/// The duration text of a BREAK step: an optional `duration_ms=` prefix, trimmed.
pub open spec fn break_duration_text(v: Seq<char>) -> Seq<char> {
    if starts_with(v, "duration_ms="@) {
        trim_seq(v.subrange(12, v.len() as int))
    } else {
        trim_seq(v)
    }
}

/// The control command a workflow step names, or why it names none.
pub open spec fn control_named(name: Seq<char>, value: Option<Seq<char>>) -> Result<ControlCommand, Seq<char>> {
    let n = ascii_lower_seq(trim_seq(name));
    if n == "dtr"@ || n == "rts"@ {
        match value {
            Some(v) => match level_named(v) {
                Some(b) => Ok(if n == "dtr"@ { ControlCommand::Dtr(b) } else { ControlCommand::Rts(b) }),
                None => Err(n + " control requires value on/off (or true/false)"@),
            },
            None => Err(n + " control requires value on/off (or true/false)"@),
        }
    } else if n == "break"@ {
        match value {
            None => Err("break control requires duration_ms"@),
            Some(v) => match parsed_u64(break_duration_text(v)) {
                None => Err("break duration_ms must be an integer"@),
                Some(d) => if 1 <= d <= 1000 {
                    Ok(ControlCommand::Break { duration_ms: d })
                } else {
                    Err("break duration_ms must be between 1 and 1000"@)
                },
            },
        }
    } else {
        Err("unknown control operation '"@ + n + "'; expected dtr, rts, or break"@)
    }
}

/// The level words: trimmed and in any ASCII case, `on`, `true`, `1` and
/// `high` mean true, `off`, `false`, `0` and `low` mean false, and nothing
/// else is a level.
pub proof fn law_level_words(v: Seq<char>)
    ensures
        ({
            let w = ascii_lower_seq(trim_seq(v));
            let on = w == "on"@ || w == "true"@ || w == "1"@ || w == "high"@;
            let off = w == "off"@ || w == "false"@ || w == "0"@ || w == "low"@;
            &&& on ==> level_named(v) == Some(true)
            &&& off ==> level_named(v) == Some(false)
            &&& !on && !off ==> level_named(v) is None
        }),
{
    reveal_strlit("on");
    reveal_strlit("true");
    reveal_strlit("1");
    reveal_strlit("high");
    reveal_strlit("off");
    reveal_strlit("false");
    reveal_strlit("0");
    reveal_strlit("low");
    assert("off"@ != "on"@) by {
        if "off"@ == "on"@ {
            assert("off"@.len() == "on"@.len());
            assert("off"@[0] == "on"@[0]);
        }
    }
    assert("off"@ != "true"@) by {
        if "off"@ == "true"@ {
            assert("off"@.len() == "true"@.len());
            assert("off"@[0] == "true"@[0]);
        }
    }
    assert("off"@ != "1"@) by {
        if "off"@ == "1"@ {
            assert("off"@.len() == "1"@.len());
            assert("off"@[0] == "1"@[0]);
        }
    }
    assert("off"@ != "high"@) by {
        if "off"@ == "high"@ {
            assert("off"@.len() == "high"@.len());
            assert("off"@[0] == "high"@[0]);
        }
    }
    assert("false"@ != "on"@) by {
        if "false"@ == "on"@ {
            assert("false"@.len() == "on"@.len());
            assert("false"@[0] == "on"@[0]);
        }
    }
    assert("false"@ != "true"@) by {
        if "false"@ == "true"@ {
            assert("false"@.len() == "true"@.len());
            assert("false"@[0] == "true"@[0]);
        }
    }
    assert("false"@ != "1"@) by {
        if "false"@ == "1"@ {
            assert("false"@.len() == "1"@.len());
            assert("false"@[0] == "1"@[0]);
        }
    }
    assert("false"@ != "high"@) by {
        if "false"@ == "high"@ {
            assert("false"@.len() == "high"@.len());
            assert("false"@[0] == "high"@[0]);
        }
    }
    assert("0"@ != "on"@) by {
        if "0"@ == "on"@ {
            assert("0"@.len() == "on"@.len());
            assert("0"@[0] == "on"@[0]);
        }
    }
    assert("0"@ != "true"@) by {
        if "0"@ == "true"@ {
            assert("0"@.len() == "true"@.len());
            assert("0"@[0] == "true"@[0]);
        }
    }
    assert("0"@ != "1"@) by {
        if "0"@ == "1"@ {
            assert("0"@.len() == "1"@.len());
            assert("0"@[0] == "1"@[0]);
        }
    }
    assert("0"@ != "high"@) by {
        if "0"@ == "high"@ {
            assert("0"@.len() == "high"@.len());
            assert("0"@[0] == "high"@[0]);
        }
    }
    assert("low"@ != "on"@) by {
        if "low"@ == "on"@ {
            assert("low"@.len() == "on"@.len());
            assert("low"@[0] == "on"@[0]);
        }
    }
    assert("low"@ != "true"@) by {
        if "low"@ == "true"@ {
            assert("low"@.len() == "true"@.len());
            assert("low"@[0] == "true"@[0]);
        }
    }
    assert("low"@ != "1"@) by {
        if "low"@ == "1"@ {
            assert("low"@.len() == "1"@.len());
            assert("low"@[0] == "1"@[0]);
        }
    }
    assert("low"@ != "high"@) by {
        if "low"@ == "high"@ {
            assert("low"@.len() == "high"@.len());
            assert("low"@[0] == "high"@[0]);
        }
    }
}

/// A `dtr` or `rts` step (name trimmed, any ASCII case) with a level word
/// sets that line to the level: on/true/1/high raise it, off/false/0/low
/// lower it.
pub proof fn law_line_steps_set_the_named_level(name: Seq<char>, v: Seq<char>)
    ensures
        ({
            let n = ascii_lower_seq(trim_seq(name));
            let w = ascii_lower_seq(trim_seq(v));
            let on = w == "on"@ || w == "true"@ || w == "1"@ || w == "high"@;
            let off = w == "off"@ || w == "false"@ || w == "0"@ || w == "low"@;
            &&& n == "dtr"@ && on ==> control_named(name, Some(v)) == Ok::<ControlCommand, Seq<char>>(ControlCommand::Dtr(true))
            &&& n == "dtr"@ && off ==> control_named(name, Some(v)) == Ok::<ControlCommand, Seq<char>>(ControlCommand::Dtr(false))
            &&& n == "rts"@ && on ==> control_named(name, Some(v)) == Ok::<ControlCommand, Seq<char>>(ControlCommand::Rts(true))
            &&& n == "rts"@ && off ==> control_named(name, Some(v)) == Ok::<ControlCommand, Seq<char>>(ControlCommand::Rts(false))
        }),
{
    law_level_words(v);
    reveal_strlit("dtr");
    reveal_strlit("rts");
    assert("dtr"@ != "rts"@) by {
        if "dtr"@ == "rts"@ {
            assert("dtr"@[0] == "rts"@[0]);
        }
    }
}

/// A `break` step (name trimmed, any ASCII case) needs a duration in
/// milliseconds, written as a decimal number, optionally after
/// `duration_ms=`: from 1 to 1000 it sends a BREAK that long, anything else
/// (none, not a number, 0, over 1000) is refused.
pub proof fn law_break_steps_take_a_bounded_duration(name: Seq<char>, x: Seq<char>)
    requires
        ascii_lower_seq(trim_seq(name)) == "break"@,
    ensures
        control_named(name, None) is Err,
        break_duration_text("duration_ms="@ + x) == trim_seq(x),
        parsed_u64(break_duration_text(x)) matches Some(d) ==> (1 <= d <= 1000 ==> control_named(name, Some(x))
            == Ok::<ControlCommand, Seq<char>>(ControlCommand::Break { duration_ms: d })),
        parsed_u64(break_duration_text(x)) matches Some(d) ==> ((d == 0 || d > 1000) ==> control_named(name, Some(x)) is Err),
        parsed_u64(break_duration_text(x)) is None ==> control_named(name, Some(x)) is Err,
{
    reveal_strlit("break");
    reveal_strlit("dtr");
    reveal_strlit("rts");
    reveal_strlit("duration_ms=");
    assert("break"@ != "dtr"@ && "break"@ != "rts"@) by {
        if "break"@ == "dtr"@ {
            assert("break"@.len() == "dtr"@.len());
        }
        if "break"@ == "rts"@ {
            assert("break"@.len() == "rts"@.len());
        }
    }
    let y = "duration_ms="@ + x;
    assert(y.subrange(0, 12) =~= "duration_ms="@);
    assert(y.subrange(12, y.len() as int) =~= x);
}

/// Translate a workflow control step into a serial control command.
pub fn parse_control_command(name: &str, value: Option<&str>) -> (r: Result<ControlCommand, String>)
    ensures
        match control_named(name@, crate::policy::opt_str_view(value)) {
            Ok(c) => r == Ok::<ControlCommand, String>(c),
            Err(m) => r matches Err(e) && e@ == m,
        },
{
    let t = trim_chars(chars_of(name).as_slice());
    let n = lower_ascii_all(t.as_slice());
    let lowered = string_from_chars(n.as_slice());
    if is_word(n.as_slice(), "dtr") {
        return match parse_level(value, lowered.as_str()) {
            Ok(b) => Ok(ControlCommand::Dtr(b)),
            Err(e) => Err(e),
        };
    }
    if is_word(n.as_slice(), "rts") {
        return match parse_level(value, lowered.as_str()) {
            Ok(b) => Ok(ControlCommand::Rts(b)),
            Err(e) => Err(e),
        };
    }
    if is_word(n.as_slice(), "break") {
        let raw = match value {
            None => {
                return Err(owned("break control requires duration_ms"));
            },
            Some(v) => v,
        };
        let cs = chars_of(raw);
        let prefix = chars_of("duration_ms=");
        let rest: Vec<char> = if chars_start_with(cs.as_slice(), prefix.as_slice()) {
            let mut out: Vec<char> = Vec::new();
            let mut i: usize = 12;
            proof {
                reveal_strlit("duration_ms=");
                assert(out@ =~= cs@.subrange(12, 12));
            }
            while i < cs.len()
                invariant
                    12 <= i <= cs@.len(),
                    out@ == cs@.subrange(12, i as int),
                decreases cs@.len() - i,
            {
                out.push(cs[i]);
                i = i + 1;
            }
            out
        } else {
            cs
        };
        let digits = trim_chars(rest.as_slice());
        let duration_ms = match parse_u64_chars(digits.as_slice()) {
            None => {
                return Err(owned("break duration_ms must be an integer"));
            },
            Some(d) => d,
        };
        let command = ControlCommand::Break { duration_ms };
        return match command.validate() {
            Ok(()) => Ok(command),
            Err(e) => Err(e),
        };
    }
    let a = concat_strs("unknown control operation '", lowered.as_str());
    Err(concat_strs(a.as_str(), "'; expected dtr, rts, or break"))
}

// ---------------------------------------------------------------------------
// Run decisions
// ---------------------------------------------------------------------------

/// A request id is not blank, at most 128 bytes, without control characters.
pub open spec fn request_id_ok(id: Seq<char>) -> bool {
    !is_blank(id) && utf8_len(id) <= 128 && !has_control(id)
}

/// Check a run's request id.
pub fn validate_request_id(request_id: &str) -> (r: Result<(), WorkflowError>)
    ensures
        request_id_ok(request_id@) ==> r is Ok,
        !request_id_ok(request_id@) ==> r == Err::<(), WorkflowError>(WorkflowError::InvalidRequestId),
{
    let cs = chars_of(request_id);
    if blank(cs.as_slice()) || utf8_len_exceeds(cs.as_slice(), 128) || any_control(cs.as_slice()) {
        return Err(WorkflowError::InvalidRequestId);
    }
    Ok(())
}

/// The capability a step needs, if the caller lacks it.
pub open spec fn step_denial(step: WorkflowStep, auth: WorkflowAuthorization) -> Option<WorkflowError> {
    match step {
        WorkflowStep::Lease => if !auth.can_write { Some(WorkflowError::WriteDenied) } else { None },
        WorkflowStep::Send { .. } => if !auth.can_write || auth.lease_token is None {
            Some(WorkflowError::WriteDenied)
        } else {
            None
        },
        WorkflowStep::Expect { .. } => if !auth.can_read { Some(WorkflowError::ReadDenied) } else { None },
        WorkflowStep::Control { .. } => if !auth.can_control || auth.lease_token is None {
            Some(WorkflowError::ControlDenied)
        } else {
            None
        },
        _ => None,
    }
}

/// Each step needs exactly its capability: a lease step needs write; a
/// send needs write and a lease; an expect needs read; a control step needs
/// control and a lease; assertions and waits need nothing. A caller with
/// every capability and a lease is never refused, a refusal always names
/// the missing capability, and a caller without read, write or control may
/// still assert and wait.
pub proof fn law_steps_need_their_capability(step: WorkflowStep, auth: WorkflowAuthorization)
    ensures
        auth.can_read && auth.can_write && auth.can_control && auth.lease_token is Some ==> step_denial(step, auth) is None,
        step_denial(step, auth) matches Some(e) ==> match e {
            WorkflowError::WriteDenied => (step is Lease || step is Send) && (!auth.can_write || (step is Send
                && auth.lease_token is None)),
            WorkflowError::ReadDenied => step is Expect && !auth.can_read,
            WorkflowError::ControlDenied => step is Control && (!auth.can_control || auth.lease_token is None),
            _ => false,
        },
        (step is Assert || step is Wait) ==> step_denial(step, auth) is None,
        step is Lease ==> (step_denial(step, auth) is None <==> auth.can_write),
        step is Send ==> (step_denial(step, auth) is None <==> auth.can_write && auth.lease_token is Some),
        step is Expect ==> (step_denial(step, auth) is None <==> auth.can_read),
        step is Control ==> (step_denial(step, auth) is None <==> auth.can_control && auth.lease_token is Some),
{
}

/// Whether the caller may run `step` now: writing needs write capability
/// and (except to lease) a lease; expecting needs read capability; control
/// needs control capability and a lease.
pub fn authorize_step(step: &WorkflowStep, auth: &WorkflowAuthorization) -> (r: Result<(), WorkflowError>)
    ensures
        match step_denial(*step, *auth) {
            Some(e) => r == Err::<(), WorkflowError>(e),
            None => r is Ok,
        },
{
    match step {
        WorkflowStep::Lease => if !auth.can_write {
            Err(WorkflowError::WriteDenied)
        } else {
            Ok(())
        },
        WorkflowStep::Send { .. } => if !auth.can_write || auth.lease_token.is_none() {
            Err(WorkflowError::WriteDenied)
        } else {
            Ok(())
        },
        WorkflowStep::Expect { .. } => if !auth.can_read {
            Err(WorkflowError::ReadDenied)
        } else {
            Ok(())
        },
        WorkflowStep::Control { .. } => if !auth.can_control || auth.lease_token.is_none() {
            Err(WorkflowError::ControlDenied)
        } else {
            Ok(())
        },
        _ => Ok(()),
    }
}

/// Check an assertion step against the port state.
pub fn check_assertion(assertion: &WorkflowAssertion, state: WorkflowPortState) -> (r: Result<(), WorkflowError>)
    ensures
        match assertion {
            WorkflowAssertion::PortConnected => if state.connected {
                r is Ok
            } else {
                r matches Err(WorkflowError::Assertion(m)) && m@ == "port is disconnected"@
            },
            WorkflowAssertion::ConnectionEpoch { equals } => if state.connection_epoch == *equals {
                r is Ok
            } else {
                r matches Err(WorkflowError::Assertion(m)) && m@ == "expected epoch "@ + decimal(*equals as nat) + ", got "@ + decimal(state.connection_epoch as nat)
            },
        },
{
    match assertion {
        WorkflowAssertion::PortConnected => {
            if !state.connected {
                return Err(WorkflowError::Assertion(owned("port is disconnected")));
            }
            Ok(())
        },
        WorkflowAssertion::ConnectionEpoch { equals } => {
            if state.connection_epoch != *equals {
                let a = concat_strs("expected epoch ", decimal_string(*equals).as_str());
                let b = concat_strs(a.as_str(), ", got ");
                return Err(WorkflowError::Assertion(concat_strs(b.as_str(), decimal_string(state.connection_epoch).as_str())));
            }
            Ok(())
        },
    }
}

/// A run stops when cancelled, or once it has taken longer than `max_ms`
/// (elapsed time in nanoseconds).
pub fn check_cancel(cancelled: bool, elapsed_ns: u128, max_ms: u64) -> (r: Result<(), WorkflowError>)
    ensures
        cancelled ==> r == Err::<(), WorkflowError>(WorkflowError::Cancelled),
        !cancelled && elapsed_ns > max_ms as int * 1_000_000 ==> r == Err::<(), WorkflowError>(WorkflowError::Timeout),
        !cancelled && elapsed_ns <= max_ms as int * 1_000_000 ==> r is Ok,
{
    if cancelled {
        return Err(WorkflowError::Cancelled);
    }
    if elapsed_ns > (max_ms as u128) * 1_000_000 {
        return Err(WorkflowError::Timeout);
    }
    Ok(())
}

/// How long a wait step sleeps, in nanoseconds: its duration, cut to what
/// is left of the run's time budget.
pub fn wait_budget_ns(duration_ms: u64, elapsed_ns: u128, max_ms: u64) -> (ns: u128)
    ensures
        ns as int == ({
            let remaining = if max_ms as int * 1_000_000 > elapsed_ns {
                max_ms as int * 1_000_000 - elapsed_ns
            } else {
                0
            };
            if duration_ms as int * 1_000_000 < remaining {
                duration_ms as int * 1_000_000
            } else {
                remaining
            }
        }),
{
    let budget = (max_ms as u128) * 1_000_000;
    let remaining = if budget > elapsed_ns {
        budget - elapsed_ns
    } else {
        0
    };
    let wanted = (duration_ms as u128) * 1_000_000;
    if wanted < remaining {
        wanted
    } else {
        remaining
    }
}

/// Account a capture of `size` bytes: the run's captures may total at most
/// `max` bytes (the total is held at `usize::MAX`).
pub fn add_capture(total: usize, size: usize, max: usize) -> (r: Result<usize, WorkflowError>)
    ensures
        ({
            let t = if total + size > usize::MAX { usize::MAX as int } else { total + size };
            if t > max {
                r == Err::<usize, WorkflowError>(WorkflowError::BytesLimit { size: t as usize, max })
            } else {
                r == Ok::<usize, WorkflowError>(t as usize)
            }
        }),
{
    let t = total.saturating_add(size);
    if t > max {
        return Err(WorkflowError::BytesLimit { size: t, max });
    }
    Ok(t)
}

/// A run records at most `max` steps of evidence.
pub fn evidence_room(recorded: usize, max: usize) -> (r: Result<(), WorkflowError>)
    ensures
        recorded >= max ==> r == Err::<(), WorkflowError>(WorkflowError::EvidenceLimit),
        recorded < max ==> r is Ok,
{
    if recorded >= max {
        return Err(WorkflowError::EvidenceLimit);
    }
    Ok(())
}

/// The evidence name of a step.
pub fn step_op(step: &WorkflowStep) -> (op: &'static str)
    ensures
        op@ == match *step {
            WorkflowStep::Lease => "lease"@,
            WorkflowStep::Send { .. } => "send"@,
            WorkflowStep::Expect { .. } => "expect"@,
            WorkflowStep::Assert { .. } => "assert"@,
            WorkflowStep::Wait { .. } => "wait"@,
            WorkflowStep::Control { .. } => "control"@,
        },
{
    match step {
        WorkflowStep::Lease => "lease",
        WorkflowStep::Send { .. } => "send",
        WorkflowStep::Expect { .. } => "expect",
        WorkflowStep::Assert { .. } => "assert",
        WorkflowStep::Wait { .. } => "wait",
        WorkflowStep::Control { .. } => "control",
    }
}

/// The human-readable text of a workflow error.
pub open spec fn error_text(e: WorkflowError) -> Seq<char> {
    match e {
        WorkflowError::InvalidDefinition(m) => "workflow definition is invalid: "@ + m@,
        WorkflowError::InvalidLimits => "workflow limits are invalid"@,
        WorkflowError::StepLimit { count, max } => "workflow has "@ + decimal(count as nat) + " steps; maximum is "@ + decimal(max as nat),
        WorkflowError::DurationLimit { duration_ms, max } => "workflow duration "@ + decimal(duration_ms as nat) + "ms exceeds maximum "@ + decimal(max as nat) + "ms"@,
        WorkflowError::BytesLimit { size, max } => "workflow bytes "@ + decimal(size as nat) + " exceed maximum "@ + decimal(max as nat),
        WorkflowError::PatternLimit { size, max } => "workflow pattern "@ + decimal(size as nat) + " bytes exceed maximum "@ + decimal(max as nat),
        WorkflowError::InvalidBytes(m) => "invalid workflow bytes: "@ + m@,
        WorkflowError::ReadDenied => "workflow requires read capability"@,
        WorkflowError::WriteDenied => "workflow requires write capability and a valid lease"@,
        WorkflowError::ControlDenied => "workflow requires control capability and a valid lease"@,
        WorkflowError::RequestInProgress => "workflow request_id is already running"@,
        WorkflowError::InvalidRequestId => "workflow request_id cannot be empty or contain control characters"@,
        WorkflowError::Cancelled => "workflow was cancelled"@,
        WorkflowError::Timeout => "workflow timed out"@,
        WorkflowError::CursorUnavailable(m) => "workflow evidence cursor is unavailable: "@ + m@,
        WorkflowError::EvidenceGap { expected, actual } => "workflow evidence cursor gap: expected seq "@ + decimal(expected as nat) + ", got "@ + decimal(actual as nat),
        WorkflowError::WrongSession => "workflow event belongs to another ledger session or port"@,
        WorkflowError::EpochChanged { expected, actual } => "workflow connection epoch changed from "@ + decimal(expected as nat) + " to "@ + decimal(actual as nat),
        WorkflowError::Disconnected => "workflow connection is not usable"@,
        WorkflowError::RxGap(m) => "workflow RX observation became uncertain: "@ + m@,
        WorkflowError::ExpectTimeout => "workflow expectation timed out"@,
        WorkflowError::Assertion(m) => "workflow assertion failed: "@ + m@,
        WorkflowError::EvidenceLimit => "workflow evidence limit exceeded"@,
        WorkflowError::Runtime(m) => "workflow runtime error: "@ + m@,
    }
}

fn join3(a: &str, n: u64, b: &str) -> (s: String)
    ensures
        s@ == a@ + decimal(n as nat) + b@,
{
    let x = concat_strs(a, decimal_string(n).as_str());
    concat_strs(x.as_str(), b)
}

impl WorkflowError {
    /// The human-readable text of this error.
    pub fn message(&self) -> (s: String)
        ensures
            s@ == error_text(*self),
    {
        match self {
            WorkflowError::InvalidDefinition(m) => concat_strs("workflow definition is invalid: ", m.as_str()),
            WorkflowError::InvalidLimits => owned("workflow limits are invalid"),
            WorkflowError::StepLimit { count, max } => {
                let a = join3("workflow has ", *count as u64, " steps; maximum is ");
                concat_strs(a.as_str(), decimal_string(*max as u64).as_str())
            },
            WorkflowError::DurationLimit { duration_ms, max } => {
                let a = join3("workflow duration ", *duration_ms, "ms exceeds maximum ");
                let b = concat_strs(a.as_str(), decimal_string(*max).as_str());
                concat_strs(b.as_str(), "ms")
            },
            WorkflowError::BytesLimit { size, max } => {
                let a = join3("workflow bytes ", *size as u64, " exceed maximum ");
                concat_strs(a.as_str(), decimal_string(*max as u64).as_str())
            },
            WorkflowError::PatternLimit { size, max } => {
                let a = join3("workflow pattern ", *size as u64, " bytes exceed maximum ");
                concat_strs(a.as_str(), decimal_string(*max as u64).as_str())
            },
            WorkflowError::InvalidBytes(m) => concat_strs("invalid workflow bytes: ", m.as_str()),
            WorkflowError::ReadDenied => owned("workflow requires read capability"),
            WorkflowError::WriteDenied => owned("workflow requires write capability and a valid lease"),
            WorkflowError::ControlDenied => owned("workflow requires control capability and a valid lease"),
            WorkflowError::RequestInProgress => owned("workflow request_id is already running"),
            WorkflowError::InvalidRequestId => owned("workflow request_id cannot be empty or contain control characters"),
            WorkflowError::Cancelled => owned("workflow was cancelled"),
            WorkflowError::Timeout => owned("workflow timed out"),
            WorkflowError::CursorUnavailable(m) => concat_strs("workflow evidence cursor is unavailable: ", m.as_str()),
            WorkflowError::EvidenceGap { expected, actual } => {
                let a = join3("workflow evidence cursor gap: expected seq ", *expected, ", got ");
                concat_strs(a.as_str(), decimal_string(*actual).as_str())
            },
            WorkflowError::WrongSession => owned("workflow event belongs to another ledger session or port"),
            WorkflowError::EpochChanged { expected, actual } => {
                let a = join3("workflow connection epoch changed from ", *expected, " to ");
                concat_strs(a.as_str(), decimal_string(*actual).as_str())
            },
            WorkflowError::Disconnected => owned("workflow connection is not usable"),
            WorkflowError::RxGap(m) => concat_strs("workflow RX observation became uncertain: ", m.as_str()),
            WorkflowError::ExpectTimeout => owned("workflow expectation timed out"),
            WorkflowError::Assertion(m) => concat_strs("workflow assertion failed: ", m.as_str()),
            WorkflowError::EvidenceLimit => owned("workflow evidence limit exceeded"),
            WorkflowError::Runtime(m) => concat_strs("workflow runtime error: ", m.as_str()),
        }
    }
}

/// What a successful run returns, and what a repeated request gets back.
#[derive(Clone, Debug, PartialEq, Eq)]
pub struct WorkflowResult {
    pub request_id: String,
    pub run_id: u128,
    pub actor: String,
    pub status: String,
    pub cursor: EvidenceCursor,
    pub evidence: Vec<StepEvidence>,
}

/// How a run request is admitted.
#[derive(Clone, Copy, Debug, PartialEq, Eq, Structural)]
pub enum RunAdmission {
    /// The request already succeeded; its result is `completed[i]`.
    Replay(usize),
    /// The request is new and now running.
    Start,
}

/// Runs by request id: finished ones with their results, and those running.
#[derive(Debug)]
pub struct RunRegistry {
    pub completed: Vec<(String, WorkflowResult)>,
    pub active: Vec<String>,
}

/// A registry as sequences.
pub struct RunRegistryView {
    pub completed: Seq<(Seq<char>, WorkflowResult)>,
    pub active: Seq<Seq<char>>,
}

impl View for RunRegistry {
    type V = RunRegistryView;

    open spec fn view(&self) -> RunRegistryView {
        RunRegistryView {
            completed: self.completed@.map_values(|e: (String, WorkflowResult)| (e.0@, e.1)),
            active: self.active@.map_values(|a: String| a@),
        }
    }
}

/// `id` has a completed run.
pub open spec fn is_completed(v: RunRegistryView, id: Seq<char>) -> bool {
    exists|i: int| 0 <= i < v.completed.len() && v.completed[i].0 == id
}

/// `id` is running.
pub open spec fn is_active(v: RunRegistryView, id: Seq<char>) -> bool {
    exists|i: int| 0 <= i < v.active.len() && v.active[i] == id
}

/// Where the completed run of `id` is recorded.
pub open spec fn completed_index(v: RunRegistryView, id: Seq<char>) -> int {
    choose|i: int| 0 <= i < v.completed.len() && v.completed[i].0 == id
}

/// No request id is recorded twice.
pub open spec fn registry_ok(v: RunRegistryView) -> bool {
    &&& forall|i: int, j: int| 0 <= i < j < v.completed.len() ==> v.completed[i].0 != v.completed[j].0
    &&& forall|i: int, j: int| 0 <= i < j < v.active.len() ==> v.active[i] != v.active[j]
}

/// Admitting a request: a completed one is replayed, a running one is
/// refused, a new one starts running.
pub open spec fn admit_spec(v: RunRegistryView, id: Seq<char>) -> (Result<RunAdmission, WorkflowError>, RunRegistryView) {
    if is_completed(v, id) {
        (Ok(RunAdmission::Replay(completed_index(v, id) as usize)), v)
    } else if is_active(v, id) {
        (Err(WorkflowError::RequestInProgress), v)
    } else {
        (Ok(RunAdmission::Start), RunRegistryView { active: v.active.push(id), ..v })
    }
}

/// `s` without `x`.
pub open spec fn without(s: Seq<Seq<char>>, x: Seq<char>) -> Seq<Seq<char>>
    decreases s.len(),
{
    if s.len() == 0 {
        s
    } else if s.last() != x {
        without(s.drop_last(), x).push(s.last())
    } else {
        without(s.drop_last(), x)
    }
}

/// Finishing a run: it stops running, and a success is recorded unless one
/// already is.
pub open spec fn finish_spec(v: RunRegistryView, id: Seq<char>, result: Option<WorkflowResult>) -> RunRegistryView {
    let active = without(v.active, id);
    match result {
        Some(r) => if is_completed(v, id) {
            RunRegistryView { active, ..v }
        } else {
            RunRegistryView { completed: v.completed.push((id, r)), active }
        },
        None => RunRegistryView { active, ..v },
    }
}

impl RunRegistry {
    /// An empty registry.
    pub fn new() -> (r: RunRegistry)
        ensures
            r@.completed.len() == 0,
            r@.active.len() == 0,
            registry_ok(r@),
    {
        let r = RunRegistry { completed: Vec::new(), active: Vec::new() };
        assert(r@.completed =~= Seq::<(Seq<char>, WorkflowResult)>::empty());
        assert(r@.active =~= Seq::<Seq<char>>::empty());
        r
    }

    /// Admit a run of `request_id`.
    pub fn admit_run(&mut self, request_id: &str) -> (r: Result<RunAdmission, WorkflowError>)
        requires
            registry_ok(old(self)@),
        ensures
            registry_ok(final(self)@),
            (r, final(self)@) == admit_spec(old(self)@, request_id@),
    {
        let ghost v = self@;
        let mut i: usize = 0;
        while i < self.completed.len()
            invariant
                i <= self.completed@.len(),
                self@ == v,
                registry_ok(v),
                forall|k: int| 0 <= k < i ==> v.completed[k].0 != request_id@,
            decreases self.completed@.len() - i,
        {
            if str_eq(self.completed[i].0.as_str(), request_id) {
                proof {
                    assert(v.completed[i as int].0 == request_id@);
                    let c = completed_index(v, request_id@);
                    assert(c == i) by {
                        if c != i {
                            assert(v.completed[c].0 == request_id@);
                        }
                    }
                }
                return Ok(RunAdmission::Replay(i));
            }
            i = i + 1;
        }
        let mut j: usize = 0;
        while j < self.active.len()
            invariant
                j <= self.active@.len(),
                self@ == v,
                registry_ok(v),
                !is_completed(v, request_id@),
                forall|k: int| 0 <= k < j ==> v.active[k] != request_id@,
            decreases self.active@.len() - j,
        {
            if str_eq(self.active[j].as_str(), request_id) {
                proof {
                    assert(v.active[j as int] == request_id@);
                }
                return Err(WorkflowError::RequestInProgress);
            }
            j = j + 1;
        }
        self.active.push(owned(request_id));
        proof {
            assert(self@.active =~= v.active.push(request_id@));
            assert(self@.completed =~= v.completed);
        }
        Ok(RunAdmission::Start)
    }

    /// The admission of a run request, before any step runs: the request id
    /// and the definition are checked first; then a request that already
    /// succeeded is answered with its recorded result, one in progress is
    /// refused, and a new one is registered as running.
    pub fn request_run(
        &mut self,
        request_id: &str,
        definition: &WorkflowDefinition,
        limits: &WorkflowLimits,
    ) -> (r: Result<RunAdmission, WorkflowError>)
        requires
            registry_ok(old(self)@),
        ensures
            registry_ok(final(self)@),
            !request_id_ok(request_id@) ==> r == Err::<RunAdmission, WorkflowError>(WorkflowError::InvalidRequestId)
                && final(self)@ == old(self)@,
            request_id_ok(request_id@) ==> match definition_fault(*definition, *limits) {
                Some(f) => r matches Err(e) && reports(e, f) && final(self)@ == old(self)@,
                None => (r, final(self)@) == admit_spec(old(self)@, request_id@),
            },
    {
        match validate_request_id(request_id) {
            Err(e) => {
                return Err(e);
            },
            Ok(()) => {},
        }
        match definition.validate(limits) {
            Err(e) => {
                return Err(e);
            },
            Ok(()) => {},
        }
        self.admit_run(request_id)
    }

    /// The recorded result at `i`.
    pub fn completed_result(&self, i: usize) -> (r: &WorkflowResult)
        requires
            i < self.completed@.len(),
        ensures
            *r == self@.completed[i as int].1,
    {
        &self.completed[i].1
    }

    /// Finish the run of `request_id` with its result, if it succeeded.
    pub fn finish_run(&mut self, request_id: &str, result: Option<WorkflowResult>)
        requires
            registry_ok(old(self)@),
        ensures
            registry_ok(final(self)@),
            final(self)@ == finish_spec(old(self)@, request_id@, result),
    {
        let ghost v = self@;
        let mut kept: Vec<String> = Vec::new();
        let mut j: usize = 0;
        while j < self.active.len()
            invariant
                j <= self.active@.len(),
                self@ == v,
                kept@.map_values(|a: String| a@) == without(v.active.subrange(0, j as int), request_id@),
            decreases self.active@.len() - j,
        {
            proof {
                assert(v.active.subrange(0, j + 1).drop_last() =~= v.active.subrange(0, j as int));
            }
            let ghost before = kept@.map_values(|a: String| a@);
            if !str_eq(self.active[j].as_str(), request_id) {
                kept.push(owned(self.active[j].as_str()));
                proof {
                    assert(kept@.map_values(|a: String| a@) =~= before.push(v.active[j as int]));
                }
            }
            j = j + 1;
        }
        proof {
            assert(v.active.subrange(0, j as int) =~= v.active);
        }
        self.active = kept;
        let mut already = false;
        let mut i: usize = 0;
        while i < self.completed.len()
            invariant
                i <= self.completed@.len(),
                self@.completed == v.completed,
                already == exists|k: int| 0 <= k < i && v.completed[k].0 == request_id@,
            decreases self.completed@.len() - i,
        {
            if str_eq(self.completed[i].0.as_str(), request_id) {
                already = true;
                proof {
                    assert(v.completed[i as int].0 == request_id@);
                }
            } else {
                proof {
                    assert(v.completed[i as int].0 != request_id@);
                }
            }
            i = i + 1;
        }
        match result {
            Some(r) => {
                if !already {
                    self.completed.push((owned(request_id), r));
                    proof {
                        assert(self@.completed =~= v.completed.push((request_id@, r)));
                    }
                }
            },
            None => {},
        }
        proof {
            let a = without(v.active, request_id@);
            lemma_without_keeps_unique(v.active, request_id@);
            assert(self@.active == a);
        }
    }
}

proof fn lemma_without_keeps_unique(s: Seq<Seq<char>>, x: Seq<char>)
    requires
        forall|i: int, j: int| 0 <= i < j < s.len() ==> s[i] != s[j],
    ensures
        forall|i: int, j: int| 0 <= i < j < without(s, x).len() ==> without(s, x)[i] != without(s, x)[j],
        forall|i: int| 0 <= i < without(s, x).len() ==> without(s, x)[i] != x,
        forall|i: int| 0 <= i < without(s, x).len() ==> exists|k: int| 0 <= k < s.len() && s[k] == #[trigger] without(s, x)[i],
    decreases s.len(),
{
    if s.len() > 0 {
        let p = s.drop_last();
        lemma_without_keeps_unique(p, x);
        let w = without(p, x);
        if s.last() != x {
            assert forall|i: int| 0 <= i < w.len() implies w[i] != s.last() by {
                let k = choose|k: int| 0 <= k < p.len() && p[k] == w[i];
                assert(s[k] == p[k]);
                assert(s[k] != s[s.len() - 1]);
            }
            assert forall|i: int| 0 <= i < w.push(s.last()).len() implies exists|k: int| 0 <= k < s.len() && s[k] == #[trigger] w.push(s.last())[i] by {
                if i < w.len() {
                    let k = choose|k: int| 0 <= k < p.len() && p[k] == w[i];
                    assert(s[k] == w.push(s.last())[i]);
                } else {
                    assert(s[s.len() - 1] == w.push(s.last())[i]);
                }
            }
        } else {
            assert forall|i: int| 0 <= i < w.len() implies exists|k: int| 0 <= k < s.len() && s[k] == #[trigger] w[i] by {
                let k = choose|k: int| 0 <= k < p.len() && p[k] == w[i];
                assert(s[k] == w[i]);
            }
        }
    }
}

/// A request that already succeeded is answered from the record: admitting
/// it again replays the recorded result of that very request and starts no
/// run, leaving the registry as it was.
pub proof fn law_repeated_request_replays(v: RunRegistryView, id: Seq<char>)
    requires
        registry_ok(v),
        is_completed(v, id),
        v.completed.len() <= usize::MAX,
    ensures
        admit_spec(v, id).0 matches Ok(RunAdmission::Replay(i)) && 0 <= i < v.completed.len() && v.completed[i as int].0 == id,
        admit_spec(v, id).1 == v,
{
    let i = completed_index(v, id);
    assert(0 <= i < v.completed.len() && v.completed[i].0 == id);
}

/// A request id is answered once: while its run is going a repeat is
/// refused; once it succeeded every repeat gets the recorded result back
/// without running again; after a failure it may run again.
pub proof fn law_workflow_requests_are_idempotent(v: RunRegistryView, id: Seq<char>, result: WorkflowResult)
    requires
        registry_ok(v),
        !is_completed(v, id),
        !is_active(v, id),
        v.completed.len() < usize::MAX,
    ensures
        admit_spec(v, id).0 == Ok::<RunAdmission, WorkflowError>(RunAdmission::Start),
        admit_spec(admit_spec(v, id).1, id).0 == Err::<RunAdmission, WorkflowError>(WorkflowError::RequestInProgress),
        ({
            let done = finish_spec(admit_spec(v, id).1, id, Some(result));
            let again = admit_spec(done, id);
            &&& again.0 matches Ok(RunAdmission::Replay(i)) && done.completed[i as int] == (id, result)
            &&& again.1 == done
        }),
        admit_spec(finish_spec(admit_spec(v, id).1, id, None), id).0 == Ok::<RunAdmission, WorkflowError>(
            RunAdmission::Start,
        ),
{
    let v1 = admit_spec(v, id).1;
    assert(v1.active[v.active.len() as int] == id);
    let done = finish_spec(v1, id, Some(result));
    assert(done.completed[v.completed.len() as int].0 == id);
    let i = completed_index(done, id);
    assert(done.completed[i].0 == id);
    assert(i == v.completed.len()) by {
        if i < v.completed.len() {
            assert(v.completed[i].0 == id);
        }
    }
    let failed = finish_spec(v1, id, None);
    lemma_without_keeps_unique(v1.active, id);
    assert(!is_active(failed, id));
}

/// A whole run request is answered once: a valid request for a valid
/// definition that is new starts a run; when that run succeeds with
/// `result`, asking again with the same request id gets `result` back,
/// recorded under that id, without starting anything or changing the
/// registry; when it fails, asking again starts a new run.
pub proof fn law_a_succeeded_request_is_answered_from_the_record(
    v: RunRegistryView,
    id: Seq<char>,
    definition: WorkflowDefinition,
    limits: WorkflowLimits,
    result: WorkflowResult,
)
    requires
        registry_ok(v),
        request_id_ok(id),
        definition_fault(definition, limits) is None,
        !is_completed(v, id),
        !is_active(v, id),
        v.completed.len() < usize::MAX,
    ensures
        admit_spec(v, id).0 == Ok::<RunAdmission, WorkflowError>(RunAdmission::Start),
        ({
            let done = finish_spec(admit_spec(v, id).1, id, Some(result));
            &&& admit_spec(done, id).0 matches Ok(RunAdmission::Replay(i)) && done.completed[i as int] == (id, result)
            &&& admit_spec(done, id).1 == done
            &&& admit_spec(admit_spec(done, id).1, id) == admit_spec(done, id)
        }),
        admit_spec(finish_spec(admit_spec(v, id).1, id, None), id).0 == Ok::<RunAdmission, WorkflowError>(
            RunAdmission::Start,
        ),
{
    law_workflow_requests_are_idempotent(v, id, result);
}

/// The actor a run writes as: generated by the service from the run id,
/// never taken from the definition.
pub fn workflow_actor(run_id: u128) -> (s: String)
    ensures
        s@ == "workflow:"@ + crate::codec::uuid_hyphenated(run_id),
{
    concat_strs("workflow:", crate::codec::uuid_text(run_id).as_str())
}

/// A run starts only on the connection its evidence cursor was taken on.
pub fn check_start_epoch(cursor_epoch: u64, port_epoch: u64) -> (r: Result<(), WorkflowError>)
    ensures
        cursor_epoch == port_epoch ==> r is Ok,
        cursor_epoch != port_epoch ==> r == Err::<(), WorkflowError>(
            WorkflowError::EpochChanged { expected: cursor_epoch, actual: port_epoch },
        ),
{
    if cursor_epoch != port_epoch {
        return Err(WorkflowError::EpochChanged { expected: cursor_epoch, actual: port_epoch });
    }
    Ok(())
}

/// Record that step `step` (operation `op`) succeeded between `start_seq`
/// and `end_seq`, unless the run already holds `max` items of evidence.
pub fn record_evidence(
    evidence: &mut Vec<StepEvidence>,
    max: usize,
    step: usize,
    op: &str,
    start_seq: u64,
    end_seq: u64,
    capture_base64: Option<String>,
) -> (r: Result<(), WorkflowError>)
    ensures
        old(evidence)@.len() >= max ==> r == Err::<(), WorkflowError>(WorkflowError::EvidenceLimit)
            && final(evidence)@ == old(evidence)@,
        old(evidence)@.len() < max ==> r is Ok && final(evidence)@.len() == old(evidence)@.len() + 1
            && final(evidence)@.subrange(0, old(evidence)@.len() as int) == old(evidence)@ && ({
            let e = final(evidence)@.last();
            &&& e.step == step
            &&& e.op@ == op@
            &&& e.status@ == "ok"@
            &&& e.start_seq == Some(start_seq)
            &&& e.end_seq == Some(end_seq)
            &&& e.capture_base64 == capture_base64
        }),
{
    match evidence_room(evidence.len(), max) {
        Err(e) => Err(e),
        Ok(()) => {
            let ghost before = evidence@;
            evidence.push(
                StepEvidence {
                    step,
                    op: owned(op),
                    status: owned("ok"),
                    start_seq: Some(start_seq),
                    end_seq: Some(end_seq),
                    capture_base64,
                },
            );
            assert(evidence@.subrange(0, before.len() as int) =~= before);
            Ok(())
        },
    }
}

/// The base64 text of bytes a step captures.
pub fn capture_text(captured: &[u8]) -> (s: String)
    requires
        captured@.len() <= isize::MAX,
    ensures
        s@ == crate::codec::base64_encode(captured@),
{
    b64_encode(captured)
}

/// The result of a run that completed every step.
pub fn run_result(request_id: &str, run_id: u128, actor: String, cursor: EvidenceCursor, evidence: Vec<StepEvidence>) -> (r: WorkflowResult)
    ensures
        r.request_id@ == request_id@,
        r.run_id == run_id,
        r.actor == actor,
        r.status@ == "succeeded"@,
        r.cursor == cursor,
        r.evidence == evidence,
{
    WorkflowResult { request_id: owned(request_id), run_id, actor, status: owned("succeeded"), cursor, evidence }
}

} // verus!
