//! The canonical v1 ledger event and its validation and filtering rules.
//!
//! Sequence numbers are scoped to a session, start at one, and are assigned
//! by the ledger. Session identifiers are carried as their 128-bit value;
//! timestamps as their RFC 3339 text.

use vstd::prelude::*;

use crate::codec::{b64_decode, b64_encode, base64_decode, rfc3339_valid, rfc3339_parses};
use crate::text::{any_control, chars_of, debug_quoted, debug_text, decimal, has_control, owned, str_eq, utf8_len, utf8_len_exceeds};

verus! {

pub const EVENT_SCHEMA: &'static str = "ohmyserial.event";

pub const EVENT_VERSION: u16 = 1;

pub const DEFAULT_PORT_ID: &'static str = "default";

#[derive(Clone, Debug, PartialEq, Eq)]
pub struct EventEnvelope {
    pub schema: String,
    pub version: u16,
    pub session_id: u128,
    pub seq: u64,
    pub ts_utc: String,
    pub mono_us: u64,
    pub port_id: String,
    pub connection_epoch: u64,
    pub event: EventPayload,
}

#[derive(Clone, Debug, PartialEq, Eq)]
pub enum EventPayload {
    Rx(BytesPayload),
    Tx(TxPayload),
    Connection(ConnectionPayload),
    Control(ControlPayload),
    Gap(GapPayload),
}

#[derive(Clone, Debug, PartialEq, Eq)]
pub struct BytesPayload {
    pub data_base64: String,
    pub len: u64,
}

#[derive(Clone, Debug, PartialEq, Eq)]
pub struct TxPayload {
    pub actor: String,
    pub client_id: Option<String>,
    pub bytes: BytesPayload,
}

#[derive(Clone, Copy, Debug, PartialEq, Eq, Structural)]
pub enum ConnectionState {
    Connected,
    Disconnected,
    Reconnecting,
    OpenFailed,
}

#[derive(Clone, Debug, PartialEq, Eq)]
pub struct ConnectionPayload {
    pub state: ConnectionState,
    pub path: String,
    pub baud: u32,
    pub detail: Option<String>,
}

#[derive(Clone, Debug, PartialEq, Eq)]
pub struct ControlPayload {
    pub actor: Option<String>,
    pub name: String,
    pub value: Option<String>,
}

#[derive(Clone, Debug, PartialEq, Eq)]
pub struct GapPayload {
    pub scope: GapScope,
    pub certainty: GapCertainty,
    pub reason: String,
    pub bytes: Option<BytesPayload>,
    pub actor: Option<String>,
    pub client_ids: Vec<String>,
}

#[derive(Clone, Copy, Debug, PartialEq, Eq, Structural)]
pub enum GapScope {
    RxObservation,
    TxOutcome,
    ClientDelivery,
    Persistence,
}

#[derive(Clone, Copy, Debug, PartialEq, Eq, Structural)]
pub enum GapCertainty {
    Unknown,
    PartialOrUnknown,
    NotDelivered,
}

#[derive(Clone, Copy, Debug, PartialEq, Eq, Hash, Structural)]
pub enum EventType {
    Rx,
    Tx,
    Connection,
    Control,
    Gap,
}

#[derive(Debug, Clone, PartialEq, Eq)]
pub enum SchemaError {
    Schema(String),
    Version(u16),
    PortId(String),
    ZeroSequence,
    Timestamp(String),
    Base64,
    ByteLength { declared: u64, decoded: u64 },
    Actor,
    ClientId,
    ControlName,
    DetailTooLong,
    Connection,
    Gap,
}

/// The kind of a schema error, without its data.
pub enum SchemaFault {
    Schema,
    Version,
    PortId,
    ZeroSequence,
    Timestamp,
    Base64,
    ByteLength { declared: nat, decoded: nat },
    Actor,
    ClientId,
    ControlName,
    DetailTooLong,
    Connection,
    Gap,
}

/// The human-readable text of a schema error.
pub open spec fn schema_message(e: SchemaError) -> Seq<char> {
    match e {
        SchemaError::Schema(v) => "unsupported event schema "@ + debug_quoted(v@),
        SchemaError::Version(v) => "unsupported event version "@ + decimal(v as nat),
        SchemaError::PortId(v) => "v1 port_id must be default, got "@ + debug_quoted(v@),
        SchemaError::ZeroSequence => "event sequence must be greater than zero"@,
        SchemaError::Timestamp(v) => "invalid RFC 3339 UTC timestamp "@ + debug_quoted(v@),
        SchemaError::Base64 => "invalid standard base64 payload"@,
        SchemaError::ByteLength { declared, decoded } => "byte length mismatch: declared "@ + decimal(
            declared as nat,
        ) + ", decoded "@ + decimal(decoded as nat),
        SchemaError::Actor => "actor must be 1..=128 non-control characters"@,
        SchemaError::ClientId => "client_id must be 1..=128 non-control characters when present"@,
        SchemaError::ControlName => "control name must be 1..=128 non-control characters"@,
        SchemaError::DetailTooLong => "event detail exceeds 1024 bytes"@,
        SchemaError::Connection => "connection path must be 1..=1024 bytes and baud must be nonzero"@,
        SchemaError::Gap => "invalid gap range or reason"@,
    }
}

/// The text with which an envelope is refused, if it is.
pub open spec fn envelope_error_text(e: EventEnvelope) -> Option<Seq<char>> {
    match envelope_fault(e) {
        None => None,
        Some(f) => Some(match f {
            SchemaFault::Schema => "unsupported event schema "@ + debug_quoted(e.schema@),
            SchemaFault::Version => "unsupported event version "@ + decimal(e.version as nat),
            SchemaFault::PortId => "v1 port_id must be default, got "@ + debug_quoted(e.port_id@),
            SchemaFault::ZeroSequence => "event sequence must be greater than zero"@,
            SchemaFault::Timestamp => "invalid RFC 3339 UTC timestamp "@ + debug_quoted(e.ts_utc@),
            SchemaFault::Base64 => "invalid standard base64 payload"@,
            SchemaFault::ByteLength { declared, decoded } => "byte length mismatch: declared "@ + decimal(
                declared,
            ) + ", decoded "@ + decimal(decoded),
            SchemaFault::Actor => "actor must be 1..=128 non-control characters"@,
            SchemaFault::ClientId => "client_id must be 1..=128 non-control characters when present"@,
            SchemaFault::ControlName => "control name must be 1..=128 non-control characters"@,
            SchemaFault::DetailTooLong => "event detail exceeds 1024 bytes"@,
            SchemaFault::Connection => "connection path must be 1..=1024 bytes and baud must be nonzero"@,
            SchemaFault::Gap => "invalid gap range or reason"@,
        }),
    }
}

impl SchemaError {
    pub open spec fn fault(&self) -> SchemaFault {
        match self {
            SchemaError::Schema(_) => SchemaFault::Schema,
            SchemaError::Version(_) => SchemaFault::Version,
            SchemaError::PortId(_) => SchemaFault::PortId,
            SchemaError::ZeroSequence => SchemaFault::ZeroSequence,
            SchemaError::Timestamp(_) => SchemaFault::Timestamp,
            SchemaError::Base64 => SchemaFault::Base64,
            SchemaError::ByteLength { declared, decoded } => SchemaFault::ByteLength {
                declared: *declared as nat,
                decoded: *decoded as nat,
            },
            SchemaError::Actor => SchemaFault::Actor,
            SchemaError::ClientId => SchemaFault::ClientId,
            SchemaError::ControlName => SchemaFault::ControlName,
            SchemaError::DetailTooLong => SchemaFault::DetailTooLong,
            SchemaError::Connection => SchemaFault::Connection,
            SchemaError::Gap => SchemaFault::Gap,
        }
    }

    /// The human-readable text of this error.
    pub fn message(&self) -> (s: String)
        ensures
            s@ == schema_message(*self),
    {
        match self {
            SchemaError::Schema(v) => crate::text::concat_strs(
                "unsupported event schema ",
                debug_text(v.as_str()).as_str(),
            ),
            SchemaError::Version(v) => crate::text::concat_strs(
                "unsupported event version ",
                crate::text::decimal_string(*v as u64).as_str(),
            ),
            SchemaError::PortId(v) => crate::text::concat_strs(
                "v1 port_id must be default, got ",
                debug_text(v.as_str()).as_str(),
            ),
            SchemaError::ZeroSequence => owned("event sequence must be greater than zero"),
            SchemaError::Timestamp(v) => crate::text::concat_strs(
                "invalid RFC 3339 UTC timestamp ",
                debug_text(v.as_str()).as_str(),
            ),
            SchemaError::Base64 => owned("invalid standard base64 payload"),
            SchemaError::ByteLength { declared, decoded } => {
                let a = crate::text::concat_strs(
                    "byte length mismatch: declared ",
                    crate::text::decimal_string(*declared).as_str(),
                );
                let b = crate::text::concat_strs(a.as_str(), ", decoded ");
                crate::text::concat_strs(b.as_str(), crate::text::decimal_string(*decoded).as_str())
            },
            SchemaError::Actor => owned("actor must be 1..=128 non-control characters"),
            SchemaError::ClientId => owned(
                "client_id must be 1..=128 non-control characters when present",
            ),
            SchemaError::ControlName => owned("control name must be 1..=128 non-control characters"),
            SchemaError::DetailTooLong => owned("event detail exceeds 1024 bytes"),
            SchemaError::Connection => owned(
                "connection path must be 1..=1024 bytes and baud must be nonzero",
            ),
            SchemaError::Gap => owned("invalid gap range or reason"),
        }
    }
}

/// A label carried in events: non-empty, at most 128 UTF-8 bytes, no control characters.
pub open spec fn label_ok(s: Seq<char>) -> bool {
    s.len() > 0 && utf8_len(s) <= 128 && !has_control(s)
}

/// An optional label is absent or valid.
pub open spec fn opt_label_ok(s: Option<String>) -> bool {
    match s {
        Some(v) => label_ok(v@),
        None => true,
    }
}

/// An optional detail is absent or at most 1024 UTF-8 bytes.
pub open spec fn opt_detail_ok(s: Option<String>) -> bool {
    match s {
        Some(v) => utf8_len(v@) <= 1024,
        None => true,
    }
}

/// The bytes a payload carries, when its text decodes to exactly its declared length.
pub open spec fn payload_bytes(b: BytesPayload) -> Option<Seq<u8>> {
    match base64_decode(b.data_base64@) {
        Some(v) => if v.len() == b.len as nat {
            Some(v)
        } else {
            None
        },
        None => None,
    }
}

/// Why a byte payload is refused, if it is.
pub open spec fn bytes_fault(b: BytesPayload) -> Option<SchemaFault> {
    match base64_decode(b.data_base64@) {
        None => Some(SchemaFault::Base64),
        Some(v) => if v.len() != b.len as nat {
            Some(SchemaFault::ByteLength { declared: b.len as nat, decoded: v.len() })
        } else {
            None
        },
    }
}

/// Why a payload is refused, if it is.
pub open spec fn payload_fault(p: EventPayload) -> Option<SchemaFault> {
    match p {
        EventPayload::Rx(b) => bytes_fault(b),
        EventPayload::Tx(tx) => if !label_ok(tx.actor@) {
            Some(SchemaFault::Actor)
        } else if !opt_label_ok(tx.client_id) {
            Some(SchemaFault::ClientId)
        } else {
            bytes_fault(tx.bytes)
        },
        EventPayload::Connection(c) => if c.path@.len() == 0 || utf8_len(c.path@) > 1024 || c.baud
            == 0 {
            Some(SchemaFault::Connection)
        } else if !opt_detail_ok(c.detail) {
            Some(SchemaFault::DetailTooLong)
        } else {
            None
        },
        EventPayload::Control(c) => if !opt_label_ok(c.actor) {
            Some(SchemaFault::Actor)
        } else if !label_ok(c.name@) {
            Some(SchemaFault::ControlName)
        } else if !opt_detail_ok(c.value) {
            Some(SchemaFault::DetailTooLong)
        } else {
            None
        },
        EventPayload::Gap(g) => if g.reason@.len() == 0 || utf8_len(g.reason@) > 1024
            || !opt_label_ok(g.actor) || exists|i: int|
            0 <= i < g.client_ids@.len() && !label_ok(#[trigger] g.client_ids@[i]@) {
            Some(SchemaFault::Gap)
        } else {
            match g.bytes {
                Some(b) => bytes_fault(b),
                None => None,
            }
        },
    }
}

/// Why an envelope is refused, if it is.
pub open spec fn envelope_fault(e: EventEnvelope) -> Option<SchemaFault> {
    if e.schema@ != "ohmyserial.event"@ {
        Some(SchemaFault::Schema)
    } else if e.version != 1 {
        Some(SchemaFault::Version)
    } else if e.port_id@ != "default"@ {
        Some(SchemaFault::PortId)
    } else if e.seq == 0 {
        Some(SchemaFault::ZeroSequence)
    } else if !rfc3339_valid(e.ts_utc@) {
        Some(SchemaFault::Timestamp)
    } else {
        payload_fault(e.event)
    }
}

/// The type of a payload.
pub open spec fn type_of(p: EventPayload) -> EventType {
    match p {
        EventPayload::Rx(_) => EventType::Rx,
        EventPayload::Tx(_) => EventType::Tx,
        EventPayload::Connection(_) => EventType::Connection,
        EventPayload::Control(_) => EventType::Control,
        EventPayload::Gap(_) => EventType::Gap,
    }
}

fn label_valid(s: &str) -> (r: bool)
    ensures
        r == label_ok(s@),
{
    let cs = chars_of(s);
    cs.len() > 0 && !utf8_len_exceeds(&cs, 128) && !any_control(&cs)
}

fn opt_label_valid(s: &Option<String>) -> (r: bool)
    ensures
        r == opt_label_ok(*s),
{
    match s {
        Some(v) => label_valid(v.as_str()),
        None => true,
    }
}

fn len_exceeds(s: &str, limit: usize) -> (r: bool)
    ensures
        r == (utf8_len(s@) > limit),
{
    let cs = chars_of(s);
    utf8_len_exceeds(&cs, limit)
}

fn opt_detail_valid(s: &Option<String>) -> (r: bool)
    ensures
        r == opt_detail_ok(*s),
{
    match s {
        Some(v) => !len_exceeds(v.as_str(), 1024),
        None => true,
    }
}

impl BytesPayload {
    /// Standard padded base64 of `bytes`, with their count.
    pub fn from_bytes(bytes: &[u8]) -> (p: BytesPayload)
        requires
            bytes@.len() <= isize::MAX,
        ensures
            payload_bytes(p) == Some(bytes@),
            p.len == bytes@.len(),
            p.data_base64@ == crate::codec::base64_encode(bytes@),
    {
        BytesPayload { data_base64: b64_encode(bytes), len: bytes.len() as u64 }
    }

    /// The carried bytes; fails when the text is not standard base64 or its
    /// decoded length differs from the declared one.
    pub fn decode(&self) -> (r: Result<Vec<u8>, SchemaError>)
        ensures
            match bytes_fault(*self) {
                Some(f) => r matches Err(e) && e.fault() == f,
                None => r matches Ok(v) && Some(v@) == payload_bytes(*self),
            },
    {
        match b64_decode(self.data_base64.as_str()) {
            None => Err(SchemaError::Base64),
            Some(v) => {
                if v.len() as u64 != self.len {
                    Err(SchemaError::ByteLength { declared: self.len, decoded: v.len() as u64 })
                } else {
                    Ok(v)
                }
            },
        }
    }

    pub fn validate(&self) -> (r: Result<(), SchemaError>)
        ensures
            match bytes_fault(*self) {
                Some(f) => r matches Err(e) && e.fault() == f,
                None => r is Ok,
            },
    {
        match self.decode() {
            Ok(_) => Ok(()),
            Err(e) => Err(e),
        }
    }
}

impl EventType {
    /// The wire name of this type.
    pub fn as_str(&self) -> (s: &'static str)
        ensures
            s@ == wire_type_name(*self),
    {
        match self {
            EventType::Rx => "rx",
            EventType::Tx => "tx",
            EventType::Connection => "connection",
            EventType::Control => "control",
            EventType::Gap => "gap",
        }
    }
}

/// The wire name of an event type.
pub open spec fn wire_type_name(t: EventType) -> Seq<char> {
    match t {
        EventType::Rx => "rx"@,
        EventType::Tx => "tx"@,
        EventType::Connection => "connection"@,
        EventType::Control => "control"@,
        EventType::Gap => "gap"@,
    }
}

impl EventPayload {
    /// An RX observation of `bytes`.
    pub fn rx(bytes: &[u8]) -> (p: EventPayload)
        requires
            bytes@.len() <= isize::MAX,
        ensures
            p matches EventPayload::Rx(b) && payload_bytes(b) == Some(bytes@) && b.len == bytes@.len()
                && b.data_base64@ == crate::codec::base64_encode(bytes@),
    {
        EventPayload::Rx(BytesPayload::from_bytes(bytes))
    }

    /// A TX event after a serial write has been acknowledged. Only the public
    /// actor label and the bytes are recorded; lease tokens cannot enter it.
    pub fn tx(actor: &str, bytes: &[u8]) -> (p: EventPayload)
        requires
            bytes@.len() <= isize::MAX,
        ensures
            p matches EventPayload::Tx(t) && t.actor@ == actor@ && t.client_id is None
                && payload_bytes(t.bytes) == Some(bytes@) && t.bytes.len == bytes@.len()
                && t.bytes.data_base64@ == crate::codec::base64_encode(bytes@),
    {
        EventPayload::tx_from(actor, None, bytes)
    }

    /// A TX event naming the writing client connection.
    pub fn tx_from(actor: &str, client_id: Option<String>, bytes: &[u8]) -> (p: EventPayload)
        requires
            bytes@.len() <= isize::MAX,
        ensures
            p matches EventPayload::Tx(t) && t.actor@ == actor@ && t.client_id == client_id
                && payload_bytes(t.bytes) == Some(bytes@) && t.bytes.len == bytes@.len()
                && t.bytes.data_base64@ == crate::codec::base64_encode(bytes@),
    {
        EventPayload::Tx(
            TxPayload { actor: owned(actor), client_id, bytes: BytesPayload::from_bytes(bytes) },
        )
    }

    pub fn event_type(&self) -> (t: EventType)
        ensures
            t == type_of(*self),
    {
        match self {
            EventPayload::Rx(_) => EventType::Rx,
            EventPayload::Tx(_) => EventType::Tx,
            EventPayload::Connection(_) => EventType::Connection,
            EventPayload::Control(_) => EventType::Control,
            EventPayload::Gap(_) => EventType::Gap,
        }
    }

    pub fn validate(&self) -> (r: Result<(), SchemaError>)
        ensures
            match payload_fault(*self) {
                Some(f) => r matches Err(e) && e.fault() == f,
                None => r is Ok,
            },
    {
        match self {
            EventPayload::Rx(bytes) => bytes.validate(),
            EventPayload::Tx(tx) => {
                if !label_valid(tx.actor.as_str()) {
                    return Err(SchemaError::Actor);
                }
                if !opt_label_valid(&tx.client_id) {
                    return Err(SchemaError::ClientId);
                }
                tx.bytes.validate()
            },
            EventPayload::Connection(c) => {
                let path = chars_of(c.path.as_str());
                if path.len() == 0 || utf8_len_exceeds(&path, 1024) || c.baud == 0 {
                    return Err(SchemaError::Connection);
                }
                if !opt_detail_valid(&c.detail) {
                    return Err(SchemaError::DetailTooLong);
                }
                Ok(())
            },
            EventPayload::Control(c) => {
                if !opt_label_valid(&c.actor) {
                    return Err(SchemaError::Actor);
                }
                if !label_valid(c.name.as_str()) {
                    return Err(SchemaError::ControlName);
                }
                if !opt_detail_valid(&c.value) {
                    return Err(SchemaError::DetailTooLong);
                }
                Ok(())
            },
            EventPayload::Gap(g) => {
                let reason = chars_of(g.reason.as_str());
                if reason.len() == 0 || utf8_len_exceeds(&reason, 1024) || !opt_label_valid(&g.actor) {
                    return Err(SchemaError::Gap);
                }
                if !labels_valid(&g.client_ids) {
                    return Err(SchemaError::Gap);
                }
                match &g.bytes {
                    Some(b) => b.validate(),
                    None => Ok(()),
                }
            },
        }
    }
}

/// Whether every label in `ids` is a valid label.
fn labels_valid(ids: &Vec<String>) -> (r: bool)
    ensures
        r == forall|i: int| 0 <= i < ids@.len() ==> label_ok(#[trigger] ids@[i]@),
{
    let mut i: usize = 0;
    while i < ids.len()
        invariant
            i <= ids@.len(),
            forall|j: int| 0 <= j < i ==> label_ok(#[trigger] ids@[j]@),
        decreases ids@.len() - i,
    {
        if !label_valid(ids[i].as_str()) {
            assert(!label_ok(ids@[i as int]@));
            return false;
        }
        i = i + 1;
    }
    true
}

impl EventEnvelope {
    /// A canonical envelope for event `seq` of a session on the default port.
    pub fn new(
        session_id: u128,
        seq: u64,
        ts_utc: String,
        mono_us: u64,
        epoch: u64,
        event: EventPayload,
    ) -> (e: EventEnvelope)
        ensures
            e.schema@ == "ohmyserial.event"@,
            e.version == 1,
            e.session_id == session_id,
            e.seq == seq,
            e.ts_utc == ts_utc,
            e.mono_us == mono_us,
            e.port_id@ == "default"@,
            e.connection_epoch == epoch,
            e.event == event,
    {
        EventEnvelope {
            schema: owned(EVENT_SCHEMA),
            version: EVENT_VERSION,
            session_id,
            seq,
            ts_utc,
            mono_us,
            port_id: owned(DEFAULT_PORT_ID),
            connection_epoch: epoch,
            event,
        }
    }

    pub fn event_type(&self) -> (t: EventType)
        ensures
            t == type_of(self.event),
    {
        self.event.event_type()
    }

    /// Check the schema, version, port, sequence, timestamp and payload, in that order.
    pub fn validate(&self) -> (r: Result<(), SchemaError>)
        ensures
            match envelope_fault(*self) {
                Some(f) => r matches Err(e) && e.fault() == f && envelope_error_text(*self) == Some(
                    schema_message(e),
                ),
                None => r is Ok,
            },
    {
        if !str_eq(self.schema.as_str(), EVENT_SCHEMA) {
            return Err(SchemaError::Schema(owned(self.schema.as_str())));
        }
        if self.version != EVENT_VERSION {
            return Err(SchemaError::Version(self.version));
        }
        if !str_eq(self.port_id.as_str(), DEFAULT_PORT_ID) {
            return Err(SchemaError::PortId(owned(self.port_id.as_str())));
        }
        if self.seq == 0 {
            return Err(SchemaError::ZeroSequence);
        }
        if !rfc3339_parses(self.ts_utc.as_str()) {
            return Err(SchemaError::Timestamp(owned(self.ts_utc.as_str())));
        }
        self.event.validate()
    }
}

#[derive(Clone, Debug, PartialEq, Eq)]
pub struct EventFilter {
    /// Accepted event types; empty accepts every type.
    pub event_types: Vec<EventType>,
    pub connection_epoch: Option<u64>,
    pub actor: Option<String>,
    pub contains_bytes: Option<Vec<u8>>,
}

/// The actor an event names, if its type carries one.
pub open spec fn actor_of(p: EventPayload) -> Option<Seq<char>> {
    match p {
        EventPayload::Tx(t) => Some(t.actor@),
        EventPayload::Control(c) => match c.actor {
            Some(a) => Some(a@),
            None => None,
        },
        EventPayload::Gap(g) => match g.actor {
            Some(a) => Some(a@),
            None => None,
        },
        _ => None,
    }
}

/// The bytes an event carries, if its type carries bytes and they decode.
pub open spec fn carried_bytes(p: EventPayload) -> Option<Seq<u8>> {
    match p {
        EventPayload::Rx(b) => payload_bytes(b),
        EventPayload::Tx(t) => payload_bytes(t.bytes),
        EventPayload::Gap(g) => match g.bytes {
            Some(b) => payload_bytes(b),
            None => None,
        },
        _ => None,
    }
}

/// `needle` occurs in `haystack` as a contiguous run (the empty needle always does).
pub open spec fn occurs_in(needle: Seq<u8>, haystack: Seq<u8>) -> bool {
    needle.len() == 0 || exists|i: int|
        0 <= i && i + needle.len() <= haystack.len() && #[trigger] haystack.subrange(
            i,
            i + needle.len(),
        ) == needle
}

/// Whether a filter accepts an event: every present criterion must hold.
pub open spec fn filter_accepts(f: EventFilter, e: EventEnvelope) -> bool {
    &&& (f.event_types@.len() == 0 || f.event_types@.contains(type_of(e.event)))
    &&& (f.connection_epoch is None || f.connection_epoch == Some(e.connection_epoch))
    &&& (f.actor is None || actor_of(e.event) == Some(f.actor.unwrap()@))
    &&& (f.contains_bytes is None || (carried_bytes(e.event) is Some && occurs_in(
        f.contains_bytes.unwrap()@,
        carried_bytes(e.event).unwrap(),
    )))
}

/// Whether `needle` occurs in `haystack`.
pub fn bytes_occur(needle: &[u8], haystack: &[u8]) -> (r: bool)
    ensures
        r == occurs_in(needle@, haystack@),
{
    if needle.len() == 0 {
        return true;
    }
    if needle.len() > haystack.len() {
        return false;
    }
    let mut i: usize = 0;
    let last: usize = haystack.len() - needle.len();
    while i <= last
        invariant
            needle@.len() > 0,
            needle@.len() <= haystack@.len(),
            last == haystack@.len() - needle@.len(),
            i <= last + 1,
            last < usize::MAX,
            haystack@.len() <= usize::MAX,
            forall|k: int|
                0 <= k < i ==> #[trigger] haystack@.subrange(k, k + needle@.len()) != needle@,
        decreases haystack@.len() - i,
    {
        let mut j: usize = 0;
        let mut same = true;
        while j < needle.len()
            invariant
                i <= last,
                last == haystack@.len() - needle@.len(),
                needle@.len() <= haystack@.len(),
                haystack@.len() <= usize::MAX,
                j <= needle@.len(),
                same == forall|m: int| 0 <= m < j ==> haystack@[i + m] == needle@[m],
            decreases needle@.len() - j,
        {
            if haystack[i + j] != needle[j] {
                same = false;
            }
            j = j + 1;
        }
        if same {
            assert(haystack@.subrange(i as int, i + needle@.len()) =~= needle@);
            return true;
        }
        assert(haystack@.subrange(i as int, i + needle@.len()) != needle@) by {
            let m = choose|m: int| 0 <= m < needle@.len() && haystack@[i + m] != needle@[m];
            assert(haystack@.subrange(i as int, i + needle@.len())[m] != needle@[m]);
        }
        i = i + 1;
    }
    assert forall|k: int|
        0 <= k && k + needle@.len() <= haystack@.len() implies #[trigger] haystack@.subrange(
        k,
        k + needle@.len(),
    ) != needle@ by {}
    false
}

fn actor_is(p: &EventPayload, actor: &str) -> (r: bool)
    ensures
        r == (actor_of(*p) == Some(actor@)),
{
    match p {
        EventPayload::Tx(t) => str_eq(t.actor.as_str(), actor),
        EventPayload::Control(c) => match &c.actor {
            Some(a) => str_eq(a.as_str(), actor),
            None => false,
        },
        EventPayload::Gap(g) => match &g.actor {
            Some(a) => str_eq(a.as_str(), actor),
            None => false,
        },
        _ => false,
    }
}

fn carried(p: &EventPayload) -> (r: Option<Vec<u8>>)
    ensures
        match carried_bytes(*p) {
            Some(b) => r matches Some(v) && v@ == b,
            None => r is None,
        },
{
    match p {
        EventPayload::Rx(b) => match b.decode() {
            Ok(v) => Some(v),
            Err(_) => None,
        },
        EventPayload::Tx(t) => match t.bytes.decode() {
            Ok(v) => Some(v),
            Err(_) => None,
        },
        EventPayload::Gap(g) => match &g.bytes {
            Some(b) => match b.decode() {
                Ok(v) => Some(v),
                Err(_) => None,
            },
            None => None,
        },
        _ => None,
    }
}

impl EventFilter {
    pub fn matches(&self, event: &EventEnvelope) -> (r: bool)
        ensures
            r == filter_accepts(*self, *event),
    {
        if self.event_types.len() > 0 {
            let t = event.event_type();
            let mut found = false;
            let mut i: usize = 0;
            while i < self.event_types.len()
                invariant
                    i <= self.event_types@.len(),
                    found == exists|j: int| 0 <= j < i && self.event_types@[j] == t,
                decreases self.event_types@.len() - i,
            {
                if self.event_types[i] == t {
                    found = true;
                }
                i = i + 1;
            }
            if !found {
                return false;
            }
            assert(self.event_types@.contains(t));
        }
        match self.connection_epoch {
            Some(epoch) => {
                if event.connection_epoch != epoch {
                    return false;
                }
            },
            None => {},
        }
        match &self.actor {
            Some(actor) => {
                if !actor_is(&event.event, actor.as_str()) {
                    return false;
                }
            },
            None => {},
        }
        match &self.contains_bytes {
            Some(needle) => match carried(&event.event) {
                Some(hay) => bytes_occur(needle.as_slice(), hay.as_slice()),
                None => false,
            },
            None => true,
        }
    }
}

/// Two payloads carry the same data (lists of client identifiers compared by content).
pub open spec fn same_payload(a: EventPayload, b: EventPayload) -> bool {
    match (a, b) {
        (EventPayload::Gap(x), EventPayload::Gap(y)) => {
            &&& x.scope == y.scope
            &&& x.certainty == y.certainty
            &&& x.reason == y.reason
            &&& x.bytes == y.bytes
            &&& x.actor == y.actor
            &&& x.client_ids@ == y.client_ids@
        },
        _ => a == b,
    }
}

/// Two envelopes carry the same data.
pub open spec fn same_event(a: EventEnvelope, b: EventEnvelope) -> bool {
    &&& a.schema == b.schema
    &&& a.version == b.version
    &&& a.session_id == b.session_id
    &&& a.seq == b.seq
    &&& a.ts_utc == b.ts_utc
    &&& a.mono_us == b.mono_us
    &&& a.port_id == b.port_id
    &&& a.connection_epoch == b.connection_epoch
    &&& same_payload(a.event, b.event)
}

fn dup_opt_string(s: &Option<String>) -> (r: Option<String>)
    ensures
        r == *s,
{
    match s {
        Some(v) => Some(v.clone()),
        None => None,
    }
}

fn dup_opt_bytes(b: &Option<BytesPayload>) -> (r: Option<BytesPayload>)
    ensures
        r == *b,
{
    match b {
        Some(v) => Some(v.duplicate()),
        None => None,
    }
}

fn dup_strings(v: &Vec<String>) -> (r: Vec<String>)
    ensures
        r@ == v@,
{
    let mut out: Vec<String> = Vec::new();
    let mut i: usize = 0;
    while i < v.len()
        invariant
            i <= v@.len(),
            out@ == v@.subrange(0, i as int),
        decreases v@.len() - i,
    {
        out.push(v[i].clone());
        i = i + 1;
    }
    assert(out@ =~= v@);
    out
}

impl BytesPayload {
    /// A copy of this payload.
    pub fn duplicate(&self) -> (r: Self)
        ensures
            r == *self,
    {
        BytesPayload { data_base64: self.data_base64.clone(), len: self.len }
    }
}

impl EventPayload {
    /// A copy of this payload.
    pub fn duplicate(&self) -> (r: Self)
        ensures
            same_payload(r, *self),
    {
        match self {
            EventPayload::Rx(b) => EventPayload::Rx(b.duplicate()),
            EventPayload::Tx(t) => EventPayload::Tx(
                TxPayload {
                    actor: t.actor.clone(),
                    client_id: dup_opt_string(&t.client_id),
                    bytes: t.bytes.duplicate(),
                },
            ),
            EventPayload::Connection(c) => EventPayload::Connection(
                ConnectionPayload {
                    state: c.state,
                    path: c.path.clone(),
                    baud: c.baud,
                    detail: dup_opt_string(&c.detail),
                },
            ),
            EventPayload::Control(c) => EventPayload::Control(
                ControlPayload {
                    actor: dup_opt_string(&c.actor),
                    name: c.name.clone(),
                    value: dup_opt_string(&c.value),
                },
            ),
            EventPayload::Gap(g) => EventPayload::Gap(
                GapPayload {
                    scope: g.scope,
                    certainty: g.certainty,
                    reason: g.reason.clone(),
                    bytes: dup_opt_bytes(&g.bytes),
                    actor: dup_opt_string(&g.actor),
                    client_ids: dup_strings(&g.client_ids),
                },
            ),
        }
    }
}

impl EventEnvelope {
    /// A copy of this envelope.
    pub fn duplicate(&self) -> (r: Self)
        ensures
            same_event(r, *self),
    {
        EventEnvelope {
            schema: self.schema.clone(),
            version: self.version,
            session_id: self.session_id,
            seq: self.seq,
            ts_utc: self.ts_utc.clone(),
            mono_us: self.mono_us,
            port_id: self.port_id.clone(),
            connection_epoch: self.connection_epoch,
            event: self.event.duplicate(),
        }
    }
}

impl Default for EventFilter {
    fn default() -> (f: Self)
        ensures
            f.event_types@.len() == 0,
            f.connection_epoch is None,
            f.actor is None,
            f.contains_bytes is None,
    {
        EventFilter { event_types: Vec::new(), connection_epoch: None, actor: None, contains_bytes: None }
    }
}

} // verus!
