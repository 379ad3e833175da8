//! Calls into the encoding crates the ledger relies on: standard padded
//! base64, RFC 3339 timestamps and SHA-256 digests.

use vstd::prelude::*;

use base64::Engine as _;
use sha2::Digest as _;

use crate::text::{hex_char, hex_fixed, hex_fixed_chars, string_from_chars};

verus! {

/// What `base64::engine::general_purpose::STANDARD.encode` returns for `bytes`.
pub uninterp spec fn base64_encode(bytes: Seq<u8>) -> Seq<char>;

/// What `STANDARD.decode` returns for `text`: `None` when it is not canonical
/// padded standard base64.
pub uninterp spec fn base64_decode(text: Seq<char>) -> Option<Seq<u8>>;

/// Whether `chrono::DateTime::parse_from_rfc3339` accepts `text`.
pub uninterp spec fn rfc3339_valid(text: Seq<char>) -> bool;

/// What `sha2::Sha256::digest` returns for `bytes`.
pub uninterp spec fn sha256(bytes: Seq<u8>) -> Seq<u8>;

/// `STANDARD.encode(bytes)`. The contract names the result and states that
/// decoding it gives the input back; it says nothing else of the text.
#[verifier::external_body]
pub fn b64_encode(bytes: &[u8]) -> (r: String)
    requires
        bytes@.len() <= isize::MAX,
    ensures
        r@ == base64_encode(bytes@),
        base64_decode(r@) == Some(bytes@),
{
    base64::engine::general_purpose::STANDARD.encode(bytes)
}

/// `STANDARD.decode(text)`, with any decode error mapped to `None`. The
/// contract ties the result to the text through the name `base64_decode` only.
#[verifier::external_body]
pub fn b64_decode(text: &str) -> (r: Option<Vec<u8>>)
    ensures
        match base64_decode(text@) {
            Some(b) => r matches Some(v) && v@ == b,
            None => r is None,
        },
{
    match base64::engine::general_purpose::STANDARD.decode(text) {
        Ok(v) => Some(v),
        Err(_) => None,
    }
}

/// Whether `chrono::DateTime::parse_from_rfc3339(text)` succeeds.
#[verifier::external_body]
pub fn rfc3339_parses(text: &str) -> (r: bool)
    ensures
        r == rfc3339_valid(text@),
{
    chrono::DateTime::parse_from_rfc3339(text).is_ok()
}

/// `sha2::Sha256::digest(bytes)`: 32 bytes, tied to the input through the name `sha256`.
#[verifier::external_body]
pub fn sha256_digest(bytes: &[u8]) -> (r: Vec<u8>)
    ensures
        r@ == sha256(bytes@),
        r@.len() == 32,
{
    sha2::Sha256::digest(bytes).to_vec()
}

/// `std::time::SystemTime`, carried opaquely.
#[verifier::external_type_specification]
#[verifier::external_body]
pub struct ExSystemTime(std::time::SystemTime);

/// `SystemTime::now()`. Nothing is stated of the value: it is the clock's.
#[verifier::external_body]
fn system_now() -> (t: std::time::SystemTime)
{
    std::time::SystemTime::now()
}

/// `t.duration_since(UNIX_EPOCH)` as whole seconds and the nanoseconds
/// beyond them; `None` when `t` is before the epoch. Nothing is stated of
/// the value: `t` is opaque here.
#[verifier::external_body]
fn epoch_offset(t: &std::time::SystemTime) -> (r: Option<(u64, u32)>)
    ensures
        r matches Some((_, nanos)) ==> nanos < 1_000_000_000,
{
    match t.duration_since(std::time::UNIX_EPOCH) {
        Ok(d) => Some((d.as_secs(), d.subsec_nanos())),
        Err(_) => None,
    }
}

/// The last second of year 9999, UTC: up to it chrono writes a four-digit
/// year, which its RFC 3339 parser reads back.
pub const LAST_FOUR_DIGIT_SECOND: u64 = 253_402_300_799;

/// `DateTime::<Utc>::from_timestamp(secs, nanos)` written with
/// `to_rfc3339_opts(SecondsFormat::Micros, true)`, for an instant in years
/// 1970..=9999. The contract states only that chrono's RFC 3339 parser
/// accepts the text it formats there; the text itself is left free.
#[verifier::external_body]
fn rfc3339_at(secs: i64, nanos: u32) -> (r: Option<String>)
    requires
        0 <= secs <= LAST_FOUR_DIGIT_SECOND,
        nanos < 1_000_000_000,
    ensures
        r matches Some(s) ==> rfc3339_valid(s@),
{
    chrono::DateTime::from_timestamp(secs, nanos).map(|t| t.to_rfc3339_opts(chrono::SecondsFormat::Micros, true))
}

/// The current UTC time in RFC 3339 with microseconds and `Z`, as
/// `Utc::now().to_rfc3339_opts(SecondsFormat::Micros, true)` writes it;
/// `None` when the clock reads before the Unix epoch (where `Utc::now`
/// would panic) or after year 9999 (where the text would carry a signed
/// five-digit year that RFC 3339 parsers refuse).
pub fn utc_now_rfc3339() -> (r: Option<String>)
    ensures
        r matches Some(s) ==> rfc3339_valid(s@),
{
    let now = system_now();
    match epoch_offset(&now) {
        None => None,
        Some((secs, nanos)) => {
            if secs > LAST_FOUR_DIGIT_SECOND {
                None
            } else {
                rfc3339_at(secs as i64, nanos)
            }
        },
    }
}

/// What `uuid::Uuid::from_u128(id).to_string()` returns: the 32 lowercase
/// hexadecimal digits of `id`, with hyphens after the 8th, 12th, 16th and
/// 20th digit.
pub open spec fn uuid_hyphenated(id: u128) -> Seq<char> {
    let h = uuid_simple(id);
    h.subrange(0, 8) + "-"@ + h.subrange(8, 12) + "-"@ + h.subrange(12, 16) + "-"@ + h.subrange(16, 20) + "-"@
        + h.subrange(20, 32)
}

/// The hyphenated text of the identifier `id`, `Uuid::from_u128(id).to_string()`.
#[verifier::external_body]
pub fn uuid_text(id: u128) -> (r: String)
    ensures
        r@ == uuid_hyphenated(id),
{
    uuid::Uuid::from_u128(id).to_string()
}

/// `getrandom::fill` of sixteen bytes, read as a big-endian `u128`; `None`
/// when the operating system gives no random bytes. Nothing is stated of
/// the value: it comes from the random source.
#[verifier::external_body]
fn random_u128() -> (r: Option<u128>)
{
    let mut bytes = [0u8; 16];
    match getrandom::fill(&mut bytes) {
        Ok(()) => Some(u128::from_be_bytes(bytes)),
        Err(_) => None,
    }
}

/// The version-4 identifier `Uuid::new_v4` makes of 128 random bits: the
/// version nibble set to 4 and the variant to RFC 4122.
pub open spec fn v4_bits(random: u128) -> u128 {
    (random & 0xFFFF_FFFF_FFFF_4FFF_BFFF_FFFF_FFFF_FFFF) | 0x4000_8000_0000_0000_0000
}

/// `Builder::from_random_bytes(random.to_be_bytes()).into_uuid().as_u128()`:
/// the uuid crate sets the version nibble to 4 and the variant to RFC 4122,
/// which is the mask `Uuid::new_v4` applies.
#[verifier::external_body]
fn uuid_v4(random: u128) -> (r: u128)
    ensures
        r == v4_bits(random),
{
    uuid::Builder::from_random_bytes(random.to_be_bytes()).into_uuid().as_u128()
}

/// A lowercase hexadecimal digit.
pub open spec fn is_lower_hex(c: char) -> bool {
    ('0' <= c && c <= '9') || ('a' <= c && c <= 'f')
}

/// `Uuid::from_u128(v).as_simple().to_string()`: the 32 lowercase
/// hexadecimal digits of `v`, most significant first.
pub open spec fn uuid_simple(v: u128) -> Seq<char> {
    hex_fixed((v / 0x1_0000_0000_0000_0000) as nat, 16) + hex_fixed((v % 0x1_0000_0000_0000_0000) as nat, 16)
}

/// `hex_fixed(n, w)` has `w` lowercase hexadecimal digits.
proof fn lemma_hex_fixed_digits(n: nat, w: nat)
    ensures
        hex_fixed(n, w).len() == w,
        forall|i: int| 0 <= i < w ==> is_lower_hex(#[trigger] hex_fixed(n, w)[i]),
    decreases w,
{
    if w > 0 {
        lemma_hex_fixed_digits(n / 16, (w - 1) as nat);
        let d = n % 16;
        assert(is_lower_hex(hex_char(d))) by {
            if d < 10 {
                assert(hex_char(d) == ((d + 48) as u32) as char);
            } else {
                assert(hex_char(d) == ((d + 87) as u32) as char);
            }
        }
        assert forall|i: int| 0 <= i < w implies is_lower_hex(#[trigger] hex_fixed(n, w)[i]) by {
            if i < w - 1 {
                assert(hex_fixed(n, w)[i] == hex_fixed(n / 16, (w - 1) as nat)[i]);
            }
        }
    }
}

/// A fresh random identifier, as `Uuid::new_v4().as_u128()` makes it;
/// `None` when the operating system gives no random bytes, where
/// `Uuid::new_v4` would panic.
pub fn new_session_id() -> (r: Option<u128>)
    ensures
        r matches Some(v) ==> exists|x: u128| v == v4_bits(x),
{
    match random_u128() {
        Some(x) => Some(uuid_v4(x)),
        None => None,
    }
}

/// A fresh random bearer credential, as
/// `Uuid::new_v4().as_simple().to_string()` writes it: 32 lowercase
/// hexadecimal digits. `None` when the operating system gives no random
/// bytes, where `Uuid::new_v4` would panic.
pub fn new_bearer_token() -> (r: Option<String>)
    ensures
        r matches Some(t) ==> {
            &&& t@.len() == 32
            &&& forall|i: int| 0 <= i < 32 ==> is_lower_hex(#[trigger] t@[i])
            &&& exists|x: u128| t@ == uuid_simple(v4_bits(x))
        },
{
    let v = match new_session_id() {
        Some(v) => v,
        None => {
            return None;
        },
    };
    let hi = (v / 0x1_0000_0000_0000_0000) as u64;
    let lo = (v % 0x1_0000_0000_0000_0000) as u64;
    let a = hex_fixed_chars(hi, 16);
    let b = hex_fixed_chars(lo, 16);
    let mut text = string_from_chars(a.as_slice());
    let tail = string_from_chars(b.as_slice());
    text.append(tail.as_str());
    proof {
        lemma_hex_fixed_digits(hi as nat, 16);
        lemma_hex_fixed_digits(lo as nat, 16);
        assert(text@ == uuid_simple(v));
        assert forall|i: int| 0 <= i < 32 implies is_lower_hex(#[trigger] text@[i]) by {
            if i < 16 {
                assert(text@[i] == hex_fixed(hi as nat, 16)[i]);
            } else {
                assert(text@[i] == hex_fixed(lo as nat, 16)[i - 16]);
            }
        }
    }
    Some(text)
}

} // verus!
