//! Options of the COM-to-TCP bridge and its I/O error classification.
//!
//! The bridge threads themselves run in the host program.

use vstd::prelude::*;

use crate::config::{settings_fault, SerialSettings};
use crate::text::concat_strs;

verus! {

/// `std::io::Error`, carried opaquely.
#[verifier::external_type_specification]
#[verifier::external_body]
pub struct ExIoError(std::io::Error);

/// The I/O error kinds the bridge tells apart.
#[derive(Debug, Clone, Copy, PartialEq, Eq, Structural)]
pub enum IoKind {
    TimedOut,
    WouldBlock,
    Other,
}

/// What `error.kind()` is, reduced to the kinds the bridge tells apart.
pub uninterp spec fn io_error_kind(error: std::io::Error) -> IoKind;

/// `error.kind()`, reduced to the kinds the bridge tells apart; the result
/// is named after the error.
#[verifier::external_body]
fn io_kind(error: &std::io::Error) -> (k: IoKind)
    ensures
        k == io_error_kind(*error),
{
    match error.kind() {
        std::io::ErrorKind::TimedOut => IoKind::TimedOut,
        std::io::ErrorKind::WouldBlock => IoKind::WouldBlock,
        _ => IoKind::Other,
    }
}

/// A read or write that timed out or would block is retried; every other
/// error ends the bridge.
pub fn is_timeout_kind(kind: IoKind) -> (r: bool)
    ensures
        r == (kind is TimedOut || kind is WouldBlock),
{
    match kind {
        IoKind::TimedOut | IoKind::WouldBlock => true,
        IoKind::Other => false,
    }
}

/// Whether `error` is a timeout the bridge retries: its kind is `TimedOut`
/// or `WouldBlock`.
pub fn is_timeout(error: &std::io::Error) -> (r: bool)
    ensures
        r == (io_error_kind(*error) is TimedOut || io_error_kind(*error) is WouldBlock),
{
    is_timeout_kind(io_kind(error))
}

/// Options for one raw COM-to-TCP bridge.
#[derive(Debug, Clone)]
pub struct ComBridgeOptions {
    pub device: String,
    pub tcp: String,
    pub settings: SerialSettings,
}

impl ComBridgeOptions {
    /// The bridge refuses settings a port cannot be opened with.
    pub fn validate(&self) -> (r: Result<(), String>)
        ensures
            match settings_fault(self.settings) {
                Some(m) => r matches Err(e) && e@ == "invalid bridge serial settings: "@ + m,
                None => r is Ok,
            },
    {
        match self.settings.validate() {
            Ok(()) => Ok(()),
            Err(e) => Err(concat_strs("invalid bridge serial settings: ", e.as_str())),
        }
    }
}

} // verus!
