//! Identifiers and errors shared by every part of the display server.

use vstd::prelude::*;

verus! {

/// Opaque handle naming an object of the display server (a surface, a
/// window, a scene node, an output, a client, ...).
///
/// The raw value is a plain integer so that handles can be used as map keys
/// and compared in contracts. Every manager hands out the handles of the
/// objects it creates from its own monotone counter, so a handle it returns
/// is never one it has handed out before.
#[derive(Clone, Copy, Debug, PartialEq, Eq, Structural, Hash)]
pub struct ObjectId(pub u64);

impl ObjectId {
    /// Wraps a raw value as a handle.
    pub fn from_raw(raw: u64) -> (id: ObjectId)
        ensures
            id.0 == raw,
    {
        ObjectId(raw)
    }

    /// The raw value of the handle.
    pub fn raw(&self) -> (raw: u64)
        ensures
            raw == self.0,
    {
        self.0
    }
}

/// Errors reported by the display server.
#[derive(Debug)]
pub enum Error {
    /// A request that would weaken a security boundary (illegal session
    /// transition, disabled debug mode, ...).
    Security(String),
    /// A request naming an object that does not exist, or that the object's
    /// state does not allow.
    Device(String),
    /// Anything else.
    Unknown(String),
}

/// True when `e` is a `Device` error carrying message `msg`.
pub open spec fn is_device_error(e: Error, msg: Seq<char>) -> bool {
    e matches Error::Device(m) && m@ == msg
}

/// True when `e` is a `Security` error carrying message `msg`.
pub open spec fn is_security_error(e: Error, msg: Seq<char>) -> bool {
    e matches Error::Security(m) && m@ == msg
}

/// A `Device` error with the given message.
pub fn device_error(msg: &str) -> (e: Error)
    ensures
        is_device_error(e, msg@),
{
    Error::Device(msg.to_string())
}

/// A `Security` error with the given message.
pub fn security_error(msg: &str) -> (e: Error)
    ensures
        is_security_error(e, msg@),
{
    Error::Security(msg.to_string())
}

} // verus!
