//! The error kinds raised by the codec, the dispatcher and the registry.

use vstd::prelude::*;

verus! {

/// Error raised while receiving, decoding or dispatching a message.
///
/// `Io` carries the raw OS error number of a failed send or receive,
/// so that callers outside the library can funnel every failure
/// through one type.
#[derive(Debug, Clone, Copy, PartialEq, Eq, Structural)]
pub enum MessageError {
    /// The send buffer or the staged-fd queue would overflow.
    OutOfMemory,
    /// A malformed frame or an unparseable argument list.
    BadFormat,
    /// A semantically invalid request, such as binding a global
    /// that does not exist.
    BadRequest,
    /// Object id 0 where it is not allowed, or an unknown id.
    InvalidObject,
    /// An opcode past the interface's request count.
    InvalidOpcode,
    /// A low-level OS error, by its errno value.
    Io(i32),
}

impl MessageError {
    /// A short description of the error, for logging.
    pub fn describe(&self) -> (r: &'static str) {
        match self {
            MessageError::OutOfMemory => "message did not fit in the buffer",
            MessageError::BadFormat => "message had incorrect format",
            MessageError::BadRequest => "request was semantically invalid",
            MessageError::InvalidObject => "message had an invalid object id",
            MessageError::InvalidOpcode => "message had an invalid opcode for the object",
            MessageError::Io(_) => "operating system error",
        }
    }
}

} // verus!
