//! The errors of the driver.

use vstd::prelude::*;

verus! {

/// Every way an operation of the driver can fail.
#[derive(Debug, Clone, Copy, PartialEq, Eq, Structural)]
pub enum Error {
    NotSupportedForDeviceSource,
    ReadingQueryResponse,
    /// The device echoed the command but did not follow it with a parameter list.
    ParseResponse,
    NonUTF8,
    /// A byte of a frame, or the flush after it, could not be handed to the link.
    SendCommand,
    SourceNotKnown,
    BooleanParse,
    OutOfRange,
    InvalidString,
    /// An unexpected byte arrived inside the parameter list, or the list had the wrong shape.
    IllFormedReponse,
    CannotConvert,
    /// No complete reply arrived after the last permitted send of the query.
    Timeout,
    /// The link failed, or it delivered a byte that belongs to no token of the protocol.
    Read,
    Write,
    Unimplemented,
    /// The parameter list did not fit in the response buffer.
    ResponseTooLong,
}

} // verus!
