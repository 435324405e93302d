//! The byte-oriented link the driver talks through.

use vstd::prelude::*;

verus! {

/// Why the link could not complete an operation.
#[derive(Debug, Clone, Copy, PartialEq, Eq, Structural)]
pub enum LinkError {
    /// No byte is available yet; asking again later may succeed.
    WouldBlock,
    /// The link itself failed.
    Fault,
}

/// What one poll of the link for an incoming byte produced.
pub type Received = Result<u8, LinkError>;

/// A byte-oriented serial link to the board.
///
/// `write_byte` and `flush` return once the operation is done, or with `Fault`.
/// `read_byte` may return at once with `WouldBlock` when no byte has arrived.
/// Nothing is assumed of what an implementation returns: the driver is correct
/// for every answer the link gives.
pub trait SerialLink {
    fn read_byte(&mut self) -> Result<u8, LinkError>;

    fn write_byte(&mut self, byte: u8) -> Result<(), LinkError>;

    fn flush(&mut self) -> Result<(), LinkError>;
}

} // verus!
