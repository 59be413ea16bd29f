//! The transport capabilities the endpoint is wired to: a reader that hands
//! out one framed payload per call, and a writer that takes one. Transports
//! implement these outside the library; line-framed implementations over
//! buffered streams live with the surrounding program.

use vstd::prelude::*;

verus! {

/// A source of framed payloads: one complete message text per call.
pub trait MessageReader {
    /// The next framed payload, or the transport failure that ends reading.
    fn read_next(&mut self) -> Result<String, String>;
}

/// A sink of framed payloads: each call writes one complete message text,
/// atomically at the frame boundary.
pub trait MessageWriter {
    /// Writes one framed payload, or reports the transport failure.
    fn write_message(&mut self, msg: &str) -> Result<(), String>;
}

} // verus!
