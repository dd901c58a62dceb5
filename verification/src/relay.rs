//! Per-direction relay decisions.
//!
//! Each connection runs two independent directions. The outbound one
//! (client to server) reads a chunk, plans its split and writes the
//! segments; this module fixes what it does after each read: forward a
//! non-empty chunk, or half-close the destination's write side on a clean
//! end of stream or a read failure — without touching the inbound
//! direction, which keeps copying until the server side ends on its own.

use vstd::prelude::*;

verus! {

/// What one read on the client side produced: a chunk of `n` bytes (a read
/// of 0 bytes is a clean end of stream), or a failure.
pub enum ReadEvent {
    /// The read returned this many bytes.
    Data(usize),
    /// The read failed.
    Failed,
}

/// The outbound direction's next move.
pub enum OutboundStep {
    /// Plan the split of the chunk just read and write its segments.
    Forward,
    /// Shut down the write side of the destination and finish; the inbound
    /// direction is not affected.
    HalfClose,
}

/// Decide the outbound direction's next move from the last read: forward
/// every non-empty chunk; half-close on end of stream or failure.
pub fn outbound_step(ev: &ReadEvent) -> (s: OutboundStep)
    ensures
        s == (match *ev {
            ReadEvent::Data(n) => if n > 0 {
                OutboundStep::Forward
            } else {
                OutboundStep::HalfClose
            },
            ReadEvent::Failed => OutboundStep::HalfClose,
        }),
{
    match ev {
        ReadEvent::Data(n) => {
            if *n > 0 {
                OutboundStep::Forward
            } else {
                OutboundStep::HalfClose
            }
        },
        ReadEvent::Failed => OutboundStep::HalfClose,
    }
}

} // verus!
