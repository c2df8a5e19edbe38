//! A minimal datagram diagnostic library: a probe emitter that sends
//! tagged, sequence-numbered messages on a timer, and an echo responder
//! that reflects datagrams back to their sender. The message framing and
//! the per-event decisions of both loops are verified; the transport and
//! the event loop around them live outside the library.

use vstd::prelude::*;

pub mod client;
pub mod message;
pub mod server;

verus! {

/// Capacity of the reusable receive buffer both loops own: 64 KiB. Only
/// the byte count one receive returns is ever read out of it.
pub const RECV_BUFFER_LEN: usize = 65536;

} // verus!
