//! The probe emitter (client role): the state its loop carries and the
//! decision it takes for each event. The loop itself — the timer, the
//! socket, and the racing of the two — lives outside the library; it
//! feeds every event through the functions here.

use vstd::prelude::*;

use crate::message::classify_datagram;
use crate::message::classify_spec;
use crate::message::encode_probe;
use crate::message::probe_bytes;
use crate::message::Inbound;

verus! {

/// The emitter's loop state: its send counter, owned exclusively by the
/// emitter, initialized to zero, incremented by exactly one after each
/// successful send, and never reset.
pub struct Emitter {
    /// How many probes have been sent successfully so far; also the
    /// counter the next probe message will carry.
    pub send_count: u64,
}

impl Emitter {
    /// A fresh emitter, with its counter at zero.
    pub fn new() -> (r: Emitter)
        ensures
            r.send_count == 0,
    {
        Emitter { send_count: 0 }
    }

    /// The probe message one timer tick emits: the tag followed by the
    /// current counter in decimal. Building the message does not move
    /// the counter; only a reported send success does.
    pub fn tick_message(&self) -> (r: Vec<u8>)
        ensures
            r@ == probe_bytes(self.send_count as nat),
    {
        encode_probe(self.send_count)
    }

    /// Records the outcome of one send attempt. A successful send
    /// advances the counter by exactly one; a failed send leaves it
    /// unchanged, so the next tick carries the same counter again.
    pub fn record_send(&mut self, sent: bool)
        requires
            sent ==> old(self).send_count < u64::MAX,
        ensures
            sent ==> final(self).send_count == old(self).send_count + 1,
            !sent ==> final(self).send_count == old(self).send_count,
    {
        if sent {
            self.send_count = self.send_count + 1;
        }
    }

    /// Classifies one inbound datagram: the first `len` bytes of `buf`,
    /// the bytes the receive filled. Takes the emitter immutably, so
    /// inbound traffic can never change the emitter's state.
    pub fn on_datagram(&self, buf: &Vec<u8>, len: usize) -> (r: Inbound)
        requires
            len <= buf@.len(),
        ensures
            r == classify_spec(buf@.take(len as int)),
    {
        classify_datagram(buf, len)
    }
}

} // verus!
