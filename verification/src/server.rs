//! The echo responder (server role): the decision it takes for each
//! received datagram. The loop around it — socket, receive, send — lives
//! outside the library and performs whatever this decision returns.

use vstd::prelude::*;

verus! {

/// Decides the response to one received datagram: the first `len` bytes
/// of `buf`, the bytes the receive filled. A zero-length datagram is
/// discarded, never echoed; any other datagram is echoed byte-for-byte
/// and only to the received length, so the stale padding beyond `len`
/// in the reused buffer never leaks into the response.
pub fn echo_response(buf: &Vec<u8>, len: usize) -> (r: Option<Vec<u8>>)
    requires
        len <= buf@.len(),
    ensures
        len == 0 <==> r is None,
        len > 0 ==> (r matches Some(p) && p@ == buf@.take(len as int)),
{
    if len == 0 {
        return None;
    }
    let mut out: Vec<u8> = Vec::new();
    let mut i: usize = 0;
    while i < len
        invariant
            i <= len <= buf@.len(),
            out@ == buf@.take(i as int),
        decreases len - i,
    {
        out.push(buf[i]);
        proof {
            assert(out@ =~= buf@.take(i + 1));
        }
        i += 1;
    }
    Some(out)
}

} // verus!
