//! Reassembly of a handshake message from the payloads of handshake records.

use vstd::prelude::*;
use crate::wire::{be24, read_u24, copy_range};

verus! {

/// Length of a handshake header: message type, then a three-byte length.
pub const HANDSHAKE_HEADER_LEN: usize = 4;
/// Message type of a ClientHello.
pub const HANDSHAKE_CLIENT_HELLO: u8 = 1;

/// One whole handshake message.
#[derive(Debug)]
pub struct HandshakeMessage {
    pub msg_type: u8,
    pub body: Vec<u8>,
}

/// The first handshake message in `hs`, as its type and body, once all of
/// the body that its header declares is there.
pub open spec fn first_message(hs: Seq<u8>) -> Option<(u8, Seq<u8>)> {
    if hs.len() < HANDSHAKE_HEADER_LEN || hs.len() < HANDSHAKE_HEADER_LEN + be24(hs, 1) {
        None
    } else {
        Some((hs[0], hs.subrange(HANDSHAKE_HEADER_LEN as int, HANDSHAKE_HEADER_LEN + be24(hs, 1))))
    }
}

/// Handshake bytes gathered from records until a whole message is there.
pub struct Reassembler {
    pub pending: Vec<u8>,
}

impl Reassembler {
    pub fn new() -> (r: Reassembler)
        ensures
            r.pending@ == Seq::<u8>::empty(),
    {
        Reassembler { pending: Vec::new() }
    }

    /// Appends the payload of a handshake record.
    pub fn push_payload(&mut self, payload: &[u8])
        ensures
            final(self).pending@ == old(self).pending@ + payload@,
    {
        let ghost start = self.pending@;
        let mut i: usize = 0;
        while i < payload.len()
            invariant
                i <= payload@.len(),
                self.pending@ == start + payload@.subrange(0, i as int),
            decreases payload@.len() - i,
        {
            self.pending.push(payload[i]);
            i = i + 1;
            assert(self.pending@ =~= start + payload@.subrange(0, i as int));
        }
        assert(payload@.subrange(0, payload@.len() as int) =~= payload@);
    }

    /// Takes the first whole message off the pending bytes, keeping what
    /// follows it for a later message; `None`, with nothing taken, while the
    /// message is still short of bytes.
    pub fn next_message(&mut self) -> (r: Option<HandshakeMessage>)
        ensures
            match r {
                Some(m) => {
                    &&& first_message(old(self).pending@) == Some((m.msg_type, m.body@))
                    &&& final(self).pending@ == old(self).pending@.subrange(
                        HANDSHAKE_HEADER_LEN + m.body@.len(),
                        old(self).pending@.len() as int,
                    )
                },
                None => {
                    &&& first_message(old(self).pending@).is_none()
                    &&& final(self).pending@ == old(self).pending@
                },
            },
    {
        let n = self.pending.len();
        if n < HANDSHAKE_HEADER_LEN {
            return None;
        }
        let len = read_u24(self.pending.as_slice(), 1) as usize;
        if n - HANDSHAKE_HEADER_LEN < len {
            return None;
        }
        let end = HANDSHAKE_HEADER_LEN + len;
        let msg = HandshakeMessage {
            msg_type: self.pending[0],
            body: copy_range(self.pending.as_slice(), HANDSHAKE_HEADER_LEN, end),
        };
        self.pending = copy_range(self.pending.as_slice(), end, n);
        Some(msg)
    }
}

} // verus!
