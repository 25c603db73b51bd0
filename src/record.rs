//! The TLS record layer: a five-byte header, then the payload it declares.

use vstd::prelude::*;
use crate::wire::{be16, read_u16, copy_range};

verus! {

/// Length of a record header: content type, protocol version, length.
pub const RECORD_HEADER_LEN: usize = 5;
/// Longest payload a plaintext record may declare.
pub const MAX_RECORD_LEN: u16 = 16384;
/// Content type of records that carry handshake messages.
pub const CONTENT_HANDSHAKE: u8 = 22;

/// One record taken off the wire.
#[derive(Debug)]
pub struct RawRecord {
    pub content_type: u8,
    pub version: u16,
    pub payload: Vec<u8>,
}

/// The result of reading one record at some offset of a buffer.
#[derive(Debug)]
pub enum Deframe {
    /// A whole record, and the offset just past it.
    Record(RawRecord, usize),
    /// The header or the payload it declares has not fully arrived.
    Incomplete,
    /// The header declares a payload longer than any record may carry.
    Malformed,
}

pub ghost enum DeframeModel {
    Record { content_type: u8, version: u16, payload: Seq<u8>, next: int },
    Incomplete,
    Malformed,
}

impl View for Deframe {
    type V = DeframeModel;

    open spec fn view(&self) -> DeframeModel {
        match self {
            Deframe::Record(rec, next) => DeframeModel::Record {
                content_type: rec.content_type,
                version: rec.version,
                payload: rec.payload@,
                next: *next as int,
            },
            Deframe::Incomplete => DeframeModel::Incomplete,
            Deframe::Malformed => DeframeModel::Malformed,
        }
    }
}

/// What the bytes of `s` from `pos` on hold as a record. An oversized length
/// is malformed as soon as the header is there; a payload still short of its
/// declared length is incomplete.
pub open spec fn record_at(s: Seq<u8>, pos: int) -> DeframeModel {
    if pos + RECORD_HEADER_LEN > s.len() {
        DeframeModel::Incomplete
    } else if be16(s, pos + 3) > MAX_RECORD_LEN {
        DeframeModel::Malformed
    } else if pos + RECORD_HEADER_LEN + be16(s, pos + 3) > s.len() {
        DeframeModel::Incomplete
    } else {
        let next = pos + RECORD_HEADER_LEN + be16(s, pos + 3);
        DeframeModel::Record {
            content_type: s[pos],
            version: be16(s, pos + 1) as u16,
            payload: s.subrange(pos + RECORD_HEADER_LEN, next),
            next,
        }
    }
}

/// Reads the record that starts at `buf[pos]`.
pub fn parse_record(buf: &[u8], pos: usize) -> (r: Deframe)
    requires
        pos <= buf@.len(),
    ensures
        r@ == record_at(buf@, pos as int),
{
    if buf.len() - pos < RECORD_HEADER_LEN {
        return Deframe::Incomplete;
    }
    let len = read_u16(buf, pos + 3);
    if len > MAX_RECORD_LEN {
        return Deframe::Malformed;
    }
    if buf.len() - pos - RECORD_HEADER_LEN < len as usize {
        return Deframe::Incomplete;
    }
    let next = pos + RECORD_HEADER_LEN + len as usize;
    let rec = RawRecord {
        content_type: buf[pos],
        version: read_u16(buf, pos + 1),
        payload: copy_range(buf, pos + RECORD_HEADER_LEN, next),
    };
    Deframe::Record(rec, next)
}

} // verus!
