//! The whole pipeline over the bytes a client has sent so far: records,
//! then the first handshake message, then the ClientHello.

use vstd::prelude::*;
use crate::hello::{ClientHello, ClientHelloModel, client_hello_model, parse_client_hello};
use crate::handshake::{HandshakeMessage, Reassembler, first_message, HANDSHAKE_CLIENT_HELLO};
use crate::record::{Deframe, DeframeModel, record_at, parse_record, CONTENT_HANDSHAKE};

verus! {

/// Most bytes of a stream that are looked at: a client whose first
/// handshake message is not whole within them is rejected as malformed.
pub const MAX_BUFFERED: usize = 131072;

/// Why a probe failed.
#[derive(Debug, Clone, Copy, PartialEq, Eq, Structural)]
pub enum ProbeError {
    /// The stream closed before a whole handshake message arrived.
    UnexpectedEndOfStream,
    /// A record, a length field or an extension broke its layout.
    ProtocolMalformed,
    /// The first handshake message is not a ClientHello.
    UnexpectedMessageType,
}

/// Where the decoding of a stream stands.
#[derive(Debug)]
pub enum Step {
    /// More bytes are needed before anything can be decided.
    NeedMore,
    Decoded(ClientHello),
    Failed(ProbeError),
}

pub ghost enum StepModel {
    NeedMore,
    Decoded(ClientHelloModel),
    Failed(ProbeError),
}

impl View for Step {
    type V = StepModel;

    open spec fn view(&self) -> StepModel {
        match self {
            Step::NeedMore => StepModel::NeedMore,
            Step::Decoded(h) => StepModel::Decoded(h@),
            Step::Failed(e) => StepModel::Failed(*e),
        }
    }
}

/// The outcome of the first handshake message, of type `t` with body `body`.
pub open spec fn message_outcome(t: u8, body: Seq<u8>) -> StepModel {
    if t != HANDSHAKE_CLIENT_HELLO {
        StepModel::Failed(ProbeError::UnexpectedMessageType)
    } else {
        match client_hello_model(body) {
            Some(h) => StepModel::Decoded(h),
            None => StepModel::Failed(ProbeError::ProtocolMalformed),
        }
    }
}

/// Reads the records of `s` from `pos` on, with the handshake bytes `hs`
/// gathered so far, until the first handshake message is whole. Records of
/// other content types are skipped.
pub open spec fn scan(s: Seq<u8>, pos: int, hs: Seq<u8>) -> StepModel
    decreases s.len() - pos,
{
    match record_at(s, pos) {
        DeframeModel::Incomplete => StepModel::NeedMore,
        DeframeModel::Malformed => StepModel::Failed(ProbeError::ProtocolMalformed),
        DeframeModel::Record { content_type, version, payload, next } => {
            let hs2 = if content_type == CONTENT_HANDSHAKE { hs + payload } else { hs };
            match first_message(hs2) {
                Some((t, body)) => message_outcome(t, body),
                None => scan(s, next, hs2),
            }
        },
    }
}

/// The outcome of the stream whose bytes so far are `s`.
pub open spec fn decode_stream(s: Seq<u8>) -> StepModel {
    if s.len() > MAX_BUFFERED {
        match scan(s.subrange(0, MAX_BUFFERED as int), 0, Seq::empty()) {
            StepModel::NeedMore => StepModel::Failed(ProbeError::ProtocolMalformed),
            r => r,
        }
    } else {
        scan(s, 0, Seq::empty())
    }
}

/// The outcome once the stream has closed: one still short of bytes failed.
pub open spec fn at_end(o: StepModel) -> StepModel {
    match o {
        StepModel::NeedMore => StepModel::Failed(ProbeError::UnexpectedEndOfStream),
        r => r,
    }
}

/// Decides on the first handshake message.
pub fn decode_message(msg: &HandshakeMessage) -> (r: Step)
    ensures
        r@ == message_outcome(msg.msg_type, msg.body@),
{
    if msg.msg_type != HANDSHAKE_CLIENT_HELLO {
        return Step::Failed(ProbeError::UnexpectedMessageType);
    }
    match parse_client_hello(msg.body.as_slice()) {
        Some(h) => Step::Decoded(h),
        None => Step::Failed(ProbeError::ProtocolMalformed),
    }
}

/// Runs the pipeline over the bytes of `buf`.
pub fn decode_records(buf: &[u8]) -> (r: Step)
    ensures
        r@ == scan(buf@, 0, Seq::empty()),
{
    let mut pos: usize = 0;
    let mut reasm = Reassembler::new();
    loop
        invariant
            pos <= buf@.len(),
            scan(buf@, 0, Seq::empty()) == scan(buf@, pos as int, reasm.pending@),
        decreases buf@.len() - pos,
    {
        match parse_record(buf, pos) {
            Deframe::Incomplete => return Step::NeedMore,
            Deframe::Malformed => return Step::Failed(ProbeError::ProtocolMalformed),
            Deframe::Record(rec, next) => {
                if rec.content_type == CONTENT_HANDSHAKE {
                    reasm.push_payload(rec.payload.as_slice());
                }
                match reasm.next_message() {
                    Some(m) => return decode_message(&m),
                    None => {
                        pos = next;
                    },
                }
            },
        }
    }
}

/// Runs the pipeline over the bytes of a whole stream so far, with the cap
/// on buffered bytes.
pub fn decode_bytes(buf: &[u8]) -> (r: Step)
    ensures
        r@ == decode_stream(buf@),
{
    if buf.len() > MAX_BUFFERED {
        let head = &buf[0..MAX_BUFFERED];
        match decode_records(head) {
            Step::NeedMore => Step::Failed(ProbeError::ProtocolMalformed),
            r => r,
        }
    } else {
        decode_records(buf)
    }
}

/// The bytes of `s` that a probe keeps: one past the cap is enough to know
/// that the cap was passed.
pub open spec fn kept(s: Seq<u8>) -> Seq<u8> {
    if s.len() > MAX_BUFFERED + 1 {
        s.subrange(0, MAX_BUFFERED + 1)
    } else {
        s
    }
}

/// The decoding state of one connection: fed the bytes of each read in turn,
/// it answers from everything the client has sent so far.
pub struct Probe {
    buffered: Vec<u8>,
    received: Ghost<Seq<u8>>,
}

impl Probe {
    /// Every byte fed to the probe, in order.
    pub closed spec fn received(&self) -> Seq<u8> {
        self.received@
    }

    pub closed spec fn wf(&self) -> bool {
        self.buffered@ == kept(self.received@)
    }

    pub fn new() -> (r: Probe)
        ensures
            r.wf(),
            r.received() == Seq::<u8>::empty(),
    {
        Probe { buffered: Vec::new(), received: Ghost(Seq::empty()) }
    }

    /// Takes the bytes of one read and says where the decoding stands.
    pub fn feed(&mut self, chunk: &[u8]) -> (r: Step)
        requires
            old(self).wf(),
        ensures
            final(self).wf(),
            final(self).received() == old(self).received() + chunk@,
            r@ == decode_stream(final(self).received()),
    {
        let ghost before = self.received@;
        let mut i: usize = 0;
        while i < chunk.len() && self.buffered.len() <= MAX_BUFFERED
            invariant
                i <= chunk@.len(),
                self.buffered@ == kept(before + chunk@.subrange(0, i as int)),
                self.buffered@.len() <= MAX_BUFFERED + 1,
            decreases chunk@.len() - i,
        {
            let ghost prev = before + chunk@.subrange(0, i as int);
            self.buffered.push(chunk[i]);
            i = i + 1;
            assert(before + chunk@.subrange(0, i as int) =~= prev.push(chunk@[i - 1]));
            assert(self.buffered@ =~= kept(before + chunk@.subrange(0, i as int)));
        }
        self.received = Ghost(before + chunk@);
        proof {
            let part = before + chunk@.subrange(0, i as int);
            if i < chunk@.len() {
                assert(part.len() > MAX_BUFFERED);
                assert(kept(part) =~= kept(self.received@));
            } else {
                assert(part =~= self.received@);
            }
            lemma_decode_kept(self.received@);
        }
        decode_bytes(self.buffered.as_slice())
    }

    /// Says how the probe ends once the stream has closed: a stream still
    /// short of a whole handshake message ends in
    /// `ProbeError::UnexpectedEndOfStream`.
    pub fn end_of_stream(&self) -> (r: Step)
        requires
            self.wf(),
        ensures
            r@ == at_end(decode_stream(self.received())),
    {
        proof {
            lemma_decode_kept(self.received@);
        }
        match decode_bytes(self.buffered.as_slice()) {
            Step::NeedMore => Step::Failed(ProbeError::UnexpectedEndOfStream),
            r => r,
        }
    }
}

/// The outcome of a stream depends only on the bytes a probe keeps of it.
pub proof fn lemma_decode_kept(s: Seq<u8>)
    ensures
        decode_stream(kept(s)) == decode_stream(s),
{
    if s.len() > MAX_BUFFERED + 1 {
        assert(kept(s).subrange(0, MAX_BUFFERED as int) =~= s.subrange(0, MAX_BUFFERED as int));
    }
}

/// All the bytes of `chunks`, one after another.
pub open spec fn concat(chunks: Seq<Seq<u8>>) -> Seq<u8>
    decreases chunks.len(),
{
    if chunks.len() == 0 {
        Seq::empty()
    } else {
        chunks[0] + concat(chunks.drop_first())
    }
}

/// The outcome of a stream delivered as `chunks`, one read each, after the
/// bytes `sent` came: reading stops as soon as the outcome is decided, and
/// a stream that closes before that ends in `UnexpectedEndOfStream`.
pub open spec fn run_reads(sent: Seq<u8>, chunks: Seq<Seq<u8>>) -> StepModel
    decreases chunks.len(),
{
    if chunks.len() == 0 {
        at_end(decode_stream(sent))
    } else {
        let now = sent + chunks[0];
        match decode_stream(now) {
            StepModel::NeedMore => run_reads(now, chunks.drop_first()),
            r => r,
        }
    }
}

pub open spec fn chunks_view(chunks: Seq<Vec<u8>>) -> Seq<Seq<u8>> {
    chunks.map_values(|c: Vec<u8>| c@)
}

/// Feeds `chunks` to a fresh probe in turn, as successive reads of one
/// stream that then closes.
pub fn decode_chunks(chunks: &Vec<Vec<u8>>) -> (r: Step)
    ensures
        r@ == run_reads(Seq::empty(), chunks_view(chunks@)),
{
    let mut probe = Probe::new();
    let mut k: usize = 0;
    assert(chunks_view(chunks@).subrange(0, chunks@.len() as int) =~= chunks_view(chunks@));
    while k < chunks.len()
        invariant
            k <= chunks@.len(),
            probe.wf(),
            run_reads(Seq::empty(), chunks_view(chunks@))
                == run_reads(probe.received(), chunks_view(chunks@).subrange(k as int, chunks@.len() as int)),
        decreases chunks@.len() - k,
    {
        let ghost rest = chunks_view(chunks@).subrange(k as int, chunks@.len() as int);
        let ghost sent = probe.received();
        match probe.feed(chunks[k].as_slice()) {
            Step::NeedMore => {
                proof {
                    assert(rest[0] == chunks@[k as int]@);
                    assert(rest.drop_first() =~= chunks_view(chunks@).subrange(k + 1, chunks@.len() as int));
                }
                k = k + 1;
            },
            r => {
                proof {
                    assert(rest[0] == chunks@[k as int]@);
                }
                return r;
            },
        }
    }
    proof {
        assert(chunks_view(chunks@).subrange(k as int, chunks@.len() as int).len() == 0);
    }
    probe.end_of_stream()
}

} // verus!
