//! Properties of the pipeline as a whole, proved over the decoding specs.

use vstd::prelude::*;
use crate::wire::{be16, words};
use crate::record::{RECORD_HEADER_LEN, MAX_RECORD_LEN, CONTENT_HANDSHAKE};
use crate::extension::{ExtensionModel, extension_list, prepend, EXT_SERVER_NAME, EXT_SUPPORTED_VERSIONS};
use crate::hello::{ClientHelloModel, client_hello_model};
use crate::report::{offered_versions, last_supported_versions};
use crate::handshake::{HANDSHAKE_CLIENT_HELLO, first_message};
use crate::probe::{MAX_BUFFERED, StepModel, ProbeError, scan, decode_stream, at_end, concat, run_reads, message_outcome};

verus! {

proof fn lemma_scan_prefix(s: Seq<u8>, k: int, pos: int, hs: Seq<u8>)
    requires
        0 <= pos,
        0 <= k <= s.len(),
        scan(s.subrange(0, k), pos, hs) != StepModel::NeedMore,
    ensures
        scan(s, pos, hs) == scan(s.subrange(0, k), pos, hs),
    decreases k - pos,
{
    let p = s.subrange(0, k);
    if pos + RECORD_HEADER_LEN <= k {
        assert(be16(p, pos + 3) == be16(s, pos + 3));
        let len = be16(s, pos + 3);
        if len <= MAX_RECORD_LEN && pos + RECORD_HEADER_LEN + len <= k {
            let next = pos + RECORD_HEADER_LEN + len;
            assert(p.subrange(pos + RECORD_HEADER_LEN, next) =~= s.subrange(pos + RECORD_HEADER_LEN, next));
            assert(p[pos] == s[pos]);
            assert(be16(p, pos + 1) == be16(s, pos + 1));
            let payload = s.subrange(pos + RECORD_HEADER_LEN, next);
            let hs2 = if s[pos] == CONTENT_HANDSHAKE { hs + payload } else { hs };
            if first_message(hs2).is_none() {
                lemma_scan_prefix(s, k, next, hs2);
            }
        }
    }
}

/// Once the bytes received so far decide the outcome, no later bytes change
/// it: a prefix `p` of `s` that is decided gives the outcome of `s`.
pub proof fn decided_prefix_is_final(p: Seq<u8>, s: Seq<u8>)
    requires
        p.len() <= s.len(),
        p == s.subrange(0, p.len() as int),
        decode_stream(p) != StepModel::NeedMore,
    ensures
        decode_stream(s) == decode_stream(p),
{
    let cap = MAX_BUFFERED as int;
    if p.len() > cap {
        assert(p.subrange(0, cap) =~= s.subrange(0, cap));
    } else if s.len() > cap {
        let w = s.subrange(0, cap);
        assert(w.subrange(0, p.len() as int) =~= p);
        lemma_scan_prefix(w, p.len() as int, 0, Seq::empty());
    } else {
        lemma_scan_prefix(s, p.len() as int, 0, Seq::empty());
    }
}

proof fn lemma_run_reads(sent: Seq<u8>, chunks: Seq<Seq<u8>>)
    ensures
        run_reads(sent, chunks) == at_end(decode_stream(sent + concat(chunks))),
    decreases chunks.len(),
{
    if chunks.len() == 0 {
        assert(sent + concat(chunks) =~= sent);
    } else {
        let now = sent + chunks[0];
        let rest = chunks.drop_first();
        assert(now + concat(rest) =~= sent + concat(chunks));
        match decode_stream(now) {
            StepModel::NeedMore => {
                lemma_run_reads(now, rest);
            },
            _ => {
                let all = sent + concat(chunks);
                assert(now == all.subrange(0, now.len() as int));
                decided_prefix_is_final(now, all);
            },
        }
    }
}

/// Splitting a stream into reads of any sizes does not change its outcome:
/// the reads `chunks` give what one read of all their bytes gives.
pub proof fn fragmentation_independence(chunks: Seq<Seq<u8>>)
    ensures
        run_reads(Seq::empty(), chunks) == run_reads(Seq::empty(), seq![concat(chunks)]),
        run_reads(Seq::empty(), chunks) == at_end(decode_stream(concat(chunks))),
{
    lemma_run_reads(Seq::empty(), chunks);
    let one = seq![concat(chunks)];
    lemma_run_reads(Seq::empty(), one);
    assert(concat(one.drop_first()) =~= Seq::<u8>::empty());
    assert(Seq::<u8>::empty() + concat(one) =~= concat(chunks));
    assert(Seq::<u8>::empty() + concat(chunks) =~= concat(chunks));
}

/// A stream that closes before any byte came ends in
/// `UnexpectedEndOfStream`, however many empty reads it took.
pub proof fn empty_stream_ends_early(chunks: Seq<Seq<u8>>)
    requires
        concat(chunks).len() == 0,
    ensures
        run_reads(Seq::empty(), chunks) == StepModel::Failed(ProbeError::UnexpectedEndOfStream),
{
    lemma_run_reads(Seq::empty(), chunks);
    assert(Seq::<u8>::empty() + concat(chunks) =~= Seq::<u8>::empty());
}

/// A record header whose declared payload has not fully arrived leaves the
/// stream undecided, not malformed.
pub proof fn partial_record_is_incomplete(s: Seq<u8>)
    requires
        s.len() < RECORD_HEADER_LEN || (be16(s, 3) <= MAX_RECORD_LEN && s.len() < RECORD_HEADER_LEN + be16(s, 3)),
    ensures
        decode_stream(s) == StepModel::NeedMore,
{
}

/// A record header that declares more than the largest record payload is
/// malformed as soon as the header is there.
pub proof fn oversized_record_is_malformed(s: Seq<u8>)
    requires
        s.len() >= RECORD_HEADER_LEN,
        be16(s, 3) > MAX_RECORD_LEN,
    ensures
        decode_stream(s) == StepModel::Failed(ProbeError::ProtocolMalformed),
{
    let cap = MAX_BUFFERED as int;
    if s.len() > cap {
        assert(be16(s.subrange(0, cap), 3) == be16(s, 3));
    }
}

/// A first handshake message of any other type than ClientHello fails with
/// `UnexpectedMessageType`, whatever its body.
pub proof fn other_message_type_fails(t: u8, body: Seq<u8>)
    requires
        t != HANDSHAKE_CLIENT_HELLO,
    ensures
        message_outcome(t, body) == StepModel::Failed(ProbeError::UnexpectedMessageType),
{
}

/// An extension of a type this library does not decode is kept verbatim and
/// the extensions after it are decoded as if it were not there.
pub proof fn unknown_extension_is_kept(s: Seq<u8>, pos: int, end: int)
    requires
        0 <= pos,
        pos + 4 <= end <= s.len(),
        be16(s, pos) != EXT_SERVER_NAME as int,
        be16(s, pos) != EXT_SUPPORTED_VERSIONS as int,
        pos + 4 + be16(s, pos + 2) <= end,
    ensures
        extension_list(s, pos, end) == prepend(
            ExtensionModel::Unknown(be16(s, pos) as u16, s.subrange(pos + 4, pos + 4 + be16(s, pos + 2))),
            extension_list(s, pos + 4 + be16(s, pos + 2), end),
        ),
{
}

/// Where an unknown extension comes before a supported-versions extension,
/// the versions offered are still those of the latter.
pub proof fn unknown_extension_keeps_versions(h: ClientHelloModel, t: u16, raw: Seq<u8>, versions: Seq<u16>)
    requires
        h.extensions == seq![ExtensionModel::Unknown(t, raw), ExtensionModel::SupportedVersions(versions)],
    ensures
        offered_versions(h) == versions,
{
    reveal_with_fuel(last_supported_versions, 2);
}

/// A decoded ClientHello lists cipher suites and compression methods in the
/// order in which they stand on the wire.
pub proof fn hello_lists_keep_wire_order(b: Seq<u8>)
    requires
        client_hello_model(b).is_some(),
    ensures
        ({
            let h = client_hello_model(b).unwrap();
            let p = 35 + b[34] as int;
            let q = p + 2 + be16(b, p);
            &&& h.cipher_suites.len() == be16(b, p) / 2
            &&& forall|i: int| 0 <= i < h.cipher_suites.len() ==> h.cipher_suites[i] as int == be16(b, p + 2 + 2 * i)
            &&& h.compression_methods.len() == b[q] as int
            &&& forall|i: int| 0 <= i < h.compression_methods.len() ==> h.compression_methods[i] == b[q + 1 + i]
        }),
{
    let p = 35 + b[34] as int;
    let h = client_hello_model(b).unwrap();
    assert forall|i: int| 0 <= i < h.cipher_suites.len() implies h.cipher_suites[i] as int == be16(b, p + 2 + 2 * i) by {
        assert(h.cipher_suites == words(b, p + 2, be16(b, p) / 2));
    }
}

} // verus!
