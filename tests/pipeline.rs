use hello_probe::extension::{parse_extensions, Extension};
use hello_probe::handshake::Reassembler;
use hello_probe::hello::parse_client_hello;
use hello_probe::probe::{decode_bytes, decode_chunks, Probe, ProbeError, Step, MAX_BUFFERED};
use hello_probe::record::{parse_record, Deframe};
use hello_probe::report::{Cipher, Report, Version};

fn u16be(v: u16) -> Vec<u8> {
    vec![(v >> 8) as u8, v as u8]
}

fn ext(ext_type: u16, data: &[u8]) -> Vec<u8> {
    let mut out = u16be(ext_type);
    out.extend(u16be(data.len() as u16));
    out.extend_from_slice(data);
    out
}

fn sni_ext(hosts: &[&[u8]]) -> Vec<u8> {
    let mut list = Vec::new();
    for h in hosts {
        list.push(0u8);
        list.extend(u16be(h.len() as u16));
        list.extend_from_slice(h);
    }
    let mut data = u16be(list.len() as u16);
    data.extend(list);
    ext(0, &data)
}

fn versions_ext(versions: &[u16]) -> Vec<u8> {
    let mut data = vec![(versions.len() * 2) as u8];
    for v in versions {
        data.extend(u16be(*v));
    }
    ext(43, &data)
}

fn hello_body(version: u16, suites: &[u16], comp: &[u8], exts: Option<Vec<u8>>) -> Vec<u8> {
    let mut b = u16be(version);
    b.extend((0..32u8).collect::<Vec<u8>>());
    b.push(4);
    b.extend_from_slice(&[9, 8, 7, 6]);
    b.extend(u16be((suites.len() * 2) as u16));
    for s in suites {
        b.extend(u16be(*s));
    }
    b.push(comp.len() as u8);
    b.extend_from_slice(comp);
    if let Some(e) = exts {
        b.extend(u16be(e.len() as u16));
        b.extend(e);
    }
    b
}

fn handshake(msg_type: u8, body: &[u8]) -> Vec<u8> {
    let n = body.len();
    let mut out = vec![msg_type, (n >> 16) as u8, (n >> 8) as u8, n as u8];
    out.extend_from_slice(body);
    out
}

fn record(content_type: u8, payload: &[u8]) -> Vec<u8> {
    let mut out = vec![content_type, 0x03, 0x03];
    out.extend(u16be(payload.len() as u16));
    out.extend_from_slice(payload);
    out
}

fn example_stream() -> Vec<u8> {
    let mut exts = sni_ext(&[b"example.com"]);
    exts.extend(versions_ext(&[0x0304]));
    let body = hello_body(0x0303, &[0x1301, 0x1302], &[0x00], Some(exts));
    record(22, &handshake(1, &body))
}

fn decoded(step: Step) -> hello_probe::hello::ClientHello {
    match step {
        Step::Decoded(h) => h,
        other => panic!("expected a ClientHello, got {:?}", other),
    }
}

fn failed(step: Step) -> ProbeError {
    match step {
        Step::Failed(e) => e,
        other => panic!("expected a failure, got {:?}", other),
    }
}

#[test]
fn end_to_end_example_report() {
    let hello = decoded(decode_bytes(&example_stream()));
    let report = Report::new(&hello);
    let ids: Vec<u16> = report.ciphers.iter().map(|c| c.id).collect();
    assert_eq!(ids, vec![0x1301, 0x1302]);
    assert_eq!(report.ciphers[0].name, "TLS_AES_128_GCM_SHA256");
    assert_eq!(report.ciphers[1].name, "TLS_AES_256_GCM_SHA384");
    assert!(!report.compression);
    assert_eq!(report.sni, vec!["example.com".to_string()]);
    let versions: Vec<u16> = report.versions.iter().map(|v| v.version).collect();
    assert_eq!(versions, vec![0x0304]);
    assert_eq!(report.versions[0].name, "TLS 1.3");
}

#[test]
fn fragmented_delivery_decodes_the_same() {
    let bytes = example_stream();
    let whole = format!("{:?}", decoded(decode_chunks(&vec![bytes.clone()])));
    let singles: Vec<Vec<u8>> = bytes.iter().map(|b| vec![*b]).collect();
    assert_eq!(format!("{:?}", decoded(decode_chunks(&singles))), whole);
    for cut in [1usize, 4, 5, 6, 9, 40, bytes.len() - 1] {
        let chunks = vec![bytes[..cut].to_vec(), Vec::new(), bytes[cut..].to_vec()];
        assert_eq!(format!("{:?}", decoded(decode_chunks(&chunks))), whole);
    }
}

#[test]
fn probe_needs_more_until_the_last_byte() {
    let bytes = example_stream();
    let mut probe = Probe::new();
    for b in &bytes[..bytes.len() - 1] {
        assert!(matches!(probe.feed(&[*b]), Step::NeedMore));
    }
    decoded(probe.feed(&bytes[bytes.len() - 1..]));
}

#[test]
fn lists_keep_wire_order() {
    let exts = sni_ext(&[b"b.example", b"a.example", b"c.example"]);
    let body = hello_body(0x0303, &[0xc02f, 0x1301, 0x002f], &[1, 0], Some(exts));
    let hello = parse_client_hello(&body).unwrap();
    assert_eq!(hello.cipher_suites, vec![0xc02f, 0x1301, 0x002f]);
    assert_eq!(hello.compression_methods, vec![1, 0]);
    let report = Report::new(&hello);
    assert_eq!(report.sni, vec!["b.example", "a.example", "c.example"]);
    assert!(report.compression);
}

#[test]
fn partial_record_is_incomplete_then_malformed_when_whole() {
    let bad_body = [0u8; 10];
    let bytes = record(22, &handshake(1, &bad_body));
    for cut in 0..bytes.len() {
        assert!(matches!(decode_bytes(&bytes[..cut]), Step::NeedMore));
    }
    assert_eq!(failed(decode_bytes(&bytes)), ProbeError::ProtocolMalformed);
    match parse_record(&bytes[..7], 0) {
        Deframe::Incomplete => {}
        other => panic!("{:?}", other),
    }
}

#[test]
fn oversized_record_is_malformed() {
    let bytes = vec![22, 3, 3, 0x40, 0x01];
    assert_eq!(failed(decode_bytes(&bytes)), ProbeError::ProtocolMalformed);
    assert!(matches!(parse_record(&bytes, 0), Deframe::Malformed));
}

#[test]
fn unknown_extension_does_not_stop_decoding() {
    let mut exts = ext(0xfe0d, &[1, 2, 3]);
    exts.extend(versions_ext(&[0x0304, 0x0303]));
    let body = hello_body(0x0303, &[0x1301], &[0], Some(exts));
    let hello = decoded(decode_bytes(&record(22, &handshake(1, &body))));
    match &hello.extensions[0] {
        Extension::Unknown { ext_type, raw } => {
            assert_eq!(*ext_type, 0xfe0d);
            assert_eq!(raw, &vec![1, 2, 3]);
        }
        other => panic!("{:?}", other),
    }
    let report = Report::new(&hello);
    let versions: Vec<u16> = report.versions.iter().map(|v| v.version).collect();
    assert_eq!(versions, vec![0x0304, 0x0303]);
}

#[test]
fn closed_empty_stream_is_unexpected_end() {
    assert_eq!(failed(decode_chunks(&Vec::new())), ProbeError::UnexpectedEndOfStream);
    assert_eq!(failed(decode_chunks(&vec![Vec::new()])), ProbeError::UnexpectedEndOfStream);
    assert_eq!(failed(Probe::new().end_of_stream()), ProbeError::UnexpectedEndOfStream);
}

#[test]
fn stream_closed_mid_record_is_unexpected_end() {
    let bytes = example_stream();
    let chunks = vec![bytes[..20].to_vec()];
    assert_eq!(failed(decode_chunks(&chunks)), ProbeError::UnexpectedEndOfStream);
}

#[test]
fn server_hello_is_unexpected_message_type() {
    let body = hello_body(0x0303, &[0x1301], &[0], None);
    let bytes = record(22, &handshake(2, &body));
    assert_eq!(failed(decode_bytes(&bytes)), ProbeError::UnexpectedMessageType);
}

#[test]
fn handshake_split_across_records_and_other_records_skipped() {
    let msg = handshake(1, &hello_body(0x0303, &[0x1301], &[0], None));
    let mut bytes = record(21, &[1, 0]);
    bytes.extend(record(22, &msg[..10]));
    bytes.extend(record(20, &[1]));
    bytes.extend(record(22, &msg[10..]));
    let hello = decoded(decode_bytes(&bytes));
    assert_eq!(hello.cipher_suites, vec![0x1301]);
    assert!(hello.extensions.is_empty());
}

#[test]
fn no_extensions_reports_client_version() {
    let body = hello_body(0x0302, &[0x002f], &[0], None);
    let report = Report::new(&parse_client_hello(&body).unwrap());
    assert_eq!(report.versions.len(), 1);
    assert_eq!(report.versions[0].version, 0x0302);
    assert_eq!(report.versions[0].name, "TLS 1.1");
    assert!(report.sni.is_empty());
}

#[test]
fn malformed_hello_bodies() {
    let good = hello_body(0x0303, &[0x1301], &[0], Some(versions_ext(&[0x0304])));
    assert!(parse_client_hello(&good).is_some());
    assert!(parse_client_hello(&good[..good.len() - 1]).is_none());
    let mut trailing = good.clone();
    trailing.push(0);
    assert!(parse_client_hello(&trailing).is_none());
    assert!(parse_client_hello(&hello_body(0x0303, &[], &[0], None)).is_none());
    let mut long_sid = hello_body(0x0303, &[0x1301], &[0], None);
    long_sid[34] = 33;
    assert!(parse_client_hello(&long_sid).is_none());
    let mut odd = hello_body(0x0303, &[0x1301], &[0], None);
    odd[40] = 3;
    assert!(parse_client_hello(&odd).is_none());
    assert!(parse_client_hello(&[0u8; 34]).is_none());
    let one_trailing = {
        let mut b = hello_body(0x0303, &[0x1301], &[0], None);
        b.push(0);
        b
    };
    assert!(parse_client_hello(&one_trailing).is_none());
}

#[test]
fn malformed_extensions() {
    let bad_versions = ext(43, &[3, 3, 4, 3]);
    assert!(parse_extensions(&bad_versions, 0, bad_versions.len()).is_none());
    let truncated = ext(7, &[1, 2, 3]);
    assert!(parse_extensions(&truncated, 0, truncated.len() - 1).is_none());
    let bad_sni = ext(0, &[0, 9, 0, 0, 3, b'a']);
    assert!(parse_extensions(&bad_sni, 0, bad_sni.len()).is_none());
    let empty_sni = ext(0, &[]);
    match &parse_extensions(&empty_sni, 0, empty_sni.len()).unwrap()[0] {
        Extension::ServerName(v) => assert!(v.is_empty()),
        other => panic!("{:?}", other),
    }
}

#[test]
fn invalid_utf8_host_is_replaced() {
    let exts = sni_ext(&[b"a\xffb"]);
    let got = parse_extensions(&exts, 0, exts.len()).unwrap();
    match &got[0] {
        Extension::ServerName(v) => {
            assert_eq!(v[0].name_type, 0);
            assert_eq!(v[0].name, "a\u{FFFD}b");
        }
        other => panic!("{:?}", other),
    }
}

#[test]
fn stream_past_the_cap_is_malformed() {
    let filler = record(23, &vec![0u8; 16000]);
    let mut bytes = Vec::new();
    while bytes.len() <= MAX_BUFFERED {
        bytes.extend_from_slice(&filler);
    }
    assert_eq!(failed(decode_bytes(&bytes)), ProbeError::ProtocolMalformed);
    let mut probe = Probe::new();
    let mut last = Step::NeedMore;
    for chunk in bytes.chunks(5000) {
        last = probe.feed(chunk);
        if !matches!(last, Step::NeedMore) {
            break;
        }
    }
    assert_eq!(failed(last), ProbeError::ProtocolMalformed);
}

#[test]
fn reassembler_keeps_surplus_bytes() {
    let mut r = Reassembler::new();
    r.push_payload(&[1, 0, 0]);
    assert!(r.next_message().is_none());
    r.push_payload(&[2, 0xaa, 0xbb, 9, 9]);
    let m = r.next_message().unwrap();
    assert_eq!(m.msg_type, 1);
    assert_eq!(m.body, vec![0xaa, 0xbb]);
    assert_eq!(r.pending, vec![9, 9]);
}

#[test]
fn version_and_cipher_names() {
    assert_eq!(Version::new(0x0300).name, "SSL 3.0");
    assert_eq!(Version::new(0x0301).name, "TLS 1.0");
    assert_eq!(Version::new(0x7f12).name, "TLS 1.3 Draft 18");
    assert_eq!(Version::new(0x7f17).name, "TLS 1.3 Draft 23");
    assert_eq!(Version::new(0x9999).name, "UNKNOWN");
    assert_eq!(Cipher::new(0x1301).name, "TLS_AES_128_GCM_SHA256");
    assert_eq!(Cipher::new(0x0a0a).name, "UNKNOWN");
    assert_eq!(Cipher::from_lookup(5, Some("X")).name, "X");
    assert_eq!(Cipher::from_lookup(5, None).name, "UNKNOWN");
}
