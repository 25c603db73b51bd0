//! The ClientHello handshake body.

use vstd::prelude::*;
use crate::wire::{be16, words, read_u16, copy_range, read_words};
use crate::extension::{Extension, ExtensionModel, extension_list, extensions_view, parse_extensions};

verus! {

/// Longest session identifier a ClientHello may carry.
pub const MAX_SESSION_ID_LEN: usize = 32;

/// A decoded ClientHello.
#[derive(Debug)]
pub struct ClientHello {
    pub client_version: u16,
    pub random: Vec<u8>,
    pub session_id: Vec<u8>,
    pub cipher_suites: Vec<u16>,
    pub compression_methods: Vec<u8>,
    pub extensions: Vec<Extension>,
}

/// What a ClientHello holds, as plain values.
pub ghost struct ClientHelloModel {
    pub client_version: u16,
    pub random: Seq<u8>,
    pub session_id: Seq<u8>,
    pub cipher_suites: Seq<u16>,
    pub compression_methods: Seq<u8>,
    pub extensions: Seq<ExtensionModel>,
}

impl View for ClientHello {
    type V = ClientHelloModel;

    open spec fn view(&self) -> ClientHelloModel {
        ClientHelloModel {
            client_version: self.client_version,
            random: self.random@,
            session_id: self.session_id@,
            cipher_suites: self.cipher_suites@,
            compression_methods: self.compression_methods@,
            extensions: extensions_view(self.extensions@),
        }
    }
}

/// The extensions that follow the compression methods, which end at `pos`:
/// none where the body ends there, else a two-byte length that covers the
/// rest of the body exactly.
pub open spec fn trailing_extensions(b: Seq<u8>, pos: int) -> Option<Seq<ExtensionModel>> {
    if pos == b.len() {
        Some(Seq::empty())
    } else if pos + 2 > b.len() || pos + 2 + be16(b, pos) != b.len() {
        None
    } else {
        extension_list(b, pos + 2, b.len() as int)
    }
}

/// The ClientHello that the handshake body `b` encodes:
/// `client_version(2) | random(32) | session_id_length(1) + session_id |
/// cipher_suites_length(2) + suites | compression_length(1) + methods |
/// [extensions_length(2) + extensions]`, with nothing after it. `None` where
/// a length runs past the body, the session id is longer than 32 bytes, or
/// the suite list is empty or of odd length.
pub open spec fn client_hello_model(b: Seq<u8>) -> Option<ClientHelloModel> {
    if b.len() < 35 || b[34] as int > MAX_SESSION_ID_LEN || 35 + b[34] as int + 2 > b.len() {
        None
    } else {
        let p = 35 + b[34] as int;
        let cs_len = be16(b, p);
        let q = p + 2 + cs_len;
        if cs_len == 0 || cs_len % 2 != 0 || q + 1 > b.len() || q + 1 + b[q] as int > b.len() {
            None
        } else {
            let r = q + 1 + b[q] as int;
            match trailing_extensions(b, r) {
                Some(exts) => Some(ClientHelloModel {
                    client_version: be16(b, 0) as u16,
                    random: b.subrange(2, 34),
                    session_id: b.subrange(35, p),
                    cipher_suites: words(b, p + 2, cs_len / 2),
                    compression_methods: b.subrange(q + 1, r),
                    extensions: exts,
                }),
                None => None,
            }
        }
    }
}

/// Decodes a ClientHello handshake body; `None` exactly where the body is
/// malformed.
pub fn parse_client_hello(body: &[u8]) -> (r: Option<ClientHello>)
    ensures
        match r {
            Some(h) => client_hello_model(body@) == Some(h@),
            None => client_hello_model(body@).is_none(),
        },
{
    let n = body.len();
    if n < 35 {
        return None;
    }
    let sid_len = body[34] as usize;
    if sid_len > MAX_SESSION_ID_LEN || n - 35 < sid_len + 2 {
        return None;
    }
    let p = 35 + sid_len;
    let cs_len = read_u16(body, p) as usize;
    if cs_len == 0 || cs_len % 2 != 0 || n - p - 2 < cs_len + 1 {
        return None;
    }
    let q = p + 2 + cs_len;
    let cm_len = body[q] as usize;
    if n - q - 1 < cm_len {
        return None;
    }
    let r = q + 1 + cm_len;
    let extensions = if r == n {
        Vec::new()
    } else {
        if n - r < 2 {
            return None;
        }
        let ext_len = read_u16(body, r) as usize;
        if n - r - 2 != ext_len {
            return None;
        }
        match parse_extensions(body, r + 2, n) {
            Some(v) => v,
            None => return None,
        }
    };
    proof {
        if r == n {
            assert(extensions_view(extensions@) =~= Seq::<ExtensionModel>::empty());
        }
    }
    Some(ClientHello {
        client_version: read_u16(body, 0),
        random: copy_range(body, 2, 34),
        session_id: copy_range(body, 35, p),
        cipher_suites: read_words(body, p + 2, cs_len / 2),
        compression_methods: copy_range(body, q + 1, r),
        extensions,
    })
}

} // verus!
