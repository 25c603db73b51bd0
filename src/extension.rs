//! The ClientHello extension block: server names, supported versions, and
//! every other extension kept verbatim.

use vstd::prelude::*;
use crate::wire::{be16, words, read_u16, copy_range, read_words};

verus! {

/// Extension type of Server Name Indication.
pub const EXT_SERVER_NAME: u16 = 0;
/// Extension type of the supported protocol versions.
pub const EXT_SUPPORTED_VERSIONS: u16 = 43;

/// The text of `bytes` read as UTF-8, each invalid sequence replaced by
/// U+FFFD.
pub uninterp spec fn lossy_text(bytes: Seq<u8>) -> Seq<char>;

/// Relies on `String::from_utf8_lossy`: the text depends on the bytes alone,
/// and no bytes give no text.
#[verifier::external_body]
fn utf8_lossy(bytes: &[u8]) -> (r: String)
    ensures
        r@ == lossy_text(bytes@),
        bytes@.len() == 0 ==> r@.len() == 0,
{
    String::from_utf8_lossy(bytes).into_owned()
}

/// One entry of a server name list.
#[derive(Debug)]
pub struct ServerName {
    pub name_type: u8,
    pub name: String,
}

/// A decoded extension.
#[derive(Debug)]
pub enum Extension {
    ServerName(Vec<ServerName>),
    SupportedVersions(Vec<u16>),
    Unknown { ext_type: u16, raw: Vec<u8> },
}

/// What an extension holds, as plain values.
pub ghost enum ExtensionModel {
    ServerName(Seq<(u8, Seq<char>)>),
    SupportedVersions(Seq<u16>),
    Unknown(u16, Seq<u8>),
}

pub open spec fn names_view(v: Seq<ServerName>) -> Seq<(u8, Seq<char>)> {
    v.map_values(|n: ServerName| (n.name_type, n.name@))
}

impl View for Extension {
    type V = ExtensionModel;

    open spec fn view(&self) -> ExtensionModel {
        match self {
            Extension::ServerName(v) => ExtensionModel::ServerName(names_view(v@)),
            Extension::SupportedVersions(v) => ExtensionModel::SupportedVersions(v@),
            Extension::Unknown { ext_type, raw } => ExtensionModel::Unknown(*ext_type, raw@),
        }
    }
}

pub open spec fn extensions_view(v: Seq<Extension>) -> Seq<ExtensionModel> {
    v.map_values(|e: Extension| e@)
}

/// Prepends `x` to a decoded list; a failure stays a failure.
pub open spec fn prepend<T>(x: T, rest: Option<Seq<T>>) -> Option<Seq<T>> {
    match rest {
        Some(r) => Some(seq![x] + r),
        None => None,
    }
}

/// The entries `(name_type(1) | name_length(2) | name)` that exactly fill
/// `s[pos..end]`, in order; `None` where an entry runs past `end`.
pub open spec fn server_name_entries(s: Seq<u8>, pos: int, end: int) -> Option<Seq<(u8, Seq<char>)>>
    decreases end - pos,
{
    if pos >= end {
        Some(Seq::empty())
    } else if pos + 3 > end {
        None
    } else {
        let next = pos + 3 + be16(s, pos + 1);
        if next > end {
            None
        } else {
            prepend((s[pos], lossy_text(s.subrange(pos + 3, next))), server_name_entries(s, next, end))
        }
    }
}

/// The server name list of the extension data `s[start..end]`: empty data is
/// an empty list; otherwise a two-byte list length that covers the rest
/// exactly.
pub open spec fn server_name_list(s: Seq<u8>, start: int, end: int) -> Option<Seq<(u8, Seq<char>)>> {
    if start == end {
        Some(Seq::empty())
    } else if start + 2 > end || start + 2 + be16(s, start) != end {
        None
    } else {
        server_name_entries(s, start + 2, end)
    }
}

/// The supported versions of the extension data `s[start..end]`: a one-byte
/// length, even, that covers the rest exactly, then the two-byte codes.
pub open spec fn version_list(s: Seq<u8>, start: int, end: int) -> Option<Seq<u16>> {
    if start + 1 > end || s[start] as int % 2 != 0 || start + 1 + s[start] as int != end {
        None
    } else {
        Some(words(s, start + 1, s[start] as int / 2))
    }
}

/// The extension of type `t` whose data is `s[start..end]`.
pub open spec fn extension_model(t: u16, s: Seq<u8>, start: int, end: int) -> Option<ExtensionModel> {
    if t == EXT_SERVER_NAME {
        match server_name_list(s, start, end) {
            Some(v) => Some(ExtensionModel::ServerName(v)),
            None => None,
        }
    } else if t == EXT_SUPPORTED_VERSIONS {
        match version_list(s, start, end) {
            Some(v) => Some(ExtensionModel::SupportedVersions(v)),
            None => None,
        }
    } else {
        Some(ExtensionModel::Unknown(t, s.subrange(start, end)))
    }
}

/// The extensions `(ext_type(2) | ext_length(2) | ext_data)` that exactly
/// fill `s[pos..end]`, in order; `None` where one is truncated or malformed.
pub open spec fn extension_list(s: Seq<u8>, pos: int, end: int) -> Option<Seq<ExtensionModel>>
    decreases end - pos,
{
    if pos >= end {
        Some(Seq::empty())
    } else if pos + 4 > end {
        None
    } else {
        let next = pos + 4 + be16(s, pos + 2);
        if next > end {
            None
        } else {
            match extension_model(be16(s, pos) as u16, s, pos + 4, next) {
                Some(e) => prepend(e, extension_list(s, next, end)),
                None => None,
            }
        }
    }
}

/// Decodes the server name list in `buf[start..end]`.
pub fn parse_server_names(buf: &[u8], start: usize, end: usize) -> (r: Option<Vec<ServerName>>)
    requires
        start <= end <= buf@.len(),
    ensures
        match r {
            Some(v) => server_name_list(buf@, start as int, end as int) == Some(names_view(v@)),
            None => server_name_list(buf@, start as int, end as int).is_none(),
        },
{
    if start == end {
        return Some(Vec::new());
    }
    if end - start < 2 {
        return None;
    }
    let list_len = read_u16(buf, start) as usize;
    if end - start - 2 != list_len {
        return None;
    }
    let mut out: Vec<ServerName> = Vec::new();
    let mut pos: usize = start + 2;
    while pos < end
        invariant
            start + 2 <= pos <= end <= buf@.len(),
            server_name_entries(buf@, start + 2, end as int) == (match server_name_entries(buf@, pos as int, end as int) {
                Some(rest) => Some(names_view(out@) + rest),
                None => None::<Seq<(u8, Seq<char>)>>,
            }),
        decreases end - pos,
    {
        if end - pos < 3 {
            return None;
        }
        let name_len = read_u16(buf, pos + 1) as usize;
        if end - pos - 3 < name_len {
            return None;
        }
        let next = pos + 3 + name_len;
        let name = utf8_lossy(&buf[pos + 3..next]);
        let entry = ServerName { name_type: buf[pos], name };
        let ghost old_out = out@;
        out.push(entry);
        proof {
            assert(names_view(out@) =~= names_view(old_out) + seq![(buf@[pos as int], name@)]);
            match server_name_entries(buf@, next as int, end as int) {
                Some(rest) => {
                    assert(names_view(out@) + rest =~= names_view(old_out) + (seq![(buf@[pos as int], name@)] + rest));
                },
                None => {},
            }
        }
        pos = next;
    }
    proof {
        assert(names_view(out@) + Seq::<(u8, Seq<char>)>::empty() =~= names_view(out@));
    }
    Some(out)
}

/// Decodes the supported versions list in `buf[start..end]`.
pub fn parse_versions(buf: &[u8], start: usize, end: usize) -> (r: Option<Vec<u16>>)
    requires
        start <= end <= buf@.len(),
    ensures
        match r {
            Some(v) => version_list(buf@, start as int, end as int) == Some(v@),
            None => version_list(buf@, start as int, end as int).is_none(),
        },
{
    if start == end {
        return None;
    }
    let n = buf[start] as usize;
    if n % 2 != 0 || end - start - 1 != n {
        return None;
    }
    Some(read_words(buf, start + 1, n / 2))
}

/// Decodes one extension of type `ext_type` whose data is `buf[start..end]`.
pub fn parse_extension(ext_type: u16, buf: &[u8], start: usize, end: usize) -> (r: Option<Extension>)
    requires
        start <= end <= buf@.len(),
    ensures
        match r {
            Some(e) => extension_model(ext_type, buf@, start as int, end as int) == Some(e@),
            None => extension_model(ext_type, buf@, start as int, end as int).is_none(),
        },
{
    if ext_type == EXT_SERVER_NAME {
        match parse_server_names(buf, start, end) {
            Some(v) => Some(Extension::ServerName(v)),
            None => None,
        }
    } else if ext_type == EXT_SUPPORTED_VERSIONS {
        match parse_versions(buf, start, end) {
            Some(v) => Some(Extension::SupportedVersions(v)),
            None => None,
        }
    } else {
        Some(Extension::Unknown { ext_type, raw: copy_range(buf, start, end) })
    }
}

/// Decodes the extensions that exactly fill `buf[start..end]`, in order.
pub fn parse_extensions(buf: &[u8], start: usize, end: usize) -> (r: Option<Vec<Extension>>)
    requires
        start <= end <= buf@.len(),
    ensures
        match r {
            Some(v) => extension_list(buf@, start as int, end as int) == Some(extensions_view(v@)),
            None => extension_list(buf@, start as int, end as int).is_none(),
        },
{
    let mut out: Vec<Extension> = Vec::new();
    let mut pos: usize = start;
    while pos < end
        invariant
            start <= pos <= end <= buf@.len(),
            extension_list(buf@, start as int, end as int) == (match extension_list(buf@, pos as int, end as int) {
                Some(rest) => Some(extensions_view(out@) + rest),
                None => None::<Seq<ExtensionModel>>,
            }),
        decreases end - pos,
    {
        if end - pos < 4 {
            return None;
        }
        let ext_type = read_u16(buf, pos);
        let ext_len = read_u16(buf, pos + 2) as usize;
        if end - pos - 4 < ext_len {
            return None;
        }
        let next = pos + 4 + ext_len;
        let ext = match parse_extension(ext_type, buf, pos + 4, next) {
            Some(e) => e,
            None => return None,
        };
        let ghost old_out = out@;
        let ghost m = ext@;
        out.push(ext);
        proof {
            assert(extensions_view(out@) =~= extensions_view(old_out) + seq![m]);
            match extension_list(buf@, next as int, end as int) {
                Some(rest) => {
                    assert(extensions_view(out@) + rest =~= extensions_view(old_out) + (seq![m] + rest));
                },
                None => {},
            }
        }
        pos = next;
    }
    proof {
        assert(extensions_view(out@) + Seq::<ExtensionModel>::empty() =~= extensions_view(out@));
    }
    Some(out)
}

} // verus!
