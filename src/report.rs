//! The report of what a client offered, built from its ClientHello.

use vstd::prelude::*;
use crate::extension::{Extension, ExtensionModel, ServerName, extensions_view, names_view};
use crate::hello::{ClientHello, ClientHelloModel};

verus! {

/// The name of the cipher suite with IANA id `id`, where it has one.
pub uninterp spec fn suite_name(id: u16) -> Option<Seq<char>>;

/// Relies on `tls_parser::TlsCipherSuiteID::get_ciphersuite`: a lookup of
/// `id` in a fixed table of known suites, whose entry carries the name.
#[verifier::external_body]
fn lookup_suite_name(id: u16) -> (r: Option<&'static str>)
    ensures
        match r {
            Some(n) => suite_name(id) == Some(n@),
            None => suite_name(id).is_none(),
        },
{
    tls_parser::TlsCipherSuiteID(id).get_ciphersuite().map(|s| s.name)
}

/// The display name of a protocol version code.
pub open spec fn version_name(v: u16) -> Seq<char> {
    if v == 0x0300 {
        "SSL 3.0"@
    } else if v == 0x0301 {
        "TLS 1.0"@
    } else if v == 0x0302 {
        "TLS 1.1"@
    } else if v == 0x0303 {
        "TLS 1.2"@
    } else if v == 0x0304 {
        "TLS 1.3"@
    } else if v == 0x7f12 {
        "TLS 1.3 Draft 18"@
    } else if v == 0x7f13 {
        "TLS 1.3 Draft 19"@
    } else if v == 0x7f14 {
        "TLS 1.3 Draft 20"@
    } else if v == 0x7f15 {
        "TLS 1.3 Draft 21"@
    } else if v == 0x7f16 {
        "TLS 1.3 Draft 22"@
    } else if v == 0x7f17 {
        "TLS 1.3 Draft 23"@
    } else {
        "UNKNOWN"@
    }
}

/// A protocol version with its display name.
#[derive(Debug)]
pub struct Version {
    pub name: &'static str,
    pub version: u16,
}

impl Version {
    pub fn new(version: u16) -> (r: Version)
        ensures
            r.version == version,
            r.name@ == version_name(version),
    {
        let name = if version == 0x0300 {
            "SSL 3.0"
        } else if version == 0x0301 {
            "TLS 1.0"
        } else if version == 0x0302 {
            "TLS 1.1"
        } else if version == 0x0303 {
            "TLS 1.2"
        } else if version == 0x0304 {
            "TLS 1.3"
        } else if version == 0x7f12 {
            "TLS 1.3 Draft 18"
        } else if version == 0x7f13 {
            "TLS 1.3 Draft 19"
        } else if version == 0x7f14 {
            "TLS 1.3 Draft 20"
        } else if version == 0x7f15 {
            "TLS 1.3 Draft 21"
        } else if version == 0x7f16 {
            "TLS 1.3 Draft 22"
        } else if version == 0x7f17 {
            "TLS 1.3 Draft 23"
        } else {
            "UNKNOWN"
        };
        Version { name, version }
    }
}

/// The display name of a cipher suite, given what the suite table holds
/// for it.
pub open spec fn cipher_name(found: Option<Seq<char>>) -> Seq<char> {
    match found {
        Some(n) => n,
        None => "UNKNOWN"@,
    }
}

/// A cipher suite with its display name.
#[derive(Debug)]
pub struct Cipher {
    pub name: &'static str,
    pub id: u16,
}

impl Cipher {
    /// The cipher suite `id`, named from the suite table.
    pub fn new(id: u16) -> (r: Cipher)
        ensures
            r.id == id,
            r.name@ == cipher_name(suite_name(id)),
    {
        let found = lookup_suite_name(id);
        Cipher::from_lookup(id, found)
    }

    /// The cipher suite `id`, given the name the suite table holds for it.
    pub fn from_lookup(id: u16, found: Option<&'static str>) -> (r: Cipher)
        ensures
            r.id == id,
            r.name@ == cipher_name(match found { Some(n) => Some(n@), None => None }),
    {
        let name = match found {
            Some(n) => n,
            None => "UNKNOWN",
        };
        Cipher { name, id }
    }
}

/// The server names of the last server-name extension in `exts`.
pub open spec fn last_server_names(exts: Seq<ExtensionModel>) -> Option<Seq<(u8, Seq<char>)>>
    decreases exts.len(),
{
    if exts.len() == 0 {
        None
    } else {
        match exts.last() {
            ExtensionModel::ServerName(v) => Some(v),
            _ => last_server_names(exts.drop_last()),
        }
    }
}

/// The version codes of the last supported-versions extension in `exts`.
pub open spec fn last_supported_versions(exts: Seq<ExtensionModel>) -> Option<Seq<u16>>
    decreases exts.len(),
{
    if exts.len() == 0 {
        None
    } else {
        match exts.last() {
            ExtensionModel::SupportedVersions(v) => Some(v),
            _ => last_supported_versions(exts.drop_last()),
        }
    }
}

/// The versions a client offers: its supported-versions extension where it
/// sent one, else its `client_version` alone.
pub open spec fn offered_versions(h: ClientHelloModel) -> Seq<u16> {
    match last_supported_versions(h.extensions) {
        Some(v) => v,
        None => seq![h.client_version],
    }
}

/// The host names a client asked for, in the order it sent them.
pub open spec fn requested_hosts(h: ClientHelloModel) -> Seq<Seq<char>> {
    match last_server_names(h.extensions) {
        Some(v) => v.map_values(|e: (u8, Seq<char>)| e.1),
        None => Seq::empty(),
    }
}

/// Whether a client offers any compression other than the null method 0.
pub open spec fn offers_compression(h: ClientHelloModel) -> bool {
    exists|i: int| 0 <= i < h.compression_methods.len() && h.compression_methods[i] != 0
}

/// What a client offered, ready to be shown.
#[derive(Debug)]
pub struct Report {
    pub versions: Vec<Version>,
    pub ciphers: Vec<Cipher>,
    pub compression: bool,
    pub sni: Vec<String>,
}

impl Report {
    pub fn new(hello: &ClientHello) -> (r: Report)
        ensures
            r.versions@.len() == offered_versions(hello@).len(),
            forall|i: int| 0 <= i < r.versions@.len() ==> {
                &&& r.versions@[i].version == offered_versions(hello@)[i]
                &&& r.versions@[i].name@ == version_name(offered_versions(hello@)[i])
            },
            r.ciphers@.len() == hello.cipher_suites@.len(),
            forall|i: int| 0 <= i < r.ciphers@.len() ==> {
                &&& r.ciphers@[i].id == hello.cipher_suites@[i]
                &&& r.ciphers@[i].name@ == cipher_name(suite_name(hello.cipher_suites@[i]))
            },
            r.compression == offers_compression(hello@),
            r.sni@.map_values(|s: String| s@) == requested_hosts(hello@),
    {
        let mut ciphers: Vec<Cipher> = Vec::new();
        let mut i: usize = 0;
        while i < hello.cipher_suites.len()
            invariant
                i <= hello.cipher_suites@.len(),
                ciphers@.len() == i,
                forall|j: int| 0 <= j < i ==> {
                    &&& ciphers@[j].id == hello.cipher_suites@[j]
                    &&& ciphers@[j].name@ == cipher_name(suite_name(hello.cipher_suites@[j]))
                },
            decreases hello.cipher_suites@.len() - i,
        {
            ciphers.push(Cipher::new(hello.cipher_suites[i]));
            i = i + 1;
        }

        let mut compression = false;
        let mut i: usize = 0;
        while i < hello.compression_methods.len()
            invariant
                i <= hello.compression_methods@.len(),
                compression == exists|j: int| 0 <= j < i && hello.compression_methods@[j] != 0,
            decreases hello.compression_methods@.len() - i,
        {
            if hello.compression_methods[i] != 0 {
                compression = true;
            }
            i = i + 1;
        }
        proof {
            if compression {
                let j = choose|j: int| 0 <= j < i && hello.compression_methods@[j] != 0;
                assert(hello@.compression_methods[j] != 0);
            }
        }

        let ghost exts = extensions_view(hello.extensions@);
        let mut names: Option<&Vec<ServerName>> = None;
        let mut offered: Option<&Vec<u16>> = None;
        let mut i: usize = 0;
        while i < hello.extensions.len()
            invariant
                i <= hello.extensions@.len(),
                exts == extensions_view(hello.extensions@),
                last_server_names(exts.subrange(0, i as int)) == (match names {
                    Some(v) => Some(names_view(v@)),
                    None => None::<Seq<(u8, Seq<char>)>>,
                }),
                last_supported_versions(exts.subrange(0, i as int)) == (match offered {
                    Some(v) => Some(v@),
                    None => None::<Seq<u16>>,
                }),
            decreases hello.extensions@.len() - i,
        {
            proof {
                assert(exts.subrange(0, i + 1).drop_last() =~= exts.subrange(0, i as int));
            }
            match &hello.extensions[i] {
                Extension::ServerName(v) => {
                    names = Some(v);
                },
                Extension::SupportedVersions(v) => {
                    offered = Some(v);
                },
                Extension::Unknown { .. } => {},
            }
            i = i + 1;
        }
        proof {
            assert(exts.subrange(0, i as int) =~= exts);
        }

        let mut versions: Vec<Version> = Vec::new();
        match offered {
            Some(v) => {
                let mut k: usize = 0;
                while k < v.len()
                    invariant
                        k <= v@.len(),
                        versions@.len() == k,
                        forall|j: int| 0 <= j < k ==> {
                            &&& versions@[j].version == v@[j]
                            &&& versions@[j].name@ == version_name(v@[j])
                        },
                    decreases v@.len() - k,
                {
                    versions.push(Version::new(v[k]));
                    k = k + 1;
                }
            },
            None => {
                versions.push(Version::new(hello.client_version));
            },
        }

        let mut sni: Vec<String> = Vec::new();
        match names {
            Some(v) => {
                let mut k: usize = 0;
                while k < v.len()
                    invariant
                        k <= v@.len(),
                        sni@.len() == k,
                        forall|j: int| 0 <= j < k ==> sni@[j]@ == v@[j].name@,
                    decreases v@.len() - k,
                {
                    sni.push(v[k].name.clone());
                    k = k + 1;
                }
                proof {
                    assert(sni@.map_values(|s: String| s@)
                        =~= names_view(v@).map_values(|e: (u8, Seq<char>)| e.1));
                }
            },
            None => {
                assert(sni@.map_values(|s: String| s@) =~= Seq::<Seq<char>>::empty());
            },
        }

        Report { versions, ciphers, compression, sni }
    }
}

} // verus!
