use vstd::prelude::*;
use vstd::string::StringSliceAdditionalSpecFns;
use vstd::utf8::decode_utf8;
use crate::error::ParseError;
use crate::hostname::{
    legal_name_char, parse_server_name, spec_parse_server_name, valid_hostname_bytes,
};
use crate::slicer::{drop_before, lemma_be_value_nonneg, spec_drop_before, spec_truncate, truncate};

verus! {

/// One TLS record: the three header bytes and the length-bounded fragment,
/// borrowed from the input buffer.
pub struct TlsRecord<'a> {
    pub content_type: u8,
    pub version_major: u8,
    pub version_minor: u8,
    pub fragment: &'a [u8],
}

/// The mathematical shape of a parsed record: the header bytes and the
/// fragment's byte sequence.
pub ghost struct RecordModel {
    pub content_type: u8,
    pub version_major: u8,
    pub version_minor: u8,
    pub fragment: Seq<u8>,
}

impl<'a> TlsRecord<'a> {
    pub open spec fn model(self) -> RecordModel {
        RecordModel {
            content_type: self.content_type,
            version_major: self.version_major,
            version_minor: self.version_minor,
            fragment: self.fragment@,
        }
    }
}

/// The outcome of parsing a ClientHello: the Server Name Indication
/// hostname, when one was present, borrowed from the input buffer.
pub struct TlsClientHello<'a> {
    pub server_name: Option<&'a str>,
}

/// What `parse_tls_record` returns: the first three bytes of the buffer as
/// the record header, and the fragment sized by the big-endian length in
/// bytes 3..5.
pub open spec fn spec_parse_record(data: Seq<u8>) -> Result<RecordModel, ParseError> {
    match spec_truncate(data, 3, 5) {
        Ok(fragment) => Ok(
            RecordModel {
                content_type: data[0],
                version_major: data[1],
                version_minor: data[2],
                fragment,
            },
        ),
        Err(e) => Err(e),
    }
}

/// One step of the server-name list walk: entries are (name-type,
/// length, value) triples; the first hostname entry (name type 0) that
/// validates becomes the result, and later entries are consumed but no
/// longer examined.
pub open spec fn spec_walk_server_names(entries: Seq<u8>, found: Option<Seq<u8>>) -> Result<
    Option<Seq<u8>>,
    ParseError,
>
    decreases entries.len(),
    via walk_server_names_decreases
{
    if entries.len() <= 3 {
        Ok(found)
    } else {
        match spec_truncate(entries, 1, 3) {
            Err(e) => Err(e),
            Ok(value) => {
                let rest = entries.subrange(3 + value.len() as int, entries.len() as int);
                if entries[0] == 0 && found is None {
                    match spec_parse_server_name(value) {
                        Err(e) => Err(e),
                        Ok(name) => spec_walk_server_names(rest, Some(name)),
                    }
                } else {
                    spec_walk_server_names(rest, found)
                }
            },
        }
    }
}

#[via_fn]
proof fn walk_server_names_decreases(entries: Seq<u8>, found: Option<Seq<u8>>) {
    // a successful length read leaves a strictly shorter remainder
    lemma_be_value_nonneg(entries, 1, 3);
}

/// One step of the extension walk: extensions are (type, length, value)
/// triples; an extension of type 0 (Server Name Indication) is walked for
/// hostname entries, every other type is skipped whole.
pub open spec fn spec_walk_extensions(exts: Seq<u8>, found: Option<Seq<u8>>) -> Result<
    Option<Seq<u8>>,
    ParseError,
>
    decreases exts.len(),
    via walk_extensions_decreases
{
    if exts.len() < 4 {
        Ok(found)
    } else {
        match spec_truncate(exts, 2, 4) {
            Err(e) => Err(e),
            Ok(ext_data) => {
                let rest = exts.subrange(4 + ext_data.len() as int, exts.len() as int);
                if exts[0] == 0 && exts[1] == 0 {
                    match spec_truncate(ext_data, 0, 2) {
                        Err(e) => Err(e),
                        Ok(entries) => match spec_walk_server_names(entries, found) {
                            Err(e) => Err(e),
                            Ok(found2) => spec_walk_extensions(rest, found2),
                        },
                    }
                } else {
                    spec_walk_extensions(rest, found)
                }
            },
        }
    }
}

#[via_fn]
proof fn walk_extensions_decreases(exts: Seq<u8>, found: Option<Seq<u8>>) {
    // a successful length read leaves a strictly shorter remainder
    lemma_be_value_nonneg(exts, 2, 4);
}

/// The framing of a ClientHello up to its extensions block: the record
/// header and version gates, the handshake type and length, the client
/// version, and the skipped random, session id, cipher suites and
/// compression methods. `Ok(None)` is a well-formed hello that ends before
/// any extensions block; `Ok(Some(exts))` is its extensions block.
pub open spec fn spec_hello_extensions(data: Seq<u8>) -> Result<Option<Seq<u8>>, ParseError> {
    match spec_parse_record(data) {
        Err(e) => Err(e),
        Ok(rec) => if rec.version_major != 3 {
            Err(ParseError::UnsupportedVersion)
        } else if rec.content_type != 22 {
            Err(ParseError::NotHandshake)
        } else if rec.fragment.len() == 0 || rec.fragment[0] != 1 {
            Err(ParseError::NotClientHello)
        } else {
            match spec_truncate(rec.fragment, 1, 4) {
                Err(e) => Err(e),
                Ok(hello) => if hello.len() == 0 || hello[0] != 3 {
                    Err(ParseError::UnsupportedClientVersion)
                } else {
                    match spec_drop_before(hello, 34, 35) {
                        Err(e) => Err(e),
                        Ok(after_session) => match spec_drop_before(after_session, 0, 2) {
                            Err(e) => Err(e),
                            Ok(after_ciphers) => match spec_drop_before(after_ciphers, 0, 1) {
                                Err(e) => Err(e),
                                Ok(after_compression) => if after_compression.len() < 2 {
                                    Ok(None)
                                } else {
                                    match spec_truncate(after_compression, 0, 2) {
                                        Err(e) => Err(e),
                                        Ok(exts) => Ok(Some(exts)),
                                    }
                                },
                            },
                        },
                    }
                },
            }
        },
    }
}

/// What `parse_client_hello` decides for a buffer: the bytes of the first
/// valid hostname entry of the first Server Name Indication extension, the
/// explicit absence of one, or the first decode failure.
pub open spec fn spec_parse_client_hello(data: Seq<u8>) -> Result<Option<Seq<u8>>, ParseError> {
    match spec_hello_extensions(data) {
        Err(e) => Err(e),
        Ok(None) => Ok(None),
        Ok(Some(exts)) => spec_walk_extensions(exts, None),
    }
}

/// The returned hostname stands for the model's name bytes: both absent, or
/// a string whose byte encoding is exactly those (valid hostname) bytes.
pub open spec fn name_matches(server_name: Option<&str>, name: Option<Seq<u8>>) -> bool {
    match (server_name, name) {
        (Some(s), Some(bytes)) => {
            &&& valid_hostname_bytes(bytes)
            &&& s.spec_bytes() == bytes
            &&& s@ == decode_utf8(bytes)
            &&& s@.len() == bytes.len()
            &&& forall|i: int| 0 <= i < s@.len() ==> legal_name_char(#[trigger] s@[i])
        },
        (None, None) => true,
        _ => false,
    }
}

/// Splits one TLS record off the front of the buffer: content type, the
/// protocol version, and the fragment sized by the record length field.
pub fn parse_tls_record<'a>(data: &'a [u8]) -> (r: Result<TlsRecord<'a>, ParseError>)
    ensures
        (match r {
            Ok(rec) => spec_parse_record(data@) == Ok::<RecordModel, ParseError>(rec.model()),
            Err(e) => spec_parse_record(data@) == Err::<RecordModel, ParseError>(e),
        }),
{
    let fragment = match truncate(data, 3, 5) {
        Ok(f) => f,
        Err(e) => return Err(e),
    };
    // the length field fits, so the buffer holds the whole 5-byte header
    Ok(
        TlsRecord {
            content_type: data[0],
            version_major: data[1],
            version_minor: data[2],
            fragment,
        },
    )
}

/// Parses a ClientHello out of the buffer's first TLS record and returns
/// the Server Name Indication hostname, if one is present: a borrowed view
/// into `data`, never a copy.
#[verifier::loop_isolation(false)]
pub fn parse_client_hello<'a>(data: &'a [u8]) -> (r: Result<TlsClientHello<'a>, ParseError>)
    ensures
        (match r {
            Ok(hello) => spec_parse_client_hello(data@) matches Ok(name) && name_matches(
                hello.server_name,
                name,
            ),
            Err(e) => spec_parse_client_hello(data@) == Err::<Option<Seq<u8>>, ParseError>(e),
        }),
{
    let rec = match parse_tls_record(data) {
        Ok(rc) => rc,
        Err(e) => return Err(e),
    };
    if rec.version_major != 3 {
        return Err(ParseError::UnsupportedVersion);
    }
    if rec.content_type != 22 {
        return Err(ParseError::NotHandshake);
    }
    let fragment = rec.fragment;
    // byte 0 of the fragment is the handshake type; 1 is ClientHello
    if fragment.len() == 0 || fragment[0] != 1 {
        return Err(ParseError::NotClientHello);
    }
    // bytes 1..4: 3-byte handshake body length
    let hello = match truncate(fragment, 1, 4) {
        Ok(h) => h,
        Err(e) => return Err(e),
    };
    // byte 0 of the body: client version, major part
    if hello.len() == 0 || hello[0] != 3 {
        return Err(ParseError::UnsupportedClientVersion);
    }
    // bytes 2..34 hold the random; byte 34 sizes the session id
    let remaining = match drop_before(hello, 34, 35) {
        Ok(x) => x,
        Err(e) => return Err(e),
    };
    // cipher suites, sized by a 2-byte length
    let remaining = match drop_before(remaining, 0, 2) {
        Ok(x) => x,
        Err(e) => return Err(e),
    };
    // compression methods, sized by a 1-byte length
    let remaining = match drop_before(remaining, 0, 1) {
        Ok(x) => x,
        Err(e) => return Err(e),
    };
    // a hello that ends before the optional 2-byte extensions length has no
    // extensions; only a declared-but-truncated block is an error
    if remaining.len() < 2 {
        return Ok(TlsClientHello { server_name: None });
    }
    let mut exts = match truncate(remaining, 0, 2) {
        Ok(x) => x,
        Err(e) => return Err(e),
    };
    let mut server_name: Option<&'a str> = None;
    let ghost mut found: Option<Seq<u8>> = None;
    while exts.len() >= 4
        invariant
            spec_parse_client_hello(data@) == spec_walk_extensions(exts@, found),
            name_matches(server_name, found),
        decreases exts@.len(),
    {
        // bytes 0..2: extension type; 0,0 is Server Name Indication
        let is_sni = exts[0] == 0 && exts[1] == 0;
        // bytes 2..4: extension length
        let ext_data = match truncate(exts, 2, 4) {
            Ok(x) => x,
            Err(e) => return Err(e),
        };
        let next = match drop_before(exts, 2, 4) {
            Ok(x) => x,
            Err(e) => return Err(e),
        };
        if is_sni {
            // bytes 0..2 of the extension: server-name list length
            let mut entries = match truncate(ext_data, 0, 2) {
                Ok(x) => x,
                Err(e) => return Err(e),
            };
            while entries.len() > 3
                invariant
                    spec_parse_client_hello(data@) == (match spec_walk_server_names(
                        entries@,
                        found,
                    ) {
                        Ok(f) => spec_walk_extensions(next@, f),
                        Err(e) => Err::<Option<Seq<u8>>, ParseError>(e),
                    }),
                    name_matches(server_name, found),
                decreases entries@.len(),
            {
                let name_type = entries[0];
                // bytes 1..3: 2-byte hostname length
                let value = match truncate(entries, 1, 3) {
                    Ok(v) => v,
                    Err(e) => return Err(e),
                };
                let rest = match drop_before(entries, 1, 3) {
                    Ok(x) => x,
                    Err(e) => return Err(e),
                };
                if name_type == 0 && server_name.is_none() {
                    match parse_server_name(value) {
                        Ok(s) => {
                            server_name = Some(s);
                            proof {
                                found = Some(value@);
                            }
                        },
                        Err(e) => return Err(e),
                    }
                }
                proof {
                    lemma_be_value_nonneg(entries@, 1, 3);
                    assert(rest@.len() < entries@.len());
                }
                entries = rest;
            }
        }
        proof {
            lemma_be_value_nonneg(exts@, 2, 4);
            assert(next@.len() < exts@.len());
        }
        exts = next;
    }
    Ok(TlsClientHello { server_name })
}

} // verus!
