use vstd::prelude::*;
use crate::error::ParseError;
use crate::hostname::spec_parse_server_name;
use crate::slicer::{lemma_be_value_nonneg, spec_drop_before, spec_truncate};
use crate::tls::{
    spec_hello_extensions, spec_parse_client_hello, spec_parse_record, spec_walk_extensions,
    spec_walk_server_names,
};

verus! {

/// Version gating: a record whose major version is not 3 is rejected as
/// unsupported, whatever else the buffer holds.
pub proof fn lemma_version_gating(data: Seq<u8>)
    requires
        spec_parse_record(data) matches Ok(rec) && rec.version_major != 3,
    ensures
        spec_parse_client_hello(data) == Err::<Option<Seq<u8>>, ParseError>(
            ParseError::UnsupportedVersion,
        ),
{
}

/// Content-type gating: a record that passes the version gate but whose
/// content type is not 22 (handshake) is rejected as not a handshake,
/// whatever else the buffer holds.
pub proof fn lemma_content_type_gating(data: Seq<u8>)
    requires
        spec_parse_record(data) matches Ok(rec) && rec.version_major == 3 && rec.content_type
            != 22,
    ensures
        spec_parse_client_hello(data) == Err::<Option<Seq<u8>>, ParseError>(
            ParseError::NotHandshake,
        ),
{
}

/// Once a hostname has been accepted, the rest of the server-name list is
/// still consumed but never replaces it.
pub proof fn lemma_server_name_walk_keeps_found(entries: Seq<u8>, name: Seq<u8>)
    ensures
        spec_walk_server_names(entries, Some(name)) matches Ok(n) ==> n == Some(name),
    decreases entries.len(),
{
    if entries.len() > 3 {
        match spec_truncate(entries, 1, 3) {
            Ok(value) => {
                lemma_be_value_nonneg(entries, 1, 3);
                let rest = entries.subrange(3 + value.len() as int, entries.len() as int);
                lemma_server_name_walk_keeps_found(rest, name);
            },
            Err(_) => {},
        }
    }
}

/// Once a hostname has been accepted, the remaining extensions are still
/// consumed but never replace it.
pub proof fn lemma_extensions_walk_keeps_found(exts: Seq<u8>, name: Seq<u8>)
    ensures
        spec_walk_extensions(exts, Some(name)) matches Ok(n) ==> n == Some(name),
    decreases exts.len(),
{
    if exts.len() >= 4 {
        match spec_truncate(exts, 2, 4) {
            Ok(ext_data) => {
                lemma_be_value_nonneg(exts, 2, 4);
                let rest = exts.subrange(4 + ext_data.len() as int, exts.len() as int);
                if exts[0] == 0 && exts[1] == 0 {
                    match spec_truncate(ext_data, 0, 2) {
                        Ok(entries) => {
                            lemma_server_name_walk_keeps_found(entries, name);
                            lemma_extensions_walk_keeps_found(rest, name);
                        },
                        Err(_) => {},
                    }
                } else {
                    lemma_extensions_walk_keeps_found(rest, name);
                }
            },
            Err(_) => {},
        }
    }
}

/// First-match wins: when the server-name list opens with a valid hostname
/// entry, a successful walk returns that first hostname, whatever entries
/// follow it.
pub proof fn lemma_first_entry_wins(entries: Seq<u8>, value: Seq<u8>)
    requires
        entries.len() > 3,
        entries[0] == 0,
        spec_truncate(entries, 1, 3) == Ok::<Seq<u8>, ParseError>(value),
        spec_parse_server_name(value) == Ok::<Seq<u8>, ParseError>(value),
    ensures
        spec_walk_server_names(entries, None) matches Ok(n) ==> n == Some(value),
{
    lemma_be_value_nonneg(entries, 1, 3);
    let rest = entries.subrange(3 + value.len() as int, entries.len() as int);
    lemma_server_name_walk_keeps_found(rest, value);
}

/// Whether the extension walk meets an extension of type 0,0, the Server
/// Name Indication, before it stops or fails.
pub open spec fn has_sni_extension(exts: Seq<u8>) -> bool
    decreases exts.len(),
    via has_sni_extension_decreases
{
    if exts.len() < 4 {
        false
    } else if exts[0] == 0 && exts[1] == 0 {
        true
    } else {
        match spec_truncate(exts, 2, 4) {
            Ok(ext_data) => has_sni_extension(
                exts.subrange(4 + ext_data.len() as int, exts.len() as int),
            ),
            Err(_) => false,
        }
    }
}

#[via_fn]
proof fn has_sni_extension_decreases(exts: Seq<u8>) {
    lemma_be_value_nonneg(exts, 2, 4);
}

/// A walk that meets no Server Name Indication extension leaves the result
/// as it was: it can still fail on a malformed length, but it never turns
/// absence into an error of its own.
pub proof fn lemma_walk_without_sni(exts: Seq<u8>, found: Option<Seq<u8>>)
    requires
        !has_sni_extension(exts),
    ensures
        spec_walk_extensions(exts, found) matches Ok(n) ==> n == found,
    decreases exts.len(),
{
    if exts.len() >= 4 {
        match spec_truncate(exts, 2, 4) {
            Ok(ext_data) => {
                lemma_be_value_nonneg(exts, 2, 4);
                let rest = exts.subrange(4 + ext_data.len() as int, exts.len() as int);
                lemma_walk_without_sni(rest, found);
            },
            Err(_) => {},
        }
    }
}

/// Absence is distinct from error: a hello that parses and carries no
/// Server Name Indication extension (or no extensions block at all) yields
/// an absent name, never an error.
pub proof fn lemma_absent_name_is_none(data: Seq<u8>)
    requires
        spec_parse_client_hello(data) matches Ok(_),
        (match spec_hello_extensions(data) {
            Ok(Some(exts)) => !has_sni_extension(exts),
            Ok(None) => true,
            Err(_) => false,
        }),
    ensures
        spec_parse_client_hello(data) == Ok::<Option<Seq<u8>>, ParseError>(None),
{
    match spec_hello_extensions(data) {
        Ok(Some(exts)) => lemma_walk_without_sni(exts, None),
        _ => {},
    }
}

/// `part` stands somewhere in `whole` as one contiguous range of bytes.
pub open spec fn is_subrange_of(part: Seq<u8>, whole: Seq<u8>) -> bool {
    exists|i: int|
        0 <= i && i + part.len() <= whole.len() && part == #[trigger] whole.subrange(
            i,
            i + part.len() as int,
        )
}

pub proof fn lemma_subrange_of_trans(a: Seq<u8>, b: Seq<u8>, c: Seq<u8>)
    requires
        is_subrange_of(a, b),
        is_subrange_of(b, c),
    ensures
        is_subrange_of(a, c),
{
    let i = choose|i: int|
        0 <= i && i + a.len() <= b.len() && a == #[trigger] b.subrange(i, i + a.len() as int);
    let j = choose|j: int|
        0 <= j && j + b.len() <= c.len() && b == #[trigger] c.subrange(j, j + b.len() as int);
    assert(a =~= c.subrange(j + i, j + i + a.len() as int));
}

/// Both results of a successful length-prefixed read are contiguous ranges
/// of the buffer they were read from.
pub proof fn lemma_sliced_is_subrange(data: Seq<u8>, start: int, end: int)
    ensures
        spec_truncate(data, start, end) matches Ok(body) ==> is_subrange_of(body, data),
        spec_drop_before(data, start, end) matches Ok(rest) ==> is_subrange_of(rest, data),
{
    lemma_be_value_nonneg(data, start, end);
    match spec_truncate(data, start, end) {
        Ok(body) => {
            assert(body == data.subrange(end, end + body.len() as int));
            let k = end + body.len() as int;
            let rest = data.subrange(k, data.len() as int);
            assert(rest == data.subrange(k, k + rest.len() as int));
        },
        Err(_) => {},
    }
}

proof fn lemma_walk_suffix_subrange(whole: Seq<u8>, k: int)
    requires
        0 <= k <= whole.len(),
    ensures
        is_subrange_of(whole.subrange(k, whole.len() as int), whole),
{
    let part = whole.subrange(k, whole.len() as int);
    assert(part == whole.subrange(k, k + part.len() as int));
}

/// A hostname that a successful server-name walk returns was either already
/// in hand or is a contiguous range of the walked bytes.
pub proof fn lemma_server_name_walk_subrange(entries: Seq<u8>, found: Option<Seq<u8>>, name: Seq<u8>)
    requires
        spec_walk_server_names(entries, found) == Ok::<Option<Seq<u8>>, ParseError>(Some(name)),
    ensures
        found == Some(name) || is_subrange_of(name, entries),
    decreases entries.len(),
{
    if entries.len() > 3 {
        match spec_truncate(entries, 1, 3) {
            Ok(value) => {
                lemma_be_value_nonneg(entries, 1, 3);
                lemma_sliced_is_subrange(entries, 1, 3);
                let rest = entries.subrange(3 + value.len() as int, entries.len() as int);
                lemma_walk_suffix_subrange(entries, 3 + value.len() as int);
                if entries[0] == 0 && found is None {
                    match spec_parse_server_name(value) {
                        Ok(_) => {
                            lemma_server_name_walk_subrange(rest, Some(value), name);
                            if Some(value) != Some(name) {
                                lemma_subrange_of_trans(name, rest, entries);
                            }
                        },
                        Err(_) => {},
                    }
                } else {
                    lemma_server_name_walk_subrange(rest, found, name);
                    if found != Some(name) {
                        lemma_subrange_of_trans(name, rest, entries);
                    }
                }
            },
            Err(_) => {},
        }
    }
}

/// A hostname that a successful extension walk returns was either already
/// in hand or is a contiguous range of the walked bytes.
pub proof fn lemma_extensions_walk_subrange(exts: Seq<u8>, found: Option<Seq<u8>>, name: Seq<u8>)
    requires
        spec_walk_extensions(exts, found) == Ok::<Option<Seq<u8>>, ParseError>(Some(name)),
    ensures
        found == Some(name) || is_subrange_of(name, exts),
    decreases exts.len(),
{
    if exts.len() >= 4 {
        match spec_truncate(exts, 2, 4) {
            Ok(ext_data) => {
                lemma_be_value_nonneg(exts, 2, 4);
                lemma_sliced_is_subrange(exts, 2, 4);
                let rest = exts.subrange(4 + ext_data.len() as int, exts.len() as int);
                lemma_walk_suffix_subrange(exts, 4 + ext_data.len() as int);
                if exts[0] == 0 && exts[1] == 0 {
                    match spec_truncate(ext_data, 0, 2) {
                        Ok(entries) => {
                            lemma_sliced_is_subrange(ext_data, 0, 2);
                            match spec_walk_server_names(entries, found) {
                                Ok(found2) => {
                                    lemma_extensions_walk_subrange(rest, found2, name);
                                    if found2 == Some(name) {
                                        lemma_server_name_walk_subrange(entries, found, name);
                                        if found != Some(name) {
                                            lemma_subrange_of_trans(name, entries, ext_data);
                                            lemma_subrange_of_trans(name, ext_data, exts);
                                        }
                                    } else {
                                        lemma_subrange_of_trans(name, rest, exts);
                                    }
                                },
                                Err(_) => {},
                            }
                        },
                        Err(_) => {},
                    }
                } else {
                    lemma_extensions_walk_subrange(rest, found, name);
                    if found != Some(name) {
                        lemma_subrange_of_trans(name, rest, exts);
                    }
                }
            },
            Err(_) => {},
        }
    }
}

/// Zero copy: a hostname returned for `data` is one contiguous range of
/// `data`'s own bytes.
pub proof fn lemma_name_is_subrange_of_input(data: Seq<u8>, name: Seq<u8>)
    requires
        spec_parse_client_hello(data) == Ok::<Option<Seq<u8>>, ParseError>(Some(name)),
    ensures
        is_subrange_of(name, data),
{
    match spec_parse_record(data) {
        Ok(rec) => {
            lemma_sliced_is_subrange(data, 3, 5);
            match spec_truncate(rec.fragment, 1, 4) {
                Ok(hello) => {
                    lemma_sliced_is_subrange(rec.fragment, 1, 4);
                    match spec_drop_before(hello, 34, 35) {
                        Ok(after_session) => {
                            lemma_sliced_is_subrange(hello, 34, 35);
                            match spec_drop_before(after_session, 0, 2) {
                                Ok(after_ciphers) => {
                                    lemma_sliced_is_subrange(after_session, 0, 2);
                                    match spec_drop_before(after_ciphers, 0, 1) {
                                        Ok(after_compression) => {
                                            lemma_sliced_is_subrange(after_ciphers, 0, 1);
                                            match spec_truncate(after_compression, 0, 2) {
                                                Ok(exts) => {
                                                    lemma_sliced_is_subrange(
                                                        after_compression,
                                                        0,
                                                        2,
                                                    );
                                                    lemma_extensions_walk_subrange(
                                                        exts,
                                                        None,
                                                        name,
                                                    );
                                                    lemma_subrange_of_trans(
                                                        name,
                                                        exts,
                                                        after_compression,
                                                    );
                                                    lemma_subrange_of_trans(
                                                        name,
                                                        after_compression,
                                                        after_ciphers,
                                                    );
                                                    lemma_subrange_of_trans(
                                                        name,
                                                        after_ciphers,
                                                        after_session,
                                                    );
                                                    lemma_subrange_of_trans(
                                                        name,
                                                        after_session,
                                                        hello,
                                                    );
                                                    lemma_subrange_of_trans(
                                                        name,
                                                        hello,
                                                        rec.fragment,
                                                    );
                                                    lemma_subrange_of_trans(
                                                        name,
                                                        rec.fragment,
                                                        data,
                                                    );
                                                },
                                                Err(_) => {},
                                            }
                                        },
                                        Err(_) => {},
                                    }
                                },
                                Err(_) => {},
                            }
                        },
                        Err(_) => {},
                    }
                },
                Err(_) => {},
            }
        },
        Err(_) => {},
    }
}

} // verus!
