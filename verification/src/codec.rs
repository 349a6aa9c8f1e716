//! Codec: the fixed binary encoding of transmissions.
//!
//! Every transmission is encoded discriminant-first: one tag byte, then the
//! variant's fields. Integers are eight bytes, least significant first; a
//! path is its length followed by its bytes. Encoding is deterministic, and
//! decoding accepts exactly the encodings: an unknown tag, a malformed
//! field or a trailing byte is rejected.

use vstd::prelude::*;
use vstd::arithmetic::div_mod::{
    lemma_div_denominator, lemma_fundamental_div_mod, lemma_fundamental_div_mod_converse,
};

use crate::data::{
    ChangeEvent, DirectoryCreate, DirectoryDelete, DirectoryEvent, DirectoryMove,
    DirectoryUndoDelete, ErrorKind, EventV, FileCreate, FileDelete, FileEvent, FileModify,
    FileMove, FileUndoDelete, TransV, Transmission,
};

verus! {

// ---------------------------------------------------------------------------
// Eight-byte integers, least significant byte first
// ---------------------------------------------------------------------------

/// The eight bytes of `v`, least significant first.
pub open spec fn enc_u64(v: u64) -> Seq<u8> {
    seq![
        (v as int % 0x100) as u8,
        (v as int / 0x100 % 0x100) as u8,
        (v as int / 0x1_0000 % 0x100) as u8,
        (v as int / 0x100_0000 % 0x100) as u8,
        (v as int / 0x1_0000_0000 % 0x100) as u8,
        (v as int / 0x100_0000_0000 % 0x100) as u8,
        (v as int / 0x1_0000_0000_0000 % 0x100) as u8,
        (v as int / 0x100_0000_0000_0000 % 0x100) as u8,
    ]
}

/// The integer held by the first eight bytes of `s`.
pub open spec fn first_u64(s: Seq<u8>) -> u64 {
    (s[0] + s[1] * 0x100 + s[2] * 0x1_0000 + s[3] * 0x100_0000 + s[4] * 0x1_0000_0000 + s[5]
        * 0x100_0000_0000 + s[6] * 0x1_0000_0000_0000 + s[7] * 0x100_0000_0000_0000) as u64
}

/// Reading back the eight encoded bytes of `v` yields `v`.
proof fn lemma_u64_roundtrip(v: u64)
    ensures
        first_u64(enc_u64(v)) == v,
{
    let x = v as int;
    lemma_fundamental_div_mod(x, 0x100);
    lemma_fundamental_div_mod(x / 0x100, 0x100);
    lemma_fundamental_div_mod(x / 0x1_0000, 0x100);
    lemma_fundamental_div_mod(x / 0x100_0000, 0x100);
    lemma_fundamental_div_mod(x / 0x1_0000_0000, 0x100);
    lemma_fundamental_div_mod(x / 0x100_0000_0000, 0x100);
    lemma_fundamental_div_mod(x / 0x1_0000_0000_0000, 0x100);
    lemma_fundamental_div_mod(x / 0x100_0000_0000_0000, 0x100);
    lemma_div_denominator(x, 0x100, 0x100);
    lemma_div_denominator(x, 0x1_0000, 0x100);
    lemma_div_denominator(x, 0x100_0000, 0x100);
    lemma_div_denominator(x, 0x1_0000_0000, 0x100);
    lemma_div_denominator(x, 0x100_0000_0000, 0x100);
    lemma_div_denominator(x, 0x1_0000_0000_0000, 0x100);
    lemma_div_denominator(x, 0x100_0000_0000_0000, 0x100);
    lemma_fundamental_div_mod_converse(x, 0x1_0000_0000_0000_0000, 0, x);
}

/// Appends the eight bytes of `v`.
fn push_u64(out: &mut Vec<u8>, v: u64)
    ensures
        final(out)@ == old(out)@ + enc_u64(v),
{
    let ghost before = out@;
    out.push((v % 0x100) as u8);
    out.push((v / 0x100 % 0x100) as u8);
    out.push((v / 0x1_0000 % 0x100) as u8);
    out.push((v / 0x100_0000 % 0x100) as u8);
    out.push((v / 0x1_0000_0000 % 0x100) as u8);
    out.push((v / 0x100_0000_0000 % 0x100) as u8);
    out.push((v / 0x1_0000_0000_0000 % 0x100) as u8);
    out.push((v / 0x100_0000_0000_0000 % 0x100) as u8);
    proof {
        assert(out@ =~= before + enc_u64(v));
    }
}

/// Reads the eight-byte integer at `pos`.
fn read_u64(bytes: &Vec<u8>, pos: usize) -> (r: u64)
    requires
        pos + 8 <= bytes@.len(),
    ensures
        r == first_u64(bytes@.skip(pos as int)),
{
    let n = bytes.len();
    proof {
        assert(pos + 8 <= n);
    }
    let r = bytes[pos] as u64 + bytes[pos + 1] as u64 * 0x100 + bytes[pos + 2] as u64 * 0x1_0000
        + bytes[pos + 3] as u64 * 0x100_0000 + bytes[pos + 4] as u64 * 0x1_0000_0000 + bytes[pos
        + 5] as u64 * 0x100_0000_0000 + bytes[pos + 6] as u64 * 0x1_0000_0000_0000 + bytes[pos
        + 7] as u64 * 0x100_0000_0000_0000;
    proof {
        let s = bytes@.skip(pos as int);
        assert(s[0] == bytes@[pos as int]);
        assert(s[1] == bytes@[pos + 1]);
        assert(s[2] == bytes@[pos + 2]);
        assert(s[3] == bytes@[pos + 3]);
        assert(s[4] == bytes@[pos + 4]);
        assert(s[5] == bytes@[pos + 5]);
        assert(s[6] == bytes@[pos + 6]);
        assert(s[7] == bytes@[pos + 7]);
    }
    r
}

// ---------------------------------------------------------------------------
// The encoding
// ---------------------------------------------------------------------------

/// A path on the wire: its length, then its bytes.
pub open spec fn enc_bytes(p: Seq<u8>) -> Seq<u8> {
    enc_u64(p.len() as u64) + p
}

/// The byte of an error kind.
pub open spec fn enc_error(k: ErrorKind) -> u8 {
    match k {
        ErrorKind::ProtocolViolation => 0,
        ErrorKind::StorageFailure => 1,
        ErrorKind::Unimplemented => 2,
    }
}

/// The encoding of a change event: a tag byte, then its paths and size.
pub open spec fn spec_encode_event(e: EventV) -> Seq<u8> {
    match e {
        EventV::FileCreate { path, size } => seq![0u8] + enc_bytes(path) + enc_u64(size),
        EventV::FileModify { path, size } => seq![1u8] + enc_bytes(path) + enc_u64(size),
        EventV::FileDelete { path } => seq![2u8] + enc_bytes(path),
        EventV::FileMove { from, to } => seq![3u8] + enc_bytes(from) + enc_bytes(to),
        EventV::FileUndoDelete { path } => seq![4u8] + enc_bytes(path),
        EventV::DirCreate { path } => seq![5u8] + enc_bytes(path),
        EventV::DirDelete { path } => seq![6u8] + enc_bytes(path),
        EventV::DirMove { from, to } => seq![7u8] + enc_bytes(from) + enc_bytes(to),
        EventV::DirUndoDelete { path } => seq![8u8] + enc_bytes(path),
    }
}

/// The encoding of a transmission: a tag byte, then the variant's fields.
pub open spec fn spec_encode(t: TransV) -> Seq<u8> {
    match t {
        TransV::Greeting { version } => seq![0u8] + enc_u64(version),
        TransV::Proceed => seq![1u8],
        TransV::SkipCurrent => seq![2u8],
        TransV::TransactionComplete => seq![3u8],
        TransV::EndConnection => seq![4u8],
        TransV::ServerVersion { version } => seq![5u8] + enc_u64(version),
        TransV::SyncClientToServer { client_version, number_of_changes } => seq![6u8] + enc_u64(
            client_version,
        ) + enc_u64(number_of_changes),
        TransV::SyncServerToClient { client_version } => seq![7u8] + enc_u64(client_version),
        TransV::ChangeEvent(e) => seq![8u8] + spec_encode_event(e),
        TransV::ServerVersionRequest => seq![9u8],
        TransV::Other => seq![10u8],
        TransV::Error(k) => seq![11u8, enc_error(k)],
    }
}

// ---------------------------------------------------------------------------
// The decoding
// ---------------------------------------------------------------------------

/// A path read off the front of `s`: the path and what follows it, when the
/// length field is well-formed.
pub open spec fn dec_path(s: Seq<u8>) -> Option<(Seq<u8>, Seq<u8>)> {
    if s.len() < 8 {
        None
    } else {
        let n = first_u64(s) as int;
        if s.len() - 8 < n {
            None
        } else {
            Some((s.subrange(8, 8 + n), s.skip(8 + n)))
        }
    }
}

/// The change event a byte string encodes, when it encodes one.
pub open spec fn spec_decode_event(s: Seq<u8>) -> Option<EventV> {
    if s.len() < 1 {
        None
    } else {
        let tag = s[0];
        let rest = s.skip(1);
        if tag == 0 || tag == 1 {
            match dec_path(rest) {
                Some((path, r2)) => if r2.len() == 8 {
                    if tag == 0 {
                        Some(EventV::FileCreate { path, size: first_u64(r2) })
                    } else {
                        Some(EventV::FileModify { path, size: first_u64(r2) })
                    }
                } else {
                    None
                },
                None => None,
            }
        } else if tag == 3 || tag == 7 {
            match dec_path(rest) {
                Some((from, r2)) => match dec_path(r2) {
                    Some((to, r3)) => if r3.len() == 0 {
                        if tag == 3 {
                            Some(EventV::FileMove { from, to })
                        } else {
                            Some(EventV::DirMove { from, to })
                        }
                    } else {
                        None
                    },
                    None => None,
                },
                None => None,
            }
        } else if tag == 2 || tag == 4 || tag == 5 || tag == 6 || tag == 8 {
            match dec_path(rest) {
                Some((path, r2)) => if r2.len() == 0 {
                    if tag == 2 {
                        Some(EventV::FileDelete { path })
                    } else if tag == 4 {
                        Some(EventV::FileUndoDelete { path })
                    } else if tag == 5 {
                        Some(EventV::DirCreate { path })
                    } else if tag == 6 {
                        Some(EventV::DirDelete { path })
                    } else {
                        Some(EventV::DirUndoDelete { path })
                    }
                } else {
                    None
                },
                None => None,
            }
        } else {
            None
        }
    }
}

/// The transmission a byte string encodes, when it encodes one: exactly the
/// encodings decode, and to the transmission that produced them.
pub open spec fn spec_decode(s: Seq<u8>) -> Option<TransV> {
    if s.len() < 1 {
        None
    } else {
        let tag = s[0];
        let body = s.skip(1);
        if tag == 0 || tag == 5 || tag == 7 {
            if body.len() == 8 {
                if tag == 0 {
                    Some(TransV::Greeting { version: first_u64(body) })
                } else if tag == 5 {
                    Some(TransV::ServerVersion { version: first_u64(body) })
                } else {
                    Some(TransV::SyncServerToClient { client_version: first_u64(body) })
                }
            } else {
                None
            }
        } else if tag == 1 || tag == 2 || tag == 3 || tag == 4 || tag == 9 || tag == 10 {
            if body.len() == 0 {
                if tag == 1 {
                    Some(TransV::Proceed)
                } else if tag == 2 {
                    Some(TransV::SkipCurrent)
                } else if tag == 3 {
                    Some(TransV::TransactionComplete)
                } else if tag == 4 {
                    Some(TransV::EndConnection)
                } else if tag == 9 {
                    Some(TransV::ServerVersionRequest)
                } else {
                    Some(TransV::Other)
                }
            } else {
                None
            }
        } else if tag == 6 {
            if body.len() == 16 {
                Some(
                    TransV::SyncClientToServer {
                        client_version: first_u64(body),
                        number_of_changes: first_u64(body.skip(8)),
                    },
                )
            } else {
                None
            }
        } else if tag == 8 {
            match spec_decode_event(body) {
                Some(e) => Some(TransV::ChangeEvent(e)),
                None => None,
            }
        } else if tag == 11 {
            if body.len() == 1 {
                if body[0] == 0 {
                    Some(TransV::Error(ErrorKind::ProtocolViolation))
                } else if body[0] == 1 {
                    Some(TransV::Error(ErrorKind::StorageFailure))
                } else if body[0] == 2 {
                    Some(TransV::Error(ErrorKind::Unimplemented))
                } else {
                    None
                }
            } else {
                None
            }
        } else {
            None
        }
    }
}

// ---------------------------------------------------------------------------
// The executable encoder
// ---------------------------------------------------------------------------

/// Appends a path: its length, then its bytes.
fn push_bytes(out: &mut Vec<u8>, p: &Vec<u8>)
    ensures
        final(out)@ == old(out)@ + enc_bytes(p@),
{
    let ghost before = out@;
    push_u64(out, p.len() as u64);
    let mut i: usize = 0;
    while i < p.len()
        invariant
            i <= p@.len(),
            out@ == before + enc_u64(p@.len() as u64) + p@.take(i as int),
        decreases p@.len() - i,
    {
        out.push(p[i]);
        proof {
            assert(before + enc_u64(p@.len() as u64) + p@.take(i + 1 as int) =~= (before + enc_u64(
                p@.len() as u64,
            ) + p@.take(i as int)).push(p@[i as int]));
        }
        i = i + 1;
    }
    proof {
        assert(p@.take(p@.len() as int) =~= p@);
        assert(out@ =~= before + enc_bytes(p@));
        assert(before + enc_u64(p@.len() as u64) =~= before + enc_u64(p@.len() as u64));
    }
}

/// Encodes one transmission as its wire bytes.
pub fn transmission_type_to_bytes(transmission: &Transmission) -> (r: Vec<u8>)
    ensures
        r@ == spec_encode(transmission@),
{
    let mut out: Vec<u8> = Vec::new();
    match transmission {
        Transmission::Greeting { version } => {
            out.push(0);
            push_u64(&mut out, *version);
            proof {
                assert(out@ =~= spec_encode(transmission@));
            }
        },
        Transmission::Proceed => {
            out.push(1);
            proof {
                assert(out@ =~= spec_encode(transmission@));
            }
        },
        Transmission::SkipCurrent => {
            out.push(2);
            proof {
                assert(out@ =~= spec_encode(transmission@));
            }
        },
        Transmission::TransactionComplete => {
            out.push(3);
            proof {
                assert(out@ =~= spec_encode(transmission@));
            }
        },
        Transmission::EndConnection => {
            out.push(4);
            proof {
                assert(out@ =~= spec_encode(transmission@));
            }
        },
        Transmission::ServerVersion { version } => {
            out.push(5);
            push_u64(&mut out, *version);
            proof {
                assert(out@ =~= spec_encode(transmission@));
            }
        },
        Transmission::SyncClientToServer { client_version, number_of_changes } => {
            out.push(6);
            push_u64(&mut out, *client_version);
            push_u64(&mut out, *number_of_changes);
            proof {
                assert(out@ =~= spec_encode(transmission@));
            }
        },
        Transmission::SyncServerToClient { client_version } => {
            out.push(7);
            push_u64(&mut out, *client_version);
            proof {
                assert(out@ =~= spec_encode(transmission@));
            }
        },
        Transmission::ChangeEvent(e) => {
            out.push(8);
            push_event(&mut out, e);
            proof {
                assert(out@ =~= spec_encode(transmission@));
            }
        },
        Transmission::ServerVersionRequest => {
            out.push(9);
            proof {
                assert(out@ =~= spec_encode(transmission@));
            }
        },
        Transmission::Other => {
            out.push(10);
            proof {
                assert(out@ =~= spec_encode(transmission@));
            }
        },
        Transmission::Error(k) => {
            out.push(11);
            match k {
                ErrorKind::ProtocolViolation => out.push(0),
                ErrorKind::StorageFailure => out.push(1),
                ErrorKind::Unimplemented => out.push(2),
            }
            proof {
                assert(out@ =~= spec_encode(transmission@));
            }
        },
    }
    out
}

/// Appends the encoding of one change event.
fn push_event(out: &mut Vec<u8>, e: &ChangeEvent)
    ensures
        final(out)@ == old(out)@ + spec_encode_event(e@),
{
    let ghost before = out@;
    match e {
        ChangeEvent::File(FileEvent::Create(x)) => {
            out.push(0);
            push_bytes(out, &x.path);
            push_u64(out, x.size);
            proof {
                assert(out@ =~= before + spec_encode_event(e@));
            }
        },
        ChangeEvent::File(FileEvent::Modify(x)) => {
            out.push(1);
            push_bytes(out, &x.path);
            push_u64(out, x.size);
            proof {
                assert(out@ =~= before + spec_encode_event(e@));
            }
        },
        ChangeEvent::File(FileEvent::Delete(x)) => {
            out.push(2);
            push_bytes(out, &x.path);
            proof {
                assert(out@ =~= before + spec_encode_event(e@));
            }
        },
        ChangeEvent::File(FileEvent::Move(x)) => {
            out.push(3);
            push_bytes(out, &x.from_path);
            push_bytes(out, &x.to_path);
            proof {
                assert(out@ =~= before + spec_encode_event(e@));
            }
        },
        ChangeEvent::File(FileEvent::UndoDelete(x)) => {
            out.push(4);
            push_bytes(out, &x.path);
            proof {
                assert(out@ =~= before + spec_encode_event(e@));
            }
        },
        ChangeEvent::Directory(DirectoryEvent::Create(x)) => {
            out.push(5);
            push_bytes(out, &x.path);
            proof {
                assert(out@ =~= before + spec_encode_event(e@));
            }
        },
        ChangeEvent::Directory(DirectoryEvent::Delete(x)) => {
            out.push(6);
            push_bytes(out, &x.path);
            proof {
                assert(out@ =~= before + spec_encode_event(e@));
            }
        },
        ChangeEvent::Directory(DirectoryEvent::Move(x)) => {
            out.push(7);
            push_bytes(out, &x.from_path);
            push_bytes(out, &x.to_path);
            proof {
                assert(out@ =~= before + spec_encode_event(e@));
            }
        },
        ChangeEvent::Directory(DirectoryEvent::UndoDelete(x)) => {
            out.push(8);
            push_bytes(out, &x.path);
            proof {
                assert(out@ =~= before + spec_encode_event(e@));
            }
        },
    }
}

// ---------------------------------------------------------------------------
// The executable decoder
// ---------------------------------------------------------------------------

/// Reads a path at `pos`: the path and the position after it, when the
/// length field is well-formed.
fn read_path(bytes: &Vec<u8>, pos: usize) -> (r: Option<(Vec<u8>, usize)>)
    requires
        pos <= bytes@.len(),
    ensures
        match r {
            Option::Some(pr) => dec_path(bytes@.skip(pos as int)) == Some(
                (pr.0@, bytes@.skip(pr.1 as int)),
            ) && pos <= pr.1 <= bytes@.len(),
            Option::None => dec_path(bytes@.skip(pos as int)) is None,
        },
{
    let ghost s = bytes@.skip(pos as int);
    let n = bytes.len();
    if n - pos < 8 {
        proof {
            assert(s.len() < 8);
        }
        return None;
    }
    let plen64 = read_u64(bytes, pos);
    let avail = (n - pos - 8) as u64;
    if plen64 > avail {
        proof {
            assert(first_u64(s) == plen64);
            assert(s.len() - 8 < plen64 as int);
        }
        return None;
    }
    let plen = plen64 as usize;
    let mut p: Vec<u8> = Vec::new();
    let mut i: usize = 0;
    proof {
        assert(p@ =~= bytes@.subrange(pos + 8, pos + 8 + i));
    }
    while i < plen
        invariant
            i <= plen,
            pos + 8 + plen <= bytes@.len(),
            bytes@.len() <= usize::MAX,
            p@ == bytes@.subrange(pos + 8, pos + 8 + i),
        decreases plen - i,
    {
        p.push(bytes[pos + 8 + i]);
        proof {
            assert(bytes@.subrange(pos + 8, pos + 8 + i + 1) =~= bytes@.subrange(
                pos + 8,
                pos + 8 + i,
            ).push(bytes@[pos + 8 + i]));
        }
        i = i + 1;
    }
    let np = pos + 8 + plen;
    proof {
        assert(first_u64(s) == plen64);
        assert(s.subrange(8, 8 + plen64 as int) =~= bytes@.subrange(pos + 8, pos + 8 + plen));
        assert(s.skip(8 + plen64 as int) =~= bytes@.skip(np as int));
        assert(p@ =~= s.subrange(8, 8 + plen64 as int));
    }
    Some((p, np))
}

/// Decodes a change event at `pos`; rejects a malformed encoding.
fn decode_event(bytes: &Vec<u8>, pos: usize) -> (r: Result<ChangeEvent, ErrorKind>)
    requires
        pos <= bytes@.len(),
    ensures
        match r {
            Result::Ok(e) => spec_decode_event(bytes@.skip(pos as int)) == Some(e@),
            Result::Err(k) => spec_decode_event(bytes@.skip(pos as int)) is None && k
                == ErrorKind::ProtocolViolation,
        },
{
    let ghost s = bytes@.skip(pos as int);
    let n = bytes.len();
    if n - pos < 1 {
        proof {
            assert(s.len() < 1);
        }
        return Err(ErrorKind::ProtocolViolation);
    }
    let tag = bytes[pos];
    proof {
        assert(s[0] == tag);
        assert(s.skip(1) =~= bytes@.skip(pos + 1));
    }
    if tag == 0 || tag == 1 {
        match read_path(bytes, pos + 1) {
            Option::Some((path, np)) => {
                if n - np != 8 {
                    proof {
                        assert(bytes@.skip(np as int).len() != 8);
                    }
                    return Err(ErrorKind::ProtocolViolation);
                }
                let size = read_u64(bytes, np);
                if tag == 0 {
                    Ok(ChangeEvent::File(FileEvent::Create(FileCreate { path, size })))
                } else {
                    Ok(ChangeEvent::File(FileEvent::Modify(FileModify { path, size })))
                }
            },
            Option::None => Err(ErrorKind::ProtocolViolation),
        }
    } else if tag == 3 || tag == 7 {
        match read_path(bytes, pos + 1) {
            Option::Some((from_path, np)) => match read_path(bytes, np) {
                Option::Some((to_path, np2)) => {
                    if n - np2 != 0 {
                        proof {
                            assert(bytes@.skip(np2 as int).len() != 0);
                        }
                        return Err(ErrorKind::ProtocolViolation);
                    }
                    proof {
                        assert(bytes@.skip(np2 as int).len() == 0);
                    }
                    if tag == 3 {
                        Ok(ChangeEvent::File(FileEvent::Move(FileMove { from_path, to_path })))
                    } else {
                        Ok(
                            ChangeEvent::Directory(
                                DirectoryEvent::Move(DirectoryMove { from_path, to_path }),
                            ),
                        )
                    }
                },
                Option::None => Err(ErrorKind::ProtocolViolation),
            },
            Option::None => Err(ErrorKind::ProtocolViolation),
        }
    } else if tag == 2 || tag == 4 || tag == 5 || tag == 6 || tag == 8 {
        match read_path(bytes, pos + 1) {
            Option::Some((path, np)) => {
                if n - np != 0 {
                    proof {
                        assert(bytes@.skip(np as int).len() != 0);
                    }
                    return Err(ErrorKind::ProtocolViolation);
                }
                proof {
                    assert(bytes@.skip(np as int).len() == 0);
                }
                if tag == 2 {
                    Ok(ChangeEvent::File(FileEvent::Delete(FileDelete { path })))
                } else if tag == 4 {
                    Ok(ChangeEvent::File(FileEvent::UndoDelete(FileUndoDelete { path })))
                } else if tag == 5 {
                    Ok(ChangeEvent::Directory(DirectoryEvent::Create(DirectoryCreate { path })))
                } else if tag == 6 {
                    Ok(ChangeEvent::Directory(DirectoryEvent::Delete(DirectoryDelete { path })))
                } else {
                    Ok(
                        ChangeEvent::Directory(
                            DirectoryEvent::UndoDelete(DirectoryUndoDelete { path }),
                        ),
                    )
                }
            },
            Option::None => Err(ErrorKind::ProtocolViolation),
        }
    } else {
        Err(ErrorKind::ProtocolViolation)
    }
}

/// Decodes one transmission from its wire bytes; rejects an unknown tag, a
/// malformed field and a trailing byte.
pub fn bytes_to_transmission_type(bytes: &Vec<u8>) -> (r: Result<Transmission, ErrorKind>)
    ensures
        match r {
            Result::Ok(t) => spec_decode(bytes@) == Some(t@),
            Result::Err(k) => spec_decode(bytes@) is None && k == ErrorKind::ProtocolViolation,
        },
{
    let n = bytes.len();
    if n < 1 {
        return Err(ErrorKind::ProtocolViolation);
    }
    let tag = bytes[0];
    let ghost body = bytes@.skip(1);
    proof {
        assert(body.len() == n - 1);
    }
    if tag == 0 || tag == 5 || tag == 7 {
        if n != 9 {
            return Err(ErrorKind::ProtocolViolation);
        }
        let v = read_u64(bytes, 1);
        if tag == 0 {
            Ok(Transmission::Greeting { version: v })
        } else if tag == 5 {
            Ok(Transmission::ServerVersion { version: v })
        } else {
            Ok(Transmission::SyncServerToClient { client_version: v })
        }
    } else if tag == 1 || tag == 2 || tag == 3 || tag == 4 || tag == 9 || tag == 10 {
        if n != 1 {
            return Err(ErrorKind::ProtocolViolation);
        }
        if tag == 1 {
            Ok(Transmission::Proceed)
        } else if tag == 2 {
            Ok(Transmission::SkipCurrent)
        } else if tag == 3 {
            Ok(Transmission::TransactionComplete)
        } else if tag == 4 {
            Ok(Transmission::EndConnection)
        } else if tag == 9 {
            Ok(Transmission::ServerVersionRequest)
        } else {
            Ok(Transmission::Other)
        }
    } else if tag == 6 {
        if n != 17 {
            return Err(ErrorKind::ProtocolViolation);
        }
        let cv = read_u64(bytes, 1);
        let nc = read_u64(bytes, 9);
        proof {
            assert(body.skip(8) =~= bytes@.skip(9));
        }
        Ok(Transmission::SyncClientToServer { client_version: cv, number_of_changes: nc })
    } else if tag == 8 {
        match decode_event(bytes, 1) {
            Result::Ok(e) => Ok(Transmission::ChangeEvent(e)),
            Result::Err(k) => Err(k),
        }
    } else if tag == 11 {
        if n != 2 {
            return Err(ErrorKind::ProtocolViolation);
        }
        proof {
            assert(body[0] == bytes@[1]);
        }
        let kb = bytes[1];
        if kb == 0 {
            Ok(Transmission::Error(ErrorKind::ProtocolViolation))
        } else if kb == 1 {
            Ok(Transmission::Error(ErrorKind::StorageFailure))
        } else if kb == 2 {
            Ok(Transmission::Error(ErrorKind::Unimplemented))
        } else {
            Err(ErrorKind::ProtocolViolation)
        }
    } else {
        Err(ErrorKind::ProtocolViolation)
    }
}

// ---------------------------------------------------------------------------
// Round trip
// ---------------------------------------------------------------------------

proof fn lemma_first_u64_concat(v: u64, rest: Seq<u8>)
    ensures
        first_u64(enc_u64(v) + rest) == v,
{
    let s = enc_u64(v) + rest;
    assert(s[0] == enc_u64(v)[0]);
    assert(s[1] == enc_u64(v)[1]);
    assert(s[2] == enc_u64(v)[2]);
    assert(s[3] == enc_u64(v)[3]);
    assert(s[4] == enc_u64(v)[4]);
    assert(s[5] == enc_u64(v)[5]);
    assert(s[6] == enc_u64(v)[6]);
    assert(s[7] == enc_u64(v)[7]);
    lemma_u64_roundtrip(v);
}

proof fn lemma_dec_path_enc(p: Seq<u8>, rest: Seq<u8>)
    requires
        p.len() <= u64::MAX,
    ensures
        dec_path(enc_bytes(p) + rest) == Some((p, rest)),
{
    let s = enc_bytes(p) + rest;
    assert(s =~= enc_u64(p.len() as u64) + (p + rest));
    lemma_first_u64_concat(p.len() as u64, p + rest);
    assert(first_u64(s) == p.len() as u64);
    assert(s.subrange(8, 8 + p.len() as int) =~= p);
    assert(s.skip(8 + p.len() as int) =~= rest);
}

/// Every path the event names is short enough for its length field.
pub open spec fn event_bounded(e: EventV) -> bool {
    crate::optimize::first_path(e).len() <= u64::MAX && crate::optimize::second_path(e).len()
        <= u64::MAX
}

/// Every path the transmission names is short enough for its length field.
pub open spec fn trans_bounded(t: TransV) -> bool {
    match t {
        TransV::ChangeEvent(e) => event_bounded(e),
        _ => true,
    }
}

proof fn lemma_rt_path_size(tag: u8, path: Seq<u8>, size: u64)
    requires
        path.len() <= u64::MAX,
    ensures
        ({
            let s = seq![tag] + enc_bytes(path) + enc_u64(size);
            s.len() >= 1 && s[0] == tag && dec_path(s.skip(1)) == Some((path, enc_u64(size)))
                && first_u64(enc_u64(size)) == size && enc_u64(size).len() == 8
        }),
{
    let s = seq![tag] + enc_bytes(path) + enc_u64(size);
    assert(s.skip(1) =~= enc_bytes(path) + enc_u64(size));
    lemma_dec_path_enc(path, enc_u64(size));
    lemma_u64_roundtrip(size);
}

proof fn lemma_rt_path_only(tag: u8, path: Seq<u8>)
    requires
        path.len() <= u64::MAX,
    ensures
        ({
            let s = seq![tag] + enc_bytes(path);
            s.len() >= 1 && s[0] == tag && dec_path(s.skip(1)) == Some(
                (path, Seq::<u8>::empty()),
            )
        }),
{
    let s = seq![tag] + enc_bytes(path);
    assert(s.skip(1) =~= enc_bytes(path) + Seq::<u8>::empty());
    lemma_dec_path_enc(path, Seq::empty());
}

proof fn lemma_rt_two_paths(tag: u8, from: Seq<u8>, to: Seq<u8>)
    requires
        from.len() <= u64::MAX,
        to.len() <= u64::MAX,
    ensures
        ({
            let s = seq![tag] + enc_bytes(from) + enc_bytes(to);
            s.len() >= 1 && s[0] == tag && dec_path(s.skip(1)) == Some((from, enc_bytes(to)))
                && dec_path(enc_bytes(to)) == Some((to, Seq::<u8>::empty()))
        }),
{
    let s = seq![tag] + enc_bytes(from) + enc_bytes(to);
    assert(s.skip(1) =~= enc_bytes(from) + (enc_bytes(to) + Seq::<u8>::empty()));
    lemma_dec_path_enc(from, enc_bytes(to) + Seq::empty());
    assert(enc_bytes(to) + Seq::<u8>::empty() =~= enc_bytes(to));
    lemma_dec_path_enc(to, Seq::empty());
}

proof fn lemma_event_round_trip(e: EventV)
    requires
        event_bounded(e),
    ensures
        spec_decode_event(spec_encode_event(e)) == Some(e),
{
    let s = spec_encode_event(e);
    match e {
        EventV::FileCreate { path, size } => {
            lemma_rt_path_size(0, path, size);
        },
        EventV::FileModify { path, size } => {
            lemma_rt_path_size(1, path, size);
        },
        EventV::FileDelete { path } => {
            lemma_rt_path_only(2, path);
        },
        EventV::FileMove { from, to } => {
            lemma_rt_two_paths(3, from, to);
        },
        EventV::FileUndoDelete { path } => {
            lemma_rt_path_only(4, path);
        },
        EventV::DirCreate { path } => {
            lemma_rt_path_only(5, path);
        },
        EventV::DirDelete { path } => {
            lemma_rt_path_only(6, path);
        },
        EventV::DirMove { from, to } => {
            lemma_rt_two_paths(7, from, to);
        },
        EventV::DirUndoDelete { path } => {
            lemma_rt_path_only(8, path);
        },
    }
}

/// Decoding inverts encoding: every transmission comes back from its own
/// wire bytes.
#[verifier::rlimit(100)]
pub proof fn lemma_codec_round_trip(t: TransV)
    requires
        trans_bounded(t),
    ensures
        spec_decode(spec_encode(t)) == Some(t),
{
    let s = spec_encode(t);
    match t {
        TransV::Greeting { version } => {
            assert(s[0] == 0u8);
            assert(s.skip(1) =~= enc_u64(version));
            lemma_u64_roundtrip(version);
        },
        TransV::Proceed => {
            assert(s[0] == 1u8);
            assert(s.skip(1) =~= Seq::<u8>::empty());
        },
        TransV::SkipCurrent => {
            assert(s[0] == 2u8);
            assert(s.skip(1) =~= Seq::<u8>::empty());
        },
        TransV::TransactionComplete => {
            assert(s[0] == 3u8);
            assert(s.skip(1) =~= Seq::<u8>::empty());
        },
        TransV::EndConnection => {
            assert(s[0] == 4u8);
            assert(s.skip(1) =~= Seq::<u8>::empty());
        },
        TransV::ServerVersion { version } => {
            assert(s[0] == 5u8);
            assert(s.skip(1) =~= enc_u64(version));
            lemma_u64_roundtrip(version);
        },
        TransV::SyncClientToServer { client_version, number_of_changes } => {
            assert(s[0] == 6u8);
            assert(s.skip(1) =~= enc_u64(client_version) + enc_u64(number_of_changes));
            lemma_first_u64_concat(client_version, enc_u64(number_of_changes));
            assert(s.skip(1).skip(8) =~= enc_u64(number_of_changes));
            lemma_u64_roundtrip(number_of_changes);
        },
        TransV::SyncServerToClient { client_version } => {
            assert(s[0] == 7u8);
            assert(s.skip(1) =~= enc_u64(client_version));
            lemma_u64_roundtrip(client_version);
        },
        TransV::ChangeEvent(e) => {
            assert(s[0] == 8u8);
            assert(s.skip(1) =~= spec_encode_event(e));
            lemma_event_round_trip(e);
        },
        TransV::ServerVersionRequest => {
            assert(s[0] == 9u8);
            assert(s.skip(1) =~= Seq::<u8>::empty());
        },
        TransV::Other => {
            assert(s[0] == 10u8);
            assert(s.skip(1) =~= Seq::<u8>::empty());
        },
        TransV::Error(k) => {
            assert(s[0] == 11u8);
            assert(s.skip(1) =~= seq![enc_error(k)]);
        },
    }
}

} // verus!
