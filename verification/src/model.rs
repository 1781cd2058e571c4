//! The ghost decoder: a mathematical reading of the snapshot format.
//!
//! Every function here maps the bytes still ahead of the cursor to either
//! the decoded value together with the bytes left after it, or to the exact
//! fault the run ends with.  The executable decoder is proved equal to these
//! functions, clause for clause.
use vstd::prelude::*;

use crate::constants::ENC_INT16;
use crate::constants::MODULE_OPCODE_DOUBLE;
use crate::constants::MODULE_OPCODE_EOF;
use crate::constants::MODULE_OPCODE_FLOAT;
use crate::constants::MODULE_OPCODE_SINT;
use crate::constants::MODULE_OPCODE_STRING;
use crate::constants::MODULE_OPCODE_UINT;
use crate::constants::ENC_INT32;
use crate::constants::ENC_INT8;
use crate::constants::ENC_LZF;
use crate::constants::VERSION_MAX;
use crate::constants::VERSION_MIN;
use crate::decimal::dec_of;
use crate::events::Event;
use crate::events::EventG;
use crate::events::ScoreG;
use crate::filter::FilterSpec;
use crate::reader::be32;
use crate::reader::be64;
use crate::reader::le16;
use crate::reader::le32;
use crate::reader::sign16;
use crate::reader::sign32;
use crate::reader::le24;
use crate::reader::le64;
use crate::reader::sign24;
use crate::reader::sign64;
use crate::reader::sign8;
use crate::types::EncodingType;
use crate::types::RdbError;
use crate::types::ZiplistEntry;

verus! {

/// What the compressed-blob expander returns: a function of the payload and
/// the offered capacity alone.  Named, not written out: the trusted wrapper
/// in the codec ties it to the outside decompressor.
pub uninterp spec fn lzf_expand(data: Seq<u8>, capacity: int) -> Option<Seq<u8>>;

/// Drop `n` bytes, or report how many were there.
pub open spec fn skip_n(s: Seq<u8>, n: usize) -> Result<Seq<u8>, RdbError> {
    if s.len() < n {
        Err(RdbError::ShortRead(n, s.len() as usize))
    } else {
        Ok(s.skip(n as int))
    }
}

/// One length token.  The first byte's top two bits pick the width; the
/// whole first byte distinguishes the four-byte from the eight-byte
/// big-endian form.  Returns the value, the encoded flag and the rest.
pub open spec fn len_dec(s: Seq<u8>) -> Result<(u64, bool, Seq<u8>), RdbError> {
    if s.len() < 1 {
        Err(RdbError::ShortRead(1, 0))
    } else {
        let b = s[0];
        let t = s.skip(1);
        if b & 0xC0 == 0xC0 {
            Ok((((b & 0x3F) as u64), true, t))
        } else if b & 0xC0 == 0x00 {
            Ok((((b & 0x3F) as u64), false, t))
        } else if b & 0xC0 == 0x40 {
            if t.len() < 1 {
                Err(RdbError::ShortRead(1, 0))
            } else {
                Ok((((((b & 0x3F) as u64) << 8) | (t[0] as u64)), false, t.skip(1)))
            }
        } else if b == 0x81 {
            if t.len() < 8 {
                Err(RdbError::ShortRead(8, t.len() as usize))
            } else {
                Ok((be64(t.take(8)), false, t.skip(8)))
            }
        } else {
            if t.len() < 4 {
                Err(RdbError::ShortRead(4, t.len() as usize))
            } else {
                Ok(((be32(t.take(4)) as u64), false, t.skip(4)))
            }
        }
    }
}

/// The byte width a length token occupies, fixed by its first byte alone.
pub open spec fn len_token_width(b: u8) -> int {
    if b & 0xC0 == 0xC0 {
        1
    } else if b & 0xC0 == 0x00 {
        1
    } else if b & 0xC0 == 0x40 {
        2
    } else if b == 0x81 {
        9
    } else {
        5
    }
}

/// One blob: a length token, then either raw bytes, a short integer
/// rendered as decimal text, or a compressed payload.
pub open spec fn blob_dec(s: Seq<u8>) -> Result<(Seq<u8>, Seq<u8>), RdbError> {
    match len_dec(s) {
        Err(e) => Err(e),
        Ok((length, is_encoded, t)) => if !is_encoded {
            if t.len() < length as usize {
                Err(RdbError::ShortRead(length as usize, t.len() as usize))
            } else {
                Ok((t.take(length as usize as int), t.skip(length as usize as int)))
            }
        } else if length == ENC_INT8 {
            if t.len() < 1 {
                Err(RdbError::ShortRead(1, 0))
            } else {
                Ok((dec_of(sign8(t[0])), t.skip(1)))
            }
        } else if length == ENC_INT16 {
            if t.len() < 2 {
                Err(RdbError::ShortRead(2, t.len() as usize))
            } else {
                Ok((dec_of(sign16(le16(t.take(2)))), t.skip(2)))
            }
        } else if length == ENC_INT32 {
            if t.len() < 4 {
                Err(RdbError::ShortRead(4, t.len() as usize))
            } else {
                Ok((dec_of(sign32(le32(t.take(4)))), t.skip(4)))
            }
        } else if length == ENC_LZF {
            match len_dec(t) {
                Err(e) => Err(e),
                Ok((cl, _, t2)) => match len_dec(t2) {
                    Err(e) => Err(e),
                    Ok((ul, _, t3)) => if t3.len() < cl as usize {
                        Err(RdbError::ShortRead(cl as usize, t3.len() as usize))
                    } else {
                        match lzf_expand(t3.take(cl as usize as int), (ul as usize) as int) {
                            Some(out) => Ok((out, t3.skip(cl as usize as int))),
                            None => Err(RdbError::LzfDecompressFailed),
                        }
                    },
                },
            }
        } else {
            Err(RdbError::UnknownEncoding(length))
        },
    }
}

/// The skip path of a blob: same length token, same consumption, but the
/// payload is dropped unread and a compressed payload is not expanded.
pub open spec fn skip_blob_dec(s: Seq<u8>) -> Result<Seq<u8>, RdbError> {
    match len_dec(s) {
        Err(e) => Err(e),
        Ok((length, is_encoded, t)) => if !is_encoded {
            skip_n(t, length as usize)
        } else if length == ENC_INT8 {
            skip_n(t, 1)
        } else if length == ENC_INT16 {
            skip_n(t, 2)
        } else if length == ENC_INT32 {
            skip_n(t, 4)
        } else if length == ENC_LZF {
            match len_dec(t) {
                Err(e) => Err(e),
                Ok((cl, _, t2)) => match len_dec(t2) {
                    Err(e) => Err(e),
                    Ok((_ul, _, t3)) => skip_n(t3, cl as usize),
                },
            }
        } else {
            Err(RdbError::UnknownEncoding(length))
        },
    }
}

/// The five magic bytes.
pub open spec fn is_magic(s: Seq<u8>) -> bool {
    s.len() >= 5 && s[0] == 82 && s[1] == 69 && s[2] == 68 && s[3] == 73 && s[4] == 83
}

/// The preamble's magic check.
pub open spec fn magic_dec(s: Seq<u8>) -> Result<Seq<u8>, RdbError> {
    if s.len() < 5 {
        Err(RdbError::ShortRead(5, s.len() as usize))
    } else if is_magic(s) {
        Ok(s.skip(5))
    } else {
        Err(RdbError::InvalidMagic)
    }
}

/// An ASCII digit.
pub open spec fn is_digit(b: u8) -> bool {
    48 <= b <= 57
}

/// The four version digits as a number.
pub open spec fn version_value(s: Seq<u8>) -> u32
    recommends
        s.len() == 4,
{
    ((s[0] - 48) * 1000 + (s[1] - 48) * 100 + (s[2] - 48) * 10 + (s[3] - 48)) as u32
}

/// The preamble's version check: four ASCII digits naming a supported
/// version.
pub open spec fn version_dec(s: Seq<u8>) -> Result<Seq<u8>, RdbError> {
    if s.len() < 4 {
        Err(RdbError::ShortRead(4, s.len() as usize))
    } else if !(is_digit(s[0]) && is_digit(s[1]) && is_digit(s[2]) && is_digit(s[3])) {
        Err(RdbError::UnsupportedVersion)
    } else if VERSION_MIN <= version_value(s.take(4)) && version_value(s.take(4)) <= VERSION_MAX {
        Ok(s.skip(4))
    } else {
        Err(RdbError::UnsupportedVersion)
    }
}

// ---------------------------------------------------------------------
// Container payloads
// ---------------------------------------------------------------------

/// The element events of a list-like collection.
pub open spec fn list_elem_events(key: Seq<u8>, items: Seq<Seq<u8>>) -> Seq<EventG> {
    items.map_values(|v: Seq<u8>| Event::ListElement { key, value: v })
}

/// The element events of a set.
pub open spec fn set_elem_events(key: Seq<u8>, items: Seq<Seq<u8>>) -> Seq<EventG> {
    items.map_values(|v: Seq<u8>| Event::SetElement { key, value: v })
}

/// The element events of a hash, one per field/value pair.
pub open spec fn hash_elem_events(key: Seq<u8>, pairs: Seq<(Seq<u8>, Seq<u8>)>) -> Seq<EventG> {
    pairs.map_values(|p: (Seq<u8>, Seq<u8>)| Event::HashElement { key, field: p.0, value: p.1 })
}

/// The element events of a sorted set, one per member/score pair.
pub open spec fn zset_elem_events(key: Seq<u8>, entries: Seq<(Seq<u8>, ScoreG)>) -> Seq<EventG> {
    entries.map_values(
        |p: (Seq<u8>, ScoreG)| Event::SortedSetElement { key, score: p.1, member: p.0 },
    )
}

/// `n` consecutive blobs.
pub open spec fn list_items_dec(s: Seq<u8>, n: u64) -> Result<(Seq<Seq<u8>>, Seq<u8>), RdbError>
    decreases n,
{
    if n == 0 {
        Ok((Seq::empty(), s))
    } else {
        match blob_dec(s) {
            Err(e) => Err(e),
            Ok((b, t)) => match list_items_dec(t, (n - 1) as u64) {
                Err(e) => Err(e),
                Ok((items, rest)) => Ok((seq![b] + items, rest)),
            },
        }
    }
}

/// A plain string value: one blob.
pub open spec fn obj_string(s: Seq<u8>, key: Seq<u8>, exp: Option<u64>) -> Result<
    (Seq<EventG>, Seq<u8>),
    RdbError,
> {
    match blob_dec(s) {
        Err(e) => Err(e),
        Ok((v, t)) => Ok((seq![Event::SetValue { key, value: v, expiry: exp }], t)),
    }
}

/// A linked-list-encoded list or set: a count, then that many blobs.
pub open spec fn obj_linked_list(s: Seq<u8>, key: Seq<u8>, exp: Option<u64>, is_list: bool) -> Result<
    (Seq<EventG>, Seq<u8>),
    RdbError,
> {
    match len_dec(s) {
        Err(e) => Err(e),
        Ok((n, _, t)) => match list_items_dec(t, n) {
            Err(e) => Err(e),
            Ok((items, rest)) => {
                let start = if is_list {
                    Event::StartList {
                        key,
                        length: n,
                        expiry: exp,
                        encoding: EncodingType::LinkedList,
                    }
                } else {
                    Event::StartSet { key, length: n, expiry: exp, encoding: EncodingType::LinkedList }
                };
                let end = if is_list {
                    Event::EndList { key }
                } else {
                    Event::EndSet { key }
                };
                let elems = if is_list {
                    list_elem_events(key, items)
                } else {
                    set_elem_events(key, items)
                };
                Ok((seq![start] + elems + seq![end], rest))
            },
        },
    }
}

/// `n` member/score entries of a sorted set.  Version 1 carries the score
/// as text behind a score-length byte whose values 253, 254 and 255 name
/// the non-finite scores; version 2 carries eight raw little-endian bytes.
pub open spec fn zset_entries_dec(s: Seq<u8>, n: u64, v2: bool) -> Result<
    (Seq<(Seq<u8>, ScoreG)>, Seq<u8>),
    RdbError,
>
    decreases n,
{
    if n == 0 {
        Ok((Seq::empty(), s))
    } else {
        match blob_dec(s) {
            Err(e) => Err(e),
            Ok((member, t)) => if v2 {
                if t.len() < 8 {
                    Err(RdbError::ShortRead(8, t.len() as usize))
                } else {
                    match zset_entries_dec(t.skip(8), (n - 1) as u64, v2) {
                        Err(e) => Err(e),
                        Ok((entries, rest)) => Ok(
                            (seq![(member, ScoreG::Bits(le64(t.take(8))))] + entries, rest),
                        ),
                    }
                }
            } else {
                if t.len() < 1 {
                    Err(RdbError::ShortRead(1, 0))
                } else {
                    let sl = t[0];
                    let u = t.skip(1);
                    if sl == 253 {
                        match zset_entries_dec(u, (n - 1) as u64, v2) {
                            Err(e) => Err(e),
                            Ok((entries, rest)) => Ok((seq![(member, ScoreG::Nan)] + entries, rest)),
                        }
                    } else if sl == 254 {
                        match zset_entries_dec(u, (n - 1) as u64, v2) {
                            Err(e) => Err(e),
                            Ok((entries, rest)) => Ok((seq![(member, ScoreG::Inf)] + entries, rest)),
                        }
                    } else if sl == 255 {
                        match zset_entries_dec(u, (n - 1) as u64, v2) {
                            Err(e) => Err(e),
                            Ok((entries, rest)) => Ok(
                                (seq![(member, ScoreG::NegInf)] + entries, rest),
                            ),
                        }
                    } else {
                        if u.len() < sl as usize {
                            Err(RdbError::ShortRead(sl as usize, u.len() as usize))
                        } else {
                            match zset_entries_dec(u.skip(sl as int), (n - 1) as u64, v2) {
                                Err(e) => Err(e),
                                Ok((entries, rest)) => Ok(
                                    (
                                        seq![(member, ScoreG::Ascii(u.take(sl as int)))] + entries,
                                        rest,
                                    ),
                                ),
                            }
                        }
                    }
                }
            },
        }
    }
}

/// A sorted set: a count, then that many member/score entries.
pub open spec fn obj_zset(s: Seq<u8>, key: Seq<u8>, exp: Option<u64>, v2: bool) -> Result<
    (Seq<EventG>, Seq<u8>),
    RdbError,
> {
    match len_dec(s) {
        Err(e) => Err(e),
        Ok((n, _, t)) => match zset_entries_dec(t, n, v2) {
            Err(e) => Err(e),
            Ok((entries, rest)) => Ok(
                (
                    seq![
                        Event::StartSortedSet {
                            key,
                            length: n,
                            expiry: exp,
                            encoding: EncodingType::Hashtable,
                        },
                    ] + zset_elem_events(key, entries) + seq![Event::EndSortedSet { key }],
                    rest,
                ),
            ),
        },
    }
}

/// `n` field/value blob pairs.
pub open spec fn hash_pairs_dec(s: Seq<u8>, n: u64) -> Result<
    (Seq<(Seq<u8>, Seq<u8>)>, Seq<u8>),
    RdbError,
>
    decreases n,
{
    if n == 0 {
        Ok((Seq::empty(), s))
    } else {
        match blob_dec(s) {
            Err(e) => Err(e),
            Ok((field, t)) => match blob_dec(t) {
                Err(e) => Err(e),
                Ok((value, t2)) => match hash_pairs_dec(t2, (n - 1) as u64) {
                    Err(e) => Err(e),
                    Ok((pairs, rest)) => Ok((seq![(field, value)] + pairs, rest)),
                },
            },
        }
    }
}

/// A hash: a count, then that many field/value pairs.
pub open spec fn obj_hash(s: Seq<u8>, key: Seq<u8>, exp: Option<u64>) -> Result<
    (Seq<EventG>, Seq<u8>),
    RdbError,
> {
    match len_dec(s) {
        Err(e) => Err(e),
        Ok((n, _, t)) => match hash_pairs_dec(t, n) {
            Err(e) => Err(e),
            Ok((pairs, rest)) => Ok(
                (
                    seq![
                        Event::StartHash {
                            key,
                            length: n,
                            expiry: exp,
                            encoding: EncodingType::Hashtable,
                        },
                    ] + hash_elem_events(key, pairs) + seq![Event::EndHash { key }],
                    rest,
                ),
            ),
        },
    }
}

// ---------------------------------------------------------------------
// Packed-list payloads
// ---------------------------------------------------------------------

/// The three header fields of a packed list: total bytes, tail offset and
/// entry count, little-endian.
pub open spec fn zl_header_dec(s: Seq<u8>) -> Result<((u32, u32, u16), Seq<u8>), RdbError> {
    if s.len() < 4 {
        Err(RdbError::ShortRead(4, s.len() as usize))
    } else {
        let zlbytes = le32(s.take(4));
        let t = s.skip(4);
        if t.len() < 4 {
            Err(RdbError::ShortRead(4, t.len() as usize))
        } else {
            let zltail = le32(t.take(4));
            let t2 = t.skip(4);
            if t2.len() < 2 {
                Err(RdbError::ShortRead(2, t2.len() as usize))
            } else {
                Ok(((zlbytes, zltail, le16(t2.take(2))), t2.skip(2)))
            }
        }
    }
}

/// One packed-list entry: the previous-entry length, then a flag byte that
/// either gives a string length or names an integer width.
pub open spec fn zl_entry_raw_dec(s: Seq<u8>) -> Result<(ZiplistEntry<Seq<u8>>, Seq<u8>), RdbError> {
    if s.len() < 1 {
        Err(RdbError::ShortRead(1, 0))
    } else {
        let prev = s[0];
        let t0 = s.skip(1);
        match (if prev == 254 {
            skip_n(t0, 4)
        } else {
            Ok(t0)
        }) {
            Err(e) => Err(e),
            Ok(t) => if t.len() < 1 {
                Err(RdbError::ShortRead(1, 0))
            } else {
                let flag = t[0];
                let u = t.skip(1);
                if flag & 0xC0 == 0x00 {
                    let len = (flag & 0x3F) as usize;
                    if u.len() < len {
                        Err(RdbError::ShortRead(len, u.len() as usize))
                    } else {
                        Ok((ZiplistEntry::String(u.take(len as int)), u.skip(len as int)))
                    }
                } else if flag & 0xC0 == 0x40 {
                    if u.len() < 1 {
                        Err(RdbError::ShortRead(1, 0))
                    } else {
                        let len = (((((flag & 0x3F) as u64) << 8) | (u[0] as u64))) as usize;
                        let u2 = u.skip(1);
                        if u2.len() < len {
                            Err(RdbError::ShortRead(len, u2.len() as usize))
                        } else {
                            Ok((ZiplistEntry::String(u2.take(len as int)), u2.skip(len as int)))
                        }
                    }
                } else if flag & 0xC0 == 0x80 {
                    if u.len() < 4 {
                        Err(RdbError::ShortRead(4, u.len() as usize))
                    } else {
                        let len = be32(u.take(4)) as usize;
                        let u2 = u.skip(4);
                        if u2.len() < len {
                            Err(RdbError::ShortRead(len, u2.len() as usize))
                        } else {
                            Ok((ZiplistEntry::String(u2.take(len as int)), u2.skip(len as int)))
                        }
                    }
                } else if flag & 0xF0 == 0xC0 {
                    if u.len() < 2 {
                        Err(RdbError::ShortRead(2, u.len() as usize))
                    } else {
                        Ok((ZiplistEntry::Number(sign16(le16(u.take(2))) as i64), u.skip(2)))
                    }
                } else if flag & 0xF0 == 0xD0 {
                    if u.len() < 4 {
                        Err(RdbError::ShortRead(4, u.len() as usize))
                    } else {
                        Ok((ZiplistEntry::Number(sign32(le32(u.take(4))) as i64), u.skip(4)))
                    }
                } else if flag & 0xF0 == 0xE0 {
                    if u.len() < 8 {
                        Err(RdbError::ShortRead(8, u.len() as usize))
                    } else {
                        Ok((ZiplistEntry::Number(sign64(le64(u.take(8))) as i64), u.skip(8)))
                    }
                } else {
                    if flag & 0x0F == 0x00 {
                        if u.len() < 3 {
                            Err(RdbError::ShortRead(3, u.len() as usize))
                        } else {
                            Ok((ZiplistEntry::Number(sign24(le24(u.take(3))) as i64), u.skip(3)))
                        }
                    } else if flag & 0x0F == 0x0E {
                        if u.len() < 1 {
                            Err(RdbError::ShortRead(1, 0))
                        } else {
                            Ok((ZiplistEntry::Number(sign8(u[0]) as i64), u.skip(1)))
                        }
                    } else {
                        Ok((ZiplistEntry::Number(((flag & 0x0F) - 1) as i64), u))
                    }
                }
            },
        }
    }
}

/// A packed-list entry in textual form: strings as they stand, numbers
/// rendered as decimal text.
pub open spec fn zl_entry_str_dec(s: Seq<u8>) -> Result<(Seq<u8>, Seq<u8>), RdbError> {
    match zl_entry_raw_dec(s) {
        Err(e) => Err(e),
        Ok((entry, rest)) => match entry {
            ZiplistEntry::String(v) => Ok((v, rest)),
            ZiplistEntry::Number(n) => Ok((dec_of(n as int), rest)),
        },
    }
}

/// `n` packed-list entries in textual form.
pub open spec fn zl_items_dec(s: Seq<u8>, n: u64) -> Result<(Seq<Seq<u8>>, Seq<u8>), RdbError>
    decreases n,
{
    if n == 0 {
        Ok((Seq::empty(), s))
    } else {
        match zl_entry_str_dec(s) {
            Err(e) => Err(e),
            Ok((item, t)) => match zl_items_dec(t, (n - 1) as u64) {
                Err(e) => Err(e),
                Ok((items, rest)) => Ok((seq![item] + items, rest)),
            },
        }
    }
}

/// `n` pairs of packed-list entries in textual form.
pub open spec fn zl_pairs_dec(s: Seq<u8>, n: u64) -> Result<
    (Seq<(Seq<u8>, Seq<u8>)>, Seq<u8>),
    RdbError,
>
    decreases n,
{
    if n == 0 {
        Ok((Seq::empty(), s))
    } else {
        match zl_entry_str_dec(s) {
            Err(e) => Err(e),
            Ok((a, t)) => match zl_entry_str_dec(t) {
                Err(e) => Err(e),
                Ok((b, t2)) => match zl_pairs_dec(t2, (n - 1) as u64) {
                    Err(e) => Err(e),
                    Ok((pairs, rest)) => Ok((seq![(a, b)] + pairs, rest)),
                },
            },
        }
    }
}

/// The terminator byte a packed payload must close with.
pub open spec fn zl_term_dec(s: Seq<u8>) -> Result<(), RdbError> {
    if s.len() < 1 {
        Err(RdbError::ShortRead(1, 0))
    } else if s[0] != 0xFF {
        Err(RdbError::InvalidZiplistTerminator)
    } else {
        Ok(())
    }
}

/// A packed list holding list elements.
pub open spec fn obj_list_ziplist(s: Seq<u8>, key: Seq<u8>, exp: Option<u64>) -> Result<
    (Seq<EventG>, Seq<u8>),
    RdbError,
> {
    match blob_dec(s) {
        Err(e) => Err(e),
        Ok((zl, rest)) => match zl_header_dec(zl) {
            Err(e) => Err(e),
            Ok(((_zlbytes, _zltail, zllen), inner)) => match zl_items_dec(inner, zllen as u64) {
                Err(e) => Err(e),
                Ok((items, inner2)) => match zl_term_dec(inner2) {
                    Err(e) => Err(e),
                    Ok(()) => Ok(
                        (
                            seq![
                                Event::StartList {
                                    key,
                                    length: zllen as u64,
                                    expiry: exp,
                                    encoding: EncodingType::Ziplist(zl.len() as u64),
                                },
                            ] + list_elem_events(key, items) + seq![Event::EndList { key }],
                            rest,
                        ),
                    ),
                },
            },
        },
    }
}

/// A packed list holding field/value pairs of a hash.
pub open spec fn obj_hash_ziplist(s: Seq<u8>, key: Seq<u8>, exp: Option<u64>) -> Result<
    (Seq<EventG>, Seq<u8>),
    RdbError,
> {
    match blob_dec(s) {
        Err(e) => Err(e),
        Ok((zl, rest)) => match zl_header_dec(zl) {
            Err(e) => Err(e),
            Ok(((_zlbytes, _zltail, zllen), inner)) => if zllen % 2 != 0 {
                Err(RdbError::InvalidZiplistPairCount(zllen))
            } else {
                match zl_pairs_dec(inner, (zllen / 2) as u64) {
                    Err(e) => Err(e),
                    Ok((pairs, inner2)) => match zl_term_dec(inner2) {
                        Err(e) => Err(e),
                        Ok(()) => Ok(
                            (
                                seq![
                                    Event::StartHash {
                                        key,
                                        length: (zllen / 2) as u64,
                                        expiry: exp,
                                        encoding: EncodingType::Ziplist(zl.len() as u64),
                                    },
                                ] + hash_elem_events(key, pairs) + seq![Event::EndHash { key }],
                                rest,
                            ),
                        ),
                    },
                }
            },
        },
    }
}

/// A packed list holding member/score pairs of a sorted set; the score is
/// surfaced in its textual form.
pub open spec fn obj_zset_ziplist(s: Seq<u8>, key: Seq<u8>, exp: Option<u64>) -> Result<
    (Seq<EventG>, Seq<u8>),
    RdbError,
> {
    match blob_dec(s) {
        Err(e) => Err(e),
        Ok((zl, rest)) => match zl_header_dec(zl) {
            Err(e) => Err(e),
            Ok(((_zlbytes, _zltail, zllen), inner)) => if zllen % 2 != 0 {
                Err(RdbError::InvalidZiplistPairCount(zllen))
            } else {
                match zl_pairs_dec(inner, (zllen / 2) as u64) {
                    Err(e) => Err(e),
                    Ok((pairs, inner2)) => match zl_term_dec(inner2) {
                        Err(e) => Err(e),
                        Ok(()) => Ok(
                            (
                                seq![
                                    Event::StartSortedSet {
                                        key,
                                        length: (zllen / 2) as u64,
                                        expiry: exp,
                                        encoding: EncodingType::Ziplist(zl.len() as u64),
                                    },
                                ] + zset_elem_events(
                                    key,
                                    pairs.map_values(
                                        |p: (Seq<u8>, Seq<u8>)| (p.0, ScoreG::Ascii(p.1)),
                                    ),
                                ) + seq![Event::EndSortedSet { key }],
                                rest,
                            ),
                        ),
                    },
                }
            },
        },
    }
}

// ---------------------------------------------------------------------
// Packed map, integer set, quicklist
// ---------------------------------------------------------------------

/// One packed-map element behind its first length byte: 253 extends the
/// length to four little-endian bytes; 254 and 255 are reserved.
pub open spec fn zipmap_entry_dec(b: u8, s: Seq<u8>) -> Result<(Seq<u8>, Seq<u8>), RdbError> {
    if b == 253 {
        if s.len() < 4 {
            Err(RdbError::ShortRead(4, s.len() as usize))
        } else {
            let len = le32(s.take(4)) as usize;
            let t = s.skip(4);
            if t.len() < len {
                Err(RdbError::ShortRead(len, t.len() as usize))
            } else {
                Ok((t.take(len as int), t.skip(len as int)))
            }
        }
    } else if b == 254 || b == 255 {
        Err(RdbError::InvalidZipmapLength(b))
    } else {
        if s.len() < b as usize {
            Err(RdbError::ShortRead(b as usize, s.len() as usize))
        } else {
            Ok((s.take(b as int), s.skip(b as int)))
        }
    }
}

/// A packed-map entry leaves no more bytes than it was given.
pub proof fn lemma_zipmap_entry_consumes(b: u8, s: Seq<u8>)
    ensures
        zipmap_entry_dec(b, s) matches Ok(o) ==> o.1.len() <= s.len(),
{
}

/// The field/value pairs of a packed map.  A declared count of 254 or more
/// stands for an unknown count (`length == -1`): the walk is then bounded
/// only by the terminator byte.  With a known count the terminator byte is
/// checked once the count runs out.
pub open spec fn zipmap_pairs_dec(s: Seq<u8>, length: int) -> Result<
    Seq<(Seq<u8>, Seq<u8>)>,
    RdbError,
>
    decreases s.len(),
    via zipmap_pairs_dec_decreases
{
    if s.len() < 1 {
        Err(RdbError::ShortRead(1, 0))
    } else {
        let b = s[0];
        if b == 0xFF {
            Ok(Seq::empty())
        } else {
            match zipmap_entry_dec(b, s.skip(1)) {
                Err(e) => Err(e),
                Ok((field, t)) => if t.len() < 1 {
                    Err(RdbError::ShortRead(1, 0))
                } else {
                    let b2 = t[0];
                    let t2 = t.skip(1);
                    if t2.len() < 1 {
                        Err(RdbError::ShortRead(1, 0))
                    } else {
                        match zipmap_entry_dec(b2, t2.skip(1)) {
                            Err(e) => Err(e),
                            Ok((value, t3)) => {
                                let length2 = if length > 0 {
                                    length - 1
                                } else {
                                    length
                                };
                                if length2 == 0 {
                                    if t3.len() < 1 {
                                        Err(RdbError::ShortRead(1, 0))
                                    } else if t3[0] != 0xFF {
                                        Err(RdbError::InvalidZipmapTerminator)
                                    } else {
                                        Ok(seq![(field, value)])
                                    }
                                } else {
                                    match zipmap_pairs_dec(t3, length2) {
                                        Err(e) => Err(e),
                                        Ok(pairs) => Ok(seq![(field, value)] + pairs),
                                    }
                                }
                            },
                        }
                    }
                },
            }
        }
    }
}

#[via_fn]
proof fn zipmap_pairs_dec_decreases(s: Seq<u8>, length: int) {
    if s.len() >= 1 {
        lemma_zipmap_entry_consumes(s[0], s.skip(1));
        match zipmap_entry_dec(s[0], s.skip(1)) {
            Ok((field, t)) => {
                if t.len() >= 1 && t.skip(1).len() >= 1 {
                    lemma_zipmap_entry_consumes(t[0], t.skip(1).skip(1));
                }
            },
            _ => (),
        }
    }
}

/// A packed map: a count byte, then field/value pairs up to the
/// terminator.  A count byte of 255 surfaces a declared size of zero.
pub open spec fn obj_zipmap(s: Seq<u8>, key: Seq<u8>, exp: Option<u64>) -> Result<
    (Seq<EventG>, Seq<u8>),
    RdbError,
> {
    match blob_dec(s) {
        Err(e) => Err(e),
        Ok((zm, rest)) => if zm.len() < 1 {
            Err(RdbError::ShortRead(1, 0))
        } else {
            let zmlen = zm[0];
            let length: int = if zmlen <= 254 {
                zmlen as int
            } else {
                -1
            };
            let size: u8 = if zmlen <= 254 {
                zmlen
            } else {
                0
            };
            match zipmap_pairs_dec(zm.skip(1), length) {
                Err(e) => Err(e),
                Ok(pairs) => Ok(
                    (
                        seq![
                            Event::StartHash {
                                key,
                                length: size as u64,
                                expiry: exp,
                                encoding: EncodingType::Zipmap(zm.len() as u64),
                            },
                        ] + hash_elem_events(key, pairs) + seq![Event::EndHash { key }],
                        rest,
                    ),
                ),
            }
        },
    }
}

/// `n` signed integers of width `w` bytes, little-endian, rendered as
/// decimal text.
pub open spec fn intset_items_dec(s: Seq<u8>, n: u64, w: u32) -> Result<
    (Seq<Seq<u8>>, Seq<u8>),
    RdbError,
>
    decreases n,
{
    if n == 0 {
        Ok((Seq::empty(), s))
    } else if w == 2 {
        if s.len() < 2 {
            Err(RdbError::ShortRead(2, s.len() as usize))
        } else {
            match intset_items_dec(s.skip(2), (n - 1) as u64, w) {
                Err(e) => Err(e),
                Ok((items, rest)) => Ok((seq![dec_of(sign16(le16(s.take(2))))] + items, rest)),
            }
        }
    } else if w == 4 {
        if s.len() < 4 {
            Err(RdbError::ShortRead(4, s.len() as usize))
        } else {
            match intset_items_dec(s.skip(4), (n - 1) as u64, w) {
                Err(e) => Err(e),
                Ok((items, rest)) => Ok((seq![dec_of(sign32(le32(s.take(4))))] + items, rest)),
            }
        }
    } else if w == 8 {
        if s.len() < 8 {
            Err(RdbError::ShortRead(8, s.len() as usize))
        } else {
            match intset_items_dec(s.skip(8), (n - 1) as u64, w) {
                Err(e) => Err(e),
                Ok((items, rest)) => Ok((seq![dec_of(sign64(le64(s.take(8))))] + items, rest)),
            }
        }
    } else {
        Err(RdbError::InvalidIntsetWidth(w))
    }
}

/// An integer set: a payload blob holding a width, a count and that many
/// integers.  The width is only inspected while elements remain.
pub open spec fn obj_intset(s: Seq<u8>, key: Seq<u8>, exp: Option<u64>) -> Result<
    (Seq<EventG>, Seq<u8>),
    RdbError,
> {
    match blob_dec(s) {
        Err(e) => Err(e),
        Ok((p, rest)) => if p.len() < 4 {
            Err(RdbError::ShortRead(4, p.len() as usize))
        } else {
            let w = le32(p.take(4));
            let t = p.skip(4);
            if t.len() < 4 {
                Err(RdbError::ShortRead(4, t.len() as usize))
            } else {
                let n = le32(t.take(4)) as u64;
                match intset_items_dec(t.skip(4), n, w) {
                    Err(e) => Err(e),
                    Ok((items, _inner)) => Ok(
                        (
                            seq![
                                Event::StartSet {
                                    key,
                                    length: n,
                                    expiry: exp,
                                    encoding: EncodingType::Intset(p.len() as u64),
                                },
                            ] + set_elem_events(key, items) + seq![Event::EndSet { key }],
                            rest,
                        ),
                    ),
                }
            }
        },
    }
}

/// One packed list of a quicklist: its entries surface as list elements.
pub open spec fn quicklist_part_dec(s: Seq<u8>, key: Seq<u8>) -> Result<
    (Seq<EventG>, Seq<u8>),
    RdbError,
> {
    match blob_dec(s) {
        Err(e) => Err(e),
        Ok((zl, rest)) => match zl_header_dec(zl) {
            Err(e) => Err(e),
            Ok(((_zlbytes, _zltail, zllen), inner)) => match zl_items_dec(inner, zllen as u64) {
                Err(e) => Err(e),
                Ok((items, inner2)) => match zl_term_dec(inner2) {
                    Err(e) => Err(e),
                    Ok(()) => Ok((list_elem_events(key, items), rest)),
                },
            },
        },
    }
}

/// `n` packed lists of a quicklist.
pub open spec fn quicklist_parts_dec(s: Seq<u8>, n: u64, key: Seq<u8>) -> Result<
    (Seq<EventG>, Seq<u8>),
    RdbError,
>
    decreases n,
{
    if n == 0 {
        Ok((Seq::empty(), s))
    } else {
        match quicklist_part_dec(s, key) {
            Err(e) => Err(e),
            Ok((events, t)) => match quicklist_parts_dec(t, (n - 1) as u64, key) {
                Err(e) => Err(e),
                Ok((events2, rest)) => Ok((events + events2, rest)),
            },
        }
    }
}

/// A quicklist: a count of packed lists.  The start event declares zero
/// elements: the total is unknown without walking every part.
pub open spec fn obj_quicklist(s: Seq<u8>, key: Seq<u8>, exp: Option<u64>) -> Result<
    (Seq<EventG>, Seq<u8>),
    RdbError,
> {
    match len_dec(s) {
        Err(e) => Err(e),
        Ok((n, _, t)) => match quicklist_parts_dec(t, n, key) {
            Err(e) => Err(e),
            Ok((events, rest)) => Ok(
                (
                    seq![
                        Event::StartSet {
                            key,
                            length: 0,
                            expiry: exp,
                            encoding: EncodingType::Quicklist,
                        },
                    ] + events + seq![Event::EndSet { key }],
                    rest,
                ),
            ),
        },
    }
}

// ---------------------------------------------------------------------
// Module values and stream values (walked, not surfaced)
// ---------------------------------------------------------------------

/// The opcode walk of a module value: lengths and blobs up to the module
/// end opcode.  An unknown opcode is passed over without consuming a
/// payload.
pub open spec fn module_skip_dec(s: Seq<u8>) -> Result<Seq<u8>, RdbError>
    decreases s.len(),
    via module_skip_dec_decreases
{
    match len_dec(s) {
        Err(e) => Err(e),
        Ok((op, _, t)) => if op == MODULE_OPCODE_EOF {
            Ok(t)
        } else if op == MODULE_OPCODE_SINT || op == MODULE_OPCODE_UINT || op == MODULE_OPCODE_FLOAT
            || op == MODULE_OPCODE_DOUBLE {
            match len_dec(t) {
                Err(e) => Err(e),
                Ok((_, _, t2)) => module_skip_dec(t2),
            }
        } else if op == MODULE_OPCODE_STRING {
            match blob_dec(t) {
                Err(e) => Err(e),
                Ok((_, t2)) => module_skip_dec(t2),
            }
        } else {
            module_skip_dec(t)
        },
    }
}

#[via_fn]
proof fn module_skip_dec_decreases(s: Seq<u8>) {
    lemma_len_dec_consumes(s);
    match len_dec(s) {
        Ok((op, _, t)) => {
            lemma_len_dec_consumes(t);
            lemma_blob_dec_consumes(t);
        },
        _ => (),
    }
}

/// A module value behind its identifier length.
pub open spec fn obj_module2(s: Seq<u8>) -> Result<Seq<u8>, RdbError> {
    match len_dec(s) {
        Err(e) => Err(e),
        Ok((_id, _, t)) => module_skip_dec(t),
    }
}

/// `n` pairs of blobs naming stream listpacks.
pub open spec fn stream_listpacks_dec(s: Seq<u8>, n: u64) -> Result<Seq<u8>, RdbError>
    decreases n,
{
    if n == 0 {
        Ok(s)
    } else {
        match blob_dec(s) {
            Err(e) => Err(e),
            Ok((_, t)) => match blob_dec(t) {
                Err(e) => Err(e),
                Ok((_, t2)) => stream_listpacks_dec(t2, (n - 1) as u64),
            },
        }
    }
}

/// `n` pending entries of a consumer group: an identifier, a delivery
/// time and a delivery count.
pub open spec fn stream_pending_dec(s: Seq<u8>, n: u64) -> Result<Seq<u8>, RdbError>
    decreases n,
{
    if n == 0 {
        Ok(s)
    } else {
        match skip_n(s, 16) {
            Err(e) => Err(e),
            Ok(t) => match skip_n(t, 8) {
                Err(e) => Err(e),
                Ok(t2) => match len_dec(t2) {
                    Err(e) => Err(e),
                    Ok((_, _, t3)) => stream_pending_dec(t3, (n - 1) as u64),
                },
            },
        }
    }
}

/// `n` sixteen-byte pending identifiers of one consumer.
pub open spec fn stream_ids_dec(s: Seq<u8>, n: u64) -> Result<Seq<u8>, RdbError>
    decreases n,
{
    if n == 0 {
        Ok(s)
    } else {
        match skip_n(s, 16) {
            Err(e) => Err(e),
            Ok(t) => stream_ids_dec(t, (n - 1) as u64),
        }
    }
}

/// `n` consumers of a group: a name, a seen time and pending identifiers.
pub open spec fn stream_consumers_dec(s: Seq<u8>, n: u64) -> Result<Seq<u8>, RdbError>
    decreases n,
{
    if n == 0 {
        Ok(s)
    } else {
        match blob_dec(s) {
            Err(e) => Err(e),
            Ok((_, t)) => match skip_n(t, 8) {
                Err(e) => Err(e),
                Ok(t2) => match len_dec(t2) {
                    Err(e) => Err(e),
                    Ok((cp, _, t3)) => match stream_ids_dec(t3, cp) {
                        Err(e) => Err(e),
                        Ok(t4) => stream_consumers_dec(t4, (n - 1) as u64),
                    },
                },
            },
        }
    }
}

/// `n` consumer groups of a stream.
pub open spec fn stream_groups_dec(s: Seq<u8>, n: u64) -> Result<Seq<u8>, RdbError>
    decreases n,
{
    if n == 0 {
        Ok(s)
    } else {
        match blob_dec(s) {
            Err(e) => Err(e),
            Ok((_name, t)) => match len_dec(t) {
                Err(e) => Err(e),
                Ok((_, _, t2)) => match len_dec(t2) {
                    Err(e) => Err(e),
                    Ok((_, _, t3)) => match len_dec(t3) {
                        Err(e) => Err(e),
                        Ok((pending, _, t4)) => match stream_pending_dec(t4, pending) {
                            Err(e) => Err(e),
                            Ok(t5) => match len_dec(t5) {
                                Err(e) => Err(e),
                                Ok((consumers, _, t6)) => match stream_consumers_dec(t6, consumers) {
                                    Err(e) => Err(e),
                                    Ok(t7) => stream_groups_dec(t7, (n - 1) as u64),
                                },
                            },
                        },
                    },
                },
            },
        }
    }
}

/// The structural walk of a stream value: listpacks, the last entry
/// identifier, then the consumer groups.  Nothing is surfaced.
pub open spec fn stream_dec(s: Seq<u8>) -> Result<Seq<u8>, RdbError> {
    match len_dec(s) {
        Err(e) => Err(e),
        Ok((m, _, t)) => match stream_listpacks_dec(t, m) {
            Err(e) => Err(e),
            Ok(t2) => match len_dec(t2) {
                Err(e) => Err(e),
                Ok((_, _, t3)) => match len_dec(t3) {
                    Err(e) => Err(e),
                    Ok((_, _, t4)) => match len_dec(t4) {
                        Err(e) => Err(e),
                        Ok((_, _, t5)) => match len_dec(t5) {
                            Err(e) => Err(e),
                            Ok((g, _, t6)) => stream_groups_dec(t6, g),
                        },
                    },
                },
            },
        },
    }
}

// ---------------------------------------------------------------------
// Value dispatch and the skip paths
// ---------------------------------------------------------------------

/// The value of one key, dispatched by its type tag: the events it
/// surfaces and the bytes left after it.
pub open spec fn obj_dec(s: Seq<u8>, tag: u8, key: Seq<u8>, exp: Option<u64>) -> Result<
    (Seq<EventG>, Seq<u8>),
    RdbError,
> {
    if tag == crate::constants::TYPE_STRING {
        obj_string(s, key, exp)
    } else if tag == crate::constants::TYPE_LIST {
        obj_linked_list(s, key, exp, true)
    } else if tag == crate::constants::TYPE_SET {
        obj_linked_list(s, key, exp, false)
    } else if tag == crate::constants::TYPE_ZSET {
        obj_zset(s, key, exp, false)
    } else if tag == crate::constants::TYPE_HASH {
        obj_hash(s, key, exp)
    } else if tag == crate::constants::TYPE_ZSET2 {
        obj_zset(s, key, exp, true)
    } else if tag == crate::constants::TYPE_MODULE {
        Err(RdbError::UnsupportedValueType(tag))
    } else if tag == crate::constants::TYPE_MODULE2 {
        match obj_module2(s) {
            Err(e) => Err(e),
            Ok(rest) => Ok((Seq::empty(), rest)),
        }
    } else if tag == crate::constants::TYPE_HASH_ZIPMAP {
        obj_zipmap(s, key, exp)
    } else if tag == crate::constants::TYPE_LIST_ZIPLIST {
        obj_list_ziplist(s, key, exp)
    } else if tag == crate::constants::TYPE_SET_INTSET {
        obj_intset(s, key, exp)
    } else if tag == crate::constants::TYPE_ZSET_ZIPLIST {
        obj_zset_ziplist(s, key, exp)
    } else if tag == crate::constants::TYPE_HASH_ZIPLIST {
        obj_hash_ziplist(s, key, exp)
    } else if tag == crate::constants::TYPE_LIST_QUICKLIST {
        obj_quicklist(s, key, exp)
    } else if tag == crate::constants::TYPE_STREAM_LISTPACKS {
        match stream_dec(s) {
            Err(e) => Err(e),
            Ok(rest) => Ok((Seq::empty(), rest)),
        }
    } else {
        Err(RdbError::UnknownValueType(tag))
    }
}

/// `n` skipped blobs.
pub open spec fn skip_blobs_dec(s: Seq<u8>, n: u64) -> Result<Seq<u8>, RdbError>
    decreases n,
{
    if n == 0 {
        Ok(s)
    } else {
        match skip_blob_dec(s) {
            Err(e) => Err(e),
            Ok(t) => skip_blobs_dec(t, (n - 1) as u64),
        }
    }
}

/// The skip path of `n` sorted-set entries: each member blob is skipped,
/// then the score as its version frames it, so the cursor lands exactly
/// where the read path lands.
pub open spec fn skip_zset_entries_dec(s: Seq<u8>, n: u64, v2: bool) -> Result<Seq<u8>, RdbError>
    decreases n,
{
    if n == 0 {
        Ok(s)
    } else {
        match skip_blob_dec(s) {
            Err(e) => Err(e),
            Ok(t) => if v2 {
                match skip_n(t, 8) {
                    Err(e) => Err(e),
                    Ok(t2) => skip_zset_entries_dec(t2, (n - 1) as u64, v2),
                }
            } else {
                if t.len() < 1 {
                    Err(RdbError::ShortRead(1, 0))
                } else {
                    let sl = t[0];
                    let u = t.skip(1);
                    if sl == 253 || sl == 254 || sl == 255 {
                        skip_zset_entries_dec(u, (n - 1) as u64, v2)
                    } else {
                        match skip_n(u, sl as usize) {
                            Err(e) => Err(e),
                            Ok(u2) => skip_zset_entries_dec(u2, (n - 1) as u64, v2),
                        }
                    }
                }
            },
        }
    }
}

/// Skipped sorted-set entries leave no more bytes.
pub proof fn lemma_skip_zset_entries_dec_consumes(s: Seq<u8>, n: u64, v2: bool)
    ensures
        skip_zset_entries_dec(s, n, v2) matches Ok(rest) ==> rest.len() <= s.len(),
    decreases n,
{
    if n != 0 {
        lemma_skip_blob_dec_consumes(s);
        match skip_blob_dec(s) {
            Ok(t) => if v2 {
                match skip_n(t, 8) {
                    Ok(t2) => lemma_skip_zset_entries_dec_consumes(t2, (n - 1) as u64, v2),
                    _ => (),
                }
            } else {
                if t.len() >= 1 {
                    let sl = t[0];
                    let u = t.skip(1);
                    if sl == 253 || sl == 254 || sl == 255 {
                        lemma_skip_zset_entries_dec_consumes(u, (n - 1) as u64, v2);
                    } else {
                        match skip_n(u, sl as usize) {
                            Ok(u2) => lemma_skip_zset_entries_dec_consumes(u2, (n - 1) as u64, v2),
                            _ => (),
                        }
                    }
                }
            },
            _ => (),
        }
    }
}

/// The skip path of one key's value: advance over exactly the bytes the
/// value occupies without surfacing anything.  Sorted sets are skipped
/// entry by entry, member blob then score, so the skip path retraces the
/// read path for every tag.
pub open spec fn skip_object_dec(s: Seq<u8>, tag: u8) -> Result<Seq<u8>, RdbError> {
    if tag == crate::constants::TYPE_STRING || tag == crate::constants::TYPE_HASH_ZIPMAP || tag
        == crate::constants::TYPE_LIST_ZIPLIST || tag == crate::constants::TYPE_SET_INTSET || tag
        == crate::constants::TYPE_ZSET_ZIPLIST || tag == crate::constants::TYPE_HASH_ZIPLIST {
        skip_blob_dec(s)
    } else if tag == crate::constants::TYPE_LIST || tag == crate::constants::TYPE_SET || tag
        == crate::constants::TYPE_LIST_QUICKLIST {
        match len_dec(s) {
            Err(e) => Err(e),
            Ok((n, _, t)) => skip_blobs_dec(t, n),
        }
    } else if tag == crate::constants::TYPE_HASH {
        match len_dec(s) {
            Err(e) => Err(e),
            Ok((n, _, t)) => match skip_blobs_dec(t, n) {
                Err(e) => Err(e),
                Ok(t2) => skip_blobs_dec(t2, n),
            },
        }
    } else if tag == crate::constants::TYPE_ZSET || tag == crate::constants::TYPE_ZSET2 {
        match len_dec(s) {
            Err(e) => Err(e),
            Ok((n, _, t)) => skip_zset_entries_dec(t, n, tag == crate::constants::TYPE_ZSET2),
        }
    } else if tag == crate::constants::TYPE_MODULE2 {
        obj_module2(s)
    } else if tag == crate::constants::TYPE_STREAM_LISTPACKS {
        stream_dec(s)
    } else if tag == crate::constants::TYPE_MODULE {
        Err(RdbError::UnsupportedValueType(tag))
    } else {
        Err(RdbError::UnknownValueType(tag))
    }
}

// ---------------------------------------------------------------------
// Consumption lemmas: every decoder leaves no more bytes than it found.
// They justify the termination of the opcode loop.
// ---------------------------------------------------------------------

/// Decoded blobs leave no more bytes.
pub proof fn lemma_list_items_dec_consumes(s: Seq<u8>, n: u64)
    ensures
        list_items_dec(s, n) matches Ok(o) ==> o.1.len() <= s.len(),
    decreases n,
{
    if n != 0 {
        lemma_blob_dec_consumes(s);
        match blob_dec(s) {
            Ok((b, t)) => lemma_list_items_dec_consumes(t, (n - 1) as u64),
            _ => (),
        }
    }
}

/// Decoded sorted-set entries leave no more bytes.
pub proof fn lemma_zset_entries_dec_consumes(s: Seq<u8>, n: u64, v2: bool)
    ensures
        zset_entries_dec(s, n, v2) matches Ok(o) ==> o.1.len() <= s.len(),
    decreases n,
{
    if n != 0 {
        lemma_blob_dec_consumes(s);
        match blob_dec(s) {
            Ok((member, t)) => if v2 {
                if t.len() >= 8 {
                    lemma_zset_entries_dec_consumes(t.skip(8), (n - 1) as u64, v2);
                }
            } else {
                if t.len() >= 1 {
                    let sl = t[0];
                    let u = t.skip(1);
                    if sl == 253 || sl == 254 || sl == 255 {
                        lemma_zset_entries_dec_consumes(u, (n - 1) as u64, v2);
                    } else if u.len() >= sl as usize {
                        lemma_zset_entries_dec_consumes(u.skip(sl as int), (n - 1) as u64, v2);
                    }
                }
            },
            _ => (),
        }
    }
}

/// Decoded hash pairs leave no more bytes.
pub proof fn lemma_hash_pairs_dec_consumes(s: Seq<u8>, n: u64)
    ensures
        hash_pairs_dec(s, n) matches Ok(o) ==> o.1.len() <= s.len(),
    decreases n,
{
    if n != 0 {
        lemma_blob_dec_consumes(s);
        match blob_dec(s) {
            Ok((field, t)) => {
                lemma_blob_dec_consumes(t);
                match blob_dec(t) {
                    Ok((value, t2)) => lemma_hash_pairs_dec_consumes(t2, (n - 1) as u64),
                    _ => (),
                }
            },
            _ => (),
        }
    }
}

/// A walked module value leaves no more bytes.
pub proof fn lemma_module_skip_dec_consumes(s: Seq<u8>)
    ensures
        module_skip_dec(s) matches Ok(rest) ==> rest.len() < s.len(),
    decreases s.len(),
{
    lemma_len_dec_consumes(s);
    match len_dec(s) {
        Ok((op, _, t)) => {
            lemma_len_dec_consumes(t);
            lemma_blob_dec_consumes(t);
            if op == MODULE_OPCODE_EOF {
            } else if op == MODULE_OPCODE_SINT || op == MODULE_OPCODE_UINT || op
                == MODULE_OPCODE_FLOAT || op == MODULE_OPCODE_DOUBLE {
                match len_dec(t) {
                    Ok((_, _, t2)) => lemma_module_skip_dec_consumes(t2),
                    _ => (),
                }
            } else if op == MODULE_OPCODE_STRING {
                match blob_dec(t) {
                    Ok((_, t2)) => lemma_module_skip_dec_consumes(t2),
                    _ => (),
                }
            } else {
                lemma_module_skip_dec_consumes(t);
            }
        },
        _ => (),
    }
}

/// Walked stream listpacks leave no more bytes.
pub proof fn lemma_stream_listpacks_dec_consumes(s: Seq<u8>, n: u64)
    ensures
        stream_listpacks_dec(s, n) matches Ok(rest) ==> rest.len() <= s.len(),
    decreases n,
{
    if n != 0 {
        lemma_blob_dec_consumes(s);
        match blob_dec(s) {
            Ok((_, t)) => {
                lemma_blob_dec_consumes(t);
                match blob_dec(t) {
                    Ok((_, t2)) => lemma_stream_listpacks_dec_consumes(t2, (n - 1) as u64),
                    _ => (),
                }
            },
            _ => (),
        }
    }
}

/// Walked pending entries leave no more bytes.
pub proof fn lemma_stream_pending_dec_consumes(s: Seq<u8>, n: u64)
    ensures
        stream_pending_dec(s, n) matches Ok(rest) ==> rest.len() <= s.len(),
    decreases n,
{
    if n != 0 {
        match skip_n(s, 16) {
            Ok(t) => match skip_n(t, 8) {
                Ok(t2) => {
                    lemma_len_dec_consumes(t2);
                    match len_dec(t2) {
                        Ok((_, _, t3)) => lemma_stream_pending_dec_consumes(t3, (n - 1) as u64),
                        _ => (),
                    }
                },
                _ => (),
            },
            _ => (),
        }
    }
}

/// Walked pending identifiers leave no more bytes.
pub proof fn lemma_stream_ids_dec_consumes(s: Seq<u8>, n: u64)
    ensures
        stream_ids_dec(s, n) matches Ok(rest) ==> rest.len() <= s.len(),
    decreases n,
{
    if n != 0 {
        match skip_n(s, 16) {
            Ok(t) => lemma_stream_ids_dec_consumes(t, (n - 1) as u64),
            _ => (),
        }
    }
}

/// Walked consumers leave no more bytes.
pub proof fn lemma_stream_consumers_dec_consumes(s: Seq<u8>, n: u64)
    ensures
        stream_consumers_dec(s, n) matches Ok(rest) ==> rest.len() <= s.len(),
    decreases n,
{
    if n != 0 {
        lemma_blob_dec_consumes(s);
        match blob_dec(s) {
            Ok((_, t)) => match skip_n(t, 8) {
                Ok(t2) => {
                    lemma_len_dec_consumes(t2);
                    match len_dec(t2) {
                        Ok((cp, _, t3)) => {
                            lemma_stream_ids_dec_consumes(t3, cp);
                            match stream_ids_dec(t3, cp) {
                                Ok(t4) => lemma_stream_consumers_dec_consumes(t4, (n - 1) as u64),
                                _ => (),
                            }
                        },
                        _ => (),
                    }
                },
                _ => (),
            },
            _ => (),
        }
    }
}

/// Walked consumer groups leave no more bytes.
#[verifier::rlimit(50)]
pub proof fn lemma_stream_groups_dec_consumes(s: Seq<u8>, n: u64)
    ensures
        stream_groups_dec(s, n) matches Ok(rest) ==> rest.len() <= s.len(),
    decreases n,
{
    if n != 0 {
        lemma_blob_dec_consumes(s);
        match blob_dec(s) {
            Ok((_name, t)) => {
                lemma_len_dec_consumes(t);
                match len_dec(t) {
                    Ok((_, _, t2)) => {
                        lemma_len_dec_consumes(t2);
                        match len_dec(t2) {
                            Ok((_, _, t3)) => {
                                lemma_len_dec_consumes(t3);
                                match len_dec(t3) {
                                    Ok((pending, _, t4)) => {
                                        lemma_stream_pending_dec_consumes(t4, pending);
                                        match stream_pending_dec(t4, pending) {
                                            Ok(t5) => {
                                                lemma_len_dec_consumes(t5);
                                                match len_dec(t5) {
                                                    Ok((consumers, _, t6)) => {
                                                        lemma_stream_consumers_dec_consumes(
                                                            t6,
                                                            consumers,
                                                        );
                                                        match stream_consumers_dec(t6, consumers) {
                                                            Ok(t7) => lemma_stream_groups_dec_consumes(
                                                                t7,
                                                                (n - 1) as u64,
                                                            ),
                                                            _ => (),
                                                        }
                                                    },
                                                    _ => (),
                                                }
                                            },
                                            _ => (),
                                        }
                                    },
                                    _ => (),
                                }
                            },
                            _ => (),
                        }
                    },
                    _ => (),
                }
            },
            _ => (),
        }
    }
}

/// A walked stream value leaves no more bytes.
#[verifier::rlimit(50)]
pub proof fn lemma_stream_dec_consumes(s: Seq<u8>)
    ensures
        stream_dec(s) matches Ok(rest) ==> rest.len() <= s.len(),
{
    lemma_len_dec_consumes(s);
    match len_dec(s) {
        Ok((m, _, t)) => {
            lemma_stream_listpacks_dec_consumes(t, m);
            match stream_listpacks_dec(t, m) {
                Ok(t2) => {
                    lemma_len_dec_consumes(t2);
                    match len_dec(t2) {
                        Ok((_, _, t3)) => {
                            lemma_len_dec_consumes(t3);
                            match len_dec(t3) {
                                Ok((_, _, t4)) => {
                                    lemma_len_dec_consumes(t4);
                                    match len_dec(t4) {
                                        Ok((_, _, t5)) => {
                                            lemma_len_dec_consumes(t5);
                                            match len_dec(t5) {
                                                Ok((g, _, t6)) => lemma_stream_groups_dec_consumes(
                                                    t6,
                                                    g,
                                                ),
                                                _ => (),
                                            }
                                        },
                                        _ => (),
                                    }
                                },
                                _ => (),
                            }
                        },
                        _ => (),
                    }
                },
                _ => (),
            }
        },
        _ => (),
    }
}

/// Decoded quicklist parts leave no more bytes.
pub proof fn lemma_quicklist_parts_dec_consumes(s: Seq<u8>, n: u64, key: Seq<u8>)
    ensures
        quicklist_parts_dec(s, n, key) matches Ok(o) ==> o.1.len() <= s.len(),
    decreases n,
{
    if n != 0 {
        lemma_blob_dec_consumes(s);
        match quicklist_part_dec(s, key) {
            Ok((events, t)) => lemma_quicklist_parts_dec_consumes(t, (n - 1) as u64, key),
            _ => (),
        }
    }
}

/// A decoded value leaves no more bytes.
pub proof fn lemma_obj_dec_consumes(s: Seq<u8>, tag: u8, key: Seq<u8>, exp: Option<u64>)
    ensures
        obj_dec(s, tag, key, exp) matches Ok(o) ==> o.1.len() <= s.len(),
{
    lemma_blob_dec_consumes(s);
    lemma_len_dec_consumes(s);
    match len_dec(s) {
        Ok((n, _, t)) => {
            lemma_list_items_dec_consumes(t, n);
            lemma_zset_entries_dec_consumes(t, n, false);
            lemma_zset_entries_dec_consumes(t, n, true);
            lemma_hash_pairs_dec_consumes(t, n);
            lemma_quicklist_parts_dec_consumes(t, n, key);
            lemma_module_skip_dec_consumes(t);
        },
        _ => (),
    }
    lemma_stream_dec_consumes(s);
}

/// Skipped blobs leave no more bytes.
pub proof fn lemma_skip_blobs_dec_consumes(s: Seq<u8>, n: u64)
    ensures
        skip_blobs_dec(s, n) matches Ok(rest) ==> rest.len() <= s.len(),
    decreases n,
{
    if n != 0 {
        lemma_skip_blob_dec_consumes(s);
        match skip_blob_dec(s) {
            Ok(t) => lemma_skip_blobs_dec_consumes(t, (n - 1) as u64),
            _ => (),
        }
    }
}

/// A skipped value leaves no more bytes.
pub proof fn lemma_skip_object_dec_consumes(s: Seq<u8>, tag: u8)
    ensures
        skip_object_dec(s, tag) matches Ok(rest) ==> rest.len() <= s.len(),
{
    lemma_skip_blob_dec_consumes(s);
    lemma_len_dec_consumes(s);
    match len_dec(s) {
        Ok((n, _, t)) => {
            lemma_skip_blobs_dec_consumes(t, n);
            match skip_blobs_dec(t, n) {
                Ok(t2) => lemma_skip_blobs_dec_consumes(t2, n),
                _ => (),
            }
            lemma_skip_zset_entries_dec_consumes(t, n, tag == crate::constants::TYPE_ZSET2);
            lemma_module_skip_dec_consumes(t);
        },
        _ => (),
    }
    lemma_stream_dec_consumes(s);
}

// ---------------------------------------------------------------------
// The opcode loop
// ---------------------------------------------------------------------

/// One step of a run, annotated with what the filter decides on: a key
/// record with its database, tag and key, or events the filter never
/// touches.
pub enum GroupG {
    /// Events emitted for every filter: aux fields, resize notices, the
    /// closing events.
    Plain { events: Seq<EventG> },
    /// A database switch; its start event is emitted only for admitted
    /// databases.
    DbSelect { db: u64 },
    /// One key record.  `events` holds its decoded events when the run
    /// decoded it, and is empty when the run skipped it.
    Rec { db: u64, tag: u8, key: Seq<u8>, expiry: Option<u64>, events: Seq<EventG> },
}

/// What a successful run yields: its events in order, and the gated steps
/// they came from.
pub struct RunOut {
    pub events: Seq<EventG>,
    pub groups: Seq<GroupG>,
}

/// A database switch: the new database id, its start event when the
/// filter admits that database, and the rest.
pub open spec fn selectdb_step_dec(t: Seq<u8>, f: FilterSpec) -> Result<
    (u64, Seq<EventG>, Seq<u8>),
    RdbError,
> {
    match len_dec(t) {
        Err(e) => Err(e),
        Ok((newdb, _, t2)) => {
            let evs: Seq<EventG> = if (f.db)(newdb) {
                seq![Event::StartDatabase(newdb)]
            } else {
                Seq::empty()
            };
            Ok((newdb, evs, t2))
        },
    }
}

/// A resize notice: two lengths, surfaced as one event.
pub open spec fn resizedb_step_dec(t: Seq<u8>) -> Result<(Seq<EventG>, Seq<u8>), RdbError> {
    match len_dec(t) {
        Err(e) => Err(e),
        Ok((db_size, _, t2)) => match len_dec(t2) {
            Err(e) => Err(e),
            Ok((expires_size, _, t3)) => Ok((seq![Event::ResizeDb { db_size, expires_size }], t3)),
        },
    }
}

/// An auxiliary field: two blobs, surfaced as one event.
pub open spec fn aux_step_dec(t: Seq<u8>) -> Result<(Seq<EventG>, Seq<u8>), RdbError> {
    match blob_dec(t) {
        Err(e) => Err(e),
        Ok((auxkey, t2)) => match blob_dec(t2) {
            Err(e) => Err(e),
            Ok((auxval, t3)) => Ok((seq![Event::AuxField { key: auxkey, value: auxval }], t3)),
        },
    }
}

/// The closing events at the end opcode: the last database is closed, the
/// run ends, and any trailing bytes surface as the checksum.
pub open spec fn eof_step_events(t: Seq<u8>, db: u64) -> Seq<EventG> {
    if t.len() > 0 {
        seq![Event::EndDatabase(db), Event::EndRdb, Event::Checksum(t)]
    } else {
        seq![Event::EndDatabase(db), Event::EndRdb]
    }
}

/// A decoded database switch leaves no more bytes.
pub proof fn lemma_selectdb_step_dec_consumes(t: Seq<u8>, f: FilterSpec)
    ensures
        selectdb_step_dec(t, f) matches Ok(o) ==> o.2.len() < t.len(),
{
    lemma_len_dec_consumes(t);
}

/// A decoded resize notice leaves no more bytes.
pub proof fn lemma_resizedb_step_dec_consumes(t: Seq<u8>)
    ensures
        resizedb_step_dec(t) matches Ok(o) ==> o.1.len() < t.len(),
{
    lemma_len_dec_consumes(t);
    match len_dec(t) {
        Ok((a, _, t2)) => lemma_len_dec_consumes(t2),
        _ => (),
    }
}

/// A decoded auxiliary field leaves no more bytes.
pub proof fn lemma_aux_step_dec_consumes(t: Seq<u8>)
    ensures
        aux_step_dec(t) matches Ok(o) ==> o.1.len() < t.len(),
{
    lemma_blob_dec_consumes(t);
    match blob_dec(t) {
        Ok((a, t2)) => lemma_blob_dec_consumes(t2),
        _ => (),
    }
}

/// One key record behind its type tag: the filter gate decides whether
/// the value is decoded or skipped.  Yields the gated step, the surfaced
/// events and the rest.
pub open spec fn record_step_dec(t: Seq<u8>, op: u8, db: u64, exp: Option<u64>, f: FilterSpec) -> Result<
    (GroupG, Seq<EventG>, Seq<u8>),
    RdbError,
> {
    if (f.db)(db) {
        match blob_dec(t) {
            Err(e) => Err(e),
            Ok((key, t2)) => if (f.typ)(op) && (f.key)(key) {
                match obj_dec(t2, op, key, exp) {
                    Err(e) => Err(e),
                    Ok((evs, t3)) => Ok(
                        (GroupG::Rec { db, tag: op, key, expiry: exp, events: evs }, evs, t3),
                    ),
                }
            } else {
                match skip_object_dec(t2, op) {
                    Err(e) => Err(e),
                    Ok(t3) => Ok(
                        (
                            GroupG::Rec { db, tag: op, key, expiry: exp, events: Seq::empty() },
                            Seq::empty(),
                            t3,
                        ),
                    ),
                }
            },
        }
    } else {
        match skip_blob_dec(t) {
            Err(e) => Err(e),
            Ok(t2) => match skip_object_dec(t2, op) {
                Err(e) => Err(e),
                Ok(t3) => {
                    let key: Seq<u8> = match blob_dec(t) {
                        Ok(o) => o.0,
                        Err(_) => Seq::empty(),
                    };
                    Ok(
                        (
                            GroupG::Rec { db, tag: op, key, expiry: exp, events: Seq::empty() },
                            Seq::empty(),
                            t3,
                        ),
                    )
                },
            },
        }
    }
}

/// A decoded or skipped key record leaves no more bytes.
pub proof fn lemma_record_step_dec_consumes(t: Seq<u8>, op: u8, db: u64, exp: Option<u64>, f: FilterSpec)
    ensures
        record_step_dec(t, op, db, exp, f) matches Ok(o) ==> o.2.len() < t.len(),
{
    lemma_blob_dec_consumes(t);
    lemma_skip_blob_dec_consumes(t);
    match blob_dec(t) {
        Ok((key, t2)) => {
            lemma_obj_dec_consumes(t2, op, key, exp);
            lemma_skip_object_dec_consumes(t2, op);
        },
        _ => (),
    }
    match skip_blob_dec(t) {
        Ok(t2) => lemma_skip_object_dec_consumes(t2, op),
        _ => (),
    }
}

/// The opcode loop after the preamble: reads records until the end
/// opcode, decoding admitted keys and skipping the rest.  `db` is the
/// database in force, `exp` the expiry pending for the next key.
/// Opaque: the unfolding lemmas below give one step each.
#[verifier::opaque]
pub open spec fn run_dec(s: Seq<u8>, db: u64, exp: Option<u64>, f: FilterSpec) -> Result<
    RunOut,
    RdbError,
>
    decreases s.len(),
    via run_dec_decreases
{
    if s.len() < 1 {
        Err(RdbError::ShortRead(1, 0))
    } else {
        let op = s[0];
        let t = s.skip(1);
        if op == crate::constants::OP_SELECTDB {
            match selectdb_step_dec(t, f) {
                Err(e) => Err(e),
                Ok((newdb, evs, t2)) => match run_dec(t2, newdb, exp, f) {
                    Err(e) => Err(e),
                    Ok(o) => Ok(
                        RunOut {
                            events: evs + o.events,
                            groups: seq![GroupG::DbSelect { db: newdb }] + o.groups,
                        },
                    ),
                },
            }
        } else if op == crate::constants::OP_EOF {
            let evs = eof_step_events(t, db);
            Ok(RunOut { events: evs, groups: seq![GroupG::Plain { events: evs }] })
        } else if op == crate::constants::OP_EXPIRETIME_MS {
            if t.len() < 8 {
                Err(RdbError::ShortRead(8, t.len() as usize))
            } else {
                run_dec(t.skip(8), db, Some(le64(t.take(8))), f)
            }
        } else if op == crate::constants::OP_EXPIRETIME {
            if t.len() < 4 {
                Err(RdbError::ShortRead(4, t.len() as usize))
            } else {
                run_dec(t.skip(4), db, Some(((be32(t.take(4)) as u64) * 1000) as u64), f)
            }
        } else if op == crate::constants::OP_RESIZEDB {
            match resizedb_step_dec(t) {
                Err(e) => Err(e),
                Ok((evs, t3)) => match run_dec(t3, db, exp, f) {
                    Err(e) => Err(e),
                    Ok(o) => Ok(
                        RunOut {
                            events: evs + o.events,
                            groups: seq![GroupG::Plain { events: evs }] + o.groups,
                        },
                    ),
                },
            }
        } else if op == crate::constants::OP_AUX {
            match aux_step_dec(t) {
                Err(e) => Err(e),
                Ok((evs, t3)) => match run_dec(t3, db, exp, f) {
                    Err(e) => Err(e),
                    Ok(o) => Ok(
                        RunOut {
                            events: evs + o.events,
                            groups: seq![GroupG::Plain { events: evs }] + o.groups,
                        },
                    ),
                },
            }
        } else if op == crate::constants::OP_IDLE {
            match len_dec(t) {
                Err(e) => Err(e),
                Ok((_, _, t2)) => run_dec(t2, db, exp, f),
            }
        } else if op == crate::constants::OP_FREQ {
            if t.len() < 1 {
                Err(RdbError::ShortRead(1, 0))
            } else {
                run_dec(t.skip(1), db, exp, f)
            }
        } else if op == crate::constants::OP_MODULE_AUX {
            match module_skip_dec(t) {
                Err(e) => Err(e),
                Ok(t2) => run_dec(t2, db, exp, f),
            }
        } else {
            match record_step_dec(t, op, db, exp, f) {
                Err(e) => Err(e),
                Ok((g, evs, t3)) => match run_dec(t3, db, None, f) {
                    Err(e) => Err(e),
                    Ok(o) => Ok(
                        RunOut { events: evs + o.events, groups: seq![g] + o.groups },
                    ),
                },
            }
        }
    }
}

#[via_fn]
proof fn run_dec_decreases(s: Seq<u8>, db: u64, exp: Option<u64>, f: FilterSpec) {
    if s.len() >= 1 {
        let op = s[0];
        let t = s.skip(1);
        lemma_len_dec_consumes(t);
        lemma_module_skip_dec_consumes(t);
        lemma_record_step_dec_consumes(t, op, db, exp, f);
        lemma_selectdb_step_dec_consumes(t, f);
        lemma_resizedb_step_dec_consumes(t);
        lemma_aux_step_dec_consumes(t);
    }
}

// ---------------------------------------------------------------------
// One-step unfoldings of the opcode loop
// ---------------------------------------------------------------------

/// An empty stream in place of an opcode is a short read.
pub proof fn lemma_run_dec_empty(s: Seq<u8>, db: u64, exp: Option<u64>, f: FilterSpec)
    requires
        s.len() < 1,
    ensures
        run_dec(s, db, exp, f) == Err::<RunOut, RdbError>(RdbError::ShortRead(1, 0)),
{
    reveal(run_dec);
}

/// The database-switch step.
pub proof fn lemma_run_dec_selectdb(s: Seq<u8>, db: u64, exp: Option<u64>, f: FilterSpec)
    requires
        s.len() >= 1,
        s[0] == crate::constants::OP_SELECTDB,
    ensures
        run_dec(s, db, exp, f) == (match selectdb_step_dec(s.skip(1), f) {
            Err(e) => Err::<RunOut, RdbError>(e),
            Ok((newdb, evs, t2)) => match run_dec(t2, newdb, exp, f) {
                Err(e) => Err(e),
                Ok(o) => Ok(
                    RunOut {
                        events: evs + o.events,
                        groups: seq![GroupG::DbSelect { db: newdb }] + o.groups,
                    },
                ),
            },
        }),
{
    reveal(run_dec);
}

/// The closing step at the end opcode.
pub proof fn lemma_run_dec_eof(s: Seq<u8>, db: u64, exp: Option<u64>, f: FilterSpec)
    requires
        s.len() >= 1,
        s[0] == crate::constants::OP_EOF,
    ensures
        run_dec(s, db, exp, f) == Ok::<RunOut, RdbError>(
            RunOut {
                events: eof_step_events(s.skip(1), db),
                groups: seq![GroupG::Plain { events: eof_step_events(s.skip(1), db) }],
            },
        ),
{
    reveal(run_dec);
}

/// The millisecond-expiry step: eight little-endian bytes become the
/// pending expiry of the next key.
pub proof fn lemma_run_dec_expiretime_ms(s: Seq<u8>, db: u64, exp: Option<u64>, f: FilterSpec)
    requires
        s.len() >= 1,
        s[0] == crate::constants::OP_EXPIRETIME_MS,
    ensures
        run_dec(s, db, exp, f) == (if s.skip(1).len() < 8 {
            Err::<RunOut, RdbError>(RdbError::ShortRead(8, s.skip(1).len() as usize))
        } else {
            run_dec(s.skip(1).skip(8), db, Some(le64(s.skip(1).take(8))), f)
        }),
{
    reveal(run_dec);
}

/// The second-expiry step: four big-endian bytes, scaled to
/// milliseconds, become the pending expiry of the next key.
pub proof fn lemma_run_dec_expiretime(s: Seq<u8>, db: u64, exp: Option<u64>, f: FilterSpec)
    requires
        s.len() >= 1,
        s[0] == crate::constants::OP_EXPIRETIME,
    ensures
        run_dec(s, db, exp, f) == (if s.skip(1).len() < 4 {
            Err::<RunOut, RdbError>(RdbError::ShortRead(4, s.skip(1).len() as usize))
        } else {
            run_dec(
                s.skip(1).skip(4),
                db,
                Some(((be32(s.skip(1).take(4)) as u64) * 1000) as u64),
                f,
            )
        }),
{
    reveal(run_dec);
}

/// The resize-notice step.
pub proof fn lemma_run_dec_resizedb(s: Seq<u8>, db: u64, exp: Option<u64>, f: FilterSpec)
    requires
        s.len() >= 1,
        s[0] == crate::constants::OP_RESIZEDB,
    ensures
        run_dec(s, db, exp, f) == (match resizedb_step_dec(s.skip(1)) {
            Err(e) => Err::<RunOut, RdbError>(e),
            Ok((evs, t3)) => match run_dec(t3, db, exp, f) {
                Err(e) => Err(e),
                Ok(o) => Ok(
                    RunOut {
                        events: evs + o.events,
                        groups: seq![GroupG::Plain { events: evs }] + o.groups,
                    },
                ),
            },
        }),
{
    reveal(run_dec);
}

/// The auxiliary-field step.
pub proof fn lemma_run_dec_aux(s: Seq<u8>, db: u64, exp: Option<u64>, f: FilterSpec)
    requires
        s.len() >= 1,
        s[0] == crate::constants::OP_AUX,
    ensures
        run_dec(s, db, exp, f) == (match aux_step_dec(s.skip(1)) {
            Err(e) => Err::<RunOut, RdbError>(e),
            Ok((evs, t3)) => match run_dec(t3, db, exp, f) {
                Err(e) => Err(e),
                Ok(o) => Ok(
                    RunOut {
                        events: evs + o.events,
                        groups: seq![GroupG::Plain { events: evs }] + o.groups,
                    },
                ),
            },
        }),
{
    reveal(run_dec);
}

/// The idle-time step: one length, discarded.
pub proof fn lemma_run_dec_idle(s: Seq<u8>, db: u64, exp: Option<u64>, f: FilterSpec)
    requires
        s.len() >= 1,
        s[0] == crate::constants::OP_IDLE,
    ensures
        run_dec(s, db, exp, f) == (match len_dec(s.skip(1)) {
            Err(e) => Err::<RunOut, RdbError>(e),
            Ok((l, enc, t2)) => run_dec(t2, db, exp, f),
        }),
{
    reveal(run_dec);
}

/// The frequency step: one byte, discarded.
pub proof fn lemma_run_dec_freq(s: Seq<u8>, db: u64, exp: Option<u64>, f: FilterSpec)
    requires
        s.len() >= 1,
        s[0] == crate::constants::OP_FREQ,
    ensures
        run_dec(s, db, exp, f) == (if s.skip(1).len() < 1 {
            Err::<RunOut, RdbError>(RdbError::ShortRead(1, 0))
        } else {
            run_dec(s.skip(1).skip(1), db, exp, f)
        }),
{
    reveal(run_dec);
}

/// The module auxiliary step: a module value, walked and discarded.
pub proof fn lemma_run_dec_module_aux(s: Seq<u8>, db: u64, exp: Option<u64>, f: FilterSpec)
    requires
        s.len() >= 1,
        s[0] == crate::constants::OP_MODULE_AUX,
    ensures
        run_dec(s, db, exp, f) == (match module_skip_dec(s.skip(1)) {
            Err(e) => Err::<RunOut, RdbError>(e),
            Ok(t2) => run_dec(t2, db, exp, f),
        }),
{
    reveal(run_dec);
}

/// Whether a byte is a top-level opcode rather than a value-type tag.
pub open spec fn is_opcode(b: u8) -> bool {
    b == crate::constants::OP_SELECTDB || b == crate::constants::OP_EOF || b
        == crate::constants::OP_EXPIRETIME_MS || b == crate::constants::OP_EXPIRETIME || b
        == crate::constants::OP_RESIZEDB || b == crate::constants::OP_AUX || b
        == crate::constants::OP_IDLE || b == crate::constants::OP_FREQ || b
        == crate::constants::OP_MODULE_AUX
}

/// The key-record step, for any first byte that is not an opcode.
pub proof fn lemma_run_dec_record(s: Seq<u8>, db: u64, exp: Option<u64>, f: FilterSpec)
    requires
        s.len() >= 1,
        !is_opcode(s[0]),
    ensures
        run_dec(s, db, exp, f) == (match record_step_dec(s.skip(1), s[0], db, exp, f) {
            Err(e) => Err::<RunOut, RdbError>(e),
            Ok((g, evs, t3)) => match run_dec(t3, db, None, f) {
                Err(e) => Err(e),
                Ok(o) => Ok(RunOut { events: evs + o.events, groups: seq![g] + o.groups }),
            },
        }),
{
    reveal(run_dec);
}

/// The whole decode of a snapshot: the preamble, the opening event, then
/// the opcode loop.
pub open spec fn parse_dec(s: Seq<u8>, f: FilterSpec) -> Result<RunOut, RdbError> {
    match magic_dec(s) {
        Err(e) => Err(e),
        Ok(t) => match version_dec(t) {
            Err(e) => Err(e),
            Ok(t2) => match run_dec(t2, 0, None, f) {
                Err(e) => Err(e),
                Ok(o) => Ok(
                    RunOut {
                        events: seq![Event::StartRdb] + o.events,
                        groups: seq![GroupG::Plain { events: seq![Event::StartRdb] }] + o.groups,
                    },
                ),
            },
        },
    }
}

/// A decoded length token leaves strictly fewer bytes.
pub proof fn lemma_len_dec_consumes(s: Seq<u8>)
    ensures
        len_dec(s) matches Ok(o) ==> o.2.len() < s.len(),
        len_dec(s) matches Ok(o) ==> o.2.len() == s.len() - len_token_width(s[0]),
{
}

/// A decoded blob leaves strictly fewer bytes.
pub proof fn lemma_blob_dec_consumes(s: Seq<u8>)
    ensures
        blob_dec(s) matches Ok(o) ==> o.1.len() < s.len(),
{
    lemma_len_dec_consumes(s);
    match len_dec(s) {
        Ok((length, is_encoded, t)) => {
            lemma_len_dec_consumes(t);
            match len_dec(t) {
                Ok((cl, _, t2)) => lemma_len_dec_consumes(t2),
                _ => (),
            }
        },
        _ => (),
    }
}

/// A skipped blob leaves strictly fewer bytes.
pub proof fn lemma_skip_blob_dec_consumes(s: Seq<u8>)
    ensures
        skip_blob_dec(s) matches Ok(rest) ==> rest.len() < s.len(),
{
    lemma_len_dec_consumes(s);
    match len_dec(s) {
        Ok((length, is_encoded, t)) => {
            lemma_len_dec_consumes(t);
            match len_dec(t) {
                Ok((cl, _, t2)) => lemma_len_dec_consumes(t2),
                _ => (),
            }
        },
        _ => (),
    }
}

} // verus!
