//! The laws of the decoder: properties that hold of every run, proved
//! once over the ghost decoder and therefore inherited by the executable
//! decoder through its contracts.
use vstd::multiset::Multiset;
use vstd::prelude::*;

use crate::constants::ENC_INT16;
use crate::constants::ENC_INT32;
use crate::constants::ENC_INT8;
use crate::decimal::dec_of;
use crate::decimal::dec_val;
use crate::decimal::lemma_dec_roundtrip;
use crate::events::EventG;
use crate::events::Event;
use crate::events::ScoreG;
use crate::filter::admits;
use crate::filter::all_pass;
use crate::filter::FilterSpec;
use crate::model::aux_step_dec;
use crate::model::blob_dec;
use crate::model::eof_step_events;
use crate::model::hash_elem_events;
use crate::model::hash_pairs_dec;
use crate::model::intset_items_dec;
use crate::model::lemma_aux_step_dec_consumes;
use crate::model::lemma_module_skip_dec_consumes;
use crate::model::lemma_record_step_dec_consumes;
use crate::model::lemma_resizedb_step_dec_consumes;
use crate::model::lemma_run_dec_aux;
use crate::model::lemma_run_dec_empty;
use crate::model::lemma_run_dec_eof;
use crate::model::lemma_run_dec_expiretime;
use crate::model::lemma_run_dec_expiretime_ms;
use crate::model::lemma_run_dec_freq;
use crate::model::lemma_run_dec_idle;
use crate::model::lemma_run_dec_module_aux;
use crate::model::lemma_run_dec_record;
use crate::model::lemma_run_dec_resizedb;
use crate::model::lemma_run_dec_selectdb;
use crate::model::lemma_selectdb_step_dec_consumes;
use crate::model::list_elem_events;
use crate::model::list_items_dec;
use crate::model::magic_dec;
use crate::model::module_skip_dec;
use crate::model::is_opcode;
use crate::model::obj_dec;
use crate::model::obj_hash;
use crate::model::obj_hash_ziplist;
use crate::model::obj_intset;
use crate::model::obj_linked_list;
use crate::model::obj_quicklist;
use crate::model::obj_string;
use crate::model::obj_zipmap;
use crate::model::obj_zset;
use crate::model::obj_zset_ziplist;
use crate::model::parse_dec;
use crate::model::quicklist_part_dec;
use crate::model::quicklist_parts_dec;
use crate::model::record_step_dec;
use crate::model::resizedb_step_dec;
use crate::model::run_dec;
use crate::model::selectdb_step_dec;
use crate::model::skip_blob_dec;
use crate::model::skip_blobs_dec;
use crate::model::skip_object_dec;
use crate::model::skip_zset_entries_dec;
use crate::model::set_elem_events;
use crate::model::version_dec;
use crate::model::zipmap_pairs_dec;
use crate::model::zset_elem_events;
use crate::model::zset_entries_dec;
use crate::reader::be32;
use crate::reader::le64;
use crate::model::len_dec;
use crate::model::len_token_width;
use crate::model::lemma_len_dec_consumes;
use crate::model::obj_list_ziplist;
use crate::model::zl_header_dec;
use crate::model::zl_items_dec;
use crate::model::zl_pairs_dec;
use crate::model::zl_entry_str_dec;
use crate::model::zl_term_dec;
use crate::model::GroupG;
use crate::model::RunOut;
use crate::types::EncodingType;
use crate::reader::le16;
use crate::reader::le32;
use crate::reader::sign16;
use crate::reader::sign32;
use crate::reader::sign8;
use crate::types::RdbError;
use crate::types::Type;

verus! {

// ---------------------------------------------------------------------
// Length-encoding dispatch: the width is fixed by the first byte alone.
// ---------------------------------------------------------------------

/// For every first byte, the bytes a length token occupies are fixed by
/// that byte alone, per its discriminant.
pub proof fn lemma_length_dispatch(s: Seq<u8>)
    ensures
        len_dec(s) matches Ok(o) ==> o.2.len() == s.len() - len_token_width(s[0]),
        len_dec(s) matches Ok(o) ==> o.2 == s.skip(len_token_width(s[0])),
{
    lemma_len_dec_consumes(s);
    match len_dec(s) {
        Ok((l, enc, rest)) => {
            assert(rest =~= s.skip(len_token_width(s[0])));
        },
        _ => (),
    }
}

// ---------------------------------------------------------------------
// Round trip of the integer short encodings.
// ---------------------------------------------------------------------

/// The integer a blob's short encoding names, when its length token
/// carries one of the three integer tags and enough bytes follow.
pub open spec fn int_short_value(s: Seq<u8>) -> Option<int> {
    match len_dec(s) {
        Ok((tag, true, t)) => if tag == ENC_INT8 && t.len() >= 1 {
            Some(sign8(t[0]))
        } else if tag == ENC_INT16 && t.len() >= 2 {
            Some(sign16(le16(t.take(2))))
        } else if tag == ENC_INT32 && t.len() >= 4 {
            Some(sign32(le32(t.take(4))))
        } else {
            None
        },
        _ => None,
    }
}

/// A blob with an integer short encoding decodes to the decimal rendering
/// of that integer, and parsing the rendering gives the integer back:
/// re-encoding the decimal names the same number.
pub proof fn lemma_int_short_roundtrip(s: Seq<u8>, v: int)
    requires
        int_short_value(s) == Some(v),
    ensures
        blob_dec(s) matches Ok(o) && o.0 == dec_of(v),
        blob_dec(s) matches Ok(o) && dec_val(o.0) == v,
{
    lemma_dec_roundtrip(v);
}

// ---------------------------------------------------------------------
// The packed-list terminator.
// ---------------------------------------------------------------------

/// A packed-list payload whose entries decode but whose next byte is not
/// the terminator fails with the terminator fault, whatever the header
/// fields say.
pub proof fn lemma_ziplist_terminator(s: Seq<u8>, key: Seq<u8>, exp: Option<u64>)
    ensures
        (match blob_dec(s) {
            Ok((zl, rest)) => match zl_header_dec(zl) {
                Ok(((zlbytes, zltail, zllen), inner)) => match zl_items_dec(inner, zllen as u64) {
                    Ok((items, inner2)) => (inner2.len() >= 1 && inner2[0] != 0xFF)
                        ==> obj_list_ziplist(s, key, exp) == Err::<
                        (Seq<EventG>, Seq<u8>),
                        RdbError,
                    >(RdbError::InvalidZiplistTerminator),
                    Err(e) => true,
                },
                Err(e) => true,
            },
            Err(e) => true,
        }),
{
}

/// The same for the pair-oriented packed forms: with an even entry
/// count whose pairs decode, a missing terminator is the terminator
/// fault.
pub proof fn lemma_ziplist_terminator_pairs(s: Seq<u8>, key: Seq<u8>, exp: Option<u64>)
    ensures
        (match blob_dec(s) {
            Ok((zl, rest)) => match zl_header_dec(zl) {
                Ok(((zlbytes, zltail, zllen), inner)) => (zllen % 2 == 0 ==> match zl_pairs_dec(
                    inner,
                    (zllen / 2) as u64,
                ) {
                    Ok((pairs, inner2)) => (inner2.len() >= 1 && inner2[0] != 0xFF) ==> {
                        &&& obj_hash_ziplist(s, key, exp) == Err::<
                            (Seq<EventG>, Seq<u8>),
                            RdbError,
                        >(RdbError::InvalidZiplistTerminator)
                        &&& obj_zset_ziplist(s, key, exp) == Err::<
                            (Seq<EventG>, Seq<u8>),
                            RdbError,
                        >(RdbError::InvalidZiplistTerminator)
                    },
                    Err(e) => true,
                }),
                Err(e) => true,
            },
            Err(e) => true,
        }),
{
}

/// The same inside a quicklist: a part whose entries decode but whose
/// next byte is not the terminator is the terminator fault.
pub proof fn lemma_quicklist_part_terminator(s: Seq<u8>, key: Seq<u8>)
    ensures
        (match blob_dec(s) {
            Ok((zl, rest)) => match zl_header_dec(zl) {
                Ok(((zlbytes, zltail, zllen), inner)) => match zl_items_dec(inner, zllen as u64) {
                    Ok((items, inner2)) => (inner2.len() >= 1 && inner2[0] != 0xFF)
                        ==> quicklist_part_dec(s, key) == Err::<
                        (Seq<EventG>, Seq<u8>),
                        RdbError,
                    >(RdbError::InvalidZiplistTerminator),
                    Err(e) => true,
                },
                Err(e) => true,
            },
            Err(e) => true,
        }),
{
}

// ---------------------------------------------------------------------
// Structural balance: collections opened equal collections closed.
// ---------------------------------------------------------------------

/// The collection a start event opens, with its key.
pub open spec fn start_of(e: EventG) -> Option<(Type, Seq<u8>)> {
    match e {
        Event::StartList { key, length, expiry, encoding } => Some((Type::List, key)),
        Event::StartSet { key, length, expiry, encoding } => Some((Type::SetKind, key)),
        Event::StartSortedSet { key, length, expiry, encoding } => Some((Type::SortedSet, key)),
        Event::StartHash { key, length, expiry, encoding } => Some((Type::Hash, key)),
        _ => None,
    }
}

/// The collection an end event closes, with its key.
pub open spec fn end_of(e: EventG) -> Option<(Type, Seq<u8>)> {
    match e {
        Event::EndList { key } => Some((Type::List, key)),
        Event::EndSet { key } => Some((Type::SetKind, key)),
        Event::EndSortedSet { key } => Some((Type::SortedSet, key)),
        Event::EndHash { key } => Some((Type::Hash, key)),
        _ => None,
    }
}

/// The multiset of collections the events open.
pub open spec fn start_ms(s: Seq<EventG>) -> Multiset<(Type, Seq<u8>)>
    decreases s.len(),
{
    if s.len() == 0 {
        Multiset::empty()
    } else {
        start_ms(s.drop_last()).add(
            match start_of(s.last()) {
                Some(k) => Multiset::singleton(k),
                None => Multiset::empty(),
            },
        )
    }
}

/// The multiset of collections the events close.
pub open spec fn end_ms(s: Seq<EventG>) -> Multiset<(Type, Seq<u8>)>
    decreases s.len(),
{
    if s.len() == 0 {
        Multiset::empty()
    } else {
        end_ms(s.drop_last()).add(
            match end_of(s.last()) {
                Some(k) => Multiset::singleton(k),
                None => Multiset::empty(),
            },
        )
    }
}

/// Both multisets distribute over concatenation.
pub proof fn lemma_ms_concat(a: Seq<EventG>, b: Seq<EventG>)
    ensures
        start_ms(a + b) == start_ms(a).add(start_ms(b)),
        end_ms(a + b) == end_ms(a).add(end_ms(b)),
    decreases b.len(),
{
    if b.len() == 0 {
        assert(a + b =~= a);
        assert(start_ms(a + b) =~= start_ms(a).add(start_ms(b)));
        assert(end_ms(a + b) =~= end_ms(a).add(end_ms(b)));
    } else {
        lemma_ms_concat(a, b.drop_last());
        assert((a + b).drop_last() =~= a + b.drop_last());
        assert((a + b).last() == b.last());
        assert(start_ms(a + b) =~= start_ms(a).add(start_ms(b)));
        assert(end_ms(a + b) =~= end_ms(a).add(end_ms(b)));
    }
}

/// Events that neither open nor close a collection.
pub open spec fn neutral_events(s: Seq<EventG>) -> bool {
    forall|i: int|
        0 <= i < s.len() ==> start_of(#[trigger] s[i]) is None && end_of(s[i]) is None
}

/// Neutral events contribute nothing to either multiset.
pub proof fn lemma_neutral_ms(s: Seq<EventG>)
    requires
        neutral_events(s),
    ensures
        start_ms(s) == Multiset::<(Type, Seq<u8>)>::empty(),
        end_ms(s) == Multiset::<(Type, Seq<u8>)>::empty(),
    decreases s.len(),
{
    if s.len() > 0 {
        assert(neutral_events(s.drop_last()));
        lemma_neutral_ms(s.drop_last());
        assert(start_of(s.last()) is None);
        assert(start_ms(s) =~= Multiset::<(Type, Seq<u8>)>::empty());
        assert(end_ms(s) =~= Multiset::<(Type, Seq<u8>)>::empty());
    }
}

/// A collection block: a start, neutral elements, the matching end.
proof fn lemma_block_balance(first: EventG, mid: Seq<EventG>, last: EventG, k: (Type, Seq<u8>))
    requires
        start_of(first) == Some(k),
        end_of(first) is None,
        start_of(last) is None,
        end_of(last) == Some(k),
        neutral_events(mid),
    ensures
        start_ms(seq![first] + mid + seq![last]) == end_ms(seq![first] + mid + seq![last]),
{
    lemma_neutral_ms(mid);
    lemma_ms_concat(seq![first], mid);
    lemma_ms_concat(seq![first] + mid, seq![last]);
    assert(seq![first].drop_last() =~= Seq::<EventG>::empty());
    assert(seq![last].drop_last() =~= Seq::<EventG>::empty());
    assert(start_ms(Seq::<EventG>::empty()) == Multiset::<(Type, Seq<u8>)>::empty());
    assert(end_ms(Seq::<EventG>::empty()) == Multiset::<(Type, Seq<u8>)>::empty());
    assert(seq![first].last() == first);
    assert(seq![last].last() == last);
    assert(start_ms(seq![first]) =~= Multiset::singleton(k));
    assert(end_ms(seq![first]) =~= Multiset::<(Type, Seq<u8>)>::empty());
    assert(start_ms(seq![last]) =~= Multiset::<(Type, Seq<u8>)>::empty());
    assert(end_ms(seq![last]) =~= Multiset::singleton(k));
    assert(start_ms(seq![first] + mid + seq![last]) =~= end_ms(seq![first] + mid + seq![last]));
}

/// The events of a quicklist's parts are all list elements.
proof fn lemma_quicklist_parts_neutral(s: Seq<u8>, n: u64, key: Seq<u8>)
    ensures
        quicklist_parts_dec(s, n, key) matches Ok(o) ==> neutral_events(o.0),
    decreases n,
{
    if n != 0 {
        match quicklist_part_dec(s, key) {
            Ok((evs1, t)) => {
                lemma_quicklist_parts_neutral(t, (n - 1) as u64, key);
                match quicklist_parts_dec(t, (n - 1) as u64, key) {
                    Ok((evs2, rest)) => {
                        assert(neutral_events(evs1 + evs2));
                    },
                    _ => (),
                }
            },
            _ => (),
        }
    }
}

/// A plain string value surfaces only one neutral event.
proof fn lemma_obj_string_balance(s: Seq<u8>, key: Seq<u8>, exp: Option<u64>)
    ensures
        obj_string(s, key, exp) matches Ok(o) ==> start_ms(o.0) == end_ms(o.0),
{
    match obj_string(s, key, exp) {
        Ok((evs, rest)) => {
            lemma_neutral_ms(evs);
        },
        _ => (),
    }
}

/// A linked-list-encoded collection balances its start and end.
proof fn lemma_obj_linked_list_balance(s: Seq<u8>, key: Seq<u8>, exp: Option<u64>, is_list: bool)
    ensures
        obj_linked_list(s, key, exp, is_list) matches Ok(o) ==> start_ms(o.0) == end_ms(o.0),
{
    match len_dec(s) {
        Ok((n, e, t)) => match list_items_dec(t, n) {
            Ok((items, r2)) => match obj_linked_list(s, key, exp, is_list) {
                Ok((evs, rest)) => {
                    let k = if is_list {
                        (Type::List, key)
                    } else {
                        (Type::SetKind, key)
                    };
                    let mid = if is_list {
                        list_elem_events(key, items)
                    } else {
                        set_elem_events(key, items)
                    };
                    lemma_block_balance(evs[0], mid, evs.last(), k);
                },
                _ => (),
            },
            _ => (),
        },
        _ => (),
    }
}

/// A sorted set balances its start and end.
proof fn lemma_obj_zset_balance(s: Seq<u8>, key: Seq<u8>, exp: Option<u64>, v2: bool)
    ensures
        obj_zset(s, key, exp, v2) matches Ok(o) ==> start_ms(o.0) == end_ms(o.0),
{
    match len_dec(s) {
        Ok((n, e, t)) => match zset_entries_dec(t, n, v2) {
            Ok((entries, r2)) => match obj_zset(s, key, exp, v2) {
                Ok((evs, rest)) => {
                    lemma_block_balance(
                        evs[0],
                        zset_elem_events(key, entries),
                        evs.last(),
                        (Type::SortedSet, key),
                    );
                },
                _ => (),
            },
            _ => (),
        },
        _ => (),
    }
}

/// A hashtable-encoded hash balances its start and end.
proof fn lemma_obj_hash_balance(s: Seq<u8>, key: Seq<u8>, exp: Option<u64>)
    ensures
        obj_hash(s, key, exp) matches Ok(o) ==> start_ms(o.0) == end_ms(o.0),
{
    match len_dec(s) {
        Ok((n, e, t)) => match hash_pairs_dec(t, n) {
            Ok((pairs, r2)) => match obj_hash(s, key, exp) {
                Ok((evs, rest)) => {
                    lemma_block_balance(
                        evs[0],
                        hash_elem_events(key, pairs),
                        evs.last(),
                        (Type::Hash, key),
                    );
                },
                _ => (),
            },
            _ => (),
        },
        _ => (),
    }
}

/// A packed map balances its start and end.
proof fn lemma_obj_zipmap_balance(s: Seq<u8>, key: Seq<u8>, exp: Option<u64>)
    ensures
        obj_zipmap(s, key, exp) matches Ok(o) ==> start_ms(o.0) == end_ms(o.0),
{
    match blob_dec(s) {
        Ok((zm, r1)) => {
            if zm.len() >= 1 {
                let length: int = if zm[0] <= 254 {
                    zm[0] as int
                } else {
                    -1
                };
                match zipmap_pairs_dec(zm.skip(1), length) {
                    Ok(pairs) => match obj_zipmap(s, key, exp) {
                        Ok((evs, rest)) => {
                            lemma_block_balance(
                                evs[0],
                                hash_elem_events(key, pairs),
                                evs.last(),
                                (Type::Hash, key),
                            );
                        },
                        _ => (),
                    },
                    _ => (),
                }
            }
        },
        _ => (),
    }
}

/// A packed list of list elements balances its start and end.
proof fn lemma_obj_list_ziplist_balance(s: Seq<u8>, key: Seq<u8>, exp: Option<u64>)
    ensures
        obj_list_ziplist(s, key, exp) matches Ok(o) ==> start_ms(o.0) == end_ms(o.0),
{
    match blob_dec(s) {
        Ok((zl, r1)) => match zl_header_dec(zl) {
            Ok(((zb, zt, zllen), inner)) => match zl_items_dec(inner, zllen as u64) {
                Ok((items, i2)) => match obj_list_ziplist(s, key, exp) {
                    Ok((evs, rest)) => {
                        lemma_block_balance(
                            evs[0],
                            list_elem_events(key, items),
                            evs.last(),
                            (Type::List, key),
                        );
                    },
                    _ => (),
                },
                _ => (),
            },
            _ => (),
        },
        _ => (),
    }
}

/// A packed list of member/score pairs balances its start and end.
proof fn lemma_obj_zset_ziplist_balance(s: Seq<u8>, key: Seq<u8>, exp: Option<u64>)
    ensures
        obj_zset_ziplist(s, key, exp) matches Ok(o) ==> start_ms(o.0) == end_ms(o.0),
{
    match blob_dec(s) {
        Ok((zl, r1)) => match zl_header_dec(zl) {
            Ok(((zb, zt, zllen), inner)) => {
                if zllen % 2 == 0 {
                    match zl_pairs_dec(inner, (zllen / 2) as u64) {
                        Ok((pairs, i2)) => match obj_zset_ziplist(s, key, exp) {
                            Ok((evs, rest)) => {
                                lemma_block_balance(
                                    evs[0],
                                    zset_elem_events(
                                        key,
                                        pairs.map_values(
                                            |p: (Seq<u8>, Seq<u8>)| (p.0, ScoreG::Ascii(p.1)),
                                        ),
                                    ),
                                    evs.last(),
                                    (Type::SortedSet, key),
                                );
                            },
                            _ => (),
                        },
                        _ => (),
                    }
                }
            },
            _ => (),
        },
        _ => (),
    }
}

/// A packed list of field/value pairs balances its start and end.
proof fn lemma_obj_hash_ziplist_balance(s: Seq<u8>, key: Seq<u8>, exp: Option<u64>)
    ensures
        obj_hash_ziplist(s, key, exp) matches Ok(o) ==> start_ms(o.0) == end_ms(o.0),
{
    match blob_dec(s) {
        Ok((zl, r1)) => match zl_header_dec(zl) {
            Ok(((zb, zt, zllen), inner)) => {
                if zllen % 2 == 0 {
                    match zl_pairs_dec(inner, (zllen / 2) as u64) {
                        Ok((pairs, i2)) => match obj_hash_ziplist(s, key, exp) {
                            Ok((evs, rest)) => {
                                lemma_block_balance(
                                    evs[0],
                                    hash_elem_events(key, pairs),
                                    evs.last(),
                                    (Type::Hash, key),
                                );
                            },
                            _ => (),
                        },
                        _ => (),
                    }
                }
            },
            _ => (),
        },
        _ => (),
    }
}

/// An integer set balances its start and end.
proof fn lemma_obj_intset_balance(s: Seq<u8>, key: Seq<u8>, exp: Option<u64>)
    ensures
        obj_intset(s, key, exp) matches Ok(o) ==> start_ms(o.0) == end_ms(o.0),
{
    match blob_dec(s) {
        Ok((pay, r1)) => {
            if pay.len() >= 4 && pay.skip(4).len() >= 4 {
                match intset_items_dec(
                    pay.skip(4).skip(4),
                    le32(pay.skip(4).take(4)) as u64,
                    le32(pay.take(4)),
                ) {
                    Ok((items, i2)) => match obj_intset(s, key, exp) {
                        Ok((evs, rest)) => {
                            lemma_block_balance(
                                evs[0],
                                set_elem_events(key, items),
                                evs.last(),
                                (Type::SetKind, key),
                            );
                        },
                        _ => (),
                    },
                    _ => (),
                }
            }
        },
        _ => (),
    }
}

/// A quicklist balances its start and end.
proof fn lemma_obj_quicklist_balance(s: Seq<u8>, key: Seq<u8>, exp: Option<u64>)
    ensures
        obj_quicklist(s, key, exp) matches Ok(o) ==> start_ms(o.0) == end_ms(o.0),
{
    match len_dec(s) {
        Ok((n, e, t)) => {
            lemma_quicklist_parts_neutral(t, n, key);
            match quicklist_parts_dec(t, n, key) {
                Ok((mid, r2)) => match obj_quicklist(s, key, exp) {
                    Ok((evs, rest)) => {
                        lemma_block_balance(evs[0], mid, evs.last(), (Type::SetKind, key));
                    },
                    _ => (),
                },
                _ => (),
            }
        },
        _ => (),
    }
}

/// The events of one key's value open exactly the collections they
/// close.
pub proof fn lemma_obj_balance(s: Seq<u8>, tag: u8, key: Seq<u8>, exp: Option<u64>)
    ensures
        obj_dec(s, tag, key, exp) matches Ok(o) ==> start_ms(o.0) == end_ms(o.0),
{
    lemma_obj_string_balance(s, key, exp);
    lemma_obj_linked_list_balance(s, key, exp, true);
    lemma_obj_linked_list_balance(s, key, exp, false);
    lemma_obj_zset_balance(s, key, exp, false);
    lemma_obj_zset_balance(s, key, exp, true);
    lemma_obj_hash_balance(s, key, exp);
    lemma_obj_zipmap_balance(s, key, exp);
    lemma_obj_list_ziplist_balance(s, key, exp);
    lemma_obj_zset_ziplist_balance(s, key, exp);
    lemma_obj_hash_ziplist_balance(s, key, exp);
    lemma_obj_intset_balance(s, key, exp);
    lemma_obj_quicklist_balance(s, key, exp);
    match obj_dec(s, tag, key, exp) {
        Ok((evs, rest)) => {
            if tag == crate::constants::TYPE_MODULE2 || tag
                == crate::constants::TYPE_STREAM_LISTPACKS {
                lemma_neutral_ms(evs);
            }
        },
        _ => (),
    }
}

/// The balance of one step followed by the balance of the rest.
proof fn lemma_balance_compose(evs1: Seq<EventG>, evs2: Seq<EventG>)
    requires
        start_ms(evs1) == end_ms(evs1),
        start_ms(evs2) == end_ms(evs2),
    ensures
        start_ms(evs1 + evs2) == end_ms(evs1 + evs2),
{
    lemma_ms_concat(evs1, evs2);
}

/// Across a whole successful opcode loop, the collections opened equal
/// the collections closed.
#[verifier::spinoff_prover]
#[verifier::rlimit(100)]
pub proof fn lemma_run_balance(s: Seq<u8>, db: u64, exp: Option<u64>, f: FilterSpec)
    ensures
        run_dec(s, db, exp, f) matches Ok(o) ==> start_ms(o.events) == end_ms(o.events),
    decreases s.len(), 1int,
{
    if s.len() < 1 {
        lemma_run_dec_empty(s, db, exp, f);
    } else {
        let op = s[0];
        let t = s.skip(1);
        if op == crate::constants::OP_SELECTDB {
            lemma_run_dec_selectdb(s, db, exp, f);
            match selectdb_step_dec(t, f) {
                Ok((newdb, evs1, t2)) => {
                    lemma_selectdb_step_dec_consumes(t, f);
                    lemma_run_balance(t2, newdb, exp, f);
                    match run_dec(t2, newdb, exp, f) {
                        Ok(o2) => {
                            assert(neutral_events(evs1));
                            lemma_neutral_ms(evs1);
                            lemma_balance_compose(evs1, o2.events);
                        },
                        _ => (),
                    }
                },
                _ => (),
            }
        } else if op == crate::constants::OP_EOF {
            lemma_run_dec_eof(s, db, exp, f);
            assert(neutral_events(eof_step_events(t, db)));
            lemma_neutral_ms(eof_step_events(t, db));
        } else if op == crate::constants::OP_EXPIRETIME_MS {
            lemma_run_dec_expiretime_ms(s, db, exp, f);
            if t.len() >= 8 {
                lemma_run_balance(t.skip(8), db, Some(le64(t.take(8))), f);
            }
        } else if op == crate::constants::OP_EXPIRETIME {
            lemma_run_dec_expiretime(s, db, exp, f);
            if t.len() >= 4 {
                lemma_run_balance(t.skip(4), db, Some(((be32(t.take(4)) as u64) * 1000) as u64), f);
            }
        } else if op == crate::constants::OP_RESIZEDB {
            lemma_run_dec_resizedb(s, db, exp, f);
            match resizedb_step_dec(t) {
                Ok((evs1, t3)) => {
                    lemma_resizedb_step_dec_consumes(t);
                    lemma_run_balance(t3, db, exp, f);
                    match run_dec(t3, db, exp, f) {
                        Ok(o2) => {
                            assert(neutral_events(evs1));
                            lemma_neutral_ms(evs1);
                            lemma_balance_compose(evs1, o2.events);
                        },
                        _ => (),
                    }
                },
                _ => (),
            }
        } else if op == crate::constants::OP_AUX {
            lemma_run_dec_aux(s, db, exp, f);
            match aux_step_dec(t) {
                Ok((evs1, t3)) => {
                    lemma_aux_step_dec_consumes(t);
                    lemma_run_balance(t3, db, exp, f);
                    match run_dec(t3, db, exp, f) {
                        Ok(o2) => {
                            assert(neutral_events(evs1));
                            lemma_neutral_ms(evs1);
                            lemma_balance_compose(evs1, o2.events);
                        },
                        _ => (),
                    }
                },
                _ => (),
            }
        } else if op == crate::constants::OP_IDLE {
            lemma_run_dec_idle(s, db, exp, f);
            match len_dec(t) {
                Ok((l, e2, t2)) => {
                    lemma_len_dec_consumes(t);
                    lemma_run_balance(t2, db, exp, f);
                },
                _ => (),
            }
        } else if op == crate::constants::OP_FREQ {
            lemma_run_dec_freq(s, db, exp, f);
            if t.len() >= 1 {
                lemma_run_balance(t.skip(1), db, exp, f);
            }
        } else if op == crate::constants::OP_MODULE_AUX {
            lemma_run_dec_module_aux(s, db, exp, f);
            match module_skip_dec(t) {
                Ok(t2) => {
                    lemma_module_skip_dec_consumes(t);
                    lemma_run_balance(t2, db, exp, f);
                },
                _ => (),
            }
        } else {
            lemma_run_record_balance(s, db, exp, f);
        }
    }
}

/// The key-record case of the balance induction.
#[verifier::spinoff_prover]
#[verifier::rlimit(100)]
proof fn lemma_run_record_balance(s: Seq<u8>, db: u64, exp: Option<u64>, f: FilterSpec)
    requires
        s.len() >= 1,
        !is_opcode(s[0]),
    ensures
        run_dec(s, db, exp, f) matches Ok(o) ==> start_ms(o.events) == end_ms(o.events),
    decreases s.len(), 0int,
{
    let op = s[0];
    let t = s.skip(1);
    lemma_run_dec_record(s, db, exp, f);
    match record_step_dec(t, op, db, exp, f) {
        Ok((g, evs1, t3)) => {
            lemma_record_step_dec_consumes(t, op, db, exp, f);
            lemma_run_balance(t3, db, None, f);
            match blob_dec(t) {
                Ok((k2, t2)) => lemma_obj_balance(t2, op, k2, exp),
                _ => (),
            }
            match run_dec(t3, db, None, f) {
                Ok(o2) => {
                    if !((f.db)(db)) {
                        lemma_neutral_ms(evs1);
                    } else {
                        match blob_dec(t) {
                            Ok((k2, t2)) => {
                                if !((f.typ)(op) && (f.key)(k2)) {
                                    lemma_neutral_ms(evs1);
                                }
                            },
                            _ => (),
                        }
                    }
                    lemma_balance_compose(evs1, o2.events);
                },
                _ => (),
            }
        },
        _ => (),
    }
}

/// Across an entire successful run, the multiset of collections opened by
/// start events equals the multiset closed by end events.
pub proof fn lemma_structural_balance(s: Seq<u8>, f: FilterSpec)
    ensures
        parse_dec(s, f) matches Ok(o) ==> start_ms(o.events) == end_ms(o.events),
{
    match magic_dec(s) {
        Ok(t) => match version_dec(t) {
            Ok(t2) => {
                lemma_run_balance(t2, 0, None, f);
                match run_dec(t2, 0, None, f) {
                    Ok(o2) => {
                        assert(neutral_events(seq![EventG::StartRdb]));
                        lemma_neutral_ms(seq![EventG::StartRdb]);
                        lemma_ms_concat(seq![EventG::StartRdb], o2.events);
                    },
                    _ => (),
                }
            },
            _ => (),
        },
        _ => (),
    }
}

// ---------------------------------------------------------------------
// Element counts: between a collection's start and end stand exactly as
// many element events as the start event declares.
// ---------------------------------------------------------------------

/// `n` blobs decode to exactly `n` items.
pub proof fn lemma_list_items_len(s: Seq<u8>, n: u64)
    ensures
        list_items_dec(s, n) matches Ok(o) ==> o.0.len() == n,
    decreases n,
{
    if n != 0 {
        match blob_dec(s) {
            Ok((b, t)) => lemma_list_items_len(t, (n - 1) as u64),
            _ => (),
        }
    }
}

/// `n` sorted-set entries decode to exactly `n` pairs.
pub proof fn lemma_zset_entries_len(s: Seq<u8>, n: u64, v2: bool)
    ensures
        zset_entries_dec(s, n, v2) matches Ok(o) ==> o.0.len() == n,
    decreases n,
{
    if n != 0 {
        match blob_dec(s) {
            Ok((member, t)) => {
                if v2 {
                    if t.len() >= 8 {
                        lemma_zset_entries_len(t.skip(8), (n - 1) as u64, v2);
                    }
                } else {
                    if t.len() >= 1 {
                        let sl = t[0];
                        let u = t.skip(1);
                        if sl == 253 || sl == 254 || sl == 255 {
                            lemma_zset_entries_len(u, (n - 1) as u64, v2);
                        } else if u.len() >= sl as usize {
                            lemma_zset_entries_len(u.skip(sl as int), (n - 1) as u64, v2);
                        }
                    }
                }
            },
            _ => (),
        }
    }
}

/// `n` blob pairs decode to exactly `n` pairs.
pub proof fn lemma_hash_pairs_len(s: Seq<u8>, n: u64)
    ensures
        hash_pairs_dec(s, n) matches Ok(o) ==> o.0.len() == n,
    decreases n,
{
    if n != 0 {
        match blob_dec(s) {
            Ok((field, t)) => match blob_dec(t) {
                Ok((value, t2)) => lemma_hash_pairs_len(t2, (n - 1) as u64),
                _ => (),
            },
            _ => (),
        }
    }
}

/// `n` packed-list entries decode to exactly `n` items.
pub proof fn lemma_zl_items_len(s: Seq<u8>, n: u64)
    ensures
        zl_items_dec(s, n) matches Ok(o) ==> o.0.len() == n,
    decreases n,
{
    if n != 0 {
        match zl_entry_str_dec(s) {
            Ok((item, t)) => lemma_zl_items_len(t, (n - 1) as u64),
            _ => (),
        }
    }
}

/// `n` packed-list entry pairs decode to exactly `n` pairs.
pub proof fn lemma_zl_pairs_len(s: Seq<u8>, n: u64)
    ensures
        zl_pairs_dec(s, n) matches Ok(o) ==> o.0.len() == n,
    decreases n,
{
    if n != 0 {
        match zl_entry_str_dec(s) {
            Ok((a, t)) => match zl_entry_str_dec(t) {
                Ok((b, t2)) => lemma_zl_pairs_len(t2, (n - 1) as u64),
                _ => (),
            },
            _ => (),
        }
    }
}

/// `n` integers decode to exactly `n` rendered items.
pub proof fn lemma_intset_items_len(s: Seq<u8>, n: u64, w: u32)
    ensures
        intset_items_dec(s, n, w) matches Ok(o) ==> o.0.len() == n,
    decreases n,
{
    if n != 0 {
        if w == 2 && s.len() >= 2 {
            lemma_intset_items_len(s.skip(2), (n - 1) as u64, w);
        } else if w == 4 && s.len() >= 4 {
            lemma_intset_items_len(s.skip(4), (n - 1) as u64, w);
        } else if w == 8 && s.len() >= 8 {
            lemma_intset_items_len(s.skip(8), (n - 1) as u64, w);
        }
    }
}

/// A linked-list collection surfaces exactly its declared count: the
/// start event carries the count and the pending expiry, one element
/// event follows per item, then the end event.
pub proof fn lemma_linked_list_shape(s: Seq<u8>, key: Seq<u8>, exp: Option<u64>, is_list: bool)
    ensures
        (match len_dec(s) {
            Ok((n, enc, t)) => match list_items_dec(t, n) {
                Ok((items, rest)) => obj_linked_list(s, key, exp, is_list) matches Ok(o)
                    && o.0.len() == n + 2 && o.0[0] == (if is_list {
                    Event::StartList {
                        key,
                        length: n,
                        expiry: exp,
                        encoding: EncodingType::LinkedList,
                    }
                } else {
                    Event::StartSet {
                        key,
                        length: n,
                        expiry: exp,
                        encoding: EncodingType::LinkedList,
                    }
                }) && o.0[n + 1] == (if is_list {
                    Event::EndList { key }
                } else {
                    Event::EndSet { key }
                }) && (forall|j: int|
                    0 <= j < n ==> o.0[1 + j] == (if is_list {
                        Event::ListElement { key, value: items[j] }
                    } else {
                        Event::SetElement { key, value: items[j] }
                    })),
                Err(e2) => true,
            },
            Err(e2) => true,
        }),
{
    match len_dec(s) {
        Ok((n, enc, t)) => match list_items_dec(t, n) {
            Ok((items, rest)) => {
                lemma_list_items_len(t, n);
            },
            _ => (),
        },
        _ => (),
    }
}

/// A hashtable-encoded hash surfaces exactly its declared count of
/// field/value pairs between its start and end events.
pub proof fn lemma_hash_shape(s: Seq<u8>, key: Seq<u8>, exp: Option<u64>)
    ensures
        (match len_dec(s) {
            Ok((n, enc, t)) => match hash_pairs_dec(t, n) {
                Ok((pairs, rest)) => obj_hash(s, key, exp) matches Ok(o) && o.0.len() == n + 2
                    && o.0[0] == (Event::StartHash {
                    key,
                    length: n,
                    expiry: exp,
                    encoding: EncodingType::Hashtable,
                }) && o.0[n + 1] == (Event::EndHash { key }) && (forall|j: int|
                    0 <= j < n ==> o.0[1 + j] == (Event::HashElement {
                        key,
                        field: pairs[j].0,
                        value: pairs[j].1,
                    })),
                Err(e2) => true,
            },
            Err(e2) => true,
        }),
{
    match len_dec(s) {
        Ok((n, enc, t)) => match hash_pairs_dec(t, n) {
            Ok((pairs, rest)) => {
                lemma_hash_pairs_len(t, n);
            },
            _ => (),
        },
        _ => (),
    }
}

/// A sorted set surfaces exactly its declared count of member/score
/// entries between its start and end events.
pub proof fn lemma_zset_shape(s: Seq<u8>, key: Seq<u8>, exp: Option<u64>, v2: bool)
    ensures
        (match len_dec(s) {
            Ok((n, enc, t)) => match zset_entries_dec(t, n, v2) {
                Ok((entries, rest)) => obj_zset(s, key, exp, v2) matches Ok(o) && o.0.len() == n
                    + 2 && o.0[0] == (Event::StartSortedSet {
                    key,
                    length: n,
                    expiry: exp,
                    encoding: EncodingType::Hashtable,
                }) && o.0[n + 1] == (Event::EndSortedSet { key }) && (forall|j: int|
                    0 <= j < n ==> o.0[1 + j] == (Event::SortedSetElement {
                        key,
                        score: entries[j].1,
                        member: entries[j].0,
                    })),
                Err(e2) => true,
            },
            Err(e2) => true,
        }),
{
    match len_dec(s) {
        Ok((n, enc, t)) => match zset_entries_dec(t, n, v2) {
            Ok((entries, rest)) => {
                lemma_zset_entries_len(t, n, v2);
            },
            _ => (),
        },
        _ => (),
    }
}

/// A packed list surfaces exactly the count its header declares between
/// its start and end events.
pub proof fn lemma_list_ziplist_shape(s: Seq<u8>, key: Seq<u8>, exp: Option<u64>)
    ensures
        (match blob_dec(s) {
            Ok((zl, rest)) => match zl_header_dec(zl) {
                Ok(((zb, zt, zllen), inner)) => match zl_items_dec(inner, zllen as u64) {
                    Ok((items, i2)) => (zl_term_dec(i2) is Ok) ==> (obj_list_ziplist(s, key, exp)
                        matches Ok(o) && o.0.len() == zllen + 2 && o.0[0] == (Event::StartList {
                        key,
                        length: zllen as u64,
                        expiry: exp,
                        encoding: EncodingType::Ziplist(zl.len() as u64),
                    }) && o.0[zllen + 1] == (Event::EndList { key }) && (forall|j: int|
                        0 <= j < zllen ==> o.0[1 + j] == (Event::ListElement {
                            key,
                            value: items[j],
                        }))),
                    Err(e2) => true,
                },
                Err(e2) => true,
            },
            Err(e2) => true,
        }),
{
    match blob_dec(s) {
        Ok((zl, rest)) => match zl_header_dec(zl) {
            Ok(((zb, zt, zllen), inner)) => match zl_items_dec(inner, zllen as u64) {
                Ok((items, i2)) => {
                    lemma_zl_items_len(inner, zllen as u64);
                },
                _ => (),
            },
            _ => (),
        },
        _ => (),
    }
}

/// An integer set surfaces exactly its declared count of rendered
/// integers between its start and end events.
pub proof fn lemma_intset_shape(s: Seq<u8>, key: Seq<u8>, exp: Option<u64>)
    ensures
        (match blob_dec(s) {
            Ok((pay, rest)) => (pay.len() >= 4 && pay.skip(4).len() >= 4) ==> (match
                intset_items_dec(
                pay.skip(4).skip(4),
                le32(pay.skip(4).take(4)) as u64,
                le32(pay.take(4)),
            ) {
                Ok((items, i2)) => obj_intset(s, key, exp) matches Ok(o) && o.0.len() == le32(
                    pay.skip(4).take(4),
                ) + 2 && o.0[0] == (Event::StartSet {
                    key,
                    length: le32(pay.skip(4).take(4)) as u64,
                    expiry: exp,
                    encoding: EncodingType::Intset(pay.len() as u64),
                }) && o.0[le32(pay.skip(4).take(4)) + 1] == (Event::EndSet { key }) && (forall|
                    j: int,
                |
                    0 <= j < le32(pay.skip(4).take(4)) ==> o.0[1 + j] == (Event::SetElement {
                        key,
                        value: items[j],
                    })),
                Err(e2) => true,
            }),
            Err(e2) => true,
        }),
{
    match blob_dec(s) {
        Ok((pay, rest)) => {
            if pay.len() >= 4 && pay.skip(4).len() >= 4 {
                lemma_intset_items_len(
                    pay.skip(4).skip(4),
                    le32(pay.skip(4).take(4)) as u64,
                    le32(pay.take(4)),
                );
            }
        },
        _ => (),
    }
}

// ---------------------------------------------------------------------
// Expiry locality.
// ---------------------------------------------------------------------

/// An expiry opcode makes the run forget any earlier pending expiry: the
/// expiry attached to a key is the last one seen before it.
pub proof fn lemma_expiry_last_wins(s: Seq<u8>, db: u64, expa: Option<u64>, expb: Option<u64>, f: FilterSpec)
    requires
        s.len() >= 1,
        s[0] == crate::constants::OP_EXPIRETIME_MS || s[0] == crate::constants::OP_EXPIRETIME,
    ensures
        run_dec(s, db, expa, f) == run_dec(s, db, expb, f),
{
    if s[0] == crate::constants::OP_EXPIRETIME_MS {
        lemma_run_dec_expiretime_ms(s, db, expa, f);
        lemma_run_dec_expiretime_ms(s, db, expb, f);
    } else {
        lemma_run_dec_expiretime(s, db, expa, f);
        lemma_run_dec_expiretime(s, db, expb, f);
    }
}

/// A key record consumes the pending expiry: the record is decoded with
/// exactly that expiry, and the rest of the run continues with none, so
/// an expiry reaches at most the next key record.
pub proof fn lemma_expiry_consumed(s: Seq<u8>, db: u64, exp: Option<u64>, f: FilterSpec)
    requires
        s.len() >= 1,
        !is_opcode(s[0]),
    ensures
        (match record_step_dec(s.skip(1), s[0], db, exp, f) {
            Ok((g, evs, t3)) => g matches GroupG::Rec { db: gdb, tag, key, expiry, events }
                && expiry == exp && (match run_dec(t3, db, None, f) {
                Ok(o2) => run_dec(s, db, exp, f) matches Ok(o) && o.groups == seq![g] + o2.groups
                    && o.events == evs + o2.events,
                Err(e) => run_dec(s, db, exp, f) == Err::<RunOut, RdbError>(e),
            }),
            Err(e) => run_dec(s, db, exp, f) == Err::<RunOut, RdbError>(e),
        }),
{
    lemma_run_dec_record(s, db, exp, f);
}

// ---------------------------------------------------------------------
// Skip/read alignment: the skip path of a value consumes exactly the
// bytes its read path consumes, for every tag whose skip path walks the
// same framing.
// ---------------------------------------------------------------------

/// Skipping a blob lands exactly where decoding it lands.
pub proof fn lemma_skip_blob_aligned(s: Seq<u8>)
    ensures
        blob_dec(s) matches Ok(o) ==> skip_blob_dec(s) == Ok::<Seq<u8>, RdbError>(o.1),
{
}

/// Skipping `n` blobs lands exactly where decoding them lands.
proof fn lemma_skip_blobs_aligned(s: Seq<u8>, n: u64)
    ensures
        list_items_dec(s, n) matches Ok(o) ==> skip_blobs_dec(s, n) == Ok::<Seq<u8>, RdbError>(
            o.1,
        ),
    decreases n,
{
    if n != 0 {
        lemma_skip_blob_aligned(s);
        match blob_dec(s) {
            Ok((b, t)) => lemma_skip_blobs_aligned(t, (n - 1) as u64),
            _ => (),
        }
    }
}

/// Skipped blobs counted over a mathematical number.
spec fn skip_blobs_nat(s: Seq<u8>, n: nat) -> Result<Seq<u8>, RdbError>
    decreases n,
{
    if n == 0 {
        Ok(s)
    } else {
        match skip_blob_dec(s) {
            Err(e) => Err(e),
            Ok(t) => skip_blobs_nat(t, (n - 1) as nat),
        }
    }
}

proof fn lemma_skip_blobs_nat_eq(s: Seq<u8>, n: u64)
    ensures
        skip_blobs_dec(s, n) == skip_blobs_nat(s, n as nat),
    decreases n,
{
    if n != 0 {
        match skip_blob_dec(s) {
            Ok(t) => lemma_skip_blobs_nat_eq(t, (n - 1) as u64),
            _ => (),
        }
    }
}

proof fn lemma_skip_blobs_nat_add(s: Seq<u8>, a: nat, b: nat)
    ensures
        skip_blobs_nat(s, a + b) == (match skip_blobs_nat(s, a) {
            Err(e) => Err::<Seq<u8>, RdbError>(e),
            Ok(m) => skip_blobs_nat(m, b),
        }),
    decreases a,
{
    if a != 0 {
        match skip_blob_dec(s) {
            Ok(t) => {
                lemma_skip_blobs_nat_add(t, (a - 1) as nat, b);
                assert(a + b - 1 == (a - 1) as nat + b);
            },
            _ => (),
        }
    }
}

/// Skipping twice the pair count lands exactly where decoding the pairs
/// lands.
proof fn lemma_hash_pairs_skip_aligned(s: Seq<u8>, n: u64)
    ensures
        hash_pairs_dec(s, n) matches Ok(o) ==> skip_blobs_nat(s, 2 * (n as nat)) == Ok::<
            Seq<u8>,
            RdbError,
        >(o.1),
    decreases n,
{
    if n != 0 {
        lemma_skip_blob_aligned(s);
        match blob_dec(s) {
            Ok((field, t)) => {
                lemma_skip_blob_aligned(t);
                match blob_dec(t) {
                    Ok((value, t2)) => {
                        lemma_hash_pairs_skip_aligned(t2, (n - 1) as u64);
                        lemma_skip_blobs_nat_add(s, 1, (2 * (n as nat) - 1) as nat);
                        lemma_skip_blobs_nat_add(t, 1, (2 * (n as nat) - 2) as nat);
                        assert(2 * (n as nat) == 1 + ((2 * (n as nat) - 1) as nat));
                        assert((2 * (n as nat) - 1) as nat == 1 + ((2 * (n as nat) - 2) as nat));
                        assert(2 * ((n - 1) as u64 as nat) == (2 * (n as nat) - 2) as nat);
                    },
                    _ => (),
                }
            },
            _ => (),
        }
    }
}

/// Skipping a quicklist's parts as blobs lands exactly where decoding
/// them lands.
proof fn lemma_quicklist_skip_aligned(s: Seq<u8>, n: u64, key: Seq<u8>)
    ensures
        quicklist_parts_dec(s, n, key) matches Ok(o) ==> skip_blobs_dec(s, n) == Ok::<
            Seq<u8>,
            RdbError,
        >(o.1),
    decreases n,
{
    if n != 0 {
        lemma_skip_blob_aligned(s);
        match quicklist_part_dec(s, key) {
            Ok((evs, t)) => lemma_quicklist_skip_aligned(t, (n - 1) as u64, key),
            _ => (),
        }
    }
}

/// Skipping sorted-set entries lands exactly where decoding them lands.
proof fn lemma_skip_zset_entries_aligned(s: Seq<u8>, n: u64, v2: bool)
    ensures
        zset_entries_dec(s, n, v2) matches Ok(o) ==> skip_zset_entries_dec(s, n, v2) == Ok::<
            Seq<u8>,
            RdbError,
        >(o.1),
    decreases n,
{
    if n != 0 {
        lemma_skip_blob_aligned(s);
        match blob_dec(s) {
            Ok((member, t)) => {
                if v2 {
                    if t.len() >= 8 {
                        lemma_skip_zset_entries_aligned(t.skip(8), (n - 1) as u64, v2);
                    }
                } else {
                    if t.len() >= 1 {
                        let sl = t[0];
                        let u = t.skip(1);
                        if sl == 253 || sl == 254 || sl == 255 {
                            lemma_skip_zset_entries_aligned(u, (n - 1) as u64, v2);
                        } else if u.len() >= sl as usize {
                            lemma_skip_zset_entries_aligned(u.skip(sl as int), (n - 1) as u64, v2);
                        }
                    }
                }
            },
            _ => (),
        }
    }
}

/// For every tag, skipping a value lands exactly where decoding it
/// lands.
#[verifier::spinoff_prover]
#[verifier::rlimit(100)]
pub proof fn lemma_skip_object_aligned(s: Seq<u8>, tag: u8, key: Seq<u8>, exp: Option<u64>)
    ensures
        obj_dec(s, tag, key, exp) matches Ok(o) ==> skip_object_dec(s, tag) == Ok::<
            Seq<u8>,
            RdbError,
        >(o.1),
{
    lemma_skip_blob_aligned(s);
    if tag == crate::constants::TYPE_LIST || tag == crate::constants::TYPE_SET {
        match len_dec(s) {
            Ok((n, e, t)) => lemma_skip_blobs_aligned(t, n),
            _ => (),
        }
    } else if tag == crate::constants::TYPE_HASH {
        match len_dec(s) {
            Ok((n, e, t)) => {
                lemma_hash_pairs_skip_aligned(t, n);
                lemma_skip_blobs_nat_eq(t, n);
                lemma_skip_blobs_nat_add(t, n as nat, n as nat);
                match skip_blobs_dec(t, n) {
                    Ok(m) => lemma_skip_blobs_nat_eq(m, n),
                    _ => (),
                }
            },
            _ => (),
        }
    } else if tag == crate::constants::TYPE_ZSET || tag == crate::constants::TYPE_ZSET2 {
        match len_dec(s) {
            Ok((n, e, t)) => lemma_skip_zset_entries_aligned(
                t,
                n,
                tag == crate::constants::TYPE_ZSET2,
            ),
            _ => (),
        }
    } else if tag == crate::constants::TYPE_LIST_QUICKLIST {
        match len_dec(s) {
            Ok((n, e, t)) => lemma_quicklist_skip_aligned(t, n, key),
            _ => (),
        }
    }
}

// ---------------------------------------------------------------------
// Filter faithfulness: a filter removes exactly the key records whose
// triple it refuses, and leaves every other event as it was.
// ---------------------------------------------------------------------

/// What one step of the unfiltered run contributes under a filter.
pub open spec fn admit_group(g: GroupG, f: FilterSpec) -> Seq<EventG> {
    match g {
        GroupG::Plain { events } => events,
        GroupG::DbSelect { db } => if (f.db)(db) {
            seq![Event::StartDatabase(db)]
        } else {
            Seq::empty()
        },
        GroupG::Rec { db, tag, key, expiry, events } => if admits(f, db, tag, key) {
            events
        } else {
            Seq::empty()
        },
    }
}

/// The events of the unfiltered run, each step passed through the
/// filter's admission.
pub open spec fn project(groups: Seq<GroupG>, f: FilterSpec) -> Seq<EventG>
    decreases groups.len(),
{
    if groups.len() == 0 {
        Seq::empty()
    } else {
        admit_group(groups[0], f) + project(groups.skip(1), f)
    }
}

proof fn lemma_project_cons(g: GroupG, gs: Seq<GroupG>, f: FilterSpec)
    ensures
        project(seq![g] + gs, f) == admit_group(g, f) + project(gs, f),
{
    assert((seq![g] + gs).len() == 1 + gs.len());
    assert((seq![g] + gs)[0] == g);
    assert((seq![g] + gs).skip(1) =~= gs);
}

/// One key record under a filter: the same bytes are consumed as in the
/// unfiltered step, and the surfaced events are the unfiltered record's
/// events exactly when the triple is admitted.
proof fn lemma_record_step_faithful(t: Seq<u8>, op: u8, db: u64, exp: Option<u64>, f: FilterSpec)
    requires
        record_step_dec(t, op, db, exp, all_pass()) matches Ok(full),
    ensures
        (match record_step_dec(t, op, db, exp, all_pass()) {
            Ok((gfull, evsfull, t3full)) => record_step_dec(t, op, db, exp, f) matches Ok(o)
                && o.2 == t3full && o.1 == admit_group(gfull, f),
            Err(e) => true,
        }),
{
    match blob_dec(t) {
        Ok((key, t2)) => {
            lemma_skip_blob_aligned(t);
            lemma_skip_object_aligned(t2, op, key, exp);
        },
        _ => (),
    }
}

/// Toggling the filter removes exactly the refused key records: the
/// filtered run succeeds and its events are the unfiltered run's steps,
/// each passed through the filter's admission.
#[verifier::spinoff_prover]
#[verifier::rlimit(100)]
pub proof fn lemma_filter_faithful(s: Seq<u8>, db: u64, exp: Option<u64>, f: FilterSpec)
    requires
        run_dec(s, db, exp, all_pass()) is Ok,
    ensures
        (match run_dec(s, db, exp, all_pass()) {
            Ok(full) => run_dec(s, db, exp, f) matches Ok(o) && o.events == project(
                full.groups,
                f,
            ),
            Err(e) => true,
        }),
    decreases s.len(),
{
    let full = (match run_dec(s, db, exp, all_pass()) {
        Ok(full) => full,
        Err(e) => arbitrary(),
    });
    if s.len() < 1 {
        lemma_run_dec_empty(s, db, exp, all_pass());
    } else {
        let op = s[0];
        let t = s.skip(1);
        if op == crate::constants::OP_SELECTDB {
            lemma_run_dec_selectdb(s, db, exp, all_pass());
            lemma_run_dec_selectdb(s, db, exp, f);
            match selectdb_step_dec(t, all_pass()) {
                Ok((newdb, evsa, t2)) => {
                    lemma_selectdb_step_dec_consumes(t, all_pass());
                    match run_dec(t2, newdb, exp, all_pass()) {
                        Ok(o2full) => {
                            lemma_filter_faithful(t2, newdb, exp, f);
                            match run_dec(t2, newdb, exp, f) {
                                Ok(o2) => {
                                    lemma_project_cons(
                                        GroupG::DbSelect { db: newdb },
                                        o2full.groups,
                                        f,
                                    );
                                },
                                _ => (),
                            }
                        },
                        _ => (),
                    }
                },
                _ => (),
            }
        } else if op == crate::constants::OP_EOF {
            lemma_run_dec_eof(s, db, exp, all_pass());
            lemma_run_dec_eof(s, db, exp, f);
            lemma_project_cons(
                GroupG::Plain { events: eof_step_events(t, db) },
                Seq::empty(),
                f,
            );
            assert(full.groups =~= seq![GroupG::Plain { events: eof_step_events(t, db) }]
                + Seq::<GroupG>::empty());
            assert(eof_step_events(t, db) + Seq::<EventG>::empty() =~= eof_step_events(t, db));
        } else if op == crate::constants::OP_EXPIRETIME_MS {
            lemma_run_dec_expiretime_ms(s, db, exp, all_pass());
            lemma_run_dec_expiretime_ms(s, db, exp, f);
            if t.len() >= 8 {
                lemma_filter_faithful(t.skip(8), db, Some(le64(t.take(8))), f);
            }
        } else if op == crate::constants::OP_EXPIRETIME {
            lemma_run_dec_expiretime(s, db, exp, all_pass());
            lemma_run_dec_expiretime(s, db, exp, f);
            if t.len() >= 4 {
                lemma_filter_faithful(
                    t.skip(4),
                    db,
                    Some(((be32(t.take(4)) as u64) * 1000) as u64),
                    f,
                );
            }
        } else if op == crate::constants::OP_RESIZEDB {
            lemma_run_dec_resizedb(s, db, exp, all_pass());
            lemma_run_dec_resizedb(s, db, exp, f);
            match resizedb_step_dec(t) {
                Ok((evs1, t3)) => {
                    lemma_resizedb_step_dec_consumes(t);
                    match run_dec(t3, db, exp, all_pass()) {
                        Ok(o2full) => {
                            lemma_filter_faithful(t3, db, exp, f);
                            lemma_project_cons(GroupG::Plain { events: evs1 }, o2full.groups, f);
                        },
                        _ => (),
                    }
                },
                _ => (),
            }
        } else if op == crate::constants::OP_AUX {
            lemma_run_dec_aux(s, db, exp, all_pass());
            lemma_run_dec_aux(s, db, exp, f);
            match aux_step_dec(t) {
                Ok((evs1, t3)) => {
                    lemma_aux_step_dec_consumes(t);
                    match run_dec(t3, db, exp, all_pass()) {
                        Ok(o2full) => {
                            lemma_filter_faithful(t3, db, exp, f);
                            lemma_project_cons(GroupG::Plain { events: evs1 }, o2full.groups, f);
                        },
                        _ => (),
                    }
                },
                _ => (),
            }
        } else if op == crate::constants::OP_IDLE {
            lemma_run_dec_idle(s, db, exp, all_pass());
            lemma_run_dec_idle(s, db, exp, f);
            match len_dec(t) {
                Ok((l, e2, t2)) => {
                    lemma_len_dec_consumes(t);
                    lemma_filter_faithful(t2, db, exp, f);
                },
                _ => (),
            }
        } else if op == crate::constants::OP_FREQ {
            lemma_run_dec_freq(s, db, exp, all_pass());
            lemma_run_dec_freq(s, db, exp, f);
            if t.len() >= 1 {
                lemma_filter_faithful(t.skip(1), db, exp, f);
            }
        } else if op == crate::constants::OP_MODULE_AUX {
            lemma_run_dec_module_aux(s, db, exp, all_pass());
            lemma_run_dec_module_aux(s, db, exp, f);
            match module_skip_dec(t) {
                Ok(t2) => {
                    lemma_module_skip_dec_consumes(t);
                    lemma_filter_faithful(t2, db, exp, f);
                },
                _ => (),
            }
        } else {
            lemma_run_dec_record(s, db, exp, all_pass());
            lemma_run_dec_record(s, db, exp, f);
            match record_step_dec(t, op, db, exp, all_pass()) {
                Ok((gfull, evsfull, t3)) => {
                    lemma_record_step_dec_consumes(t, op, db, exp, all_pass());
                    match run_dec(t3, db, None, all_pass()) {
                        Ok(o2full) => {
                            lemma_record_step_faithful(t, op, db, exp, f);
                            lemma_filter_faithful(t3, db, None, f);
                            lemma_project_cons(gfull, o2full.groups, f);
                        },
                        _ => (),
                    }
                },
                _ => (),
            }
        }
    }
}

/// Filter faithfulness at the entry point: over a whole snapshot whose
/// unfiltered decode succeeds, any filter yields exactly the unfiltered
/// steps passed through its admission.
pub proof fn lemma_parse_filter_faithful(s: Seq<u8>, f: FilterSpec)
    requires
        parse_dec(s, all_pass()) is Ok,
    ensures
        (match parse_dec(s, all_pass()) {
            Ok(full) => parse_dec(s, f) matches Ok(o) && o.events == project(full.groups, f),
            Err(e) => true,
        }),
{
    match magic_dec(s) {
        Ok(t) => match version_dec(t) {
            Ok(t2) => {
                match parse_dec(s, all_pass()) {
                    Ok(full) => {
                        match run_dec(t2, 0, None, all_pass()) {
                            Ok(o2full) => {
                                lemma_filter_faithful(t2, 0, None, f);
                                lemma_project_cons(
                                    GroupG::Plain { events: seq![EventG::StartRdb] },
                                    o2full.groups,
                                    f,
                                );
                            },
                            _ => (),
                        }
                    },
                    _ => (),
                }
            },
            _ => (),
        },
        _ => (),
    }
}

} // verus!
