//! The executable decoder: walks the snapshot byte stream, collects the
//! events of every admitted key, and is proved equal to the ghost decoder
//! in `model`, fault for fault.
use vstd::prelude::*;

use crate::codec::read_blob;
use crate::codec::read_length;
use crate::codec::skip_blob;
use crate::codec::verify_magic;
use crate::codec::verify_version;
use crate::events::Event;
use crate::events::EventG;
use crate::events::Score;
use crate::filter::Filter;
use crate::filter::FilterSpec;
use crate::model::list_elem_events;
use crate::model::list_items_dec;
use crate::model::hash_elem_events;
use crate::model::hash_pairs_dec;
use crate::model::obj_hash;
use crate::model::obj_linked_list;
use crate::model::obj_zset;
use crate::model::zset_elem_events;
use crate::model::zset_entries_dec;
use crate::model::len_dec;
use crate::model::obj_hash_ziplist;
use crate::model::obj_list_ziplist;
use crate::model::obj_quicklist;
use crate::model::obj_zset_ziplist;
use crate::model::quicklist_part_dec;
use crate::model::quicklist_parts_dec;
use crate::model::zl_entry_raw_dec;
use crate::model::zl_entry_str_dec;
use crate::model::zl_header_dec;
use crate::model::zl_items_dec;
use crate::model::zl_pairs_dec;
use crate::model::zipmap_entry_dec;
use crate::model::zipmap_pairs_dec;
use crate::model::lemma_zipmap_entry_consumes;
use crate::model::obj_zipmap;
use crate::model::obj_intset;
use crate::model::intset_items_dec;
use crate::model::set_elem_events;
use crate::model::skip_n;
use crate::model::skip_blob_dec;
use crate::model::skip_blobs_dec;
use crate::model::skip_zset_entries_dec;
use crate::model::skip_object_dec;
use crate::model::obj_module2;
use crate::model::module_skip_dec;
use crate::model::stream_dec;
use crate::model::stream_listpacks_dec;
use crate::model::stream_pending_dec;
use crate::model::stream_ids_dec;
use crate::model::stream_consumers_dec;
use crate::model::stream_groups_dec;
use crate::model::lemma_len_dec_consumes;
use crate::model::lemma_blob_dec_consumes;
use crate::model::lemma_module_skip_dec_consumes;
use crate::model::obj_dec;
use crate::model::run_dec;
use crate::model::record_step_dec;
use crate::model::lemma_record_step_dec_consumes;
use crate::model::selectdb_step_dec;
use crate::model::resizedb_step_dec;
use crate::model::aux_step_dec;
use crate::model::eof_step_events;
use crate::model::lemma_selectdb_step_dec_consumes;
use crate::model::lemma_resizedb_step_dec_consumes;
use crate::model::lemma_aux_step_dec_consumes;
use crate::model::lemma_run_dec_empty;
use crate::model::lemma_run_dec_selectdb;
use crate::model::lemma_run_dec_eof;
use crate::model::lemma_run_dec_expiretime_ms;
use crate::model::lemma_run_dec_expiretime;
use crate::model::lemma_run_dec_resizedb;
use crate::model::lemma_run_dec_aux;
use crate::model::lemma_run_dec_idle;
use crate::model::lemma_run_dec_freq;
use crate::model::lemma_run_dec_module_aux;
use crate::model::lemma_run_dec_record;
use crate::model::parse_dec;
use crate::model::magic_dec;
use crate::model::version_dec;
use crate::constants::MODULE_OPCODE_DOUBLE;
use crate::constants::MODULE_OPCODE_EOF;
use crate::constants::MODULE_OPCODE_FLOAT;
use crate::constants::MODULE_OPCODE_SINT;
use crate::constants::MODULE_OPCODE_STRING;
use crate::constants::MODULE_OPCODE_UINT;
use crate::reader::be32;
use crate::reader::le64;
use crate::reader::Reader;
use crate::types::RdbError;
use crate::types::RdbOk;
use crate::types::EncodingType;
use crate::types::RdbResult;
use crate::types::Type;
use crate::types::ZiplistEntry;
use crate::events::ScoreG;
use crate::decimal::int_to_vec;

verus! {

/// An event that closes something: a collection end, a database end or
/// the run end.  A failing decode never appends one for the step that
/// failed.
pub open spec fn is_close_event(e: EventG) -> bool {
    match e {
        Event::EndList { key } => true,
        Event::EndSet { key } => true,
        Event::EndSortedSet { key } => true,
        Event::EndHash { key } => true,
        Event::EndDatabase(db) => true,
        Event::EndRdb => true,
        _ => false,
    }
}

/// The second event list extends the first, and nothing in the growth
/// closes anything.
pub open spec fn grew_without_closes(a: Seq<EventG>, b: Seq<EventG>) -> bool {
    &&& a.len() <= b.len()
    &&& forall|i: int| 0 <= i < a.len() ==> a[i] == #[trigger] b[i]
    &&& forall|i: int| a.len() <= i < b.len() ==> !is_close_event(#[trigger] b[i])
}

/// The second event list extends the first, and nothing in the growth
/// ends a database or the run.
pub open spec fn grew_without_run_close(a: Seq<EventG>, b: Seq<EventG>) -> bool {
    &&& a.len() <= b.len()
    &&& forall|i: int| 0 <= i < a.len() ==> a[i] == #[trigger] b[i]
    &&& forall|i: int|
        a.len() <= i < b.len() ==> (#[trigger] b[i]) != Event::<Seq<u8>>::EndRdb && !(b[i]
            matches Event::EndDatabase(db))
}

/// An event that belongs to one key record: a plain value, or a
/// collection's start, element or end.
pub open spec fn is_record_event(e: EventG) -> bool {
    match e {
        Event::SetValue { key, value, expiry } => true,
        Event::StartList { key, length, expiry, encoding } => true,
        Event::ListElement { key, value } => true,
        Event::EndList { key } => true,
        Event::StartSet { key, length, expiry, encoding } => true,
        Event::SetElement { key, value } => true,
        Event::EndSet { key } => true,
        Event::StartSortedSet { key, length, expiry, encoding } => true,
        Event::SortedSetElement { key, score, member } => true,
        Event::EndSortedSet { key } => true,
        Event::StartHash { key, length, expiry, encoding } => true,
        Event::HashElement { key, field, value } => true,
        Event::EndHash { key } => true,
        _ => false,
    }
}

/// The second event list extends the first, and the growth holds only
/// events of key records.
pub open spec fn grew_record_scoped(a: Seq<EventG>, b: Seq<EventG>) -> bool {
    &&& a.len() <= b.len()
    &&& forall|i: int| 0 <= i < a.len() ==> a[i] == #[trigger] b[i]
    &&& forall|i: int| a.len() <= i < b.len() ==> is_record_event(#[trigger] b[i])
}

/// Where the run-end event stands in a closed run: last, or next to last
/// when a checksum trails it.
pub open spec fn run_close_position(b: Seq<EventG>) -> int {
    if b.len() >= 1 && (b.last() matches Event::Checksum(x)) {
        b.len() - 2
    } else {
        b.len() - 1
    }
}

/// The growth from `a` to `b` closes the run exactly once: one database
/// end followed by one run end stand at the effective end of `b`, and
/// nothing else in the growth ends or starts a run.
pub open spec fn closes_run_once(a: Seq<EventG>, b: Seq<EventG>) -> bool {
    let k = run_close_position(b);
    &&& a.len() + 2 <= b.len()
    &&& forall|i: int| 0 <= i < a.len() ==> a[i] == #[trigger] b[i]
    &&& a.len() <= k - 1
    &&& b[k] == Event::<Seq<u8>>::EndRdb
    &&& b[k - 1] matches Event::EndDatabase(db)
    &&& forall|i: int|
        a.len() <= i < b.len() && i != k ==> (#[trigger] b[i]) != Event::<Seq<u8>>::EndRdb
    &&& forall|i: int|
        a.len() <= i < b.len() ==> (#[trigger] b[i]) != Event::<Seq<u8>>::StartRdb
}

/// An owned copy of a borrowed byte string.
fn owned(s: &[u8]) -> (r: Vec<u8>)
    ensures
        r@ == s@,
{
    let mut v: Vec<u8> = Vec::new();
    let mut i: usize = 0;
    while i < s.len()
        invariant
            i <= s@.len(),
            v@ == s@.take(i as int),
        decreases s@.len() - i,
    {
        v.push(s[i]);
        i = i + 1;
        proof {
            assert(v@ =~= s@.take(i as int));
        }
    }
    proof {
        assert(v@ =~= s@);
    }
    v
}

/// The streaming decoder: a byte reader, a filter, the events collected so
/// far and the expiry pending for the next key.
pub struct RdbParser<L: Filter> {
    input: Reader,
    filter: L,
    events: Vec<Event<Vec<u8>>>,
    last_expiretime: Option<u64>,
}

impl<L: Filter> RdbParser<L> {
    /// The bytes not yet consumed.
    pub closed spec fn rem(self) -> Seq<u8> {
        self.input.rem()
    }

    /// The events collected so far, in ghost form.
    pub closed spec fn evs(self) -> Seq<EventG> {
        self.events@.map_values(|e: Event<Vec<u8>>| e@)
    }

    /// The ghost triple of the filter in force.
    pub closed spec fn fspec(self) -> FilterSpec {
        self.filter.fspec()
    }

    /// The expiry pending for the next key.
    pub closed spec fn pending(self) -> Option<u64> {
        self.last_expiretime
    }

    /// A decoder over `input` with no events collected yet.
    pub fn new(input: Vec<u8>, filter: L) -> (r: RdbParser<L>)
        ensures
            r.rem() == input@,
            r.evs() == Seq::<EventG>::empty(),
            r.fspec() == filter.fspec(),
            r.pending() is None,
    {
        let r = RdbParser {
            input: Reader::new(input),
            filter,
            events: Vec::new(),
            last_expiretime: None,
        };
        proof {
            assert(r.evs() =~= Seq::<EventG>::empty());
        }
        r
    }

    /// The events collected so far.
    pub fn events(&self) -> (r: &Vec<Event<Vec<u8>>>)
        ensures
            r@.map_values(|e: Event<Vec<u8>>| e@) == self.evs(),
    {
        &self.events
    }

    /// Hand the collected events over.
    pub fn into_events(self) -> (r: Vec<Event<Vec<u8>>>)
        ensures
            r@.map_values(|e: Event<Vec<u8>>| e@) == self.evs(),
    {
        self.events
    }

    /// Append one event.
    fn emit(&mut self, e: Event<Vec<u8>>)
        ensures
            final(self).evs() == old(self).evs() + seq![e@],
            final(self).rem() == old(self).rem(),
            final(self).fspec() == old(self).fspec(),
            final(self).pending() == old(self).pending(),
    {
        self.events.push(e);
        proof {
            assert(self.evs() =~= old(self).evs() + seq![e@]);
        }
    }

    /// Read `n` blobs and surface each as a list or set element.
    #[verifier::rlimit(50)]
    fn read_list_items(&mut self, key: &[u8], n: u64, is_list: bool) -> (r: RdbOk)
        ensures
            grew_record_scoped(old(self).evs(), final(self).evs()),
            grew_without_run_close(old(self).evs(), final(self).evs()),
            r is Err ==> grew_without_closes(old(self).evs(), final(self).evs()),
            final(self).fspec() == old(self).fspec(),
            final(self).pending() == old(self).pending(),
            match list_items_dec(old(self).rem(), n) {
                Ok(o) => r == Ok::<(), RdbError>(()) && final(self).rem() == o.1 && final(self).evs() == old(self).evs() + (if is_list {
                    list_elem_events(key@, o.0)
                } else {
                    set_elem_events(key@, o.0)
                }),
                Err(e) => r == Err::<(), RdbError>(e),
            },
        decreases n,
    {
        if n == 0 {
            proof {
                assert(old(self).evs() + list_elem_events(key@, Seq::empty()) =~= old(self).evs());
                assert(old(self).evs() + set_elem_events(key@, Seq::empty()) =~= old(self).evs());
            }
            Ok(())
        } else {
            let blob = read_blob(&mut self.input)?;
            let ghost b = blob@;
            if is_list {
                self.emit(Event::ListElement { key: owned(key), value: blob });
            } else {
                self.emit(Event::SetElement { key: owned(key), value: blob });
            }
            let r = self.read_list_items(key, n - 1, is_list);
            proof {
                match list_items_dec(old(self).rem(), n) {
                    Ok((items, rest)) => {
                        let tail = items.skip(1);
                        assert(items =~= seq![b] + tail);
                        if is_list {
                            assert(list_elem_events(key@, seq![b] + tail) =~= seq![
                                Event::ListElement { key: key@, value: b },
                            ] + list_elem_events(key@, tail));
                            assert((old(self).evs() + seq![
                                Event::ListElement { key: key@, value: b },
                            ]) + list_elem_events(key@, tail) =~= old(self).evs()
                                + list_elem_events(key@, items));
                        } else {
                            assert(set_elem_events(key@, seq![b] + tail) =~= seq![
                                Event::SetElement { key: key@, value: b },
                            ] + set_elem_events(key@, tail));
                            assert((old(self).evs() + seq![
                                Event::SetElement { key: key@, value: b },
                            ]) + set_elem_events(key@, tail) =~= old(self).evs() + set_elem_events(
                                key@,
                                items,
                            ));
                        }
                    },
                    Err(_) => (),
                }
            }
            r
        }
    }

    /// Decode a linked-list-encoded list or set: a count, then that many
    /// blobs.
    pub fn read_linked_list(&mut self, key: &[u8], typ: Type) -> (r: RdbOk)
        requires
            typ is List || typ is SetKind,
        ensures
            grew_record_scoped(old(self).evs(), final(self).evs()),
            grew_without_run_close(old(self).evs(), final(self).evs()),
            r is Err ==> grew_without_closes(old(self).evs(), final(self).evs()),
            final(self).fspec() == old(self).fspec(),
            final(self).pending() == old(self).pending(),
            match obj_linked_list(old(self).rem(), key@, old(self).pending(), typ is List) {
                Ok(o) => r == Ok::<(), RdbError>(()) && final(self).rem() == o.1 && final(self).evs() == old(self).evs() + o.0,
                Err(e) => r == Err::<(), RdbError>(e),
            },
    {
        let len = read_length(&mut self.input)?;
        match typ {
            Type::List => {
                self.emit(
                    Event::StartList {
                        key: owned(key),
                        length: len,
                        expiry: self.last_expiretime,
                        encoding: crate::types::EncodingType::LinkedList,
                    },
                );
            },
            _ => {
                self.emit(
                    Event::StartSet {
                        key: owned(key),
                        length: len,
                        expiry: self.last_expiretime,
                        encoding: crate::types::EncodingType::LinkedList,
                    },
                );
            },
        }
        let is_list = match typ {
            Type::List => true,
            _ => false,
        };
        self.read_list_items(key, len, is_list)?;
        match typ {
            Type::List => self.emit(Event::EndList { key: owned(key) }),
            _ => self.emit(Event::EndSet { key: owned(key) }),
        }
        proof {
            match obj_linked_list(old(self).rem(), key@, old(self).pending(), typ is List) {
                Ok(o) => {
                    assert(self.evs() =~= old(self).evs() + o.0);
                },
                Err(_) => (),
            }
        }
        Ok(())
    }

    /// Read `n` field/value blob pairs and surface each as a hash element.
    #[verifier::rlimit(100)]
    fn read_hash_pairs(&mut self, key: &[u8], n: u64) -> (r: RdbOk)
        ensures
            grew_record_scoped(old(self).evs(), final(self).evs()),
            grew_without_run_close(old(self).evs(), final(self).evs()),
            r is Err ==> grew_without_closes(old(self).evs(), final(self).evs()),
            final(self).fspec() == old(self).fspec(),
            final(self).pending() == old(self).pending(),
            match hash_pairs_dec(old(self).rem(), n) {
                Ok(o) => r == Ok::<(), RdbError>(()) && final(self).rem() == o.1 && final(self).evs() == old(self).evs() + hash_elem_events(key@, o.0),
                Err(e) => r == Err::<(), RdbError>(e),
            },
        decreases n,
    {
        if n == 0 {
            proof {
                assert(old(self).evs() + hash_elem_events(key@, Seq::empty()) =~= old(self).evs());
            }
            Ok(())
        } else {
            let field = read_blob(&mut self.input)?;
            let value = read_blob(&mut self.input)?;
            let ghost fg = field@;
            let ghost vg = value@;
            self.emit(Event::HashElement { key: owned(key), field, value });
            let r = self.read_hash_pairs(key, n - 1);
            proof {
                match hash_pairs_dec(old(self).rem(), n) {
                    Ok((pairs, rest)) => {
                        let tail = pairs.skip(1);
                        assert(pairs =~= seq![(fg, vg)] + tail);
                        assert(hash_elem_events(key@, seq![(fg, vg)] + tail) =~= seq![
                            Event::HashElement { key: key@, field: fg, value: vg },
                        ] + hash_elem_events(key@, tail));
                        assert((old(self).evs() + seq![
                            Event::HashElement { key: key@, field: fg, value: vg },
                        ]) + hash_elem_events(key@, tail) =~= old(self).evs() + hash_elem_events(
                            key@,
                            pairs,
                        ));
                    },
                    Err(_) => (),
                }
            }
            r
        }
    }

    /// Read `n` member/score entries and surface each as a sorted-set
    /// element.
    #[verifier::spinoff_prover]
    #[verifier::rlimit(100)]
    fn read_zset_entries(&mut self, key: &[u8], n: u64, v2: bool) -> (r: RdbOk)
        ensures
            grew_record_scoped(old(self).evs(), final(self).evs()),
            grew_without_run_close(old(self).evs(), final(self).evs()),
            r is Err ==> grew_without_closes(old(self).evs(), final(self).evs()),
            final(self).fspec() == old(self).fspec(),
            final(self).pending() == old(self).pending(),
            match zset_entries_dec(old(self).rem(), n, v2) {
                Ok(o) => r == Ok::<(), RdbError>(()) && final(self).rem() == o.1 && final(self).evs() == old(self).evs() + zset_elem_events(key@, o.0),
                Err(e) => r == Err::<(), RdbError>(e),
            },
        decreases n,
    {
        if n == 0 {
            proof {
                assert(old(self).evs() + zset_elem_events(key@, Seq::empty()) =~= old(self).evs());
            }
            Ok(())
        } else {
            let member = read_blob(&mut self.input)?;
            let ghost mg = member@;
            let score = read_zset_score(&mut self.input, v2)?;
            let ghost sg = score@;
            self.emit(Event::SortedSetElement { key: owned(key), score, member });
            let r = self.read_zset_entries(key, n - 1, v2);
            proof {
                match zset_entries_dec(old(self).rem(), n, v2) {
                    Ok((entries, rest)) => {
                        let tail = entries.skip(1);
                        assert(entries =~= seq![(mg, sg)] + tail);
                        assert(zset_elem_events(key@, seq![(mg, sg)] + tail) =~= seq![
                            Event::SortedSetElement { key: key@, score: sg, member: mg },
                        ] + zset_elem_events(key@, tail));
                        assert((old(self).evs() + seq![
                            Event::SortedSetElement { key: key@, score: sg, member: mg },
                        ]) + zset_elem_events(key@, tail) =~= old(self).evs() + zset_elem_events(
                            key@,
                            entries,
                        ));
                    },
                    Err(_) => (),
                }
            }
            r
        }
    }

    /// Decode a sorted set, in the version named by `entyp`: a count, then
    /// that many member/score entries.
    pub fn read_sorted_set(&mut self, key: &[u8], entyp: EncodingType) -> (r: RdbOk)
        requires
            entyp is ZSET || entyp is ZSET2,
        ensures
            grew_record_scoped(old(self).evs(), final(self).evs()),
            grew_without_run_close(old(self).evs(), final(self).evs()),
            r is Err ==> grew_without_closes(old(self).evs(), final(self).evs()),
            final(self).fspec() == old(self).fspec(),
            final(self).pending() == old(self).pending(),
            match obj_zset(old(self).rem(), key@, old(self).pending(), entyp is ZSET2) {
                Ok(o) => r == Ok::<(), RdbError>(()) && final(self).rem() == o.1 && final(self).evs() == old(self).evs() + o.0,
                Err(e) => r == Err::<(), RdbError>(e),
            },
    {
        let set_items = read_length(&mut self.input)?;
        self.emit(
            Event::StartSortedSet {
                key: owned(key),
                length: set_items,
                expiry: self.last_expiretime,
                encoding: EncodingType::Hashtable,
            },
        );
        let v2 = match entyp {
            EncodingType::ZSET2 => true,
            _ => false,
        };
        self.read_zset_entries(key, set_items, v2)?;
        self.emit(Event::EndSortedSet { key: owned(key) });
        proof {
            match obj_zset(old(self).rem(), key@, old(self).pending(), entyp is ZSET2) {
                Ok(o) => {
                    assert(self.evs() =~= old(self).evs() + o.0);
                },
                Err(_) => (),
            }
        }
        Ok(())
    }

    /// Decode a hashtable-encoded hash: a count, then that many pairs.
    pub fn read_hash(&mut self, key: &[u8]) -> (r: RdbOk)
        ensures
            grew_record_scoped(old(self).evs(), final(self).evs()),
            grew_without_run_close(old(self).evs(), final(self).evs()),
            r is Err ==> grew_without_closes(old(self).evs(), final(self).evs()),
            final(self).fspec() == old(self).fspec(),
            final(self).pending() == old(self).pending(),
            match obj_hash(old(self).rem(), key@, old(self).pending()) {
                Ok(o) => r == Ok::<(), RdbError>(()) && final(self).rem() == o.1 && final(self).evs() == old(self).evs() + o.0,
                Err(e) => r == Err::<(), RdbError>(e),
            },
    {
        let hash_items = read_length(&mut self.input)?;
        self.emit(
            Event::StartHash {
                key: owned(key),
                length: hash_items,
                expiry: self.last_expiretime,
                encoding: crate::types::EncodingType::Hashtable,
            },
        );
        self.read_hash_pairs(key, hash_items)?;
        self.emit(Event::EndHash { key: owned(key) });
        proof {
            match obj_hash(old(self).rem(), key@, old(self).pending()) {
                Ok(o) => {
                    assert(self.evs() =~= old(self).evs() + o.0);
                },
                Err(_) => (),
            }
        }
        Ok(())
    }

    /// Read one packed-list entry from a nested cursor.
    pub fn read_ziplist_entry(&mut self, ziplist: &mut Reader) -> (r: RdbResult<
        ZiplistEntry<Vec<u8>>,
    >)
        ensures
            *final(self) == *old(self),
            match zl_entry_raw_dec(old(ziplist).rem()) {
                Ok(o) => r matches Ok(v) && v@ == o.0 && final(ziplist).rem() == o.1,
                Err(e) => r == Err::<ZiplistEntry<Vec<u8>>, RdbError>(e),
            },
    {
        let byte = ziplist.read_u8()?;
        if byte == 254 {
            ziplist.skip_bytes(4)?;
        }
        let flag = ziplist.read_u8()?;
        if flag & 0xC0 == 0x00 {
            let len = (flag & 0x3F) as usize;
            let rawval = ziplist.read_exact(len)?;
            Ok(ZiplistEntry::String(rawval))
        } else if flag & 0xC0 == 0x40 {
            let next_byte = ziplist.read_u8()?;
            let len = ((((flag & 0x3F) as u64) << 8) | (next_byte as u64)) as usize;
            let rawval = ziplist.read_exact(len)?;
            Ok(ZiplistEntry::String(rawval))
        } else if flag & 0xC0 == 0x80 {
            let len32 = ziplist.read_u32_be()?;
            let rawval = ziplist.read_exact(len32 as usize)?;
            Ok(ZiplistEntry::String(rawval))
        } else if flag & 0xF0 == 0xC0 {
            let v = ziplist.read_u16_le()?;
            let sv: i64 = if v >= 0x8000 {
                v as i64 - 0x10000
            } else {
                v as i64
            };
            Ok(ZiplistEntry::Number(sv))
        } else if flag & 0xF0 == 0xD0 {
            let v = ziplist.read_u32_le()?;
            let sv: i64 = if v >= 0x80000000 {
                v as i64 - 0x100000000
            } else {
                v as i64
            };
            Ok(ZiplistEntry::Number(sv))
        } else if flag & 0xF0 == 0xE0 {
            let v = ziplist.read_u64_le()?;
            let sv: i64 = if v >= 0x8000000000000000 {
                -((0xFFFFFFFFFFFFFFFFu64 - v) as i64) - 1
            } else {
                v as i64
            };
            Ok(ZiplistEntry::Number(sv))
        } else {
            if flag & 0x0F == 0x00 {
                let bytes = ziplist.read_exact(3)?;
                let v: u32 = bytes[0] as u32 + bytes[1] as u32 * 0x100 + bytes[2] as u32 * 0x10000;
                let sv: i64 = if v >= 0x800000 {
                    v as i64 - 0x1000000
                } else {
                    v as i64
                };
                Ok(ZiplistEntry::Number(sv))
            } else if flag & 0x0F == 0x0E {
                let b = ziplist.read_u8()?;
                let sv: i64 = if b >= 0x80 {
                    b as i64 - 0x100
                } else {
                    b as i64
                };
                Ok(ZiplistEntry::Number(sv))
            } else {
                Ok(ZiplistEntry::Number((flag & 0x0F) as i64 - 1))
            }
        }
    }

    /// Read one packed-list entry in textual form: strings as they stand,
    /// numbers rendered as decimal text.
    pub fn read_ziplist_entry_string(&mut self, reader: &mut Reader) -> (r: RdbResult<Vec<u8>>)
        ensures
            *final(self) == *old(self),
            match zl_entry_str_dec(old(reader).rem()) {
                Ok(o) => r matches Ok(v) && v@ == o.0 && final(reader).rem() == o.1,
                Err(e) => r == Err::<Vec<u8>, RdbError>(e),
            },
    {
        let entry = self.read_ziplist_entry(reader)?;
        match entry {
            ZiplistEntry::String(val) => Ok(val),
            ZiplistEntry::Number(val) => Ok(int_to_vec(val)),
        }
    }

    /// Read `n` packed-list entries and surface each as a list element.
    #[verifier::rlimit(50)]
    fn read_zl_items(&mut self, reader: &mut Reader, key: &[u8], n: u64) -> (r: RdbOk)
        ensures
            grew_record_scoped(old(self).evs(), final(self).evs()),
            grew_without_run_close(old(self).evs(), final(self).evs()),
            r is Err ==> grew_without_closes(old(self).evs(), final(self).evs()),
            final(self).fspec() == old(self).fspec(),
            final(self).pending() == old(self).pending(),
            final(self).rem() == old(self).rem(),
            match zl_items_dec(old(reader).rem(), n) {
                Ok(o) => r == Ok::<(), RdbError>(()) && final(reader).rem() == o.1 && final(self).evs() == old(self).evs() + list_elem_events(key@, o.0),
                Err(e) => r == Err::<(), RdbError>(e),
            },
        decreases n,
    {
        if n == 0 {
            proof {
                assert(old(self).evs() + list_elem_events(key@, Seq::empty()) =~= old(self).evs());
            }
            Ok(())
        } else {
            let entry = self.read_ziplist_entry_string(reader)?;
            let ghost b = entry@;
            self.emit(Event::ListElement { key: owned(key), value: entry });
            let r = self.read_zl_items(reader, key, n - 1);
            proof {
                match zl_items_dec(old(reader).rem(), n) {
                    Ok((items, rest)) => {
                        let tail = items.skip(1);
                        assert(items =~= seq![b] + tail);
                        assert(list_elem_events(key@, seq![b] + tail) =~= seq![
                            Event::ListElement { key: key@, value: b },
                        ] + list_elem_events(key@, tail));
                        assert((old(self).evs() + seq![
                            Event::ListElement { key: key@, value: b },
                        ]) + list_elem_events(key@, tail) =~= old(self).evs() + list_elem_events(
                            key@,
                            items,
                        ));
                    },
                    Err(_) => (),
                }
            }
            r
        }
    }

    /// Read `n` pairs of packed-list entries and surface each as a hash
    /// element.
    #[verifier::rlimit(50)]
    fn read_zl_hash_pairs(&mut self, reader: &mut Reader, key: &[u8], n: u64) -> (r: RdbOk)
        ensures
            grew_record_scoped(old(self).evs(), final(self).evs()),
            grew_without_run_close(old(self).evs(), final(self).evs()),
            r is Err ==> grew_without_closes(old(self).evs(), final(self).evs()),
            final(self).fspec() == old(self).fspec(),
            final(self).pending() == old(self).pending(),
            final(self).rem() == old(self).rem(),
            match zl_pairs_dec(old(reader).rem(), n) {
                Ok(o) => r == Ok::<(), RdbError>(()) && final(reader).rem() == o.1 && final(self).evs() == old(self).evs() + hash_elem_events(key@, o.0),
                Err(e) => r == Err::<(), RdbError>(e),
            },
        decreases n,
    {
        if n == 0 {
            proof {
                assert(old(self).evs() + hash_elem_events(key@, Seq::empty()) =~= old(self).evs());
            }
            Ok(())
        } else {
            let field = self.read_ziplist_entry_string(reader)?;
            let value = self.read_ziplist_entry_string(reader)?;
            let ghost fg = field@;
            let ghost vg = value@;
            self.emit(Event::HashElement { key: owned(key), field, value });
            let r = self.read_zl_hash_pairs(reader, key, n - 1);
            proof {
                match zl_pairs_dec(old(reader).rem(), n) {
                    Ok((pairs, rest)) => {
                        let tail = pairs.skip(1);
                        assert(pairs =~= seq![(fg, vg)] + tail);
                        assert(hash_elem_events(key@, seq![(fg, vg)] + tail) =~= seq![
                            Event::HashElement { key: key@, field: fg, value: vg },
                        ] + hash_elem_events(key@, tail));
                        assert((old(self).evs() + seq![
                            Event::HashElement { key: key@, field: fg, value: vg },
                        ]) + hash_elem_events(key@, tail) =~= old(self).evs() + hash_elem_events(
                            key@,
                            pairs,
                        ));
                    },
                    Err(_) => (),
                }
            }
            r
        }
    }

    /// Read `n` pairs of packed-list entries and surface each as a
    /// sorted-set element with a textual score.
    #[verifier::rlimit(50)]
    fn read_zl_zset_pairs(&mut self, reader: &mut Reader, key: &[u8], n: u64) -> (r: RdbOk)
        ensures
            grew_record_scoped(old(self).evs(), final(self).evs()),
            grew_without_run_close(old(self).evs(), final(self).evs()),
            r is Err ==> grew_without_closes(old(self).evs(), final(self).evs()),
            final(self).fspec() == old(self).fspec(),
            final(self).pending() == old(self).pending(),
            final(self).rem() == old(self).rem(),
            match zl_pairs_dec(old(reader).rem(), n) {
                Ok(o) => r == Ok::<(), RdbError>(()) && final(reader).rem() == o.1 && final(self).evs() == old(self).evs() + zset_elem_events(
                    key@,
                    o.0.map_values(|p: (Seq<u8>, Seq<u8>)| (p.0, ScoreG::Ascii(p.1))),
                ),
                Err(e) => r == Err::<(), RdbError>(e),
            },
        decreases n,
    {
        if n == 0 {
            proof {
                assert(old(self).evs() + zset_elem_events(
                    key@,
                    Seq::<(Seq<u8>, Seq<u8>)>::empty().map_values(
                        |p: (Seq<u8>, Seq<u8>)| (p.0, ScoreG::Ascii(p.1)),
                    ),
                ) =~= old(self).evs());
            }
            Ok(())
        } else {
            let member = self.read_ziplist_entry_string(reader)?;
            let score = self.read_ziplist_entry_string(reader)?;
            let ghost mg = member@;
            let ghost sg = score@;
            self.emit(
                Event::SortedSetElement { key: owned(key), score: Score::Ascii(score), member },
            );
            let r = self.read_zl_zset_pairs(reader, key, n - 1);
            proof {
                match zl_pairs_dec(old(reader).rem(), n) {
                    Ok((pairs, rest)) => {
                        let tail = pairs.skip(1);
                        let f = |p: (Seq<u8>, Seq<u8>)| (p.0, ScoreG::Ascii(p.1));
                        assert(pairs =~= seq![(mg, sg)] + tail);
                        assert(zset_elem_events(key@, (seq![(mg, sg)] + tail).map_values(f)) =~= seq![
                            Event::SortedSetElement {
                                key: key@,
                                score: ScoreG::Ascii(sg),
                                member: mg,
                            },
                        ] + zset_elem_events(key@, tail.map_values(f)));
                        assert((old(self).evs() + seq![
                            Event::SortedSetElement {
                                key: key@,
                                score: ScoreG::Ascii(sg),
                                member: mg,
                            },
                        ]) + zset_elem_events(key@, tail.map_values(f)) =~= old(self).evs()
                            + zset_elem_events(key@, pairs.map_values(f)));
                    },
                    Err(_) => (),
                }
            }
            r
        }
    }

    /// Decode a packed list holding list elements.
    pub fn read_list_ziplist(&mut self, key: &[u8]) -> (r: RdbOk)
        ensures
            grew_record_scoped(old(self).evs(), final(self).evs()),
            grew_without_run_close(old(self).evs(), final(self).evs()),
            r is Err ==> grew_without_closes(old(self).evs(), final(self).evs()),
            final(self).fspec() == old(self).fspec(),
            final(self).pending() == old(self).pending(),
            match obj_list_ziplist(old(self).rem(), key@, old(self).pending()) {
                Ok(o) => r == Ok::<(), RdbError>(()) && final(self).rem() == o.1 && final(self).evs() == old(self).evs() + o.0,
                Err(e) => r == Err::<(), RdbError>(e),
            },
    {
        let ziplist = read_blob(&mut self.input)?;
        let raw_length = ziplist.len() as u64;
        let mut reader = Reader::new(ziplist);
        let meta = read_ziplist_metadata(&mut reader)?;
        let zllen = meta.2;
        self.emit(
            Event::StartList {
                key: owned(key),
                length: zllen as u64,
                expiry: self.last_expiretime,
                encoding: EncodingType::Ziplist(raw_length),
            },
        );
        self.read_zl_items(&mut reader, key, zllen as u64)?;
        let last_byte = reader.read_u8()?;
        if last_byte != 0xFF {
            return Err(RdbError::InvalidZiplistTerminator);
        }
        self.emit(Event::EndList { key: owned(key) });
        proof {
            match obj_list_ziplist(old(self).rem(), key@, old(self).pending()) {
                Ok(o) => {
                    assert(self.evs() =~= old(self).evs() + o.0);
                },
                Err(_) => (),
            }
        }
        Ok(())
    }

    /// Decode a packed list holding the field/value pairs of a hash.
    pub fn read_hash_ziplist(&mut self, key: &[u8]) -> (r: RdbOk)
        ensures
            grew_record_scoped(old(self).evs(), final(self).evs()),
            grew_without_run_close(old(self).evs(), final(self).evs()),
            r is Err ==> grew_without_closes(old(self).evs(), final(self).evs()),
            final(self).fspec() == old(self).fspec(),
            final(self).pending() == old(self).pending(),
            match obj_hash_ziplist(old(self).rem(), key@, old(self).pending()) {
                Ok(o) => r == Ok::<(), RdbError>(()) && final(self).rem() == o.1 && final(self).evs() == old(self).evs() + o.0,
                Err(e) => r == Err::<(), RdbError>(e),
            },
    {
        let ziplist = read_blob(&mut self.input)?;
        let raw_length = ziplist.len() as u64;
        let mut reader = Reader::new(ziplist);
        let meta = read_ziplist_metadata(&mut reader)?;
        let zllen = meta.2;
        if zllen % 2 != 0 {
            return Err(RdbError::InvalidZiplistPairCount(zllen));
        }
        let pairs = zllen / 2;
        self.emit(
            Event::StartHash {
                key: owned(key),
                length: pairs as u64,
                expiry: self.last_expiretime,
                encoding: EncodingType::Ziplist(raw_length),
            },
        );
        self.read_zl_hash_pairs(&mut reader, key, pairs as u64)?;
        let last_byte = reader.read_u8()?;
        if last_byte != 0xFF {
            return Err(RdbError::InvalidZiplistTerminator);
        }
        self.emit(Event::EndHash { key: owned(key) });
        proof {
            match obj_hash_ziplist(old(self).rem(), key@, old(self).pending()) {
                Ok(o) => {
                    assert(self.evs() =~= old(self).evs() + o.0);
                },
                Err(_) => (),
            }
        }
        Ok(())
    }

    /// Decode a packed list holding the member/score pairs of a sorted
    /// set.
    pub fn read_sortedset_ziplist(&mut self, key: &[u8]) -> (r: RdbOk)
        ensures
            grew_record_scoped(old(self).evs(), final(self).evs()),
            grew_without_run_close(old(self).evs(), final(self).evs()),
            r is Err ==> grew_without_closes(old(self).evs(), final(self).evs()),
            final(self).fspec() == old(self).fspec(),
            final(self).pending() == old(self).pending(),
            match obj_zset_ziplist(old(self).rem(), key@, old(self).pending()) {
                Ok(o) => r == Ok::<(), RdbError>(()) && final(self).rem() == o.1 && final(self).evs() == old(self).evs() + o.0,
                Err(e) => r == Err::<(), RdbError>(e),
            },
    {
        let ziplist = read_blob(&mut self.input)?;
        let raw_length = ziplist.len() as u64;
        let mut reader = Reader::new(ziplist);
        let meta = read_ziplist_metadata(&mut reader)?;
        let zllen = meta.2;
        if zllen % 2 != 0 {
            return Err(RdbError::InvalidZiplistPairCount(zllen));
        }
        let pairs = zllen / 2;
        self.emit(
            Event::StartSortedSet {
                key: owned(key),
                length: pairs as u64,
                expiry: self.last_expiretime,
                encoding: EncodingType::Ziplist(raw_length),
            },
        );
        self.read_zl_zset_pairs(&mut reader, key, pairs as u64)?;
        let last_byte = reader.read_u8()?;
        if last_byte != 0xFF {
            return Err(RdbError::InvalidZiplistTerminator);
        }
        self.emit(Event::EndSortedSet { key: owned(key) });
        proof {
            match obj_zset_ziplist(old(self).rem(), key@, old(self).pending()) {
                Ok(o) => {
                    assert(self.evs() =~= old(self).evs() + o.0);
                },
                Err(_) => (),
            }
        }
        Ok(())
    }

    /// Decode one packed list of a quicklist: its entries surface as list
    /// elements.
    pub fn read_quicklist_ziplist(&mut self, key: &[u8]) -> (r: RdbOk)
        ensures
            grew_record_scoped(old(self).evs(), final(self).evs()),
            grew_without_run_close(old(self).evs(), final(self).evs()),
            r is Err ==> grew_without_closes(old(self).evs(), final(self).evs()),
            final(self).fspec() == old(self).fspec(),
            final(self).pending() == old(self).pending(),
            match quicklist_part_dec(old(self).rem(), key@) {
                Ok(o) => r == Ok::<(), RdbError>(()) && final(self).rem() == o.1 && final(self).evs() == old(self).evs() + o.0,
                Err(e) => r == Err::<(), RdbError>(e),
            },
    {
        let ziplist = read_blob(&mut self.input)?;
        let mut reader = Reader::new(ziplist);
        let meta = read_ziplist_metadata(&mut reader)?;
        let zllen = meta.2;
        self.read_zl_items(&mut reader, key, zllen as u64)?;
        let last_byte = reader.read_u8()?;
        if last_byte != 0xFF {
            return Err(RdbError::InvalidZiplistTerminator);
        }
        Ok(())
    }

    /// Read `n` packed lists of a quicklist.
    fn read_quicklist_parts(&mut self, key: &[u8], n: u64) -> (r: RdbOk)
        ensures
            grew_record_scoped(old(self).evs(), final(self).evs()),
            grew_without_run_close(old(self).evs(), final(self).evs()),
            r is Err ==> grew_without_closes(old(self).evs(), final(self).evs()),
            final(self).fspec() == old(self).fspec(),
            final(self).pending() == old(self).pending(),
            match quicklist_parts_dec(old(self).rem(), n, key@) {
                Ok(o) => r == Ok::<(), RdbError>(()) && final(self).rem() == o.1 && final(self).evs() == old(self).evs() + o.0,
                Err(e) => r == Err::<(), RdbError>(e),
            },
        decreases n,
    {
        if n == 0 {
            proof {
                assert(old(self).evs() + Seq::<EventG>::empty() =~= old(self).evs());
            }
            Ok(())
        } else {
            self.read_quicklist_ziplist(key)?;
            let r = self.read_quicklist_parts(key, n - 1);
            proof {
                match quicklist_part_dec(old(self).rem(), key@) {
                    Ok((evs1, t)) => {
                        match quicklist_parts_dec(t, (n - 1) as u64, key@) {
                            Ok((evs2, rest2)) => {
                                assert((old(self).evs() + evs1) + evs2 =~= old(self).evs() + (evs1
                                    + evs2));
                            },
                            Err(_) => (),
                        }
                    },
                    Err(_) => (),
                }
            }
            r
        }
    }

    /// Decode a quicklist: a count of packed lists, surfaced as a set with
    /// a declared count of zero.
    pub fn read_quicklist(&mut self, key: &[u8]) -> (r: RdbOk)
        ensures
            grew_record_scoped(old(self).evs(), final(self).evs()),
            grew_without_run_close(old(self).evs(), final(self).evs()),
            r is Err ==> grew_without_closes(old(self).evs(), final(self).evs()),
            final(self).fspec() == old(self).fspec(),
            final(self).pending() == old(self).pending(),
            match obj_quicklist(old(self).rem(), key@, old(self).pending()) {
                Ok(o) => r == Ok::<(), RdbError>(()) && final(self).rem() == o.1 && final(self).evs() == old(self).evs() + o.0,
                Err(e) => r == Err::<(), RdbError>(e),
            },
    {
        let len = read_length(&mut self.input)?;
        self.emit(
            Event::StartSet {
                key: owned(key),
                length: 0,
                expiry: self.last_expiretime,
                encoding: EncodingType::Quicklist,
            },
        );
        self.read_quicklist_parts(key, len)?;
        self.emit(Event::EndSet { key: owned(key) });
        proof {
            match obj_quicklist(old(self).rem(), key@, old(self).pending()) {
                Ok(o) => {
                    assert(self.evs() =~= old(self).evs() + o.0);
                },
                Err(_) => (),
            }
        }
        Ok(())
    }

    /// Read one packed-map element behind its first length byte.
    pub fn read_zipmap_entry(&mut self, next_byte: u8, zipmap: &mut Reader) -> (r: RdbResult<
        Vec<u8>,
    >)
        ensures
            *final(self) == *old(self),
            match zipmap_entry_dec(next_byte, old(zipmap).rem()) {
                Ok(o) => r matches Ok(v) && v@ == o.0 && final(zipmap).rem() == o.1,
                Err(e) => r == Err::<Vec<u8>, RdbError>(e),
            },
    {
        if next_byte == 253 {
            let elem_len = zipmap.read_u32_le()?;
            zipmap.read_exact(elem_len as usize)
        } else if next_byte == 254 || next_byte == 255 {
            Err(RdbError::InvalidZipmapLength(next_byte))
        } else {
            zipmap.read_exact(next_byte as usize)
        }
    }

    /// Read packed-map pairs up to the terminator, surfacing each as a
    /// hash element.
    #[verifier::spinoff_prover]
    #[verifier::rlimit(100)]
    fn read_zipmap_pairs(&mut self, reader: &mut Reader, key: &[u8], length: i64) -> (r: RdbOk)
        ensures
            grew_record_scoped(old(self).evs(), final(self).evs()),
            grew_without_run_close(old(self).evs(), final(self).evs()),
            r is Err ==> grew_without_closes(old(self).evs(), final(self).evs()),
            final(self).fspec() == old(self).fspec(),
            final(self).pending() == old(self).pending(),
            final(self).rem() == old(self).rem(),
            match zipmap_pairs_dec(old(reader).rem(), length as int) {
                Ok(pairs) => r == Ok::<(), RdbError>(()) && final(self).evs() == old(self).evs() + hash_elem_events(key@, pairs),
                Err(e) => r == Err::<(), RdbError>(e),
            },
        decreases old(reader).rem().len(),
    {
        let next_byte = reader.read_u8()?;
        if next_byte == 0xFF {
            proof {
                assert(old(self).evs() + hash_elem_events(
                    key@,
                    Seq::<(Seq<u8>, Seq<u8>)>::empty(),
                ) =~= old(self).evs());
            }
            return Ok(());
        }
        let field = self.read_zipmap_entry(next_byte, reader)?;
        let next_byte2 = reader.read_u8()?;
        let _free = reader.read_u8()?;
        let value = self.read_zipmap_entry(next_byte2, reader)?;
        let ghost fg = field@;
        let ghost vg = value@;
        self.emit(Event::HashElement { key: owned(key), field, value });
        let length2: i64 = if length > 0 {
            length - 1
        } else {
            length
        };
        if length2 == 0 {
            let last_byte = reader.read_u8()?;
            if last_byte != 0xFF {
                return Err(RdbError::InvalidZipmapTerminator);
            }
            proof {
                match zipmap_pairs_dec(old(reader).rem(), length as int) {
                    Ok(pairs) => {
                        assert(pairs =~= seq![(fg, vg)]);
                        assert(old(self).evs() + seq![
                            Event::HashElement { key: key@, field: fg, value: vg },
                        ] =~= old(self).evs() + hash_elem_events(key@, pairs));
                    },
                    Err(_) => (),
                }
            }
            Ok(())
        } else {
            proof {
                lemma_zipmap_entry_consumes(next_byte, old(reader).rem().skip(1));
            }
            let r = self.read_zipmap_pairs(reader, key, length2);
            proof {
                match zipmap_pairs_dec(old(reader).rem(), length as int) {
                    Ok(pairs) => {
                        let tail = pairs.skip(1);
                        assert(pairs =~= seq![(fg, vg)] + tail);
                        assert(hash_elem_events(key@, seq![(fg, vg)] + tail) =~= seq![
                            Event::HashElement { key: key@, field: fg, value: vg },
                        ] + hash_elem_events(key@, tail));
                        assert((old(self).evs() + seq![
                            Event::HashElement { key: key@, field: fg, value: vg },
                        ]) + hash_elem_events(key@, tail) =~= old(self).evs() + hash_elem_events(
                            key@,
                            pairs,
                        ));
                    },
                    Err(_) => (),
                }
            }
            r
        }
    }

    /// Decode a packed map holding the field/value pairs of a hash.
    pub fn read_hash_zipmap(&mut self, key: &[u8]) -> (r: RdbOk)
        ensures
            grew_record_scoped(old(self).evs(), final(self).evs()),
            grew_without_run_close(old(self).evs(), final(self).evs()),
            r is Err ==> grew_without_closes(old(self).evs(), final(self).evs()),
            final(self).fspec() == old(self).fspec(),
            final(self).pending() == old(self).pending(),
            match obj_zipmap(old(self).rem(), key@, old(self).pending()) {
                Ok(o) => r == Ok::<(), RdbError>(()) && final(self).rem() == o.1 && final(self).evs() == old(self).evs() + o.0,
                Err(e) => r == Err::<(), RdbError>(e),
            },
    {
        let zipmap = read_blob(&mut self.input)?;
        let raw_length = zipmap.len() as u64;
        let mut reader = Reader::new(zipmap);
        let zmlen = reader.read_u8()?;
        let length: i64 = if zmlen <= 254 {
            zmlen as i64
        } else {
            -1
        };
        let size: u8 = if zmlen <= 254 {
            zmlen
        } else {
            0
        };
        self.emit(
            Event::StartHash {
                key: owned(key),
                length: size as u64,
                expiry: self.last_expiretime,
                encoding: EncodingType::Zipmap(raw_length),
            },
        );
        self.read_zipmap_pairs(&mut reader, key, length)?;
        self.emit(Event::EndHash { key: owned(key) });
        proof {
            match obj_zipmap(old(self).rem(), key@, old(self).pending()) {
                Ok(o) => {
                    assert(self.evs() =~= old(self).evs() + o.0);
                },
                Err(_) => (),
            }
        }
        Ok(())
    }

    /// Read `n` integers of width `w` and surface each, rendered as
    /// decimal text, as a set element.
    #[verifier::rlimit(50)]
    fn read_intset_items(&mut self, reader: &mut Reader, key: &[u8], n: u64, w: u32) -> (r: RdbOk)
        ensures
            grew_record_scoped(old(self).evs(), final(self).evs()),
            grew_without_run_close(old(self).evs(), final(self).evs()),
            r is Err ==> grew_without_closes(old(self).evs(), final(self).evs()),
            final(self).fspec() == old(self).fspec(),
            final(self).pending() == old(self).pending(),
            final(self).rem() == old(self).rem(),
            match intset_items_dec(old(reader).rem(), n, w) {
                Ok(o) => r == Ok::<(), RdbError>(()) && final(reader).rem() == o.1 && final(self).evs() == old(self).evs() + set_elem_events(key@, o.0),
                Err(e) => r == Err::<(), RdbError>(e),
            },
        decreases n,
    {
        if n == 0 {
            proof {
                assert(old(self).evs() + set_elem_events(key@, Seq::empty()) =~= old(self).evs());
            }
            return Ok(());
        }
        let sv: i64 = if w == 2 {
            let v = reader.read_u16_le()?;
            if v >= 0x8000 {
                v as i64 - 0x10000
            } else {
                v as i64
            }
        } else if w == 4 {
            let v = reader.read_u32_le()?;
            if v >= 0x80000000 {
                v as i64 - 0x100000000
            } else {
                v as i64
            }
        } else if w == 8 {
            let v = reader.read_u64_le()?;
            if v >= 0x8000000000000000 {
                -((0xFFFFFFFFFFFFFFFFu64 - v) as i64) - 1
            } else {
                v as i64
            }
        } else {
            return Err(RdbError::InvalidIntsetWidth(w));
        };
        let rendered = int_to_vec(sv);
        let ghost rg = rendered@;
        self.emit(Event::SetElement { key: owned(key), value: rendered });
        let r = self.read_intset_items(reader, key, n - 1, w);
        proof {
            match intset_items_dec(old(reader).rem(), n, w) {
                Ok((items, rest)) => {
                    let tail = items.skip(1);
                    assert(items =~= seq![rg] + tail);
                    assert(set_elem_events(key@, seq![rg] + tail) =~= seq![
                        Event::SetElement { key: key@, value: rg },
                    ] + set_elem_events(key@, tail));
                    assert((old(self).evs() + seq![Event::SetElement { key: key@, value: rg }])
                        + set_elem_events(key@, tail) =~= old(self).evs() + set_elem_events(
                        key@,
                        items,
                    ));
                },
                Err(_) => (),
            }
        }
        r
    }

    /// Decode an integer set: a payload blob holding a width, a count and
    /// that many integers.
    pub fn read_set_intset(&mut self, key: &[u8]) -> (r: RdbOk)
        ensures
            grew_record_scoped(old(self).evs(), final(self).evs()),
            grew_without_run_close(old(self).evs(), final(self).evs()),
            r is Err ==> grew_without_closes(old(self).evs(), final(self).evs()),
            final(self).fspec() == old(self).fspec(),
            final(self).pending() == old(self).pending(),
            match obj_intset(old(self).rem(), key@, old(self).pending()) {
                Ok(o) => r == Ok::<(), RdbError>(()) && final(self).rem() == o.1 && final(self).evs() == old(self).evs() + o.0,
                Err(e) => r == Err::<(), RdbError>(e),
            },
    {
        let intset = read_blob(&mut self.input)?;
        let raw_length = intset.len() as u64;
        let mut reader = Reader::new(intset);
        let byte_size = reader.read_u32_le()?;
        let intset_length = reader.read_u32_le()? as u64;
        self.emit(
            Event::StartSet {
                key: owned(key),
                length: intset_length,
                expiry: self.last_expiretime,
                encoding: EncodingType::Intset(raw_length),
            },
        );
        self.read_intset_items(&mut reader, key, intset_length, byte_size)?;
        self.emit(Event::EndSet { key: owned(key) });
        proof {
            match obj_intset(old(self).rem(), key@, old(self).pending()) {
                Ok(o) => {
                    assert(self.evs() =~= old(self).evs() + o.0);
                },
                Err(_) => (),
            }
        }
        Ok(())
    }

    /// Advance over `skip_bytes` bytes.
    pub fn skip(&mut self, skip_bytes: usize) -> (r: RdbOk)
        ensures
            final(self).fspec() == old(self).fspec(),
            final(self).pending() == old(self).pending(),
            final(self).evs() == old(self).evs(),
            match skip_n(old(self).rem(), skip_bytes) {
                Ok(rest) => r == Ok::<(), RdbError>(()) && final(self).rem() == rest,
                Err(e) => r == Err::<(), RdbError>(e),
            },
    {
        self.input.skip_bytes(skip_bytes)
    }

    /// Advance over one blob without decoding its payload.
    pub fn skip_blob(&mut self) -> (r: RdbOk)
        ensures
            final(self).fspec() == old(self).fspec(),
            final(self).pending() == old(self).pending(),
            final(self).evs() == old(self).evs(),
            match skip_blob_dec(old(self).rem()) {
                Ok(rest) => r == Ok::<(), RdbError>(()) && final(self).rem() == rest,
                Err(e) => r == Err::<(), RdbError>(e),
            },
    {
        skip_blob(&mut self.input)
    }

    /// Advance over `n` blobs.
    fn skip_blobs(&mut self, n: u64) -> (r: RdbOk)
        ensures
            final(self).fspec() == old(self).fspec(),
            final(self).pending() == old(self).pending(),
            final(self).evs() == old(self).evs(),
            match skip_blobs_dec(old(self).rem(), n) {
                Ok(rest) => r == Ok::<(), RdbError>(()) && final(self).rem() == rest,
                Err(e) => r == Err::<(), RdbError>(e),
            },
        decreases n,
    {
        if n == 0 {
            Ok(())
        } else {
            self.skip_blob()?;
            self.skip_blobs(n - 1)
        }
    }

    /// Walk a module value behind its identifier length.
    pub fn read_moudle(&mut self) -> (r: RdbOk)
        ensures
            final(self).fspec() == old(self).fspec(),
            final(self).pending() == old(self).pending(),
            final(self).evs() == old(self).evs(),
            match obj_module2(old(self).rem()) {
                Ok(rest) => r == Ok::<(), RdbError>(()) && final(self).rem() == rest,
                Err(e) => r == Err::<(), RdbError>(e),
            },
    {
        read_length(&mut self.input)?;
        self.skip_moudle()?;
        Ok(())
    }

    /// Walk the opcode stream of a module value up to its end opcode.
    pub fn skip_moudle(&mut self) -> (r: RdbOk)
        ensures
            final(self).fspec() == old(self).fspec(),
            final(self).pending() == old(self).pending(),
            final(self).evs() == old(self).evs(),
            match module_skip_dec(old(self).rem()) {
                Ok(rest) => r == Ok::<(), RdbError>(()) && final(self).rem() == rest,
                Err(e) => r == Err::<(), RdbError>(e),
            },
        decreases old(self).rem().len(),
    {
        proof {
            lemma_len_dec_consumes(old(self).rem());
        }
        let optcode = read_length(&mut self.input)?;
        if optcode == MODULE_OPCODE_EOF {
            return Ok(());
        }
        if optcode == MODULE_OPCODE_SINT || optcode == MODULE_OPCODE_UINT || optcode
            == MODULE_OPCODE_FLOAT || optcode == MODULE_OPCODE_DOUBLE {
            proof {
                match len_dec(old(self).rem()) {
                    Ok((op, _, t)) => lemma_len_dec_consumes(t),
                    _ => (),
                }
            }
            read_length(&mut self.input)?;
        } else if optcode == MODULE_OPCODE_STRING {
            proof {
                match len_dec(old(self).rem()) {
                    Ok((op, _, t)) => lemma_blob_dec_consumes(t),
                    _ => (),
                }
            }
            read_blob(&mut self.input)?;
        }
        self.skip_moudle()
    }

    /// Walk `n` listpack blob pairs of a stream value.
    fn skip_stream_listpacks(&mut self, n: u64) -> (r: RdbOk)
        ensures
            final(self).fspec() == old(self).fspec(),
            final(self).pending() == old(self).pending(),
            final(self).evs() == old(self).evs(),
            match stream_listpacks_dec(old(self).rem(), n) {
                Ok(rest) => r == Ok::<(), RdbError>(()) && final(self).rem() == rest,
                Err(e) => r == Err::<(), RdbError>(e),
            },
        decreases n,
    {
        if n == 0 {
            Ok(())
        } else {
            read_blob(&mut self.input)?;
            read_blob(&mut self.input)?;
            self.skip_stream_listpacks(n - 1)
        }
    }

    /// Walk `n` pending entries of a consumer group.
    fn skip_stream_pending(&mut self, n: u64) -> (r: RdbOk)
        ensures
            final(self).fspec() == old(self).fspec(),
            final(self).pending() == old(self).pending(),
            final(self).evs() == old(self).evs(),
            match stream_pending_dec(old(self).rem(), n) {
                Ok(rest) => r == Ok::<(), RdbError>(()) && final(self).rem() == rest,
                Err(e) => r == Err::<(), RdbError>(e),
            },
        decreases n,
    {
        if n == 0 {
            Ok(())
        } else {
            self.skip(16)?;
            self.skip(8)?;
            read_length(&mut self.input)?;
            self.skip_stream_pending(n - 1)
        }
    }

    /// Walk `n` sixteen-byte pending identifiers of one consumer.
    fn skip_stream_ids(&mut self, n: u64) -> (r: RdbOk)
        ensures
            final(self).fspec() == old(self).fspec(),
            final(self).pending() == old(self).pending(),
            final(self).evs() == old(self).evs(),
            match stream_ids_dec(old(self).rem(), n) {
                Ok(rest) => r == Ok::<(), RdbError>(()) && final(self).rem() == rest,
                Err(e) => r == Err::<(), RdbError>(e),
            },
        decreases n,
    {
        if n == 0 {
            Ok(())
        } else {
            self.skip(16)?;
            self.skip_stream_ids(n - 1)
        }
    }

    /// Walk `n` consumers of a group.
    fn skip_stream_consumers(&mut self, n: u64) -> (r: RdbOk)
        ensures
            final(self).fspec() == old(self).fspec(),
            final(self).pending() == old(self).pending(),
            final(self).evs() == old(self).evs(),
            match stream_consumers_dec(old(self).rem(), n) {
                Ok(rest) => r == Ok::<(), RdbError>(()) && final(self).rem() == rest,
                Err(e) => r == Err::<(), RdbError>(e),
            },
        decreases n,
    {
        if n == 0 {
            Ok(())
        } else {
            read_blob(&mut self.input)?;
            self.skip(8)?;
            let cpending = read_length(&mut self.input)?;
            self.skip_stream_ids(cpending)?;
            self.skip_stream_consumers(n - 1)
        }
    }

    /// Walk `n` consumer groups of a stream value.
    fn skip_stream_groups(&mut self, n: u64) -> (r: RdbOk)
        ensures
            final(self).fspec() == old(self).fspec(),
            final(self).pending() == old(self).pending(),
            final(self).evs() == old(self).evs(),
            match stream_groups_dec(old(self).rem(), n) {
                Ok(rest) => r == Ok::<(), RdbError>(()) && final(self).rem() == rest,
                Err(e) => r == Err::<(), RdbError>(e),
            },
        decreases n,
    {
        if n == 0 {
            Ok(())
        } else {
            read_blob(&mut self.input)?;
            read_length(&mut self.input)?;
            read_length(&mut self.input)?;
            let pending = read_length(&mut self.input)?;
            self.skip_stream_pending(pending)?;
            let consumers = read_length(&mut self.input)?;
            self.skip_stream_consumers(consumers)?;
            self.skip_stream_groups(n - 1)
        }
    }

    /// Walk a stream value without surfacing anything.
    pub fn skip_steam(&mut self) -> (r: RdbOk)
        ensures
            final(self).fspec() == old(self).fspec(),
            final(self).pending() == old(self).pending(),
            final(self).evs() == old(self).evs(),
            match stream_dec(old(self).rem()) {
                Ok(rest) => r == Ok::<(), RdbError>(()) && final(self).rem() == rest,
                Err(e) => r == Err::<(), RdbError>(e),
            },
    {
        let listpacks = read_length(&mut self.input)?;
        self.skip_stream_listpacks(listpacks)?;
        read_length(&mut self.input)?;
        read_length(&mut self.input)?;
        read_length(&mut self.input)?;
        let cgroups = read_length(&mut self.input)?;
        self.skip_stream_groups(cgroups)?;
        Ok(())
    }

    /// Advance over `n` sorted-set entries: each member blob, then the
    /// score as its version frames it.
    fn skip_zset_entries(&mut self, n: u64, v2: bool) -> (r: RdbOk)
        ensures
            final(self).fspec() == old(self).fspec(),
            final(self).pending() == old(self).pending(),
            final(self).evs() == old(self).evs(),
            match skip_zset_entries_dec(old(self).rem(), n, v2) {
                Ok(rest) => r == Ok::<(), RdbError>(()) && final(self).rem() == rest,
                Err(e) => r == Err::<(), RdbError>(e),
            },
        decreases n,
    {
        if n == 0 {
            Ok(())
        } else {
            self.skip_blob()?;
            if v2 {
                self.skip(8)?;
            } else {
                let score_length = self.input.read_u8()?;
                if score_length == 253 || score_length == 254 || score_length == 255 {
                } else {
                    self.skip(score_length as usize)?;
                }
            }
            self.skip_zset_entries(n - 1, v2)
        }
    }

    /// Advance over one key's value by its type tag, surfacing nothing.
    /// Sorted sets are walked entry by entry, member blob then score, so
    /// the cursor lands exactly where the read path would leave it.
    pub fn skip_object(&mut self, enc_type: u8) -> (r: RdbOk)
        ensures
            final(self).fspec() == old(self).fspec(),
            final(self).pending() == old(self).pending(),
            final(self).evs() == old(self).evs(),
            match skip_object_dec(old(self).rem(), enc_type) {
                Ok(rest) => r == Ok::<(), RdbError>(()) && final(self).rem() == rest,
                Err(e) => r == Err::<(), RdbError>(e),
            },
    {
        if enc_type == crate::constants::TYPE_STRING || enc_type
            == crate::constants::TYPE_HASH_ZIPMAP || enc_type
            == crate::constants::TYPE_LIST_ZIPLIST || enc_type
            == crate::constants::TYPE_SET_INTSET || enc_type
            == crate::constants::TYPE_ZSET_ZIPLIST || enc_type
            == crate::constants::TYPE_HASH_ZIPLIST {
            self.skip_blob()
        } else if enc_type == crate::constants::TYPE_LIST || enc_type == crate::constants::TYPE_SET
            || enc_type == crate::constants::TYPE_LIST_QUICKLIST {
            let blobs_to_skip = read_length(&mut self.input)?;
            self.skip_blobs(blobs_to_skip)
        } else if enc_type == crate::constants::TYPE_HASH {
            let pairs_to_skip = read_length(&mut self.input)?;
            self.skip_blobs(pairs_to_skip)?;
            self.skip_blobs(pairs_to_skip)
        } else if enc_type == crate::constants::TYPE_ZSET || enc_type
            == crate::constants::TYPE_ZSET2 {
            let entries_to_skip = read_length(&mut self.input)?;
            self.skip_zset_entries(entries_to_skip, enc_type == crate::constants::TYPE_ZSET2)
        } else if enc_type == crate::constants::TYPE_MODULE2 {
            self.read_moudle()
        } else if enc_type == crate::constants::TYPE_STREAM_LISTPACKS {
            self.skip_steam()
        } else if enc_type == crate::constants::TYPE_MODULE {
            Err(RdbError::UnsupportedValueType(enc_type))
        } else {
            Err(RdbError::UnknownValueType(enc_type))
        }
    }

    /// Advance over one key and its value, surfacing nothing.
    pub fn skip_key_and_object(&mut self, enc_type: u8) -> (r: RdbOk)
        ensures
            final(self).fspec() == old(self).fspec(),
            final(self).pending() == old(self).pending(),
            final(self).evs() == old(self).evs(),
            match skip_blob_dec(old(self).rem()) {
                Ok(t) => match skip_object_dec(t, enc_type) {
                    Ok(rest) => r == Ok::<(), RdbError>(()) && final(self).rem() == rest,
                    Err(e) => r == Err::<(), RdbError>(e),
                },
                Err(e) => r == Err::<(), RdbError>(e),
            },
    {
        self.skip_blob()?;
        self.skip_object(enc_type)?;
        Ok(())
    }

    /// Decode one key's value, dispatched by its type tag.
    #[verifier::spinoff_prover]
    #[verifier::rlimit(100)]
    pub fn read_type(&mut self, key: &[u8], value_type: u8) -> (r: RdbOk)
        ensures
            grew_record_scoped(old(self).evs(), final(self).evs()),
            grew_without_run_close(old(self).evs(), final(self).evs()),
            r is Err ==> grew_without_closes(old(self).evs(), final(self).evs()),
            value_type == crate::constants::TYPE_MODULE ==> r == Err::<(), RdbError>(
                RdbError::UnsupportedValueType(value_type),
            ) && final(self).evs() == old(self).evs() && final(self).rem() == old(self).rem(),
            (value_type == 8 || value_type > 15) ==> r == Err::<(), RdbError>(
                RdbError::UnknownValueType(value_type),
            ) && final(self).evs() == old(self).evs() && final(self).rem() == old(self).rem(),
            final(self).fspec() == old(self).fspec(),
            final(self).pending() == old(self).pending(),
            match obj_dec(old(self).rem(), value_type, key@, old(self).pending()) {
                Ok(o) => r == Ok::<(), RdbError>(()) && final(self).rem() == o.1 && final(self).evs() == old(self).evs() + o.0,
                Err(e) => r == Err::<(), RdbError>(e),
            },
    {
        if value_type == crate::constants::TYPE_STRING {
            let val = read_blob(&mut self.input)?;
            let expiry = self.last_expiretime;
            self.emit(Event::SetValue { key: owned(key), value: val, expiry });
            Ok(())
        } else if value_type == crate::constants::TYPE_LIST {
            self.read_linked_list(key, Type::List)
        } else if value_type == crate::constants::TYPE_SET {
            self.read_linked_list(key, Type::SetKind)
        } else if value_type == crate::constants::TYPE_ZSET {
            self.read_sorted_set(key, EncodingType::ZSET)
        } else if value_type == crate::constants::TYPE_HASH {
            self.read_hash(key)
        } else if value_type == crate::constants::TYPE_ZSET2 {
            self.read_sorted_set(key, EncodingType::ZSET2)
        } else if value_type == crate::constants::TYPE_MODULE {
            Err(RdbError::UnsupportedValueType(value_type))
        } else if value_type == crate::constants::TYPE_MODULE2 {
            let r = self.read_moudle();
            proof {
                assert(old(self).evs() + Seq::<EventG>::empty() =~= old(self).evs());
            }
            r
        } else if value_type == crate::constants::TYPE_HASH_ZIPMAP {
            self.read_hash_zipmap(key)
        } else if value_type == crate::constants::TYPE_LIST_ZIPLIST {
            self.read_list_ziplist(key)
        } else if value_type == crate::constants::TYPE_SET_INTSET {
            self.read_set_intset(key)
        } else if value_type == crate::constants::TYPE_ZSET_ZIPLIST {
            self.read_sortedset_ziplist(key)
        } else if value_type == crate::constants::TYPE_HASH_ZIPLIST {
            self.read_hash_ziplist(key)
        } else if value_type == crate::constants::TYPE_LIST_QUICKLIST {
            self.read_quicklist(key)
        } else if value_type == crate::constants::TYPE_STREAM_LISTPACKS {
            let r = self.skip_steam();
            proof {
                assert(old(self).evs() + Seq::<EventG>::empty() =~= old(self).evs());
            }
            r
        } else {
            Err(RdbError::UnknownValueType(value_type))
        }
    }

    /// The opcode loop: read records until the end opcode, decoding
    /// admitted keys and skipping the rest.
    fn run_ops(&mut self, last_database: u64) -> (r: RdbOk)
        ensures
            r is Ok ==> closes_run_once(old(self).evs(), final(self).evs()),
            r is Err ==> grew_without_run_close(old(self).evs(), final(self).evs()),
            final(self).fspec() == old(self).fspec(),
            match run_dec(old(self).rem(), last_database, old(self).pending(), old(self).fspec()) {
                Ok(o) => r == Ok::<(), RdbError>(()) && final(self).rem() == Seq::<u8>::empty()
                    && final(self).evs() == old(self).evs() + o.events,
                Err(e) => r == Err::<(), RdbError>(e),
            },
        decreases old(self).rem().len(), 1int,
    {
        let ghost s0 = old(self).rem();
        proof {
            if s0.len() < 1 {
                lemma_run_dec_empty(s0, last_database, old(self).pending(), old(self).fspec());
            }
        }
        let next_op = self.input.read_u8()?;
        if next_op == crate::constants::OP_SELECTDB {
            proof {
                lemma_run_dec_selectdb(s0, last_database, old(self).pending(), old(self).fspec());
            }
            self.op_selectdb()
        } else if next_op == crate::constants::OP_EOF {
            proof {
                lemma_run_dec_eof(s0, last_database, old(self).pending(), old(self).fspec());
            }
            self.handle_eof(last_database)
        } else if next_op == crate::constants::OP_EXPIRETIME_MS {
            proof {
                lemma_run_dec_expiretime_ms(
                    s0,
                    last_database,
                    old(self).pending(),
                    old(self).fspec(),
                );
            }
            self.op_expiretime_ms(last_database)
        } else if next_op == crate::constants::OP_EXPIRETIME {
            proof {
                lemma_run_dec_expiretime(s0, last_database, old(self).pending(), old(self).fspec());
            }
            self.op_expiretime(last_database)
        } else if next_op == crate::constants::OP_RESIZEDB {
            proof {
                lemma_run_dec_resizedb(s0, last_database, old(self).pending(), old(self).fspec());
            }
            self.op_resizedb(last_database)
        } else if next_op == crate::constants::OP_AUX {
            proof {
                lemma_run_dec_aux(s0, last_database, old(self).pending(), old(self).fspec());
            }
            self.op_aux(last_database)
        } else if next_op == crate::constants::OP_IDLE {
            proof {
                lemma_run_dec_idle(s0, last_database, old(self).pending(), old(self).fspec());
            }
            self.op_idle(last_database)
        } else if next_op == crate::constants::OP_FREQ {
            proof {
                lemma_run_dec_freq(s0, last_database, old(self).pending(), old(self).fspec());
            }
            self.op_freq(last_database)
        } else if next_op == crate::constants::OP_MODULE_AUX {
            proof {
                lemma_run_dec_module_aux(s0, last_database, old(self).pending(), old(self).fspec());
            }
            self.op_module_aux(last_database)
        } else {
            proof {
                lemma_run_dec_record(s0, last_database, old(self).pending(), old(self).fspec());
            }
            self.op_record(last_database, next_op)
        }
    }

    /// The database-switch step, after its opcode byte.
    fn op_selectdb(&mut self) -> (r: RdbOk)
        ensures
            r is Ok ==> closes_run_once(old(self).evs(), final(self).evs()),
            r is Err ==> grew_without_run_close(old(self).evs(), final(self).evs()),
            final(self).fspec() == old(self).fspec(),
            match selectdb_step_dec(old(self).rem(), old(self).fspec()) {
                Err(e) => r == Err::<(), RdbError>(e),
                Ok((newdb, evs1, t2)) => match run_dec(
                    t2,
                    newdb,
                    old(self).pending(),
                    old(self).fspec(),
                ) {
                    Err(e) => r == Err::<(), RdbError>(e),
                    Ok(o) => r == Ok::<(), RdbError>(()) && final(self).rem()
                        == Seq::<u8>::empty() && final(self).evs() == old(self).evs() + (evs1
                        + o.events),
                },
            },
        decreases old(self).rem().len(), 0int,
    {
        let db = self.handle_selectdb()?;
        proof {
            lemma_selectdb_step_dec_consumes(old(self).rem(), old(self).fspec());
        }
        let r = self.run_ops(db);
        proof {
            match selectdb_step_dec(old(self).rem(), old(self).fspec()) {
                Ok((newdb, evs1, t2)) => {
                    match run_dec(t2, newdb, old(self).pending(), old(self).fspec()) {
                        Ok(o) => {
                            assert((old(self).evs() + evs1) + o.events =~= old(self).evs() + (evs1
                                + o.events));
                        },
                        Err(_) => (),
                    }
                },
                Err(_) => (),
            }
        }
        r
    }

    /// The millisecond-expiry step, after its opcode byte.
    fn op_expiretime_ms(&mut self, last_database: u64) -> (r: RdbOk)
        ensures
            r is Ok ==> closes_run_once(old(self).evs(), final(self).evs()),
            r is Err ==> grew_without_run_close(old(self).evs(), final(self).evs()),
            final(self).fspec() == old(self).fspec(),
            ({
                let s = old(self).rem();
                if s.len() < 8 {
                    r == Err::<(), RdbError>(RdbError::ShortRead(8, s.len() as usize))
                } else {
                    match run_dec(s.skip(8), last_database, Some(le64(s.take(8))), old(self).fspec()) {
                        Err(e) => r == Err::<(), RdbError>(e),
                        Ok(o) => r == Ok::<(), RdbError>(()) && final(self).rem()
                            == Seq::<u8>::empty() && final(self).evs() == old(self).evs()
                            + o.events,
                    }
                }
            }),
        decreases old(self).rem().len(), 0int,
    {
        let expiretime_ms = self.input.read_u64_le()?;
        self.last_expiretime = Some(expiretime_ms);
        self.run_ops(last_database)
    }

    /// The second-expiry step, after its opcode byte.
    fn op_expiretime(&mut self, last_database: u64) -> (r: RdbOk)
        ensures
            r is Ok ==> closes_run_once(old(self).evs(), final(self).evs()),
            r is Err ==> grew_without_run_close(old(self).evs(), final(self).evs()),
            final(self).fspec() == old(self).fspec(),
            ({
                let s = old(self).rem();
                if s.len() < 4 {
                    r == Err::<(), RdbError>(RdbError::ShortRead(4, s.len() as usize))
                } else {
                    match run_dec(
                        s.skip(4),
                        last_database,
                        Some(((be32(s.take(4)) as u64) * 1000) as u64),
                        old(self).fspec(),
                    ) {
                        Err(e) => r == Err::<(), RdbError>(e),
                        Ok(o) => r == Ok::<(), RdbError>(()) && final(self).rem()
                            == Seq::<u8>::empty() && final(self).evs() == old(self).evs()
                            + o.events,
                    }
                }
            }),
        decreases old(self).rem().len(), 0int,
    {
        let expiretime = self.input.read_u32_be()?;
        self.last_expiretime = Some(expiretime as u64 * 1000);
        self.run_ops(last_database)
    }

    /// The resize-notice step, after its opcode byte.
    fn op_resizedb(&mut self, last_database: u64) -> (r: RdbOk)
        ensures
            r is Ok ==> closes_run_once(old(self).evs(), final(self).evs()),
            r is Err ==> grew_without_run_close(old(self).evs(), final(self).evs()),
            final(self).fspec() == old(self).fspec(),
            match resizedb_step_dec(old(self).rem()) {
                Err(e) => r == Err::<(), RdbError>(e),
                Ok((evs1, t3)) => match run_dec(
                    t3,
                    last_database,
                    old(self).pending(),
                    old(self).fspec(),
                ) {
                    Err(e) => r == Err::<(), RdbError>(e),
                    Ok(o) => r == Ok::<(), RdbError>(()) && final(self).rem()
                        == Seq::<u8>::empty() && final(self).evs() == old(self).evs() + (evs1
                        + o.events),
                },
            },
        decreases old(self).rem().len(), 0int,
    {
        self.handle_resizedb()?;
        proof {
            lemma_resizedb_step_dec_consumes(old(self).rem());
        }
        let r = self.run_ops(last_database);
        proof {
            match resizedb_step_dec(old(self).rem()) {
                Ok((evs1, t3)) => {
                    match run_dec(t3, last_database, old(self).pending(), old(self).fspec()) {
                        Ok(o) => {
                            assert((old(self).evs() + evs1) + o.events =~= old(self).evs() + (evs1
                                + o.events));
                        },
                        Err(_) => (),
                    }
                },
                Err(_) => (),
            }
        }
        r
    }

    /// The auxiliary-field step, after its opcode byte.
    fn op_aux(&mut self, last_database: u64) -> (r: RdbOk)
        ensures
            r is Ok ==> closes_run_once(old(self).evs(), final(self).evs()),
            r is Err ==> grew_without_run_close(old(self).evs(), final(self).evs()),
            final(self).fspec() == old(self).fspec(),
            match aux_step_dec(old(self).rem()) {
                Err(e) => r == Err::<(), RdbError>(e),
                Ok((evs1, t3)) => match run_dec(
                    t3,
                    last_database,
                    old(self).pending(),
                    old(self).fspec(),
                ) {
                    Err(e) => r == Err::<(), RdbError>(e),
                    Ok(o) => r == Ok::<(), RdbError>(()) && final(self).rem()
                        == Seq::<u8>::empty() && final(self).evs() == old(self).evs() + (evs1
                        + o.events),
                },
            },
        decreases old(self).rem().len(), 0int,
    {
        self.handle_aux()?;
        proof {
            lemma_aux_step_dec_consumes(old(self).rem());
        }
        let r = self.run_ops(last_database);
        proof {
            match aux_step_dec(old(self).rem()) {
                Ok((evs1, t3)) => {
                    match run_dec(t3, last_database, old(self).pending(), old(self).fspec()) {
                        Ok(o) => {
                            assert((old(self).evs() + evs1) + o.events =~= old(self).evs() + (evs1
                                + o.events));
                        },
                        Err(_) => (),
                    }
                },
                Err(_) => (),
            }
        }
        r
    }

    /// The idle-time step, after its opcode byte.
    fn op_idle(&mut self, last_database: u64) -> (r: RdbOk)
        ensures
            r is Ok ==> closes_run_once(old(self).evs(), final(self).evs()),
            r is Err ==> grew_without_run_close(old(self).evs(), final(self).evs()),
            final(self).fspec() == old(self).fspec(),
            match len_dec(old(self).rem()) {
                Err(e) => r == Err::<(), RdbError>(e),
                Ok((l, enc, t2)) => match run_dec(
                    t2,
                    last_database,
                    old(self).pending(),
                    old(self).fspec(),
                ) {
                    Err(e) => r == Err::<(), RdbError>(e),
                    Ok(o) => r == Ok::<(), RdbError>(()) && final(self).rem()
                        == Seq::<u8>::empty() && final(self).evs() == old(self).evs() + o.events,
                },
            },
        decreases old(self).rem().len(), 0int,
    {
        read_length(&mut self.input)?;
        proof {
            lemma_len_dec_consumes(old(self).rem());
        }
        self.run_ops(last_database)
    }

    /// The frequency step, after its opcode byte.
    fn op_freq(&mut self, last_database: u64) -> (r: RdbOk)
        ensures
            r is Ok ==> closes_run_once(old(self).evs(), final(self).evs()),
            r is Err ==> grew_without_run_close(old(self).evs(), final(self).evs()),
            final(self).fspec() == old(self).fspec(),
            ({
                let s = old(self).rem();
                if s.len() < 1 {
                    r == Err::<(), RdbError>(RdbError::ShortRead(1, 0))
                } else {
                    match run_dec(s.skip(1), last_database, old(self).pending(), old(self).fspec()) {
                        Err(e) => r == Err::<(), RdbError>(e),
                        Ok(o) => r == Ok::<(), RdbError>(()) && final(self).rem()
                            == Seq::<u8>::empty() && final(self).evs() == old(self).evs()
                            + o.events,
                    }
                }
            }),
        decreases old(self).rem().len(), 0int,
    {
        self.input.read_u8()?;
        self.run_ops(last_database)
    }

    /// The module auxiliary step, after its opcode byte.
    fn op_module_aux(&mut self, last_database: u64) -> (r: RdbOk)
        ensures
            r is Ok ==> closes_run_once(old(self).evs(), final(self).evs()),
            r is Err ==> grew_without_run_close(old(self).evs(), final(self).evs()),
            final(self).fspec() == old(self).fspec(),
            match module_skip_dec(old(self).rem()) {
                Err(e) => r == Err::<(), RdbError>(e),
                Ok(t2) => match run_dec(t2, last_database, old(self).pending(), old(self).fspec()) {
                    Err(e) => r == Err::<(), RdbError>(e),
                    Ok(o) => r == Ok::<(), RdbError>(()) && final(self).rem()
                        == Seq::<u8>::empty() && final(self).evs() == old(self).evs() + o.events,
                },
            },
        decreases old(self).rem().len(), 0int,
    {
        self.skip_moudle()?;
        proof {
            lemma_module_skip_dec_consumes(old(self).rem());
        }
        self.run_ops(last_database)
    }

    /// The key-record step, after its type tag.
    #[verifier::spinoff_prover]
    #[verifier::rlimit(100)]
    fn op_record(&mut self, last_database: u64, next_op: u8) -> (r: RdbOk)
        ensures
            r is Ok ==> closes_run_once(old(self).evs(), final(self).evs()),
            r is Err ==> grew_without_run_close(old(self).evs(), final(self).evs()),
            final(self).fspec() == old(self).fspec(),
            match record_step_dec(
                old(self).rem(),
                next_op,
                last_database,
                old(self).pending(),
                old(self).fspec(),
            ) {
                Err(e) => r == Err::<(), RdbError>(e),
                Ok((g, evs1, t3)) => match run_dec(t3, last_database, None, old(self).fspec()) {
                    Err(e) => r == Err::<(), RdbError>(e),
                    Ok(o) => r == Ok::<(), RdbError>(()) && final(self).rem()
                        == Seq::<u8>::empty() && final(self).evs() == old(self).evs() + (evs1
                        + o.events),
                },
            },
        decreases old(self).rem().len(), 0int,
    {
        self.handle_record(last_database, next_op)?;
        self.last_expiretime = None;
        proof {
            lemma_record_step_dec_consumes(
                old(self).rem(),
                next_op,
                last_database,
                old(self).pending(),
                old(self).fspec(),
            );
        }
        let r = self.run_ops(last_database);
        proof {
            match record_step_dec(
                old(self).rem(),
                next_op,
                last_database,
                old(self).pending(),
                old(self).fspec(),
            ) {
                Ok((g, evs1, t3)) => {
                    match run_dec(t3, last_database, None, old(self).fspec()) {
                        Ok(o) => {
                            assert((old(self).evs() + evs1) + o.events =~= old(self).evs() + (evs1
                                + o.events));
                        },
                        Err(_) => (),
                    }
                },
                Err(_) => (),
            }
        }
        r
    }

    /// A database switch: read the new id and, when the filter admits
    /// that database, surface its start event.
    fn handle_selectdb(&mut self) -> (r: RdbResult<u64>)
        ensures
            grew_without_run_close(old(self).evs(), final(self).evs()),
            r is Err ==> grew_without_closes(old(self).evs(), final(self).evs()),
            final(self).fspec() == old(self).fspec(),
            final(self).pending() == old(self).pending(),
            match selectdb_step_dec(old(self).rem(), old(self).fspec()) {
                Ok(o) => r == Ok::<u64, RdbError>(o.0) && final(self).rem() == o.2 && final(self).evs() == old(self).evs() + o.1,
                Err(e) => r == Err::<u64, RdbError>(e),
            },
    {
        let db = read_length(&mut self.input)?;
        if self.filter.matches_db(db) {
            self.emit(Event::StartDatabase(db));
        } else {
            proof {
                assert(old(self).evs() + Seq::<EventG>::empty() =~= old(self).evs());
            }
        }
        Ok(db)
    }

    /// A resize notice: read the two declared sizes and surface them.
    fn handle_resizedb(&mut self) -> (r: RdbOk)
        ensures
            grew_without_run_close(old(self).evs(), final(self).evs()),
            r is Err ==> grew_without_closes(old(self).evs(), final(self).evs()),
            final(self).fspec() == old(self).fspec(),
            final(self).pending() == old(self).pending(),
            match resizedb_step_dec(old(self).rem()) {
                Ok(o) => r == Ok::<(), RdbError>(()) && final(self).rem() == o.1 && final(self).evs() == old(self).evs() + o.0,
                Err(e) => r == Err::<(), RdbError>(e),
            },
    {
        let db_size = read_length(&mut self.input)?;
        let expires_size = read_length(&mut self.input)?;
        self.emit(Event::ResizeDb { db_size, expires_size });
        Ok(())
    }

    /// An auxiliary field: read its two blobs and surface them.
    fn handle_aux(&mut self) -> (r: RdbOk)
        ensures
            grew_without_run_close(old(self).evs(), final(self).evs()),
            r is Err ==> grew_without_closes(old(self).evs(), final(self).evs()),
            final(self).fspec() == old(self).fspec(),
            final(self).pending() == old(self).pending(),
            match aux_step_dec(old(self).rem()) {
                Ok(o) => r == Ok::<(), RdbError>(()) && final(self).rem() == o.1 && final(self).evs() == old(self).evs() + o.0,
                Err(e) => r == Err::<(), RdbError>(e),
            },
    {
        let auxkey = read_blob(&mut self.input)?;
        let auxval = read_blob(&mut self.input)?;
        self.emit(Event::AuxField { key: auxkey, value: auxval });
        Ok(())
    }

    /// The end opcode: close the database in force, end the run, and
    /// surface any trailing bytes as the checksum.
    fn handle_eof(&mut self, last_database: u64) -> (r: RdbOk)
        ensures
            final(self).fspec() == old(self).fspec(),
            r == Ok::<(), RdbError>(()),
            final(self).rem() == Seq::<u8>::empty(),
            final(self).evs() == old(self).evs() + eof_step_events(
                old(self).rem(),
                last_database,
            ),
    {
        self.emit(Event::EndDatabase(last_database));
        self.emit(Event::EndRdb);
        let checksum = self.input.read_to_end();
        let ghost cg = checksum@;
        if checksum.len() > 0 {
            self.emit(Event::Checksum(checksum));
            proof {
                assert(self.evs() =~= old(self).evs() + seq![
                    EventG::EndDatabase(last_database),
                    EventG::EndRdb,
                    EventG::Checksum(cg),
                ]);
            }
        } else {
            proof {
                assert(self.evs() =~= old(self).evs() + seq![
                    EventG::EndDatabase(last_database),
                    EventG::EndRdb,
                ]);
            }
        }
        Ok(())
    }

    /// One key record behind its type tag: consult the filter, then
    /// decode or skip the value.
    #[verifier::spinoff_prover]
    #[verifier::rlimit(100)]
    fn handle_record(&mut self, last_database: u64, next_op: u8) -> (r: RdbOk)
        ensures
            grew_record_scoped(old(self).evs(), final(self).evs()),
            grew_without_run_close(old(self).evs(), final(self).evs()),
            r is Err ==> grew_without_closes(old(self).evs(), final(self).evs()),
            final(self).fspec() == old(self).fspec(),
            final(self).pending() == old(self).pending(),
            match record_step_dec(
                old(self).rem(),
                next_op,
                last_database,
                old(self).pending(),
                old(self).fspec(),
            ) {
                Ok(o) => r == Ok::<(), RdbError>(()) && final(self).rem() == o.2 && final(self).evs() == old(self).evs() + o.1,
                Err(e) => r == Err::<(), RdbError>(e),
            },
    {
        if self.filter.matches_db(last_database) {
            let key = read_blob(&mut self.input)?;
            if self.filter.matches_type(next_op) && self.filter.matches_key(key.as_slice()) {
                self.read_type(key.as_slice(), next_op)?;
            } else {
                self.skip_object(next_op)?;
                proof {
                    assert(old(self).evs() + Seq::<EventG>::empty() =~= old(self).evs());
                }
            }
            Ok(())
        } else {
            self.skip_key_and_object(next_op)?;
            proof {
                assert(old(self).evs() + Seq::<EventG>::empty() =~= old(self).evs());
            }
            Ok(())
        }
    }

    /// Decode the whole snapshot: the preamble, the opening event, then
    /// the opcode loop.
    #[verifier::spinoff_prover]
    #[verifier::rlimit(100)]
    pub fn parse(&mut self) -> (r: RdbOk)
        requires
            old(self).pending() is None,
        ensures
            r is Err ==> grew_without_run_close(old(self).evs(), final(self).evs()),
            r is Ok ==> ({
                let a = old(self).evs();
                let b = final(self).evs();
                &&& a.len() < b.len()
                &&& b[a.len() as int] == Event::<Seq<u8>>::StartRdb
                &&& closes_run_once(a.push(Event::<Seq<u8>>::StartRdb), b)
            }),
            final(self).fspec() == old(self).fspec(),
            match parse_dec(old(self).rem(), old(self).fspec()) {
                Ok(o) => r == Ok::<(), RdbError>(()) && final(self).rem() == Seq::<u8>::empty()
                    && final(self).evs() == old(self).evs() + o.events,
                Err(e) => r == Err::<(), RdbError>(e),
            },
    {
        verify_magic(&mut self.input)?;
        verify_version(&mut self.input)?;
        self.emit(Event::StartRdb);
        let r = self.run_ops(0);
        proof {
            match parse_dec(old(self).rem(), old(self).fspec()) {
                Ok(o) => {
                    match magic_dec(old(self).rem()) {
                        Ok(t) => {
                            match version_dec(t) {
                                Ok(t2) => {
                                    match run_dec(t2, 0, None, old(self).fspec()) {
                                        Ok(o2) => {
                                            assert((old(self).evs() + seq![EventG::StartRdb])
                                                + o2.events =~= old(self).evs() + (seq![
                                                EventG::StartRdb,
                                            ] + o2.events));
                                        },
                                        Err(_) => (),
                                    }
                                },
                                Err(_) => (),
                            }
                        },
                        Err(_) => (),
                    }
                },
                Err(_) => (),
            }
        }
        r
    }
}

/// Read one sorted-set score as its version frames it: eight raw
/// little-endian bytes for version 2, else a score-length byte whose
/// values 253, 254 and 255 name the non-finite scores, then that many
/// bytes of text.
fn read_zset_score(input: &mut Reader, v2: bool) -> (r: RdbResult<Score<Vec<u8>>>)
    ensures
        ({
            let s = old(input).rem();
            if v2 {
                if s.len() < 8 {
                    r == Err::<Score<Vec<u8>>, RdbError>(RdbError::ShortRead(8, s.len() as usize))
                } else {
                    r matches Ok(v) && v@ == ScoreG::Bits(le64(s.take(8))) && final(input).rem()
                        == s.skip(8)
                }
            } else {
                if s.len() < 1 {
                    r == Err::<Score<Vec<u8>>, RdbError>(RdbError::ShortRead(1, 0))
                } else {
                    let sl = s[0];
                    let u = s.skip(1);
                    if sl == 253 {
                        r matches Ok(v) && v@ == ScoreG::Nan && final(input).rem() == u
                    } else if sl == 254 {
                        r matches Ok(v) && v@ == ScoreG::Inf && final(input).rem() == u
                    } else if sl == 255 {
                        r matches Ok(v) && v@ == ScoreG::NegInf && final(input).rem() == u
                    } else if u.len() < sl as usize {
                        r == Err::<Score<Vec<u8>>, RdbError>(
                            RdbError::ShortRead(sl as usize, u.len() as usize),
                        )
                    } else {
                        r matches Ok(v) && v@ == ScoreG::Ascii(u.take(sl as int))
                            && final(input).rem() == u.skip(sl as int)
                    }
                }
            }
        }),
{
    if v2 {
        let bits = input.read_u64_le()?;
        Ok(Score::Bits(bits))
    } else {
        let score_length = input.read_u8()?;
        if score_length == 253 {
            Ok(Score::Nan)
        } else if score_length == 254 {
            Ok(Score::Inf)
        } else if score_length == 255 {
            Ok(Score::NegInf)
        } else {
            let tmp = input.read_exact(score_length as usize)?;
            Ok(Score::Ascii(tmp))
        }
    }
}

/// Read the three header fields of a packed list.
pub fn read_ziplist_metadata(input: &mut Reader) -> (r: RdbResult<(u32, u32, u16)>)
    ensures
        match zl_header_dec(old(input).rem()) {
            Ok(o) => r == Ok::<(u32, u32, u16), RdbError>(o.0) && final(input).rem() == o.1,
            Err(e) => r == Err::<(u32, u32, u16), RdbError>(e),
        },
{
    let zlbytes = input.read_u32_le()?;
    let zltail = input.read_u32_le()?;
    let zllen = input.read_u16_le()?;
    Ok((zlbytes, zltail, zllen))
}

} // verus!
