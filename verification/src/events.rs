//! The structured events a decode run emits, in emission order.
//!
//! `B` is the byte container: `Vec<u8>` in the vectors the run returns,
//! `Seq<u8>` in the ghost decoder that the contracts speak of.
use vstd::prelude::*;

use crate::types::EncodingType;

verus! {

/// A sorted-set score as it stands in the stream.  Scores are surfaced
/// verbatim: the textual form for version-1 sorted sets and packed pairs,
/// the raw little-endian bit pattern for version-2 sorted sets.
#[derive(Debug, Clone, PartialEq, Eq)]
pub enum Score<B> {
    /// Score-length byte 255: negative infinity.
    NegInf,
    /// Score-length byte 254: positive infinity.
    Inf,
    /// Score-length byte 253: not a number.
    Nan,
    /// A textual decimal score, as read.
    Ascii(B),
    /// The eight little-endian bytes of a version-2 score.
    Bits(u64),
}

/// One callback of a decode run.
#[derive(Debug, Clone, PartialEq, Eq)]
pub enum Event<B> {
    StartRdb,
    StartDatabase(u64),
    ResizeDb { db_size: u64, expires_size: u64 },
    AuxField { key: B, value: B },
    SetValue { key: B, value: B, expiry: Option<u64> },
    StartList { key: B, length: u64, expiry: Option<u64>, encoding: EncodingType },
    ListElement { key: B, value: B },
    EndList { key: B },
    StartSet { key: B, length: u64, expiry: Option<u64>, encoding: EncodingType },
    SetElement { key: B, value: B },
    EndSet { key: B },
    StartSortedSet { key: B, length: u64, expiry: Option<u64>, encoding: EncodingType },
    SortedSetElement { key: B, score: Score<B>, member: B },
    EndSortedSet { key: B },
    StartHash { key: B, length: u64, expiry: Option<u64>, encoding: EncodingType },
    HashElement { key: B, field: B, value: B },
    EndHash { key: B },
    EndDatabase(u64),
    EndRdb,
    Checksum(B),
}

/// The ghost form of a score.
pub type ScoreG = Score<Seq<u8>>;

/// The ghost form of an event.
pub type EventG = Event<Seq<u8>>;

impl View for Score<Vec<u8>> {
    type V = ScoreG;

    open spec fn view(&self) -> ScoreG {
        match self {
            Score::NegInf => Score::NegInf,
            Score::Inf => Score::Inf,
            Score::Nan => Score::Nan,
            Score::Ascii(b) => Score::Ascii(b@),
            Score::Bits(v) => Score::Bits(*v),
        }
    }
}

impl View for Event<Vec<u8>> {
    type V = EventG;

    open spec fn view(&self) -> EventG {
        match self {
            Event::StartRdb => Event::StartRdb,
            Event::StartDatabase(db) => Event::StartDatabase(*db),
            Event::ResizeDb { db_size, expires_size } => Event::ResizeDb {
                db_size: *db_size,
                expires_size: *expires_size,
            },
            Event::AuxField { key, value } => Event::AuxField { key: key@, value: value@ },
            Event::SetValue { key, value, expiry } => Event::SetValue {
                key: key@,
                value: value@,
                expiry: *expiry,
            },
            Event::StartList { key, length, expiry, encoding } => Event::StartList {
                key: key@,
                length: *length,
                expiry: *expiry,
                encoding: *encoding,
            },
            Event::ListElement { key, value } => Event::ListElement { key: key@, value: value@ },
            Event::EndList { key } => Event::EndList { key: key@ },
            Event::StartSet { key, length, expiry, encoding } => Event::StartSet {
                key: key@,
                length: *length,
                expiry: *expiry,
                encoding: *encoding,
            },
            Event::SetElement { key, value } => Event::SetElement { key: key@, value: value@ },
            Event::EndSet { key } => Event::EndSet { key: key@ },
            Event::StartSortedSet { key, length, expiry, encoding } => Event::StartSortedSet {
                key: key@,
                length: *length,
                expiry: *expiry,
                encoding: *encoding,
            },
            Event::SortedSetElement { key, score, member } => Event::SortedSetElement {
                key: key@,
                score: score@,
                member: member@,
            },
            Event::EndSortedSet { key } => Event::EndSortedSet { key: key@ },
            Event::StartHash { key, length, expiry, encoding } => Event::StartHash {
                key: key@,
                length: *length,
                expiry: *expiry,
                encoding: *encoding,
            },
            Event::HashElement { key, field, value } => Event::HashElement {
                key: key@,
                field: field@,
                value: value@,
            },
            Event::EndHash { key } => Event::EndHash { key: key@ },
            Event::EndDatabase(db) => Event::EndDatabase(*db),
            Event::EndRdb => Event::EndRdb,
            Event::Checksum(b) => Event::Checksum(b@),
        }
    }
}

} // verus!
