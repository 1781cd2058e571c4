//! The value kinds, entry shapes and error domain of the decoder.
use vstd::prelude::*;

use crate::constants::TYPE_HASH;
use crate::constants::TYPE_HASH_ZIPLIST;
use crate::constants::TYPE_HASH_ZIPMAP;
use crate::constants::TYPE_LIST;
use crate::constants::TYPE_LIST_QUICKLIST;
use crate::constants::TYPE_LIST_ZIPLIST;
use crate::constants::TYPE_SET;
use crate::constants::TYPE_SET_INTSET;
use crate::constants::TYPE_STRING;
use crate::constants::TYPE_ZSET;
use crate::constants::TYPE_ZSET2;
use crate::constants::TYPE_ZSET_ZIPLIST;

verus! {

/// One entry of a packed list: either raw bytes or a small integer.
/// `B` is the byte container: `Vec<u8>` in executable code, `Seq<u8>` in the
/// ghost decoder.
#[derive(Debug, Clone, PartialEq, Eq)]
pub enum ZiplistEntry<B> {
    String(B),
    Number(i64),
}

impl View for ZiplistEntry<Vec<u8>> {
    type V = ZiplistEntry<Seq<u8>>;

    open spec fn view(&self) -> Self::V {
        match self {
            ZiplistEntry::String(v) => ZiplistEntry::String(v@),
            ZiplistEntry::Number(n) => ZiplistEntry::Number(*n),
        }
    }
}

/// The faults a decode run can end with.  The first fault aborts the run.
#[derive(Debug, Clone, Copy, PartialEq, Eq, Structural)]
pub enum RdbError {
    /// The five magic bytes were not the expected ones.
    InvalidMagic,
    /// The four version digits name a version outside the supported range,
    /// or are not digits.
    UnsupportedVersion,
    /// A length token carried the encoded flag with an unknown tag.
    UnknownEncoding(u64),
    /// A value-type tag outside the known set.
    UnknownValueType(u8),
    /// The module value-type tag, whose payload this decoder does not walk.
    UnsupportedValueType(u8),
    /// A packed list did not close with the terminator byte.
    InvalidZiplistTerminator,
    /// A packed map did not close with the terminator byte.
    InvalidZipmapTerminator,
    /// A packed map entry carried a reserved length byte.
    InvalidZipmapLength(u8),
    /// A pair-oriented packed list held an odd number of entries.
    InvalidZiplistPairCount(u16),
    /// An integer set declared an element width other than 2, 4 or 8.
    InvalidIntsetWidth(u32),
    /// The compressed payload of a blob could not be expanded.
    LzfDecompressFailed,
    /// Fewer bytes than a fixed-width read required: (expected, available).
    ShortRead(usize, usize),
}

pub type RdbResult<T> = Result<T, RdbError>;

pub type RdbOk = RdbResult<()>;

/// The five-way user-visible value kind, to which the value-type tags map
/// many-to-one.  The filter's type whitelist speaks in these.
#[derive(Debug, Clone, Copy, PartialEq, Eq, Structural)]
pub enum Type {
    String,
    List,
    SetKind,
    SortedSet,
    Hash,
}

/// Opcodes inside a module value.
#[derive(Debug, Clone, Copy, PartialEq, Eq, Structural)]
pub enum Module {
    ModuleOpcodeEOF,
    ModuleOpcodeSInt,
    ModuleOpcodeUInt,
    ModuleOpcodeFloat,
    ModuleOpcodeDouble,
    ModuleOpcodeString,
}

impl Module {
    /// The length value that stands for this opcode in the stream.
    pub fn opcode(self) -> (r: u64)
        ensures
            r == match self {
                Module::ModuleOpcodeEOF => crate::constants::MODULE_OPCODE_EOF,
                Module::ModuleOpcodeSInt => crate::constants::MODULE_OPCODE_SINT,
                Module::ModuleOpcodeUInt => crate::constants::MODULE_OPCODE_UINT,
                Module::ModuleOpcodeFloat => crate::constants::MODULE_OPCODE_FLOAT,
                Module::ModuleOpcodeDouble => crate::constants::MODULE_OPCODE_DOUBLE,
                Module::ModuleOpcodeString => crate::constants::MODULE_OPCODE_STRING,
            },
    {
        match self {
            Module::ModuleOpcodeEOF => crate::constants::MODULE_OPCODE_EOF,
            Module::ModuleOpcodeSInt => crate::constants::MODULE_OPCODE_SINT,
            Module::ModuleOpcodeUInt => crate::constants::MODULE_OPCODE_UINT,
            Module::ModuleOpcodeFloat => crate::constants::MODULE_OPCODE_FLOAT,
            Module::ModuleOpcodeDouble => crate::constants::MODULE_OPCODE_DOUBLE,
            Module::ModuleOpcodeString => crate::constants::MODULE_OPCODE_STRING,
        }
    }
}

/// The in-memory layout a value was stored with, surfaced to the sink in the
/// start event of each collection.  The payload of the packed layouts is the
/// raw byte length of the packed blob.
#[derive(Debug, Clone, Copy, PartialEq, Eq, Structural)]
pub enum EncodingType {
    String,
    LinkedList,
    Hashtable,
    Skiplist,
    ZSET,
    ZSET2,
    Moudle,
    Moudle2,
    Intset(u64),
    Ziplist(u64),
    Zipmap(u64),
    Quicklist,
}

/// The canonical kind of a value-type tag, `None` for tags outside the
/// glossary's mapping.
pub open spec fn spec_from_encoding(enc_type: u8) -> Option<Type> {
    if enc_type == TYPE_STRING {
        Some(Type::String)
    } else if enc_type == TYPE_HASH || enc_type == TYPE_HASH_ZIPMAP || enc_type == TYPE_HASH_ZIPLIST {
        Some(Type::Hash)
    } else if enc_type == TYPE_LIST || enc_type == TYPE_LIST_ZIPLIST || enc_type
        == TYPE_LIST_QUICKLIST {
        Some(Type::List)
    } else if enc_type == TYPE_SET || enc_type == TYPE_SET_INTSET {
        Some(Type::SetKind)
    } else if enc_type == TYPE_ZSET || enc_type == TYPE_ZSET_ZIPLIST || enc_type == TYPE_ZSET2 {
        Some(Type::SortedSet)
    } else {
        None
    }
}

impl Type {
    /// Map a value-type tag to its canonical kind.
    pub fn from_encoding(enc_type: u8) -> (t: Type)
        requires
            spec_from_encoding(enc_type) is Some,
        ensures
            spec_from_encoding(enc_type) == Some(t),
    {
        if enc_type == TYPE_STRING {
            Type::String
        } else if enc_type == TYPE_HASH || enc_type == TYPE_HASH_ZIPMAP || enc_type == TYPE_HASH_ZIPLIST {
            Type::Hash
        } else if enc_type == TYPE_LIST || enc_type == TYPE_LIST_ZIPLIST || enc_type
            == TYPE_LIST_QUICKLIST {
            Type::List
        } else if enc_type == TYPE_SET || enc_type == TYPE_SET_INTSET {
            Type::SetKind
        } else {
            Type::SortedSet
        }
    }
}

} // verus!
