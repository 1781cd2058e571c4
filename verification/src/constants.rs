//! Named constants of the snapshot format: top-level opcodes, value-type
//! tags, length-encoding discriminants, short integer encodings, module
//! opcodes and the supported version range.
use vstd::prelude::*;

verus! {

/// Lowest snapshot version this decoder accepts.
pub const VERSION_MIN: u32 = 1;
/// Highest snapshot version this decoder accepts.
pub const VERSION_MAX: u32 = 9;

// Top-level opcodes, one byte each, read between key records.
pub const OP_MODULE_AUX: u8 = 247;
pub const OP_IDLE: u8 = 248;
pub const OP_FREQ: u8 = 249;
pub const OP_AUX: u8 = 250;
pub const OP_RESIZEDB: u8 = 251;
pub const OP_EXPIRETIME_MS: u8 = 252;
pub const OP_EXPIRETIME: u8 = 253;
pub const OP_SELECTDB: u8 = 254;
pub const OP_EOF: u8 = 255;

// Value-type tags: the encoding of one key's value.
pub const TYPE_STRING: u8 = 0;
pub const TYPE_LIST: u8 = 1;
pub const TYPE_SET: u8 = 2;
pub const TYPE_ZSET: u8 = 3;
pub const TYPE_HASH: u8 = 4;
pub const TYPE_ZSET2: u8 = 5;
pub const TYPE_MODULE: u8 = 6;
pub const TYPE_MODULE2: u8 = 7;
pub const TYPE_HASH_ZIPMAP: u8 = 9;
pub const TYPE_LIST_ZIPLIST: u8 = 10;
pub const TYPE_SET_INTSET: u8 = 11;
pub const TYPE_ZSET_ZIPLIST: u8 = 12;
pub const TYPE_HASH_ZIPLIST: u8 = 13;
pub const TYPE_LIST_QUICKLIST: u8 = 14;
pub const TYPE_STREAM_LISTPACKS: u8 = 15;

// Short encodings selected by a length token whose encoded flag is set.
pub const ENC_INT8: u64 = 0;
pub const ENC_INT16: u64 = 1;
pub const ENC_INT32: u64 = 2;
pub const ENC_LZF: u64 = 3;

// Opcodes inside a module value.
pub const MODULE_OPCODE_EOF: u64 = 0;
pub const MODULE_OPCODE_SINT: u64 = 1;
pub const MODULE_OPCODE_UINT: u64 = 2;
pub const MODULE_OPCODE_FLOAT: u64 = 3;
pub const MODULE_OPCODE_DOUBLE: u64 = 4;
pub const MODULE_OPCODE_STRING: u64 = 5;

} // verus!
