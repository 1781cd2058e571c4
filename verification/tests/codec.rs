//! The length and blob codec, the preamble checks and the decimal
//! rendering, exercised directly through the reader.
use redis_canal_rs::codec::read_blob;
use redis_canal_rs::codec::read_length;
use redis_canal_rs::codec::read_length_with_encoding;
use redis_canal_rs::codec::verify_magic;
use redis_canal_rs::codec::verify_version;
use redis_canal_rs::decimal::int_to_vec;
use redis_canal_rs::reader::Reader;
use redis_canal_rs::types::Module;
use redis_canal_rs::RdbError;
use redis_canal_rs::Type;

#[test]
fn length_six_bit() {
    let mut r = Reader::new(vec![0x2A]);
    assert_eq!(read_length_with_encoding(&mut r), Ok((42, false)));
    assert_eq!(r.remaining_len(), 0);
}

#[test]
fn length_fourteen_bit() {
    let mut r = Reader::new(vec![0x41, 0x02]);
    assert_eq!(read_length_with_encoding(&mut r), Ok((0x0102, false)));
    assert_eq!(r.remaining_len(), 0);
}

#[test]
fn length_thirty_two_bit_big_endian() {
    let mut r = Reader::new(vec![0x80, 0x00, 0x01, 0x02, 0x03, 0x99]);
    assert_eq!(read_length(&mut r), Ok(0x00010203));
    // The width is fixed by the first byte alone: one trailing byte is left.
    assert_eq!(r.remaining_len(), 1);
}

#[test]
fn length_sixty_four_bit_big_endian() {
    let mut r = Reader::new(vec![0x81, 0, 0, 0, 1, 0, 0, 0, 2]);
    assert_eq!(read_length(&mut r), Ok(0x0000000100000002));
    assert_eq!(r.remaining_len(), 0);
}

#[test]
fn length_encoded_flag() {
    let mut r = Reader::new(vec![0xC1]);
    assert_eq!(read_length_with_encoding(&mut r), Ok((1, true)));
}

#[test]
fn length_short_read() {
    let mut r = Reader::new(vec![0x80, 0x00]);
    assert_eq!(read_length(&mut r), Err(RdbError::ShortRead(4, 1)));
}

#[test]
fn blob_raw_bytes() {
    let mut r = Reader::new(vec![0x03, 0x66, 0x6F, 0x6F, 0x99]);
    assert_eq!(read_blob(&mut r), Ok(b"foo".to_vec()));
    assert_eq!(r.remaining_len(), 1);
}

#[test]
fn blob_int8() {
    let mut r = Reader::new(vec![0xC0, 0xF6]);
    assert_eq!(read_blob(&mut r), Ok(b"-10".to_vec()));
}

#[test]
fn blob_int16() {
    let mut r = Reader::new(vec![0xC1, 0x39, 0x30]);
    assert_eq!(read_blob(&mut r), Ok(b"12345".to_vec()));
}

#[test]
fn blob_int32() {
    let mut r = Reader::new(vec![0xC2, 0x00, 0x00, 0x00, 0x80]);
    assert_eq!(read_blob(&mut r), Ok(b"-2147483648".to_vec()));
}

#[test]
fn blob_unknown_encoding() {
    let mut r = Reader::new(vec![0xC4, 0x00]);
    assert_eq!(read_blob(&mut r), Err(RdbError::UnknownEncoding(4)));
}

#[test]
fn blob_lzf_failure_surfaces() {
    // An empty compressed payload is refused by the expander.
    let mut r = Reader::new(vec![0xC3, 0x00, 0x05]);
    assert_eq!(read_blob(&mut r), Err(RdbError::LzfDecompressFailed));
}

#[test]
fn magic_accepted() {
    let mut r = Reader::new(b"REDIS0006".to_vec());
    assert_eq!(verify_magic(&mut r), Ok(()));
    assert_eq!(verify_version(&mut r), Ok(()));
}

#[test]
fn magic_rejected() {
    let mut r = Reader::new(b"RDBXX0006".to_vec());
    assert_eq!(verify_magic(&mut r), Err(RdbError::InvalidMagic));
}

#[test]
fn magic_short() {
    let mut r = Reader::new(b"RED".to_vec());
    assert_eq!(verify_magic(&mut r), Err(RdbError::ShortRead(5, 3)));
}

#[test]
fn version_too_new() {
    let mut r = Reader::new(b"0010".to_vec());
    assert_eq!(verify_version(&mut r), Err(RdbError::UnsupportedVersion));
}

#[test]
fn version_zero_rejected() {
    let mut r = Reader::new(b"0000".to_vec());
    assert_eq!(verify_version(&mut r), Err(RdbError::UnsupportedVersion));
}

#[test]
fn version_not_digits() {
    let mut r = Reader::new(b"00a1".to_vec());
    assert_eq!(verify_version(&mut r), Err(RdbError::UnsupportedVersion));
}

#[test]
fn decimal_rendering() {
    assert_eq!(int_to_vec(0), b"0".to_vec());
    assert_eq!(int_to_vec(7), b"7".to_vec());
    assert_eq!(int_to_vec(-7), b"-7".to_vec());
    assert_eq!(int_to_vec(1234567890), b"1234567890".to_vec());
    assert_eq!(int_to_vec(i64::MIN), b"-9223372036854775808".to_vec());
    assert_eq!(int_to_vec(i64::MAX), b"9223372036854775807".to_vec());
}

#[test]
fn type_from_encoding_mapping() {
    assert_eq!(Type::from_encoding(0), Type::String);
    assert_eq!(Type::from_encoding(1), Type::List);
    assert_eq!(Type::from_encoding(10), Type::List);
    assert_eq!(Type::from_encoding(2), Type::SetKind);
    assert_eq!(Type::from_encoding(11), Type::SetKind);
    assert_eq!(Type::from_encoding(3), Type::SortedSet);
    assert_eq!(Type::from_encoding(12), Type::SortedSet);
    assert_eq!(Type::from_encoding(4), Type::Hash);
    assert_eq!(Type::from_encoding(9), Type::Hash);
    assert_eq!(Type::from_encoding(13), Type::Hash);
}

#[test]
fn module_opcode_values() {
    assert_eq!(Module::ModuleOpcodeEOF.opcode(), 0);
    assert_eq!(Module::ModuleOpcodeSInt.opcode(), 1);
    assert_eq!(Module::ModuleOpcodeUInt.opcode(), 2);
    assert_eq!(Module::ModuleOpcodeFloat.opcode(), 3);
    assert_eq!(Module::ModuleOpcodeDouble.opcode(), 4);
    assert_eq!(Module::ModuleOpcodeString.opcode(), 5);
}
