//! End-to-end decoding scenarios: whole snapshots in, event lists out.
use redis_canal_rs::parse;
use redis_canal_rs::Event;
use redis_canal_rs::RdbError;
use redis_canal_rs::Score;
use redis_canal_rs::Simple;
use redis_canal_rs::Type;
use redis_canal_rs::types::EncodingType;

fn preamble(version: &str) -> Vec<u8> {
    let mut v = b"REDIS".to_vec();
    v.extend_from_slice(version.as_bytes());
    v
}

fn decode_all(input: Vec<u8>) -> Vec<Event<Vec<u8>>> {
    parse(input, Simple::new()).expect("decode failed")
}

fn decode_err(input: Vec<u8>) -> RdbError {
    parse(input, Simple::new()).expect_err("decode unexpectedly succeeded")
}

#[test]
fn empty_v6_snapshot() {
    let mut input = preamble("0006");
    input.push(0xFF);
    let events = decode_all(input);
    assert_eq!(
        events,
        vec![Event::StartRdb, Event::EndDatabase(0), Event::EndRdb],
    );
}

#[test]
fn single_string() {
    let mut input = preamble("0007");
    input.extend_from_slice(&[0xFE, 0x00, 0x00, 0x03, 0x66, 0x6F, 0x6F, 0x03, 0x62, 0x61, 0x72, 0xFF]);
    let events = decode_all(input);
    assert_eq!(
        events,
        vec![
            Event::StartRdb,
            Event::StartDatabase(0),
            Event::SetValue { key: b"foo".to_vec(), value: b"bar".to_vec(), expiry: None },
            Event::EndDatabase(0),
            Event::EndRdb,
        ],
    );
}

#[test]
fn expiry_attached_to_next_key() {
    let mut input = preamble("0007");
    input.extend_from_slice(&[0xFE, 0x00, 0xFC]);
    input.extend_from_slice(&[0x00; 8]);
    input.extend_from_slice(&[0x00, 0x03, 0x6B, 0x65, 0x79, 0x03, 0x76, 0x61, 0x6C, 0xFF]);
    let events = decode_all(input);
    assert_eq!(
        events,
        vec![
            Event::StartRdb,
            Event::StartDatabase(0),
            Event::SetValue { key: b"key".to_vec(), value: b"val".to_vec(), expiry: Some(0) },
            Event::EndDatabase(0),
            Event::EndRdb,
        ],
    );
}

#[test]
fn expiry_cleared_after_key() {
    // Two keys after one expiry opcode: only the first carries it.
    let mut input = preamble("0006");
    input.extend_from_slice(&[0xFC]);
    input.extend_from_slice(&[0x2A, 0, 0, 0, 0, 0, 0, 0]);
    input.extend_from_slice(&[0x00, 0x01, 0x61, 0x01, 0x62]);
    input.extend_from_slice(&[0x00, 0x01, 0x63, 0x01, 0x64]);
    input.push(0xFF);
    let events = decode_all(input);
    assert_eq!(
        events,
        vec![
            Event::StartRdb,
            Event::SetValue { key: b"a".to_vec(), value: b"b".to_vec(), expiry: Some(42) },
            Event::SetValue { key: b"c".to_vec(), value: b"d".to_vec(), expiry: None },
            Event::EndDatabase(0),
            Event::EndRdb,
        ],
    );
}

#[test]
fn expiry_seconds_scaled_to_ms() {
    let mut input = preamble("0006");
    input.extend_from_slice(&[0xFD, 0x00, 0x00, 0x00, 0x02]);
    input.extend_from_slice(&[0x00, 0x01, 0x6B, 0x01, 0x76]);
    input.push(0xFF);
    let events = decode_all(input);
    assert_eq!(
        events[1],
        Event::SetValue { key: b"k".to_vec(), value: b"v".to_vec(), expiry: Some(2000) },
    );
}

#[test]
fn hash_via_zipmap() {
    // One key of tag 9: each (field, value) pair surfaces in payload order.
    let mut input = preamble("0006");
    input.push(0x09);
    input.extend_from_slice(&[0x02, 0x68, 0x6D]); // key "hm"
    let zipmap = vec![0x01, 0x01, 0x61, 0x01, 0x00, 0x62, 0xFF];
    input.push(zipmap.len() as u8);
    input.extend_from_slice(&zipmap);
    input.push(0xFF);
    let events = decode_all(input);
    assert_eq!(
        events,
        vec![
            Event::StartRdb,
            Event::StartHash {
                key: b"hm".to_vec(),
                length: 1,
                expiry: None,
                encoding: EncodingType::Zipmap(7),
            },
            Event::HashElement { key: b"hm".to_vec(), field: b"a".to_vec(), value: b"b".to_vec() },
            Event::EndHash { key: b"hm".to_vec() },
            Event::EndDatabase(0),
            Event::EndRdb,
        ],
    );
}

#[test]
fn zipmap_missing_terminator_fails() {
    let mut input = preamble("0006");
    input.push(0x09);
    input.extend_from_slice(&[0x01, 0x68]);
    let zipmap = vec![0x01, 0x01, 0x61, 0x01, 0x00, 0x62, 0x00];
    input.push(zipmap.len() as u8);
    input.extend_from_slice(&zipmap);
    input.push(0xFF);
    assert_eq!(decode_err(input), RdbError::InvalidZipmapTerminator);
}

#[test]
fn zipmap_reserved_length_fails() {
    let mut input = preamble("0006");
    input.push(0x09);
    input.extend_from_slice(&[0x01, 0x68]);
    let zipmap = vec![0x01, 0xFE, 0x61];
    input.push(zipmap.len() as u8);
    input.extend_from_slice(&zipmap);
    input.push(0xFF);
    assert_eq!(decode_err(input), RdbError::InvalidZipmapLength(0xFE));
}

#[test]
fn sorted_set_v2_binary_double() {
    // Member "m" followed by the little-endian bits of 1.0.
    let mut input = preamble("0008");
    input.push(0x05);
    input.extend_from_slice(&[0x01, 0x7A]); // key "z"
    input.push(0x01); // one entry
    input.extend_from_slice(&[0x01, 0x6D]); // member "m"
    input.extend_from_slice(&[0x00, 0x00, 0x00, 0x00, 0x00, 0x00, 0xF0, 0x3F]);
    input.push(0xFF);
    let events = decode_all(input);
    assert_eq!(
        events[2],
        Event::SortedSetElement {
            key: b"z".to_vec(),
            score: Score::Bits(0x3FF0000000000000),
            member: b"m".to_vec(),
        },
    );
    match &events[2] {
        Event::SortedSetElement { score: Score::Bits(bits), .. } => {
            assert_eq!(f64::from_bits(*bits), 1.0);
        },
        other => panic!("unexpected event: {:?}", other),
    }
}

#[test]
fn sorted_set_v1_text_and_special_scores() {
    let mut input = preamble("0006");
    input.push(0x03);
    input.extend_from_slice(&[0x01, 0x7A]); // key "z"
    input.push(0x04); // four entries
    input.extend_from_slice(&[0x01, 0x61]); // member "a"
    input.extend_from_slice(&[0x03, 0x31, 0x2E, 0x35]); // score "1.5"
    input.extend_from_slice(&[0x01, 0x62, 253]); // member "b", nan
    input.extend_from_slice(&[0x01, 0x63, 254]); // member "c", +inf
    input.extend_from_slice(&[0x01, 0x64, 255]); // member "d", -inf
    input.push(0xFF);
    let events = decode_all(input);
    assert_eq!(
        events[2],
        Event::SortedSetElement {
            key: b"z".to_vec(),
            score: Score::Ascii(b"1.5".to_vec()),
            member: b"a".to_vec(),
        },
    );
    assert_eq!(
        events[3],
        Event::SortedSetElement { key: b"z".to_vec(), score: Score::Nan, member: b"b".to_vec() },
    );
    assert_eq!(
        events[4],
        Event::SortedSetElement { key: b"z".to_vec(), score: Score::Inf, member: b"c".to_vec() },
    );
    assert_eq!(
        events[5],
        Event::SortedSetElement { key: b"z".to_vec(), score: Score::NegInf, member: b"d".to_vec() },
    );
}

#[test]
fn lzf_short_encoded_string_round_trip() {
    // A compressed blob expands to the original bytes, and compressing the
    // expansion reproduces the stored payload.
    let original = b"aaaaaaaaaaaaaaaaaaaaaaaaaaaaaaaaaaaaaaaa".to_vec();
    let compressed = lzf::compress(&original).expect("compress failed");
    let mut input = preamble("0006");
    input.push(0x00); // string record
    input.extend_from_slice(&[0x01, 0x6B]); // key "k"
    input.push(0xC3); // encoded flag, tag 3
    input.push(compressed.len() as u8);
    input.push(original.len() as u8);
    input.extend_from_slice(&compressed);
    input.push(0xFF);
    let events = decode_all(input);
    match &events[1] {
        Event::SetValue { value, .. } => {
            assert_eq!(value.len(), original.len());
            assert_eq!(value, &original);
            assert_eq!(lzf::compress(value).expect("recompress failed"), compressed);
        },
        other => panic!("unexpected event: {:?}", other),
    }
}

#[test]
fn list_ziplist_entries() {
    let mut input = preamble("0006");
    input.push(0x0A);
    input.extend_from_slice(&[0x01, 0x6C]); // key "l"
    let mut zl: Vec<u8> = Vec::new();
    zl.extend_from_slice(&[0, 0, 0, 0]); // zlbytes
    zl.extend_from_slice(&[0, 0, 0, 0]); // zltail
    zl.extend_from_slice(&[2, 0]); // zllen
    zl.extend_from_slice(&[0x00, 0x01, 0x78]); // prevlen, string "x"
    zl.extend_from_slice(&[0x00, 0xF5]); // prevlen, small int 4
    zl.push(0xFF);
    input.push(zl.len() as u8);
    input.extend_from_slice(&zl);
    input.push(0xFF);
    let events = decode_all(input);
    assert_eq!(
        events,
        vec![
            Event::StartRdb,
            Event::StartList {
                key: b"l".to_vec(),
                length: 2,
                expiry: None,
                encoding: EncodingType::Ziplist(16),
            },
            Event::ListElement { key: b"l".to_vec(), value: b"x".to_vec() },
            Event::ListElement { key: b"l".to_vec(), value: b"4".to_vec() },
            Event::EndList { key: b"l".to_vec() },
            Event::EndDatabase(0),
            Event::EndRdb,
        ],
    );
}

#[test]
fn ziplist_missing_terminator_fails() {
    // The trailing byte is not 0xFF: the run fails whatever the header
    // declares.
    let mut input = preamble("0006");
    input.push(0x0A);
    input.extend_from_slice(&[0x01, 0x6C]);
    let mut zl: Vec<u8> = Vec::new();
    zl.extend_from_slice(&[0, 0, 0, 0, 0, 0, 0, 0, 1, 0]);
    zl.extend_from_slice(&[0x00, 0x01, 0x78]);
    zl.push(0x00); // junk where the terminator belongs
    input.push(zl.len() as u8);
    input.extend_from_slice(&zl);
    input.push(0xFF);
    assert_eq!(decode_err(input), RdbError::InvalidZiplistTerminator);
}

#[test]
fn hash_ziplist_pairs() {
    let mut input = preamble("0006");
    input.push(0x0D);
    input.extend_from_slice(&[0x01, 0x68]); // key "h"
    let mut zl: Vec<u8> = Vec::new();
    zl.extend_from_slice(&[0, 0, 0, 0, 0, 0, 0, 0, 2, 0]);
    zl.extend_from_slice(&[0x00, 0x01, 0x66]); // field "f"
    zl.extend_from_slice(&[0x00, 0x01, 0x76]); // value "v"
    zl.push(0xFF);
    input.push(zl.len() as u8);
    input.extend_from_slice(&zl);
    input.push(0xFF);
    let events = decode_all(input);
    assert_eq!(
        events[1],
        Event::StartHash {
            key: b"h".to_vec(),
            length: 1,
            expiry: None,
            encoding: EncodingType::Ziplist(17),
        },
    );
    assert_eq!(
        events[2],
        Event::HashElement { key: b"h".to_vec(), field: b"f".to_vec(), value: b"v".to_vec() },
    );
    assert_eq!(events[3], Event::EndHash { key: b"h".to_vec() });
}

#[test]
fn sorted_set_ziplist_pairs() {
    let mut input = preamble("0006");
    input.push(0x0C);
    input.extend_from_slice(&[0x01, 0x7A]); // key "z"
    let mut zl: Vec<u8> = Vec::new();
    zl.extend_from_slice(&[0, 0, 0, 0, 0, 0, 0, 0, 2, 0]);
    zl.extend_from_slice(&[0x00, 0x01, 0x6D]); // member "m"
    zl.extend_from_slice(&[0x00, 0xF3]); // score 2 as a packed integer
    zl.push(0xFF);
    input.push(zl.len() as u8);
    input.extend_from_slice(&zl);
    input.push(0xFF);
    let events = decode_all(input);
    assert_eq!(
        events[2],
        Event::SortedSetElement {
            key: b"z".to_vec(),
            score: Score::Ascii(b"2".to_vec()),
            member: b"m".to_vec(),
        },
    );
}

#[test]
fn intset_elements_decimalised() {
    let mut input = preamble("0006");
    input.push(0x0B);
    input.extend_from_slice(&[0x01, 0x73]); // key "s"
    let mut is: Vec<u8> = Vec::new();
    is.extend_from_slice(&[2, 0, 0, 0]); // width 2
    is.extend_from_slice(&[2, 0, 0, 0]); // two elements
    is.extend_from_slice(&[0x01, 0x00]); // 1
    is.extend_from_slice(&[0xFF, 0xFF]); // -1
    input.push(is.len() as u8);
    input.extend_from_slice(&is);
    input.push(0xFF);
    let events = decode_all(input);
    assert_eq!(
        events,
        vec![
            Event::StartRdb,
            Event::StartSet {
                key: b"s".to_vec(),
                length: 2,
                expiry: None,
                encoding: EncodingType::Intset(12),
            },
            Event::SetElement { key: b"s".to_vec(), value: b"1".to_vec() },
            Event::SetElement { key: b"s".to_vec(), value: b"-1".to_vec() },
            Event::EndSet { key: b"s".to_vec() },
            Event::EndDatabase(0),
            Event::EndRdb,
        ],
    );
}

#[test]
fn intset_bad_width_fails() {
    let mut input = preamble("0006");
    input.push(0x0B);
    input.extend_from_slice(&[0x01, 0x73]);
    let mut is: Vec<u8> = Vec::new();
    is.extend_from_slice(&[3, 0, 0, 0]);
    is.extend_from_slice(&[1, 0, 0, 0]);
    is.extend_from_slice(&[0x01, 0x00, 0x00]);
    input.push(is.len() as u8);
    input.extend_from_slice(&is);
    input.push(0xFF);
    assert_eq!(decode_err(input), RdbError::InvalidIntsetWidth(3));
}

#[test]
fn linked_list_and_hash() {
    let mut input = preamble("0006");
    input.push(0x01); // list
    input.extend_from_slice(&[0x01, 0x6C, 0x02, 0x01, 0x61, 0x01, 0x62]);
    input.push(0x04); // hash
    input.extend_from_slice(&[0x01, 0x68, 0x01, 0x01, 0x66, 0x01, 0x76]);
    input.push(0xFF);
    let events = decode_all(input);
    assert_eq!(
        events,
        vec![
            Event::StartRdb,
            Event::StartList {
                key: b"l".to_vec(),
                length: 2,
                expiry: None,
                encoding: EncodingType::LinkedList,
            },
            Event::ListElement { key: b"l".to_vec(), value: b"a".to_vec() },
            Event::ListElement { key: b"l".to_vec(), value: b"b".to_vec() },
            Event::EndList { key: b"l".to_vec() },
            Event::StartHash {
                key: b"h".to_vec(),
                length: 1,
                expiry: None,
                encoding: EncodingType::Hashtable,
            },
            Event::HashElement { key: b"h".to_vec(), field: b"f".to_vec(), value: b"v".to_vec() },
            Event::EndHash { key: b"h".to_vec() },
            Event::EndDatabase(0),
            Event::EndRdb,
        ],
    );
}

#[test]
fn quicklist_surfaces_elements_with_zero_count() {
    let mut input = preamble("0007");
    input.push(0x0E);
    input.extend_from_slice(&[0x01, 0x71]); // key "q"
    input.push(0x01); // one part
    let mut zl: Vec<u8> = Vec::new();
    zl.extend_from_slice(&[0, 0, 0, 0, 0, 0, 0, 0, 1, 0]);
    zl.extend_from_slice(&[0x00, 0x01, 0x65]); // "e"
    zl.push(0xFF);
    input.push(zl.len() as u8);
    input.extend_from_slice(&zl);
    input.push(0xFF);
    let events = decode_all(input);
    assert_eq!(
        events,
        vec![
            Event::StartRdb,
            Event::StartSet {
                key: b"q".to_vec(),
                length: 0,
                expiry: None,
                encoding: EncodingType::Quicklist,
            },
            Event::ListElement { key: b"q".to_vec(), value: b"e".to_vec() },
            Event::EndSet { key: b"q".to_vec() },
            Event::EndDatabase(0),
            Event::EndRdb,
        ],
    );
}

#[test]
fn aux_resize_and_checksum() {
    let mut input = preamble("0007");
    input.push(0xFA);
    input.extend_from_slice(&[0x01, 0x61, 0x01, 0x62]);
    input.push(0xFB);
    input.extend_from_slice(&[0x05, 0x02]);
    input.push(0xFF);
    input.extend_from_slice(&[1, 2, 3, 4, 5, 6, 7, 8]);
    let events = decode_all(input);
    assert_eq!(
        events,
        vec![
            Event::StartRdb,
            Event::AuxField { key: b"a".to_vec(), value: b"b".to_vec() },
            Event::ResizeDb { db_size: 5, expires_size: 2 },
            Event::EndDatabase(0),
            Event::EndRdb,
            Event::Checksum(vec![1, 2, 3, 4, 5, 6, 7, 8]),
        ],
    );
}

#[test]
fn module_value_walked_silently() {
    let mut input = preamble("0008");
    input.push(0x07); // module2 record
    input.extend_from_slice(&[0x01, 0x6D]); // key "m"
    input.push(0x05); // module id length
    input.extend_from_slice(&[0x01, 0x07]); // sint opcode, payload length
    input.extend_from_slice(&[0x05, 0x02, 0x68, 0x69]); // string opcode, blob "hi"
    input.push(0x00); // module end opcode
    input.push(0xFF);
    let events = decode_all(input);
    assert_eq!(events, vec![Event::StartRdb, Event::EndDatabase(0), Event::EndRdb]);
}

#[test]
fn stream_value_walked_silently() {
    let mut input = preamble("0009");
    input.push(0x0F);
    input.extend_from_slice(&[0x01, 0x73]); // key "s"
    input.push(0x00); // no listpacks
    input.extend_from_slice(&[0x00, 0x00, 0x00]); // last entry ms, id pair
    input.push(0x00); // no consumer groups
    input.push(0xFF);
    let events = decode_all(input);
    assert_eq!(events, vec![Event::StartRdb, Event::EndDatabase(0), Event::EndRdb]);
}

#[test]
fn module_v1_unsupported() {
    let mut input = preamble("0006");
    input.push(0x06);
    input.extend_from_slice(&[0x01, 0x6D]);
    input.push(0xFF);
    assert_eq!(decode_err(input), RdbError::UnsupportedValueType(6));
}

#[test]
fn unknown_value_type_fails() {
    let mut input = preamble("0006");
    input.push(0x20);
    input.extend_from_slice(&[0x01, 0x6B]);
    input.push(0xFF);
    assert_eq!(decode_err(input), RdbError::UnknownValueType(0x20));
}

#[test]
fn filter_by_database() {
    let mut body: Vec<u8> = Vec::new();
    body.extend_from_slice(&[0xFE, 0x00]);
    body.extend_from_slice(&[0x00, 0x01, 0x61, 0x01, 0x62]);
    body.extend_from_slice(&[0xFE, 0x01]);
    body.extend_from_slice(&[0x00, 0x01, 0x63, 0x01, 0x64]);
    body.push(0xFF);
    let mut input = preamble("0006");
    input.extend_from_slice(&body);
    let mut filter = Simple::new();
    filter.add_database(1);
    let events = parse(input, filter).expect("decode failed");
    assert_eq!(
        events,
        vec![
            Event::StartRdb,
            Event::StartDatabase(1),
            Event::SetValue { key: b"c".to_vec(), value: b"d".to_vec(), expiry: None },
            Event::EndDatabase(1),
            Event::EndRdb,
        ],
    );
}

#[test]
fn filter_by_type() {
    let mut input = preamble("0006");
    input.extend_from_slice(&[0x00, 0x01, 0x61, 0x01, 0x62]); // string "a"
    input.push(0x01); // list "l"
    input.extend_from_slice(&[0x01, 0x6C, 0x01, 0x01, 0x65]);
    input.push(0xFF);
    let mut filter = Simple::new();
    filter.add_type(Type::List);
    let events = parse(input, filter).expect("decode failed");
    assert_eq!(
        events,
        vec![
            Event::StartRdb,
            Event::StartList {
                key: b"l".to_vec(),
                length: 1,
                expiry: None,
                encoding: EncodingType::LinkedList,
            },
            Event::ListElement { key: b"l".to_vec(), value: b"e".to_vec() },
            Event::EndList { key: b"l".to_vec() },
            Event::EndDatabase(0),
            Event::EndRdb,
        ],
    );
}

#[test]
fn filter_by_key_pattern() {
    let mut input = preamble("0006");
    input.extend_from_slice(&[0x00, 0x03, 0x61, 0x62, 0x63, 0x01, 0x31]); // "abc" -> "1"
    input.extend_from_slice(&[0x00, 0x03, 0x78, 0x79, 0x7A, 0x01, 0x32]); // "xyz" -> "2"
    input.push(0xFF);
    let mut filter = Simple::new();
    assert!(filter.add_keys("^a"));
    let events = parse(input, filter).expect("decode failed");
    assert_eq!(
        events,
        vec![
            Event::StartRdb,
            Event::SetValue { key: b"abc".to_vec(), value: b"1".to_vec(), expiry: None },
            Event::EndDatabase(0),
            Event::EndRdb,
        ],
    );
}

#[test]
fn filter_bad_pattern_refused() {
    let mut filter = Simple::new();
    assert!(!filter.add_keys("("));
}

#[test]
fn filtered_and_unfiltered_agree_elsewhere() {
    // Toggling the key predicate removes exactly the failing key's events.
    let mut input = preamble("0006");
    input.extend_from_slice(&[0xFA, 0x01, 0x61, 0x01, 0x62]);
    input.extend_from_slice(&[0x00, 0x03, 0x61, 0x62, 0x63, 0x01, 0x31]);
    input.extend_from_slice(&[0x00, 0x03, 0x78, 0x79, 0x7A, 0x01, 0x32]);
    input.push(0xFF);
    let all = parse(input.clone(), Simple::new()).expect("decode failed");
    let mut filter = Simple::new();
    assert!(filter.add_keys("^x"));
    let some = parse(input, filter).expect("decode failed");
    let dropped = Event::SetValue { key: b"abc".to_vec(), value: b"1".to_vec(), expiry: None };
    let expected: Vec<Event<Vec<u8>>> = all.into_iter().filter(|e| e != &dropped).collect();
    assert_eq!(some, expected);
}

#[test]
fn zipmap_declared_zero_still_reads_a_pair() {
    // A declared size of zero does not stop the walk before the first
    // entry: one pair surfaces and the terminator is then required.
    let mut input = preamble("0006");
    input.push(0x09);
    input.extend_from_slice(&[0x01, 0x68]);
    let zipmap = vec![0x00, 0x01, 0x61, 0x01, 0x00, 0x62, 0xFF];
    input.push(zipmap.len() as u8);
    input.extend_from_slice(&zipmap);
    input.push(0xFF);
    let events = decode_all(input);
    assert_eq!(
        events[1],
        Event::StartHash {
            key: b"h".to_vec(),
            length: 0,
            expiry: None,
            encoding: EncodingType::Zipmap(7),
        },
    );
    assert_eq!(
        events[2],
        Event::HashElement { key: b"h".to_vec(), field: b"a".to_vec(), value: b"b".to_vec() },
    );
}

#[test]
fn linked_set_elements() {
    let mut input = preamble("0006");
    input.push(0x02); // linked-list-encoded set
    input.extend_from_slice(&[0x01, 0x73, 0x02, 0x01, 0x61, 0x01, 0x62]);
    input.push(0xFF);
    let events = decode_all(input);
    assert_eq!(
        events,
        vec![
            Event::StartRdb,
            Event::StartSet {
                key: b"s".to_vec(),
                length: 2,
                expiry: None,
                encoding: EncodingType::LinkedList,
            },
            Event::SetElement { key: b"s".to_vec(), value: b"a".to_vec() },
            Event::SetElement { key: b"s".to_vec(), value: b"b".to_vec() },
            Event::EndSet { key: b"s".to_vec() },
            Event::EndDatabase(0),
            Event::EndRdb,
        ],
    );
}

#[test]
fn type_filter_covers_v2_sorted_sets_and_quicklists() {
    // Tag 5 counts as a sorted set, tag 14 as a list, for the whitelist.
    let mut input = preamble("0008");
    input.push(0x05); // v2 sorted set "z"
    input.extend_from_slice(&[0x01, 0x7A, 0x01, 0x01, 0x6D]);
    input.extend_from_slice(&[0x00, 0x00, 0x00, 0x00, 0x00, 0x00, 0xF0, 0x3F]);
    input.extend_from_slice(&[0x00, 0x01, 0x6B, 0x01, 0x76]); // string "k"
    input.push(0xFF);
    let mut filter = Simple::new();
    filter.add_type(Type::SortedSet);
    let events = parse(input, filter).expect("decode failed");
    assert_eq!(
        events,
        vec![
            Event::StartRdb,
            Event::StartSortedSet {
                key: b"z".to_vec(),
                length: 1,
                expiry: None,
                encoding: EncodingType::Hashtable,
            },
            Event::SortedSetElement {
                key: b"z".to_vec(),
                score: Score::Bits(0x3FF0000000000000),
                member: b"m".to_vec(),
            },
            Event::EndSortedSet { key: b"z".to_vec() },
            Event::EndDatabase(0),
            Event::EndRdb,
        ],
    );
}
