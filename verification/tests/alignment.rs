//! Skip/read symmetry: a filtered-out key must advance the cursor exactly
//! as far as decoding it would, so everything after it still decodes.
use redis_canal_rs::parse;
use redis_canal_rs::Event;
use redis_canal_rs::RdbError;
use redis_canal_rs::Simple;

fn preamble() -> Vec<u8> {
    b"REDIS0007".to_vec()
}

/// A body holding one record of every skippable layout, then one marker
/// string key.
fn mixed_body() -> Vec<u8> {
    let mut b: Vec<u8> = Vec::new();
    // linked list "l": two elements
    b.extend_from_slice(&[0x01, 0x01, 0x6C, 0x02, 0x01, 0x61, 0x01, 0x62]);
    // linked set "s": one element
    b.extend_from_slice(&[0x02, 0x01, 0x73, 0x01, 0x01, 0x63]);
    // hash "h": one pair
    b.extend_from_slice(&[0x04, 0x01, 0x68, 0x01, 0x01, 0x66, 0x01, 0x76]);
    // list ziplist "zl": one entry
    b.push(0x0A);
    b.extend_from_slice(&[0x02, 0x7A, 0x6C]);
    let zl = [0u8, 0, 0, 0, 0, 0, 0, 0, 1, 0, 0x00, 0x01, 0x65, 0xFF];
    b.push(zl.len() as u8);
    b.extend_from_slice(&zl);
    // intset "is": one 2-byte element
    b.push(0x0B);
    b.extend_from_slice(&[0x02, 0x69, 0x73]);
    let is = [2u8, 0, 0, 0, 1, 0, 0, 0, 7, 0];
    b.push(is.len() as u8);
    b.extend_from_slice(&is);
    // quicklist "q": one part
    b.push(0x0E);
    b.extend_from_slice(&[0x01, 0x71, 0x01]);
    b.push(zl.len() as u8);
    b.extend_from_slice(&zl);
    // module value "m": id, then end opcode
    b.extend_from_slice(&[0x07, 0x01, 0x6D, 0x09, 0x00]);
    // v1 sorted set "z1": textual, not-a-number and infinite scores
    b.push(0x03);
    b.extend_from_slice(&[0x02, 0x7A, 0x31, 0x03]);
    b.extend_from_slice(&[0x01, 0x61, 0x03, 0x31, 0x2E, 0x35]); // "a" -> "1.5"
    b.extend_from_slice(&[0x01, 0x62, 253]); // "b" -> nan
    b.extend_from_slice(&[0x01, 0x63, 254]); // "c" -> inf
    // v2 sorted set "z2": eight raw score bytes
    b.push(0x05);
    b.extend_from_slice(&[0x02, 0x7A, 0x32, 0x01, 0x01, 0x6D]);
    b.extend_from_slice(&[0x00, 0x00, 0x00, 0x00, 0x00, 0x00, 0xF0, 0x3F]);
    // marker string key "keep"
    b.extend_from_slice(&[0x00, 0x04, 0x6B, 0x65, 0x65, 0x70, 0x02, 0x6F, 0x6B]);
    b.push(0xFF);
    b
}

#[test]
fn skipping_every_layout_keeps_the_stream_aligned() {
    let mut input = preamble();
    input.extend_from_slice(&mixed_body());
    let mut filter = Simple::new();
    assert!(filter.add_keys("^keep$"));
    let events = parse(input, filter).expect("decode failed");
    assert_eq!(
        events,
        vec![
            Event::StartRdb,
            Event::SetValue { key: b"keep".to_vec(), value: b"ok".to_vec(), expiry: None },
            Event::EndDatabase(0),
            Event::EndRdb,
        ],
    );
}

#[test]
fn rejected_database_keeps_the_stream_aligned() {
    let mut input = preamble();
    input.extend_from_slice(&[0xFE, 0x03]);
    input.extend_from_slice(&mixed_body());
    let mut filter = Simple::new();
    filter.add_database(9);
    let events = parse(input, filter).expect("decode failed");
    assert_eq!(events, vec![Event::StartRdb, Event::EndDatabase(3), Event::EndRdb]);
}

#[test]
fn truncated_record_is_a_short_read() {
    let mut input = preamble();
    input.extend_from_slice(&[0x00, 0x04, 0x6B]);
    assert_eq!(parse(input, Simple::new()), Err(RdbError::ShortRead(4, 1)));
}

#[test]
fn truncated_stream_without_end_opcode() {
    let mut input = preamble();
    input.extend_from_slice(&[0x00, 0x01, 0x6B, 0x01, 0x76]);
    assert_eq!(parse(input, Simple::new()), Err(RdbError::ShortRead(1, 0)));
}

#[test]
fn fourteen_bit_count_in_a_container() {
    // A list whose count uses the two-byte length form.
    let mut input = preamble();
    input.push(0x01);
    input.extend_from_slice(&[0x01, 0x6C]);
    input.extend_from_slice(&[0x40, 0x02]); // count 2, fourteen-bit form
    input.extend_from_slice(&[0x01, 0x61, 0x01, 0x62]);
    input.push(0xFF);
    let events = parse(input, Simple::new()).expect("decode failed");
    assert_eq!(events.len(), 7);
    assert_eq!(events[2], Event::ListElement { key: b"l".to_vec(), value: b"a".to_vec() });
    assert_eq!(events[3], Event::ListElement { key: b"l".to_vec(), value: b"b".to_vec() });
}

#[test]
fn idle_and_freq_opcodes_are_discarded() {
    let mut input = preamble();
    input.extend_from_slice(&[0xF8, 0x05]); // idle 5
    input.extend_from_slice(&[0xF9, 0x02]); // frequency counter
    input.extend_from_slice(&[0x00, 0x01, 0x6B, 0x01, 0x76]);
    input.push(0xFF);
    let events = parse(input, Simple::new()).expect("decode failed");
    assert_eq!(
        events,
        vec![
            Event::StartRdb,
            Event::SetValue { key: b"k".to_vec(), value: b"v".to_vec(), expiry: None },
            Event::EndDatabase(0),
            Event::EndRdb,
        ],
    );
}
