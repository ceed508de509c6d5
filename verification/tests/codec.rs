use varint::{decode, encode};

#[test]
fn encode_zero_is_one_zero_byte() {
    assert_eq!(encode(0), vec![0x00]);
}

#[test]
fn encode_below_128_is_the_byte_itself() {
    let mut value: u128 = 0;
    while value < 128 {
        assert_eq!(encode(value), vec![value as u8]);
        value += 1;
    }
}

#[test]
fn encode_sets_continuation_on_all_but_last() {
    assert_eq!(encode(128), vec![0x80, 0x01]);
    assert_eq!(encode(300), vec![0xAC, 0x02]);
    assert_eq!(encode(0xCAFE), vec![0xFE, 0x95, 0x03]);
    assert_eq!(encode(16_383), vec![0xFF, 0x7F]);
    assert_eq!(encode(16_384), vec![0x80, 0x80, 0x01]);
}

#[test]
fn encode_never_empty_and_ends_where_the_number_ends() {
    let samples: [u128; 8] = [0, 1, 127, 128, 300, 1 << 63, u64::MAX as u128, u128::MAX];
    for value in samples {
        let bytes: Vec<u8> = encode(value);
        assert!(!bytes.is_empty());
        let last: usize = bytes.len() - 1;
        assert!(bytes[last] < 0x80);
        for byte in &bytes[..last] {
            assert!(*byte >= 0x80);
        }
    }
}

#[test]
fn encode_length_grows_at_powers_of_128() {
    let mut power: u128 = 1;
    let mut count: usize = 1;
    while count <= 18 {
        power *= 128;
        assert_eq!(encode(power - 1).len(), count);
        assert_eq!(encode(power).len(), count + 1);
        count += 1;
    }
    assert_eq!(encode(u128::MAX).len(), 19);
}

#[test]
fn encode_length_never_shrinks_as_the_number_grows() {
    let mut previous: usize = encode(0).len();
    let mut value: u128 = 1;
    while value < 40_000 {
        let length: usize = encode(value).len();
        assert!(length >= previous);
        previous = length;
        value += 1;
    }
}

#[test]
fn encode_largest_value() {
    let mut expected: Vec<u8> = vec![0xFF; 18];
    expected.push(0x03);
    assert_eq!(encode(u128::MAX), expected);
}

#[test]
fn decode_known_values() {
    assert_eq!(decode(&[0x00]), 0);
    assert_eq!(decode(&[0x7F]), 127);
    assert_eq!(decode(&[0x80, 0x01]), 128);
    assert_eq!(decode(&[0xAC, 0x02]), 300);
    assert_eq!(decode(&[0xFE, 0x95, 0x03]), 0xCAFE);
}

#[test]
fn decode_empty_is_zero() {
    assert_eq!(decode(&[]), 0);
}

#[test]
fn decode_lone_continuation_byte_gives_its_low_bits() {
    assert_eq!(decode(&[0x80]), 0);
    assert_eq!(decode(&[0xFF]), 127);
}

#[test]
fn decode_unterminated_gives_the_groups_that_are_there() {
    assert_eq!(decode(&[0xAC, 0x82]), 300);
    assert_eq!(decode(&[0x81, 0x81, 0x81]), 1 + 128 + 128 * 128);
}

#[test]
fn decode_ignores_bytes_after_the_end() {
    assert_eq!(decode(&[0xAC, 0x02, 0xFF, 0x01]), 300);
    assert_eq!(decode(&[0x05, 0x80, 0x80, 0x80]), 5);
    let mut bytes: Vec<u8> = encode(0xCAFE);
    let alone: u128 = decode(&bytes);
    bytes.extend_from_slice(&[0x00, 0x7F, 0x80, 0xFF]);
    assert_eq!(decode(&bytes), alone);
}

#[test]
fn decode_does_not_ask_for_the_shortest_form() {
    assert_eq!(decode(&[0x80, 0x00]), 0);
    assert_eq!(decode(&[0x81, 0x80, 0x00]), 1);
}

#[test]
fn decode_gives_back_what_encode_took() {
    let samples: [u128; 10] = [
        0,
        1,
        127,
        128,
        300,
        0xCAFE,
        u32::MAX as u128,
        u64::MAX as u128,
        (u64::MAX as u128) + 1,
        u128::MAX,
    ];
    for value in samples {
        assert_eq!(decode(&encode(value)), value);
    }
}

#[test]
fn decode_cuts_off_what_the_accumulator_cannot_hold() {
    // Nineteen full groups are 133 bits: the top five are lost.
    assert_eq!(decode(&[0xFF; 19]), u128::MAX);
    let mut bytes: Vec<u8> = vec![0xFF; 18];
    bytes.push(0x7F);
    assert_eq!(decode(&bytes), u128::MAX);
    // The group at bit 126 keeps its two low bits.
    let mut bytes: Vec<u8> = vec![0x80; 18];
    bytes.push(0x04);
    assert_eq!(decode(&bytes), 0);
    let mut bytes: Vec<u8> = vec![0x80; 18];
    bytes.push(0x05);
    assert_eq!(decode(&bytes), 1 << 126);
}

#[test]
fn decode_drops_groups_beyond_the_accumulator() {
    let mut bytes: Vec<u8> = vec![0x80; 19];
    bytes.push(0x01);
    assert_eq!(decode(&bytes), 0);
    let mut bytes: Vec<u8> = vec![0x81];
    bytes.extend_from_slice(&[0x80; 30]);
    bytes.push(0x7F);
    assert_eq!(decode(&bytes), 1);
    assert_eq!(decode(&[0xFF; 64]), u128::MAX);
}
