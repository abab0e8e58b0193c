use athernet::bits::Bits;
use athernet::chunks::take_chunk;
use athernet::wire::{checksum, crc_feed, push_le, read_le};

fn bits(bools: &[bool]) -> Bits {
    Bits::from_bools(&bools.to_vec())
}

fn parse(text: &str) -> Vec<bool> {
    text.chars().map(|c| c == '1').collect()
}

#[test]
fn new_bits_are_empty() {
    let b = Bits::new();
    assert_eq!(b.len(), 0);
    assert!(b.is_empty());
    assert_eq!(b.get(0), None);
    assert_eq!(b.to_bools(), Vec::<bool>::new());
}

#[test]
fn push_appends_in_order() {
    let mut b = Bits::new();
    b.push(true);
    b.push(false);
    b.push(true);
    assert_eq!(b.len(), 3);
    assert!(!b.is_empty());
    assert_eq!(b.get(0), Some(true));
    assert_eq!(b.get(1), Some(false));
    assert_eq!(b.get(2), Some(true));
    assert_eq!(b.get(3), None);
    assert_eq!(b.to_bools(), vec![true, false, true]);
}

#[test]
fn from_bools_and_back() {
    let pattern = parse("1011010011100001011");
    let b = bits(&pattern);
    assert_eq!(b.len(), 19);
    assert_eq!(b.to_bools(), pattern);
}

#[test]
fn clone_and_to_owned_copy_the_bits() {
    let b = bits(&parse("110010"));
    let c = b.clone();
    let d = b.to_owned();
    assert_eq!(c.to_bools(), parse("110010"));
    assert_eq!(d.to_bools(), parse("110010"));
    assert!(b.same(&c));
    assert!(b.same(&d));
}

#[test]
fn same_tells_bit_strings_apart() {
    assert!(bits(&parse("101")).same(&bits(&parse("101"))));
    assert!(!bits(&parse("101")).same(&bits(&parse("100"))));
    assert!(!bits(&parse("101")).same(&bits(&parse("1010"))));
    assert!(bits(&[]).same(&Bits::new()));
}

#[test]
fn extend_and_slice() {
    let mut a = bits(&parse("11"));
    let b = bits(&parse("0010"));
    a.extend_from_bits(&b);
    assert_eq!(a.to_bools(), parse("110010"));
    a.extend_from_range(&b, 1, 3);
    assert_eq!(a.to_bools(), parse("11001001"));
    assert_eq!(a.slice(2, 6).to_bools(), parse("0010"));
    assert_eq!(a.slice(3, 3).to_bools(), parse(""));
}

#[test]
fn take_chunk_cuts_full_and_last_pieces() {
    let b = bits(&parse("1101001"));
    assert_eq!(take_chunk(&b, 3, 0).to_bools(), parse("110"));
    assert_eq!(take_chunk(&b, 3, 1).to_bools(), parse("100"));
    assert_eq!(take_chunk(&b, 3, 2).to_bools(), parse("1"));
    let even = bits(&parse("110100"));
    assert_eq!(take_chunk(&even, 3, 2).to_bools(), parse(""));
}

#[test]
fn push_le_writes_least_significant_bit_first() {
    let mut b = Bits::new();
    push_le(&mut b, 5, 4);
    assert_eq!(b.to_bools(), parse("1010"));
    push_le(&mut b, 77, 12);
    assert_eq!(b.to_bools(), parse("1010101100100000"));
    push_le(&mut b, 9, 0);
    assert_eq!(b.len(), 16);
}

#[test]
fn push_le_keeps_only_the_low_bits() {
    let mut b = Bits::new();
    push_le(&mut b, 0b1_0110, 4);
    assert_eq!(b.to_bools(), parse("0110"));
}

#[test]
fn read_le_reads_back_what_push_le_wrote() {
    let mut b = bits(&parse("111"));
    push_le(&mut b, 3000, 12);
    push_le(&mut b, 9, 4);
    assert_eq!(read_le(&b, 3, 12), 3000);
    assert_eq!(read_le(&b, 15, 4), 9);
    assert_eq!(read_le(&b, 0, 3), 7);
    assert_eq!(read_le(&b, 0, 0), 0);
}

#[test]
fn checksum_of_the_standard_test_string() {
    // CRC-8 with polynomial 0x07 over "123456789", most significant bit first.
    let mut message = Vec::new();
    for byte in "123456789".bytes() {
        for i in (0..8).rev() {
            message.push((byte >> i) & 1 == 1);
        }
    }
    let b = bits(&message);
    assert_eq!(checksum(&b, b.len()), 0xF4);
}

#[test]
fn checksum_of_short_strings() {
    assert_eq!(checksum(&bits(&[]), 0), 0);
    assert_eq!(checksum(&bits(&[true]), 1), 7);
    assert_eq!(checksum(&bits(&[true, false]), 2), 14);
    assert_eq!(checksum(&bits(&[false; 5]), 5), 0);
    assert_eq!(checksum(&bits(&[true; 8]), 8), 243);
    // only the first `end` bits count
    assert_eq!(checksum(&bits(&[true, false, true, true]), 2), 14);
}

#[test]
fn crc_feed_steps() {
    assert_eq!(crc_feed(0, false), 0);
    assert_eq!(crc_feed(0, true), 7);
    assert_eq!(crc_feed(0x80, false), 7);
    assert_eq!(crc_feed(0x80, true), 0);
    assert_eq!(crc_feed(0x41, false), 0x82);
}
