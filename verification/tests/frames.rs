use athernet::bits::Bits;
use athernet::frame::{DecodeError, FrameFlag, FrameHeader, FrameType, MacFrame};
use athernet::wire::{checksum, push_le};

fn bits(bools: &[bool]) -> Bits {
    Bits::from_bools(&bools.to_vec())
}

fn parse(text: &str) -> Vec<bool> {
    text.chars().map(|c| c == '1').collect()
}

#[test]
fn data_frame_round_trip() {
    let payload = bits(&[true, false, true, true, false, true, false, false]);
    let frame = MacFrame::data(2, 1, 77, FrameFlag::end_of_packet(), payload);
    assert!(frame.is_valid());
    let wire = frame.encode();
    assert_eq!(wire.len(), 23 + 8 + 8);
    let back = MacFrame::decode(&wire).unwrap();
    assert_eq!(back, frame);
    assert!(back.same(&frame));
    assert_eq!(back.kind(), FrameType::Data);
    assert_eq!(back.header().seq, 77);
    assert!(back.header().flag.eop);
    assert_eq!(back.payload().unwrap().to_bools(), parse("10110100"));
}

#[test]
fn data_frame_exact_bits() {
    let payload = bits(&parse("10110100"));
    let frame = MacFrame::data(2, 1, 77, FrameFlag::end_of_packet(), payload);
    assert_eq!(frame.encode().to_bools(), parse("001010010001011001000001011010011001110"));
}

#[test]
fn ack_frame_layout() {
    let frame = MacFrame::ack(1, 2, 5);
    let wire = frame.encode().to_bools();
    assert_eq!(wire.len(), 31);
    // type = 1, least significant bit first
    assert_eq!(&wire[0..2], &[true, false]);
    // flag
    assert_eq!(&wire[2..3], &[false]);
    // dest = 1
    assert_eq!(&wire[3..7], &[true, false, false, false]);
    // src = 2
    assert_eq!(&wire[7..11], &[false, true, false, false]);
    // seq = 5
    assert_eq!(
        &wire[11..23],
        &[true, false, true, false, false, false, false, false, false, false, false, false]
    );
    // checksum = 14
    assert_eq!(&wire[23..31], &[false, true, true, true, false, false, false, false]);
    assert_eq!(wire, parse("1001000010010100000000001110000"));
}

#[test]
fn every_kind_round_trips() {
    let frames = vec![
        MacFrame::data(15, 0, 4095, FrameFlag::empty(), bits(&[true; 96])),
        MacFrame::data(3, 4, 0, FrameFlag::end_of_packet(), bits(&[])),
        MacFrame::ack(15, 15, 4095),
        MacFrame::ping_req(7, 9),
        MacFrame::ping_resp(9, 7),
    ];
    for frame in frames {
        assert!(frame.is_valid());
        let wire = frame.encode();
        assert!(wire.len() >= 31 && wire.len() <= 127);
        assert_eq!(MacFrame::decode(&wire), Ok(frame));
    }
}

#[test]
fn full_frame_is_one_audio_frame_long() {
    let frame = MacFrame::data(1, 2, 3, FrameFlag::empty(), bits(&[false; 96]));
    assert_eq!(frame.encode().len(), 127);
}

#[test]
fn ping_frames_have_sequence_zero() {
    let req = MacFrame::ping_req(2, 1);
    assert_eq!(req.kind(), FrameType::MacPingReq);
    assert_eq!(
        *req.header(),
        FrameHeader { dest: 2, src: 1, seq: 0, flag: FrameFlag::empty() }
    );
    assert!(req.payload().is_none());
    let resp = MacFrame::ping_resp(1, 2);
    assert_eq!(resp.kind(), FrameType::MacPingResp);
    assert_eq!(
        *resp.header(),
        FrameHeader { dest: 1, src: 2, seq: 0, flag: FrameFlag::empty() }
    );
}

#[test]
fn flipped_bit_fails_checksum() {
    let frame = MacFrame::ack(1, 2, 5);
    let good = frame.encode().to_bools();
    for flip in 0..good.len() {
        let mut wire = good.clone();
        wire[flip] = !wire[flip];
        assert_eq!(MacFrame::decode(&bits(&wire)), Err(DecodeError::Checksum));
    }
}

#[test]
fn short_and_long_bits_are_rejected() {
    assert_eq!(MacFrame::decode(&bits(&[true; 30])), Err(DecodeError::TooShort));
    assert_eq!(MacFrame::decode(&bits(&[])), Err(DecodeError::TooShort));
    assert_eq!(MacFrame::decode(&bits(&[false; 128])), Err(DecodeError::TooLong));
}

#[test]
fn payload_on_an_ack_is_rejected() {
    // an acknowledgement's header, then four bits that should not be there
    let mut wire = Bits::new();
    push_le(&mut wire, 1, 2);
    push_le(&mut wire, 0, 1);
    push_le(&mut wire, 1, 4);
    push_le(&mut wire, 2, 4);
    push_le(&mut wire, 5, 12);
    push_le(&mut wire, 0b1010, 4);
    let crc = checksum(&wire, wire.len());
    push_le(&mut wire, crc as usize, 8);
    assert_eq!(MacFrame::decode(&wire), Err(DecodeError::Payload));
}

#[test]
fn validity_follows_the_field_widths() {
    assert!(MacFrame::ack(15, 15, 4095).is_valid());
    assert!(!MacFrame::ack(16, 1, 0).is_valid());
    assert!(!MacFrame::ack(1, 16, 0).is_valid());
    assert!(!MacFrame::ack(1, 1, 4096).is_valid());
    assert!(MacFrame::data(1, 2, 3, FrameFlag::empty(), bits(&[true; 96])).is_valid());
    assert!(!MacFrame::data(1, 2, 3, FrameFlag::empty(), bits(&[true; 97])).is_valid());
    assert!(FrameHeader { dest: 0, src: 0, seq: 0, flag: FrameFlag::empty() }.is_valid());
}

#[test]
fn answers_correspond_by_kind() {
    let data = MacFrame::data(2, 1, 9, FrameFlag::empty(), bits(&[true]));
    let ack = MacFrame::ack(1, 2, 9);
    let req = MacFrame::ping_req(2, 1);
    let resp = MacFrame::ping_resp(1, 2);
    assert!(data.corresponds(&ack));
    assert!(req.corresponds(&resp));
    assert!(!data.corresponds(&resp));
    assert!(!req.corresponds(&ack));
    assert!(!ack.corresponds(&data));
    assert!(!data.corresponds(&data));
}

#[test]
fn same_compares_kind_header_and_payload() {
    let a = MacFrame::data(2, 1, 9, FrameFlag::empty(), bits(&[true, false]));
    assert!(a.same(&a.clone()));
    assert!(!a.same(&MacFrame::data(2, 1, 9, FrameFlag::empty(), bits(&[true, true]))));
    assert!(!a.same(&MacFrame::data(2, 1, 10, FrameFlag::empty(), bits(&[true, false]))));
    assert!(!a.same(&MacFrame::data(2, 1, 9, FrameFlag::end_of_packet(), bits(&[true, false]))));
    assert!(!MacFrame::ack(1, 2, 0).same(&MacFrame::ping_resp(1, 2)));
    assert!(MacFrame::ping_req(1, 2).same(&MacFrame::ping_req(1, 2)));
}

#[test]
fn frame_type_tags() {
    assert_eq!(FrameType::Data.tag(), 0);
    assert_eq!(FrameType::Ack.tag(), 1);
    assert_eq!(FrameType::MacPingReq.tag(), 2);
    assert_eq!(FrameType::MacPingResp.tag(), 3);
    for tag in 0..4 {
        assert_eq!(FrameType::from_tag(tag).tag(), tag);
    }
    assert_eq!(FrameType::from_tag(6), FrameType::MacPingReq);
}

#[test]
fn flags_contain() {
    let none = FrameFlag::empty();
    let eop = FrameFlag::end_of_packet();
    assert!(eop.contains(eop));
    assert!(eop.contains(none));
    assert!(none.contains(none));
    assert!(!none.contains(eop));
}
