use athernet::ather::{
    create_warmup, encode_bits, encode_number, encode_packet, AtherFrame, AtherOutputStream,
    AtherStreamConfig, Lead, Symbol,
};
use athernet::bits::Bits;
use athernet::decode::{AtherDecoder, DecodePhase, Demand};
use athernet::input::{AtherInputStream, AtherInputTaskState, Polled};

fn bits(bools: &[bool]) -> Bits {
    Bits::from_bools(&bools.to_vec())
}

fn pattern(len: usize) -> Vec<bool> {
    (0..len).map(|i| (i * 7 + i / 3) % 5 < 2).collect()
}

fn config() -> AtherStreamConfig {
    AtherStreamConfig::new(24000, 1000, 48000)
}

/// Reads one frame's symbols with the decoder, as a noiseless channel gives them.
fn decode_frame(decoder: &mut AtherDecoder, frame: &AtherFrame) -> Option<Vec<bool>> {
    let buffered = decoder.preamble_len + 10;
    assert_eq!(decoder.on_sync(buffered, 3, true), Some(3 + decoder.preamble_len));
    let mut out = None;
    for symbol in frame.length.iter().chain(frame.body.iter()) {
        assert!(out.is_none());
        assert_eq!(decoder.demand(decoder.symbol_len), Demand::Demodulate);
        out = decoder.on_symbol(symbol.bit()).map(|b| b.to_bools());
    }
    out
}

#[test]
fn config_lengths() {
    let config = config();
    assert!(config.is_valid());
    assert_eq!(config.symbol_len(), 48);
    assert_eq!(config.preamble_len(), 48 * 48);
    assert_eq!(config.warmup_len(), 8 * 48);
    assert!(!AtherStreamConfig::new(24000, 0, 48000).is_valid());
    assert!(!AtherStreamConfig::new(24000, 48001, 48000).is_valid());
    assert!(AtherStreamConfig::new(24000, 48000, 48000).is_valid());
    assert_eq!(AtherStreamConfig::new(24000, 7000, 48000).symbol_len(), 6);
}

#[test]
fn symbols_carry_bits() {
    assert_eq!(Symbol::from_bit(false), Symbol::Zero);
    assert_eq!(Symbol::from_bit(true), Symbol::One);
    assert!(!Symbol::Zero.bit());
    assert!(Symbol::One.bit());
    assert_eq!(
        encode_bits(&bits(&[true, false, false, true])),
        vec![Symbol::One, Symbol::Zero, Symbol::Zero, Symbol::One]
    );
    assert_eq!(encode_bits(&Bits::new()), Vec::<Symbol>::new());
}

#[test]
fn numbers_go_least_significant_bit_first() {
    let (one, zero) = (Symbol::One, Symbol::Zero);
    assert_eq!(encode_number(5, 7), vec![one, zero, one, zero, zero, zero, zero]);
    assert_eq!(encode_number(127, 7), vec![one; 7]);
    assert_eq!(encode_number(64, 7), vec![zero, zero, zero, zero, zero, zero, one]);
    assert_eq!(encode_number(0, 64), vec![zero; 64]);
}

#[test]
fn warmup_frame_is_a_word_of_zeros() {
    let frame = create_warmup();
    assert_eq!(frame.lead, Lead::Warmup);
    assert_eq!(frame.length, vec![Symbol::Zero; 64]);
    assert!(frame.body.is_empty());
}

#[test]
fn a_short_bit_string_takes_one_frame() {
    let payload = pattern(10);
    let frames = encode_packet(&bits(&payload));
    assert_eq!(frames.len(), 1);
    assert_eq!(frames[0].lead, Lead::Preamble);
    assert_eq!(frames[0].length, encode_number(10, 7));
    assert_eq!(frames[0].body, encode_bits(&bits(&payload)));
}

#[test]
fn an_empty_bit_string_takes_one_empty_frame() {
    let frames = encode_packet(&Bits::new());
    assert_eq!(frames.len(), 1);
    assert_eq!(frames[0].length, vec![Symbol::Zero; 7]);
    assert!(frames[0].body.is_empty());
}

#[test]
fn a_full_frame_is_followed_by_an_empty_one() {
    let payload = pattern(127);
    let frames = encode_packet(&bits(&payload));
    assert_eq!(frames.len(), 2);
    assert_eq!(frames[0].length, vec![Symbol::One; 7]);
    assert_eq!(frames[0].body.len(), 127);
    assert_eq!(frames[1].length, vec![Symbol::Zero; 7]);
    assert!(frames[1].body.is_empty());
    let twice = encode_packet(&bits(&pattern(254)));
    assert_eq!(twice.len(), 3);
    assert_eq!(twice[1].body.len(), 127);
    assert!(twice[2].body.is_empty());
}

#[test]
fn a_longer_bit_string_ends_with_a_short_frame() {
    let payload = pattern(300);
    let frames = encode_packet(&bits(&payload));
    assert_eq!(frames.len(), 3);
    assert_eq!(frames[0].body.len(), 127);
    assert_eq!(frames[1].body.len(), 127);
    assert_eq!(frames[2].body.len(), 46);
    assert_eq!(frames[2].length, encode_number(46, 7));
    let joined: Vec<bool> =
        frames.iter().flat_map(|f| f.body.iter().map(|s| s.bit())).collect();
    assert_eq!(joined, payload);
    assert_eq!(encode_packet(&bits(&pattern(128))).len(), 2);
}

#[test]
fn a_write_opens_with_the_warmup() {
    let stream = AtherOutputStream::new(config());
    let payload = pattern(130);
    let frames = stream.write(&bits(&payload));
    assert_eq!(frames.len(), 3);
    assert_eq!(frames[0], create_warmup());
    assert_eq!(&frames[1..], &encode_packet(&bits(&payload))[..]);
}

#[test]
fn what_is_encoded_decodes_to_itself() {
    let mut decoder = AtherDecoder::new(&config());
    for len in [0usize, 1, 2, 7, 31, 64, 96, 126, 127] {
        let payload = pattern(len);
        let frames = encode_packet(&bits(&payload));
        assert_eq!(decode_frame(&mut decoder, &frames[0]), Some(payload));
        assert!(matches!(decoder.phase, DecodePhase::Preamble));
    }
}

#[test]
fn a_write_of_many_frames_decodes_frame_by_frame() {
    let stream = AtherOutputStream::new(config());
    let payload = pattern(400);
    let frames = stream.write(&bits(&payload));
    let mut decoder = AtherDecoder::new(&config());
    let mut joined = Vec::new();
    let mut lengths = Vec::new();
    for frame in frames.iter().filter(|f| f.lead == Lead::Preamble) {
        let part = decode_frame(&mut decoder, frame).unwrap();
        lengths.push(part.len());
        joined.extend(part);
    }
    assert_eq!(lengths, vec![127, 127, 127, 19]);
    assert_eq!(joined, payload);
}

#[test]
fn the_decoder_asks_for_what_it_needs() {
    let mut decoder = AtherDecoder::new(&config());
    assert_eq!(decoder.preamble_len, 2304);
    assert_eq!(decoder.symbol_len, 48);
    assert_eq!(decoder.demand(0), Demand::Pull);
    assert_eq!(decoder.demand(2303), Demand::Pull);
    assert_eq!(decoder.demand(2304), Demand::Synchronize);
    assert_eq!(decoder.on_sync(3000, 0, true), Some(2304));
    assert_eq!(decoder.demand(47), Demand::Pull);
    assert_eq!(decoder.demand(48), Demand::Demodulate);
    assert_eq!(decoder.demand(2304), Demand::Demodulate);
}

#[test]
fn a_search_locks_only_on_a_strong_peak_inside_the_buffer() {
    let mut decoder = AtherDecoder::new(&config());
    // nothing found
    assert_eq!(decoder.on_sync(5000, -1, true), None);
    // a weak peak
    assert_eq!(decoder.on_sync(5000, 100, false), None);
    // the preamble runs past the end of the buffer
    assert_eq!(decoder.on_sync(5000, 2697, true), None);
    assert!(matches!(decoder.phase, DecodePhase::Preamble));
    // the preamble ends with the buffer
    assert_eq!(decoder.on_sync(5000, 2696, true), Some(5000));
    assert!(matches!(decoder.phase, DecodePhase::Length { index: 0, length: 0 }));
    // inside a frame a search result means nothing
    assert_eq!(decoder.on_sync(5000, 0, true), None);
    assert!(matches!(decoder.phase, DecodePhase::Length { index: 0, length: 0 }));
}

#[test]
fn a_symbol_outside_a_frame_is_passed_over() {
    let mut decoder = AtherDecoder::new(&config());
    assert!(decoder.on_symbol(true).is_none());
    assert!(matches!(decoder.phase, DecodePhase::Preamble));
}

#[test]
fn reset_gives_up_the_frame() {
    let mut decoder = AtherDecoder::new(&config());
    decoder.on_sync(5000, 0, true);
    decoder.on_symbol(true);
    decoder.on_symbol(true);
    assert!(matches!(decoder.phase, DecodePhase::Length { index: 2, length: 3 }));
    decoder.reset();
    assert!(matches!(decoder.phase, DecodePhase::Preamble));
}

#[test]
fn the_length_field_is_read_bit_by_bit() {
    let mut decoder = AtherDecoder::new(&config());
    decoder.on_sync(5000, 0, true);
    // 3 = 1100000, least significant bit first
    for one in [true, true, false, false, false, false] {
        assert!(decoder.on_symbol(one).is_none());
    }
    assert!(matches!(decoder.phase, DecodePhase::Length { index: 6, length: 3 }));
    assert!(decoder.on_symbol(false).is_none());
    assert!(matches!(decoder.phase, DecodePhase::Payload { length: 3, .. }));
    assert!(decoder.on_symbol(true).is_none());
    assert!(decoder.on_symbol(false).is_none());
    assert_eq!(decoder.on_symbol(true).map(|b| b.to_bools()), Some(vec![true, false, true]));
}

#[test]
fn polling_an_idle_stream_starts_the_task() {
    let mut stream = AtherInputStream::new(config());
    assert!(matches!(stream.task, AtherInputTaskState::Pending));
    assert!(matches!(stream.poll_next(), Polled::Pending { start: true }));
    assert!(matches!(stream.task, AtherInputTaskState::Running));
    assert!(matches!(stream.poll_next(), Polled::Pending { start: false }));
    assert!(matches!(stream.task, AtherInputTaskState::Running));
}

#[test]
fn a_decoded_payload_reaches_the_reader() {
    let mut stream = AtherInputStream::new(config());
    stream.poll_next();
    assert!(stream.complete(bits(&[true, false])));
    match stream.poll_next() {
        Polled::Ready(Some(b)) => assert_eq!(b.to_bools(), vec![true, false]),
        _ => panic!("expected a payload"),
    }
    assert!(matches!(stream.task, AtherInputTaskState::Pending));
}

#[test]
fn a_payload_nobody_waits_for_is_dropped() {
    let mut stream = AtherInputStream::new(config());
    assert!(!stream.complete(bits(&[true])));
    assert!(matches!(stream.task, AtherInputTaskState::Pending));
    stream.poll_next();
    assert!(stream.complete(bits(&[true])));
    // a second payload does not replace the one that waits
    assert!(!stream.complete(bits(&[false, false])));
    match stream.poll_next() {
        Polled::Ready(Some(b)) => assert_eq!(b.to_bools(), vec![true]),
        _ => panic!("expected a payload"),
    }
}

#[test]
fn suspending_wakes_a_waiting_reader_and_ends_the_stream() {
    let mut stream = AtherInputStream::new(config());
    stream.poll_next();
    assert!(stream.suspend());
    assert!(matches!(stream.task, AtherInputTaskState::Suspended(None)));
    assert!(matches!(stream.poll_next(), Polled::Ready(None)));
    assert!(matches!(stream.task, AtherInputTaskState::Suspended(None)));
    stream.resume();
    assert!(matches!(stream.task, AtherInputTaskState::Pending));
}

#[test]
fn suspending_parks_a_ready_payload() {
    let mut stream = AtherInputStream::new(config());
    stream.poll_next();
    stream.complete(bits(&[true, true]));
    assert!(!stream.suspend());
    assert!(matches!(stream.task, AtherInputTaskState::Suspended(Some(_))));
    stream.resume();
    assert!(matches!(stream.task, AtherInputTaskState::Completed(_)));
    assert!(!stream.suspend());
    match stream.poll_next() {
        Polled::Ready(Some(b)) => assert_eq!(b.to_bools(), vec![true, true]),
        _ => panic!("expected the parked payload"),
    }
    assert!(matches!(stream.task, AtherInputTaskState::Suspended(None)));
}

#[test]
fn suspend_and_resume_leave_other_states_alone() {
    let mut stream = AtherInputStream::new(config());
    assert!(!stream.suspend());
    assert!(matches!(stream.task, AtherInputTaskState::Pending));
    stream.resume();
    assert!(matches!(stream.task, AtherInputTaskState::Pending));
    stream.poll_next();
    stream.resume();
    assert!(matches!(stream.task, AtherInputTaskState::Running));
    let taken = stream.task.take();
    assert!(matches!(taken, AtherInputTaskState::Running));
    assert!(matches!(stream.task, AtherInputTaskState::Suspended(None)));
}

#[test]
fn closing_ends_the_stream_after_the_payload_that_is_ready() {
    let mut stream = AtherInputStream::new(config());
    stream.poll_next();
    stream.complete(bits(&[false, true]));
    stream.decoder.on_sync(5000, 0, true);
    assert!(!stream.close());
    assert!(matches!(stream.decoder.phase, DecodePhase::Preamble));
    match stream.poll_next() {
        Polled::Ready(Some(b)) => assert_eq!(b.to_bools(), vec![false, true]),
        _ => panic!("expected the payload that was ready"),
    }
    assert!(matches!(stream.poll_next(), Polled::Ready(None)));
    // a reader that waits is woken to find the end
    let mut waiting = AtherInputStream::new(config());
    waiting.poll_next();
    assert!(waiting.close());
    assert!(matches!(waiting.poll_next(), Polled::Ready(None)));
}
