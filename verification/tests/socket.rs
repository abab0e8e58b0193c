use athernet::ather::{AtherOutputStream, AtherStreamConfig, Lead};
use athernet::bits::Bits;
use athernet::daemon::{SocketDaemon, Verdict};
use athernet::decode::AtherDecoder;
use athernet::error::AcsmaIoError;
use athernet::frame::{FrameFlag, FrameType, MacFrame};
use athernet::socket::{
    encode_packet, frame_packet, AcsmaSocketConfig, AcsmaSocketReader, AcsmaSocketWriter,
    PerfMeter, WriteCursor, WriteStep,
};
use athernet::timer::{AcsmaSocketWriteTask, Completion};
use rand::rngs::SmallRng;
use rand::SeedableRng;

fn bits(bools: &[bool]) -> Bits {
    Bits::from_bools(&bools.to_vec())
}

fn pattern(len: usize) -> Vec<bool> {
    (0..len).map(|i| (i * 5 + i / 7) % 3 == 1).collect()
}

fn config(address: usize) -> AcsmaSocketConfig {
    AcsmaSocketConfig::new(address, AtherStreamConfig::new(24000, 1000, 48000))
}

/// Carries bits from one station's output to the other's decoder, noiseless.
fn over_the_air(wire: &Bits) -> Vec<Bits> {
    let ather = AtherStreamConfig::new(24000, 1000, 48000);
    let stream = AtherOutputStream::new(ather);
    let mut decoder = AtherDecoder::new(&ather);
    let mut heard = Vec::new();
    for frame in stream.write(wire).iter().filter(|f| f.lead == Lead::Preamble) {
        decoder.on_sync(decoder.preamble_len, 0, true).unwrap();
        for symbol in frame.length.iter().chain(frame.body.iter()) {
            if let Some(payload) = decoder.on_symbol(symbol.bit()) {
                heard.push(payload);
            }
        }
    }
    heard
}

#[test]
fn a_packet_is_cut_into_numbered_frames() {
    let payload = pattern(200);
    let frames = frame_packet(&bits(&payload), 1, 2, 1000);
    assert_eq!(frames.len(), 3);
    for (i, frame) in frames.iter().enumerate() {
        assert_eq!(frame.kind(), FrameType::Data);
        assert_eq!(frame.header().dest, 2);
        assert_eq!(frame.header().src, 1);
        assert_eq!(frame.header().seq, 1000 + i);
        assert_eq!(frame.header().flag.eop, i == 2);
        assert!(frame.is_valid());
    }
    assert_eq!(frames[0].payload().unwrap().to_bools(), payload[0..96].to_vec());
    assert_eq!(frames[1].payload().unwrap().to_bools(), payload[96..192].to_vec());
    assert_eq!(frames[2].payload().unwrap().to_bools(), payload[192..200].to_vec());
}

#[test]
fn a_packet_of_full_frames_has_no_empty_one() {
    let frames = frame_packet(&bits(&pattern(192)), 1, 2, 0);
    assert_eq!(frames.len(), 2);
    assert!(!frames[0].header().flag.eop);
    assert!(frames[1].header().flag.eop);
    assert_eq!(frames[1].payload().unwrap().len(), 96);
    let one = frame_packet(&bits(&pattern(1)), 1, 2, 4095);
    assert_eq!(one.len(), 1);
    assert_eq!(one[0].header().seq, 4095);
    assert!(one[0].header().flag.eop);
}

#[test]
fn nothing_to_write_gives_no_frames() {
    assert!(frame_packet(&Bits::new(), 1, 2, 7).is_empty());
    let mut rng = SmallRng::seed_from_u64(1);
    assert!(encode_packet(&mut rng, &Bits::new(), 1, 2).is_empty());
}

#[test]
fn the_base_is_drawn_so_that_numbers_fit() {
    let mut rng = SmallRng::seed_from_u64(2);
    let payload = bits(&pattern(4000));
    let mut bases = Vec::new();
    for _ in 0..50 {
        let frames = encode_packet(&mut rng, &payload, 1, 2);
        assert_eq!(frames.len(), 42);
        let base = frames[0].header().seq;
        assert!(base + 4000 < 4096);
        for (i, frame) in frames.iter().enumerate() {
            assert_eq!(frame.header().seq, base + i);
            assert_eq!(frame.header().flag.eop, i == 41);
        }
        bases.push(base);
    }
    assert!(bases.iter().any(|b| *b != bases[0]));
}

#[test]
fn sequence_numbers_rise_and_one_frame_ends_the_packet() {
    let mut rng = SmallRng::seed_from_u64(4);
    let writer = AcsmaSocketWriter::new(config(1));
    let frames = writer.write(&mut rng, 2, &bits(&pattern(1000)));
    assert_eq!(frames.len(), 11);
    for pair in frames.windows(2) {
        assert!(pair[0].header().seq < pair[1].header().seq);
    }
    assert_eq!(frames.iter().filter(|f| f.header().flag.eop).count(), 1);
    assert!(frames.last().unwrap().header().flag.eop);
    assert!(frames.iter().all(|f| f.header().src == 1 && f.header().dest == 2));
}

#[test]
fn an_unchecked_write_is_broadcast() {
    let mut rng = SmallRng::seed_from_u64(4);
    let writer = AcsmaSocketWriter::new(config(1));
    let frames = writer.write_unchecked(&mut rng, &bits(&[true, false, true, false, true, false, true, true]));
    assert_eq!(frames.len(), 1);
    assert_eq!(frames[0].header().dest, 0);
    assert_eq!(frames[0].header().src, 1);
    assert!(frames[0].header().flag.eop);
}

#[test]
fn ping_and_probe_frames() {
    let writer = AcsmaSocketWriter::new(config(1));
    assert_eq!(writer.ping(2), MacFrame::ping_req(2, 1));
    let probe = writer.perf(2);
    assert_eq!(probe, MacFrame::data(2, 1, 0, FrameFlag::empty(), bits(&[false; 96])));
    assert!(probe.is_valid());
    assert_eq!(AcsmaSocketWriter::perf_timeout(), AcsmaIoError::PerfTimeout(10000));
}

#[test]
fn the_meter_averages_over_all_intervals() {
    let mut meter = PerfMeter::new();
    assert_eq!(meter.report(), 0);
    for _ in 0..10 {
        meter.record(96);
    }
    assert_eq!(meter.sent, 960);
    assert_eq!(meter.report(), 480);
    assert_eq!(meter.report(), 320);
    assert_eq!(meter.epochs, 3);
}

#[test]
fn a_read_joins_frames_in_order_of_sequence_number() {
    let payload = pattern(500);
    let frames = frame_packet(&bits(&payload), 1, 2, 100);
    assert_eq!(frames.len(), 6);
    let mut reader = AcsmaSocketReader::new();
    // the frames arrive shuffled, the last one last
    for i in [3usize, 0, 4, 1, 2] {
        assert!(reader.read(1, frames[i].clone()).is_none());
    }
    let packet = reader.read(1, frames[5].clone()).unwrap();
    assert_eq!(packet.to_bools(), payload);
    assert!(reader.bucket.is_empty());
}

#[test]
fn a_read_passes_over_duplicates_and_strangers() {
    let payload = pattern(250);
    let frames = frame_packet(&bits(&payload), 1, 2, 7);
    let mut reader = AcsmaSocketReader::new();
    assert!(reader.read(1, frames[1].clone()).is_none());
    assert!(reader.read(1, frames[1].clone()).is_none());
    // a frame from another station, even one that ends a packet
    let stranger = MacFrame::data(2, 3, 8, FrameFlag::end_of_packet(), bits(&[true; 9]));
    assert!(reader.read(1, stranger).is_none());
    // frames that are no data
    assert!(reader.read(1, MacFrame::ping_req(2, 1)).is_none());
    assert!(reader.read(1, MacFrame::ack(2, 1, 7)).is_none());
    assert!(reader.read(1, frames[0].clone()).is_none());
    // the first payload under a sequence number stays
    let late = MacFrame::data(2, 1, 7, FrameFlag::empty(), bits(&[false; 5]));
    assert!(reader.read(1, late).is_none());
    assert_eq!(reader.bucket.len(), 2);
    let packet = reader.read(1, frames[2].clone()).unwrap();
    assert_eq!(packet.to_bools(), payload);
}

#[test]
fn an_early_end_of_packet_returns_what_is_there() {
    let payload = pattern(250);
    let frames = frame_packet(&bits(&payload), 1, 2, 7);
    let mut reader = AcsmaSocketReader::new();
    assert!(reader.read(1, frames[0].clone()).is_none());
    let packet = reader.read(1, frames[2].clone()).unwrap();
    let mut expected = payload[0..96].to_vec();
    expected.extend_from_slice(&payload[192..250]);
    assert_eq!(packet.to_bools(), expected);
}

#[test]
fn an_unchecked_read_listens_to_everybody() {
    let mut reader = AcsmaSocketReader::new();
    let a = MacFrame::data(0, 3, 11, FrameFlag::empty(), bits(&[true, true]));
    let b = MacFrame::data(0, 4, 10, FrameFlag::end_of_packet(), bits(&[false]));
    assert!(reader.read_unchecked(MacFrame::ping_req(0, 3)).is_none());
    assert!(reader.read_unchecked(a).is_none());
    let packet = reader.read_unchecked(b).unwrap();
    assert_eq!(packet.to_bools(), vec![false, true, true]);
}

#[test]
fn finish_hands_out_an_unfinished_packet() {
    let payload = pattern(150);
    let frames = frame_packet(&bits(&payload), 1, 2, 50);
    let mut reader = AcsmaSocketReader::new();
    assert_eq!(reader.finish().len(), 0);
    assert!(reader.read(1, frames[0].clone()).is_none());
    let packet = reader.finish();
    assert_eq!(packet.to_bools(), payload[0..96].to_vec());
    assert!(reader.bucket.is_empty());
}

#[test]
fn a_thousand_bits_from_one_socket_to_the_other() {
    let mut rng = SmallRng::seed_from_u64(6);
    let payload: Vec<bool> = [true, false, true, true, false, true, false, false]
        .iter()
        .cycle()
        .take(1000)
        .copied()
        .collect();
    let writer = AcsmaSocketWriter::new(config(1));
    let mut a = SocketDaemon::new(1, 128);
    let mut b = SocketDaemon::new(2, 128);
    let mut reader = AcsmaSocketReader::new();
    let mut now: u64 = 0;
    let mut received = None;
    for (ticket, frame) in writer.write(&mut rng, 2, &bits(&payload)).into_iter().enumerate() {
        let task = AcsmaSocketWriteTask { frame, ticket: ticket as u64 };
        // wait out the empty back-off that the last acknowledgement left
        while !a.is_idle() {
            now += 50;
            a.tick(now, &mut rng);
        }
        let (wire, attempt) = match a.accept(task, true, now, &mut rng) {
            Verdict::Transmit { bits, attempt } => (bits, attempt),
            _ => panic!("expected a transmission"),
        };
        a.settle(attempt, true, now, &mut rng);
        let mut completed = None;
        for heard in over_the_air(&wire) {
            let reaction = b.receive(&heard, now, &mut rng);
            if let Some(frame) = reaction.forward {
                if let Some(packet) = reader.read(1, frame) {
                    received = Some(packet);
                }
            }
            if let Some(reply) = reaction.reply {
                for back in over_the_air(&reply) {
                    if let Some(done) = a.receive(&back, now, &mut rng).completed {
                        completed = Some(done);
                    }
                }
            }
        }
        assert_eq!(completed, Some(Completion { ticket: ticket as u64, result: Ok(()) }));
    }
    assert_eq!(received.unwrap().to_bools(), payload);
    assert!(now <= 5000);
}

#[test]
fn a_write_queues_its_frames_in_order() {
    let frames = frame_packet(&bits(&pattern(200)), 1, 2, 10);
    let mut cursor = WriteCursor::new(frame_packet(&bits(&pattern(200)), 1, 2, 10));
    assert_eq!(cursor.step(None), WriteStep::Send(frames[0].clone()));
    assert_eq!(cursor.step(Some(Ok(()))), WriteStep::Send(frames[1].clone()));
    assert_eq!(cursor.step(Some(Ok(()))), WriteStep::Send(frames[2].clone()));
    assert_eq!(cursor.queued, 3);
    assert_eq!(cursor.step(Some(Ok(()))), WriteStep::Done(Ok(())));
    assert_eq!(cursor.step(Some(Ok(()))), WriteStep::Done(Ok(())));
}

#[test]
fn a_write_ends_with_the_first_failure() {
    let frames = frame_packet(&bits(&pattern(200)), 1, 2, 10);
    let mut cursor = WriteCursor::new(frame_packet(&bits(&pattern(200)), 1, 2, 10));
    assert_eq!(cursor.step(None), WriteStep::Send(frames[0].clone()));
    assert_eq!(
        cursor.step(Some(Err(AcsmaIoError::LinkError(11)))),
        WriteStep::Done(Err(AcsmaIoError::LinkError(11)))
    );
    assert_eq!(cursor.queued, 1);
}

#[test]
fn a_write_of_nothing_is_done_at_once() {
    let mut cursor = WriteCursor::new(Vec::new());
    assert_eq!(cursor.step(None), WriteStep::Done(Ok(())));
}
