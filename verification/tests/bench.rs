use beava::bench::closed_loop::{Answer, Client, ClientAction, ClientEvent};
use beava::bench::open_loop::{
    Reader, ReaderAction, ReaderEvent, Writer, WriterAction, WriterEvent,
};
use beava::bench::ping::{
    Pacer, Receiver, ReceiverAction, ReceiverEvent, Sender, SenderAction, SenderEvent,
};
use beava::bench::{
    combine, connection_rps, elapsed_micros, interval_micros, ping, placement, Latencies,
    MAX_LATENCY_MICROS,
};
use beava::wire::FrameError;

const PONG: &[u8] = &[0, 0, 0, 5, 0, 0, 1, b'{', b'}'];

/// Microseconds as a point in time.
fn at(micros: u64) -> u64 {
    micros * 1000
}

#[test]
fn the_load_is_spread_evenly() {
    let shares: Vec<u64> = (0..4).map(|i| connection_rps(10, 4, i)).collect();
    assert_eq!(shares, [3, 3, 2, 2]);
    let shares: Vec<u64> = (0..64).map(|i| connection_rps(500_000, 64, i)).collect();
    assert_eq!(shares.iter().sum::<u64>(), 500_000);
    assert_eq!((shares[0], shares[31], shares[32], shares[63]), (7813, 7813, 7812, 7812));
    assert_eq!(connection_rps(u64::MAX, 1, 0), u64::MAX);
}

#[test]
fn intervals() {
    assert_eq!(interval_micros(1), 1_000_000);
    assert_eq!(interval_micros(7813), 127);
    assert_eq!(interval_micros(2_000_000), 0);
}

#[test]
fn readers_and_writers_are_apart() {
    assert_eq!(placement(0, 4), (0, 2));
    assert_eq!(placement(3, 4), (3, 1));
    assert_eq!(placement(6, 5), (1, 3));
    assert_eq!(placement(5, 1), (0, 0));
    for threads in 2..9 {
        for i in 0..20 {
            let (reader, writer) = placement(i, threads);
            assert_ne!(reader, writer);
            assert!(reader < threads && writer < threads);
        }
    }
}

#[test]
fn a_ping_in_full() {
    assert_eq!(&ping()[..], &[0, 0, 0, 3, 0, 0, 1][..]);
}

#[test]
fn times_are_cut_to_microseconds() {
    assert_eq!(elapsed_micros(1_500, 3_499), 1);
    assert_eq!(elapsed_micros(1_500, 3_500), 2);
    assert_eq!(elapsed_micros(9, 8), 0);
}

#[test]
fn latencies_are_told_apart_by_their_digits() {
    let mut latencies = Latencies::new(3);
    for micros in [2_047, 2_048, 2_049, 7, 7] {
        assert!(latencies.record(micros));
    }
    assert_eq!(latencies.len(), 5);
    assert_eq!(latencies.entries(), [(7, 2), (2_047, 1), (2_048, 2)]);
}

#[test]
fn the_range_ends_with_its_last_bucket() {
    for digits in [3, 4] {
        let mut latencies = Latencies::new(digits);
        assert!(latencies.record(MAX_LATENCY_MICROS));
        assert!(latencies.record(67_108_863));
        assert!(!latencies.record(67_108_864));
        assert!(!latencies.record(1 << 40));
        assert_eq!(latencies.len(), 2);
    }
}

#[test]
fn every_value_is_recorded_as_the_lowest_of_its_kind() {
    let sub_buckets = [2u64, 32, 256, 2_048, 32_768, 262_144];
    for digits in 0..=5u8 {
        let mut values = vec![0, 1, 2, 3, 31, 32, 33, 255, 257, 2_047, 2_049, 32_767, 32_769];
        values.extend([99_999, 262_143, 262_145, 1_234_567, 59_999_999, MAX_LATENCY_MICROS]);
        for value in values {
            let mut unit = 1;
            while value / unit >= sub_buckets[digits as usize] {
                unit *= 2;
            }
            let mut latencies = Latencies::new(digits);
            assert!(latencies.record(value));
            let sample = latencies.entries()[0].0;
            assert_eq!(sample, value / unit * unit);
            assert!(value == 0 || (value - sample) * 10u64.pow(digits as u32) < value);
        }
    }
}

#[test]
fn missed_latencies_are_filled_in() {
    let mut latencies = Latencies::new(4);
    assert!(latencies.record_corrected(1_050, 300));
    assert_eq!(latencies.entries(), [(450, 1), (750, 1), (1_050, 1)]);
    let mut latencies = Latencies::new(4);
    assert!(latencies.record_corrected(600, 300));
    assert!(latencies.record_corrected(300, 300));
    assert!(latencies.record_corrected(5, 0));
    assert_eq!(latencies.entries(), [(5, 1), (300, 2), (600, 1)]);
    assert!(!latencies.record_corrected(1 << 40, 1 << 38));
    assert_eq!(latencies.len(), 4);
}

#[test]
fn lowest_and_highest_latency() {
    let mut latencies = Latencies::new(3);
    assert_eq!((latencies.min(), latencies.max()), (0, 0));
    for micros in [5_003, 2_049, 4_097] {
        latencies.record(micros);
    }
    assert_eq!((latencies.min(), latencies.max()), (2_048, 5_003));
    let mut other = Latencies::new(3);
    other.record(7);
    other.record(70_000 / 7);
    other.merge(&latencies);
    assert_eq!((other.min(), other.max()), (7, 10_007));
    other.record(0);
    assert_eq!(other.min(), 0);
}

#[test]
fn events_are_tested_before_they_happen() {
    let reader = Reader::new();
    assert!(reader.accepts(&ReaderEvent::Started(1)));
    assert!(reader.accepts(&ReaderEvent::Received(vec![1])));
    assert!(!reader.accepts(&ReaderEvent::Now(1)));
    let client = Client::new(1, 1);
    assert!(client.accepts(&ClientEvent::Tick(1)));
    assert!(!client.accepts(&ClientEvent::Now(1)));
    let receiver = Receiver::new();
    assert!(receiver.accepts(&ReceiverEvent::Scheduled(None)));
    assert!(!receiver.accepts(&ReceiverEvent::Clock(None)));
    let mut sender = Sender::new(u64::MAX, Some(1), 2);
    assert!(sender.accepts(&SenderEvent::Now(0)));
    sender.step(SenderEvent::Now(0));
    assert!(!sender.accepts(&SenderEvent::Now(0)));
    assert!(Latencies::new(4).has_room(u64::MAX));
}

#[test]
fn runs_are_combined() {
    let mut first = Latencies::new(4);
    first.record(10);
    first.record(20);
    let mut second = Latencies::new(4);
    second.record(20);
    let empty = Latencies::new(4);
    let (total, combined) = combine(&vec![first, empty, second], 4);
    assert_eq!(total, 3);
    assert_eq!(combined.entries(), [(10, 1), (20, 2)]);
    let (total, combined) = combine(&vec![], 4);
    assert_eq!((total, combined.len()), (0, 0));
}

#[test]
fn a_writer_reports_what_it_has_sent() {
    let mut writer = Writer::new(100);
    for start in [0, 99] {
        assert_eq!(writer.step(WriterEvent::Tick(start)), WriterAction::Write);
        assert_eq!(writer.step(WriterEvent::Finished(true)), WriterAction::Flush);
        assert_eq!(writer.step(WriterEvent::Finished(true)), WriterAction::Report(start));
        assert_eq!(writer.step(WriterEvent::Finished(true)), WriterAction::Tick);
    }
    assert_eq!(writer.step(WriterEvent::Tick(100)), WriterAction::Shutdown);
    assert_eq!(writer.step(WriterEvent::Finished(false)), WriterAction::Done);
}

#[test]
fn a_writer_ends_when_something_fails() {
    for good in 0..3 {
        let mut writer = Writer::new(100);
        writer.step(WriterEvent::Tick(0));
        for _ in 0..good {
            writer.step(WriterEvent::Finished(true));
        }
        assert_eq!(writer.step(WriterEvent::Finished(false)), WriterAction::Shutdown);
        assert_eq!(writer.step(WriterEvent::Finished(true)), WriterAction::Done);
    }
}

#[test]
fn a_sender_keeps_to_its_schedule() {
    let mut sender = Sender::new(1_000, Some(50), 1_400);
    assert_eq!(sender.step(SenderEvent::Now(990)), SenderAction::TakeTime);
    assert_eq!(sender.step(SenderEvent::Now(991)), SenderAction::Sleep(9));
    assert_eq!(sender.step(SenderEvent::Slept), SenderAction::Report(1_000));
    assert_eq!(sender.step(SenderEvent::Finished(true)), SenderAction::Write);
    assert_eq!(sender.step(SenderEvent::Finished(true)), SenderAction::TakeTime);
    for due in [1_050, 1_100] {
        assert_eq!(sender.step(SenderEvent::Now(1_300)), SenderAction::TakeTime);
        assert_eq!(sender.step(SenderEvent::Now(1_300)), SenderAction::Report(due));
        assert_eq!(sender.step(SenderEvent::Finished(true)), SenderAction::Write);
        assert_eq!(sender.step(SenderEvent::Finished(true)), SenderAction::TakeTime);
    }
    assert_eq!(sender.step(SenderEvent::Now(1_400)), SenderAction::Done);
}

#[test]
fn a_sender_without_a_schedule_waits_for_each_answer() {
    let mut sender = Sender::new(1_000, None, 1_400);
    for now in [7, 900, 1_399] {
        assert_eq!(sender.step(SenderEvent::Now(now)), SenderAction::TakeTime);
        assert_eq!(sender.step(SenderEvent::Now(now)), SenderAction::Report(now));
        assert_eq!(sender.step(SenderEvent::Finished(true)), SenderAction::Write);
        assert_eq!(sender.step(SenderEvent::Finished(true)), SenderAction::AwaitAnswer);
        assert_eq!(sender.step(SenderEvent::Answered(true)), SenderAction::TakeTime);
    }
    assert_eq!(sender.step(SenderEvent::Now(1_400)), SenderAction::Done);
}

#[test]
fn a_sender_ends_where_no_answer_will_come() {
    let mut sender = Sender::new(1_000, None, 1_400);
    sender.step(SenderEvent::Now(7));
    sender.step(SenderEvent::Now(7));
    sender.step(SenderEvent::Finished(true));
    assert_eq!(sender.step(SenderEvent::Finished(true)), SenderAction::AwaitAnswer);
    assert_eq!(sender.step(SenderEvent::Answered(false)), SenderAction::Done);
}

#[test]
fn a_sender_ends_when_something_fails() {
    let mut sender = Sender::new(1_000, None, 1_400);
    assert_eq!(sender.step(SenderEvent::Now(7)), SenderAction::TakeTime);
    assert_eq!(sender.step(SenderEvent::Now(8)), SenderAction::Report(8));
    assert_eq!(sender.step(SenderEvent::Finished(false)), SenderAction::Done);
    let mut sender = Sender::new(1_000, None, 1_400);
    sender.step(SenderEvent::Now(7));
    sender.step(SenderEvent::Now(8));
    sender.step(SenderEvent::Finished(true));
    assert_eq!(sender.step(SenderEvent::Finished(false)), SenderAction::Done);
}

#[test]
fn answers_meet_their_pings_in_any_order() {
    let mut reader = Reader::new();
    let wait = ReaderAction::Wait { starts: true };
    // Two pings are known before their answers, ...
    assert_eq!(reader.step(ReaderEvent::Started(at(10))), wait);
    assert_eq!(reader.step(ReaderEvent::Started(at(20))), wait);
    let answers = [PONG, PONG, PONG, &PONG[..3]].concat();
    assert_eq!(reader.step(ReaderEvent::Received(answers)), ReaderAction::TakeTime);
    assert_eq!(reader.step(ReaderEvent::Now(at(110))), ReaderAction::TakeTime);
    assert_eq!(reader.step(ReaderEvent::Now(at(220))), ReaderAction::TakeTime);
    // ... and an answer before its ping.
    assert_eq!(reader.step(ReaderEvent::Now(at(330))), wait);
    assert_eq!(reader.step(ReaderEvent::Started(at(30))), wait);
    assert_eq!(reader.step(ReaderEvent::Started(at(40))), wait);
    assert_eq!(reader.step(ReaderEvent::StartsEnded), ReaderAction::Wait { starts: false });
    let rest = PONG[3..].to_vec();
    assert_eq!(reader.step(ReaderEvent::Received(rest)), ReaderAction::TakeTime);
    assert_eq!(reader.step(ReaderEvent::Now(at(440))), ReaderAction::Done);
    assert_eq!(
        reader.into_latencies().entries(),
        [(100, 1), (200, 1), (300, 1), (400, 1)]
    );
}

#[test]
fn a_reader_ends_with_its_connection() {
    let mut reader = Reader::new();
    reader.step(ReaderEvent::Started(at(10)));
    assert_eq!(reader.step(ReaderEvent::Received(vec![])), ReaderAction::Done);
    let mut reader = Reader::new();
    assert_eq!(reader.step(ReaderEvent::Failed), ReaderAction::Done);
    let mut reader = Reader::new();
    let malformed = vec![0, 0, 0, 1];
    assert_eq!(reader.step(ReaderEvent::Received(malformed)), ReaderAction::Done);
    let mut reader = Reader::new();
    assert_eq!(reader.step(ReaderEvent::StartsEnded), ReaderAction::Done);
    assert_eq!(reader.into_latencies().len(), 0);
}

#[test]
fn a_reader_ends_on_a_latency_without_a_place() {
    let mut reader = Reader::new();
    reader.step(ReaderEvent::Started(0));
    reader.step(ReaderEvent::Received(PONG.to_vec()));
    assert_eq!(reader.step(ReaderEvent::Now(at(1 << 40))), ReaderAction::Refused);
}

#[test]
fn the_schedule_does_not_slip() {
    let mut pacer = Pacer::new(1_000, Some(50));
    assert_eq!(pacer.wait(900), 100);
    assert_eq!(pacer.take(1_000), 1_000);
    assert_eq!(pacer.wait(1_020), 30);
    assert_eq!(pacer.take(1_500), 1_050);
    assert_eq!(pacer.wait(1_500), 0);
    assert_eq!(pacer.take(1_500), 1_100);
    assert_eq!(pacer.take(1_500), 1_150);
}

#[test]
fn the_schedule_ends_with_the_clock() {
    assert!(Pacer::new(u64::MAX - 5, Some(5)).can_take());
    assert!(!Pacer::new(u64::MAX - 5, Some(6)).can_take());
    assert!(Pacer::new(u64::MAX, None).can_take());
}

#[test]
fn without_a_schedule_a_ping_is_due_when_it_is_sent() {
    let mut pacer = Pacer::new(1_000, None);
    assert_eq!(pacer.wait(900), 0);
    assert_eq!(pacer.take(900), 900);
    assert_eq!(pacer.take(7_000), 7_000);
}

#[test]
fn the_receiver_records_after_the_warmup() {
    let mut receiver = Receiver::new();
    let sent = [PONG, PONG, PONG, PONG].concat();
    assert_eq!(receiver.step(ReceiverEvent::Scheduled(Some(at(5)))), ReceiverAction::Read);
    assert_eq!(receiver.step(ReceiverEvent::Received(sent)), ReceiverAction::TakeTime);
    assert_eq!(receiver.step(ReceiverEvent::Clock(None)), ReceiverAction::TakeScheduled);
    let clocks = [(at(10), at(210)), (at(20), at(20)), (0, at(MAX_LATENCY_MICROS + 9))];
    for (scheduled, now) in clocks {
        assert_eq!(
            receiver.step(ReceiverEvent::Scheduled(Some(scheduled))),
            ReceiverAction::TakeTime
        );
        assert_eq!(receiver.step(ReceiverEvent::Clock(Some(now))), ReceiverAction::TakeScheduled);
    }
    assert_eq!(receiver.step(ReceiverEvent::Scheduled(None)), ReceiverAction::Done);
    let entries = receiver.into_latencies().entries();
    assert_eq!(entries.len(), 3);
    assert_eq!(entries[0], (1, 1));
    assert_eq!(entries[1], (200, 1));
    assert!(entries[2].0 <= MAX_LATENCY_MICROS && entries[2].0 > MAX_LATENCY_MICROS / 1000 * 999);
}

#[test]
fn the_receiver_ends_with_its_connection_or_fails() {
    let mut receiver = Receiver::new();
    receiver.step(ReceiverEvent::Scheduled(Some(0)));
    assert_eq!(receiver.step(ReceiverEvent::Received(vec![])), ReceiverAction::Done);
    let mut receiver = Receiver::new();
    receiver.step(ReceiverEvent::Scheduled(Some(0)));
    assert_eq!(
        receiver.step(ReceiverEvent::Received(vec![0, 0, 0x40, 1])),
        ReceiverAction::Fail(FrameError::TooLarge { declared_len: 16_385, limit: 16_384 })
    );
}

#[test]
fn a_closed_loop_measures_each_round_trip() {
    let mut client = Client::new(at(10_000), 1_000);
    assert_eq!(client.step(ClientEvent::Tick(at(0))), ClientAction::Write);
    assert_eq!(client.step(ClientEvent::Written(true)), ClientAction::Read);
    assert_eq!(client.step(ClientEvent::Read(Answer::Frame)), ClientAction::TakeTime);
    assert_eq!(client.step(ClientEvent::Now(at(2_500))), ClientAction::Tick);
    assert_eq!(client.step(ClientEvent::Tick(at(9_999))), ClientAction::Write);
    assert_eq!(client.step(ClientEvent::Written(true)), ClientAction::Read);
    assert_eq!(client.step(ClientEvent::Read(Answer::Frame)), ClientAction::TakeTime);
    assert_eq!(client.step(ClientEvent::Now(at(10_199))), ClientAction::Tick);
    assert_eq!(client.step(ClientEvent::Tick(at(10_000))), ClientAction::Done);
    assert_eq!(client.into_latencies().entries(), [(200, 1), (1_500, 1), (2_500, 1)]);
}

#[test]
fn a_closed_loop_gives_up_a_ping_and_goes_on() {
    let mut client = Client::new(at(10), 1);
    client.step(ClientEvent::Tick(0));
    assert_eq!(client.step(ClientEvent::Written(false)), ClientAction::Tick);
    client.step(ClientEvent::Tick(1));
    client.step(ClientEvent::Written(true));
    assert_eq!(client.step(ClientEvent::Read(Answer::Failed)), ClientAction::Tick);
    client.step(ClientEvent::Tick(2));
    client.step(ClientEvent::Written(true));
    assert_eq!(client.step(ClientEvent::Read(Answer::Closed)), ClientAction::Done);
}

#[test]
fn a_closed_loop_ends_on_a_latency_without_a_place() {
    let mut client = Client::new(at(10), 1 << 39);
    client.step(ClientEvent::Tick(0));
    client.step(ClientEvent::Written(true));
    client.step(ClientEvent::Read(Answer::Frame));
    assert_eq!(client.step(ClientEvent::Now(at(1 << 40))), ClientAction::Refused);
}
