use beava::io_thread_worker::{ParseErrorKind, PassAction, PassEvent, RingItem, WorkerProto};
use beava::wire_request::WireRequest;
use beava::worker_loop::{IoEvent, LoopAction, LoopEvent, Worker};
use std::collections::VecDeque;

type Event = LoopEvent<()>;
type Action = LoopAction<()>;

const PING: &[u8] = &[0, 0, 0, 3, 0, 0, 1];
const TOO_LARGE: &[u8] = &[0, 0, 1, 0];

fn add(worker: &mut Worker, slot: u64) {
    let action: Action = worker.step(Event::ClientTaken(Some((slot, WorkerProto::Tcp))));
    assert!(matches!(action, Action::AddClient));
    let action: Action = worker.step(Event::ClientAdded(true));
    assert!(matches!(action, Action::TakeClient));
}

/// A worker with clients in these slots that has to poll next.
fn polling(slots: &[u64]) -> Worker {
    let mut worker = Worker::new(64);
    for slot in slots {
        add(&mut worker, *slot);
    }
    let action: Action = worker.step(Event::ClientTaken(None));
    assert!(matches!(action, Action::TakeJob));
    let action: Action = worker.step(Event::JobTaken(None));
    assert!(matches!(action, Action::Poll));
    worker
}

fn poll(worker: &mut Worker, events: &[IoEvent]) -> Action {
    worker.step(Event::Polled(Some(VecDeque::from(events.to_vec()))))
}

fn queue(worker: &mut Worker, slot: u64, bytes: &[u8]) {
    match worker.step(Event::JobTaken(Some(slot))) {
        Action::Encode { slot: to, proto } => assert_eq!((to, proto), (slot, WorkerProto::Tcp)),
        _ => panic!("expected an encoding"),
    }
    worker.write_buf().unwrap().extend_from_slice(bytes);
    let action: Action = worker.step(Event::Encoded);
    assert!(worker.write_buf().is_none());
    assert!(matches!(action, Action::Arm(to) if to == slot));
    let action: Action = worker.step(Event::Done);
    assert!(matches!(action, Action::TakeJob));
}

/// A worker with a queue for the client in slot 1 that has to poll next.
fn polling_with_queue(bytes: &[u8]) -> Worker {
    let mut worker = Worker::new(64);
    add(&mut worker, 1);
    let _: Action = worker.step(Event::ClientTaken(None));
    queue(&mut worker, 1, bytes);
    let _: Action = worker.step(Event::JobTaken(None));
    worker
}

fn unwritten(worker: &Worker, slot: u64) -> &[u8] {
    worker.client(slot).unwrap().unwritten()
}

#[test]
fn a_request_reaches_the_apply_thread_which_is_woken_once() {
    let mut worker = polling(&[1]);
    let action = poll(&mut worker, &[IoEvent::WakerSentinel, IoEvent::Readable(1)]);
    assert!(matches!(action, Action::Read(1)));
    let action = worker.step(Event::Read(Some([PING, PING].concat())));
    assert!(matches!(action, Action::Pass { slot: 1, action: PassAction::DecodeRow }));
    assert_eq!(worker.pass().unwrap().request(), Some(&WireRequest::Ping));
    for _ in 0..2 {
        match worker.step(Event::Pass(PassEvent::RowDecoded(None))) {
            Action::Pass { slot: 1, action: PassAction::Send(RingItem::Request { request, .. }) } => {
                assert_eq!(request, WireRequest::Ping)
            }
            _ => panic!("expected an item"),
        }
        let action = worker.step(Event::Pass(PassEvent::Sent(true)));
        if worker.pass().is_none() {
            assert!(matches!(action, Action::WakeApply));
        }
    }
    let action = worker.step(Event::Done);
    assert!(matches!(action, Action::CheckStop));
    assert!(worker.client(1).unwrap().unparsed().is_empty());
    let action = worker.step(Event::Stop(false));
    assert!(matches!(action, Action::TakeClient));
}

#[test]
fn the_apply_thread_is_not_woken_for_nothing() {
    let mut worker = polling(&[1]);
    poll(&mut worker, &[IoEvent::Readable(1)]);
    let action = worker.step(Event::Read(Some(vec![0, 0])));
    assert!(matches!(action, Action::CheckStop));
    assert_eq!(worker.client(1).unwrap().unparsed(), &[0, 0]);
}

#[test]
fn a_refused_client_is_not_kept() {
    let mut worker = Worker::new(64);
    let _: Action = worker.step(Event::ClientTaken(Some((4, WorkerProto::Http))));
    let action: Action = worker.step(Event::ClientAdded(false));
    assert!(matches!(action, Action::TakeClient));
    assert!(worker.client(4).is_none());
}

#[test]
fn responses_queue_up_in_order() {
    let mut worker = Worker::new(64);
    add(&mut worker, 1);
    add(&mut worker, 2);
    let _: Action = worker.step(Event::ClientTaken(None));
    queue(&mut worker, 1, b"one ");
    queue(&mut worker, 2, b"other");
    queue(&mut worker, 1, b"two");
    let action: Action = worker.step(Event::JobTaken(Some(3)));
    assert!(matches!(action, Action::TakeJob));
    assert_eq!(unwritten(&worker, 1), b"one two");
    assert_eq!(unwritten(&worker, 2), b"other");
}

#[test]
fn an_encoder_works_on_the_queue_of_its_client() {
    let mut worker = Worker::new(64);
    add(&mut worker, 1);
    assert!(worker.write_buf().is_none());
    let _: Action = worker.step(Event::ClientTaken(None));
    queue(&mut worker, 1, b"first");
    let _: Action = worker.step(Event::JobTaken(Some(1)));
    let buf = worker.write_buf().unwrap();
    assert_eq!(&buf[..], b"first");
    buf.extend_from_slice(b", second");
    assert_eq!(unwritten(&worker, 1), b"first, second");
}

#[test]
fn a_writable_socket_is_written_to() {
    let mut worker = polling_with_queue(b"response");
    let action = poll(&mut worker, &[IoEvent::Writable(9), IoEvent::Writable(1)]);
    assert!(matches!(action, Action::Write(1)));
    let action: Action = worker.step(Event::Wrote(Some(3)));
    assert!(matches!(action, Action::Write(1)));
    assert_eq!(unwritten(&worker, 1), b"ponse");
    let action: Action = worker.step(Event::Wrote(Some(5)));
    assert!(matches!(action, Action::Disarm(1)));
    let action: Action = worker.step(Event::Done);
    assert!(matches!(action, Action::CheckStop));
    assert!(worker.client(1).is_some());
}

#[test]
fn a_writable_socket_with_nothing_queued_is_disarmed() {
    let mut worker = polling(&[1]);
    let action = poll(&mut worker, &[IoEvent::Writable(1)]);
    assert!(matches!(action, Action::Disarm(1)));
}

#[test]
fn a_full_socket_keeps_the_rest() {
    let mut worker = polling_with_queue(b"response");
    poll(&mut worker, &[IoEvent::Writable(1)]);
    let action: Action = worker.step(Event::Wrote(Some(0)));
    assert!(matches!(action, Action::CheckStop));
    assert_eq!(unwritten(&worker, 1), b"response");
}

#[test]
fn too_large_is_written_before_the_close() {
    let mut worker = polling(&[1]);
    poll(&mut worker, &[IoEvent::Readable(1)]);
    let action = worker.step(Event::Read(Some(TOO_LARGE.to_vec())));
    assert!(matches!(action, Action::Pass { slot: 1, action: PassAction::MakeRoom }));
    assert!(worker.client(1).unwrap().has_room(worker.pass().unwrap().answer().unwrap()));
    assert!(unwritten(&worker, 1).is_empty());
    match worker.step(Event::Pass(PassEvent::RoomMade)) {
        Action::Pass { slot: 1, action: PassAction::Send(RingItem::ParseError { kind, .. }) } => {
            assert_eq!(kind, ParseErrorKind::TcpFrameTooLarge { declared: 256, limit: 64 })
        }
        _ => panic!("expected an item"),
    }
    let action = worker.step(Event::Pass(PassEvent::Sent(true)));
    assert!(matches!(action, Action::WakeApply));
    let action: Action = worker.step(Event::Done);
    assert!(matches!(action, Action::Write(1)));
    let queued = unwritten(&worker, 1).len();
    assert!(queued > 7);
    let action: Action = worker.step(Event::Wrote(Some(queued)));
    assert!(matches!(action, Action::Disarm(1)));
    let action: Action = worker.step(Event::Done);
    assert!(matches!(action, Action::Close(1)));
    assert!(worker.client(1).is_none());
    let action: Action = worker.step(Event::Done);
    assert!(matches!(action, Action::CheckStop));
}

#[test]
fn a_marked_client_whose_socket_is_full_or_failed_is_closed() {
    for taken in [Some(0), None] {
        let mut worker = polling_with_queue(b"response");
        poll(&mut worker, &[IoEvent::Readable(1)]);
        let action: Action = worker.step(Event::Read(None));
        assert!(matches!(action, Action::Write(1)));
        let action: Action = worker.step(Event::Wrote(taken));
        assert!(matches!(action, Action::Close(1)));
        assert!(worker.client(1).is_none());
    }
}

#[test]
fn a_client_that_ended_is_not_read_again() {
    let mut worker = polling(&[1, 2]);
    poll(&mut worker, &[IoEvent::Readable(1), IoEvent::Readable(1), IoEvent::Readable(2)]);
    let action: Action = worker.step(Event::Read(Some(vec![])));
    assert!(matches!(action, Action::Read(2)));
    let action: Action = worker.step(Event::Read(Some(vec![0])));
    assert!(matches!(action, Action::Close(1)));
    let action: Action = worker.step(Event::Done);
    assert!(matches!(action, Action::CheckStop));
    assert!(worker.client(1).is_none());
    assert_eq!(worker.client(2).unwrap().unparsed(), &[0]);
}

#[test]
fn reported_closes_come_first_and_in_order() {
    let mut worker = polling(&[1, 2, 3]);
    let events =
        [IoEvent::Readable(3), IoEvent::Closed(2), IoEvent::Closed(7), IoEvent::Closed(1)];
    poll(&mut worker, &events);
    let mut action: Action = worker.step(Event::Read(None));
    let mut closed = Vec::new();
    while let Action::Close(slot) = action {
        assert!(worker.client(slot).is_none());
        closed.push(slot);
        action = worker.step(Event::Done);
    }
    assert_eq!(closed, [2, 7, 1, 3]);
    assert!(matches!(action, Action::CheckStop));
}

#[test]
fn a_failed_poll_leads_to_the_stop_flag() {
    let mut worker = polling(&[1]);
    let action: Action = worker.step(Event::Polled(None));
    assert!(matches!(action, Action::CheckStop));
    let action: Action = worker.step(Event::Stop(true));
    assert!(matches!(action, Action::Stop));
}

#[test]
fn other_clients_are_left_alone() {
    let mut worker = polling(&[1, 2]);
    poll(&mut worker, &[IoEvent::Readable(2)]);
    let _: Action = worker.step(Event::Read(Some(vec![0, 0, 0])));
    let _: Action = worker.step(Event::Stop(false));
    let _: Action = worker.step(Event::ClientTaken(None));
    let _: Action = worker.step(Event::JobTaken(None));
    poll(&mut worker, &[IoEvent::Readable(1)]);
    let action: Action = worker.step(Event::Read(None));
    assert!(matches!(action, Action::Close(1)));
    assert_eq!(worker.client(2).unwrap().unparsed(), &[0, 0, 0]);
    assert!(!worker.client(2).unwrap().is_closed());
}
