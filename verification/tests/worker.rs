use rezmq_native::frames::{Frame, POLLERR, POLLIN, POLLOUT};
use rezmq_native::worker::{Delivery, ReadStep, StartRead, WriteRequest, WriteStep, Worker};

fn bytes(s: &str) -> Vec<u8> {
    s.as_bytes().to_vec()
}

fn frame(s: &str, more: bool) -> Frame {
    Frame { data: bytes(s), more }
}

fn sent_bytes(step: WriteStep) -> (Vec<u8>, bool) {
    match step {
        WriteStep::Send(f) => (f.data, f.more),
        WriteStep::Idle => panic!("expected a frame to send"),
    }
}

#[test]
fn new_worker_is_empty_and_starts_ids_at_one() {
    let w: Worker<u32, u32> = Worker::new(libc::EAGAIN);
    assert_eq!(w.next_socket_id(), 1);
    assert!(!w.has_socket(1));
    assert!(!w.is_reading(1));
    assert!(!w.is_writing(1));
    let plan = w.poll_plan();
    assert!(plan.readers.is_empty());
    assert!(plan.writers.is_empty());
}

#[test]
fn new_keeps_retry_errno() {
    let w: Worker<u32, u32> = Worker::new(35);
    assert_eq!(w.retry_errno(), 35);
    let w: Worker<u32, u32> = Worker::new(libc::EAGAIN);
    assert_eq!(w.retry_errno(), libc::EAGAIN);
}

#[test]
fn created_sockets_get_increasing_ids() {
    let mut w: Worker<u32, u32> = Worker::new(libc::EAGAIN);
    assert_eq!(w.on_socket_created(Ok(100)), Ok(1));
    assert_eq!(w.on_socket_created(Ok(100)), Ok(2));
    assert_eq!(w.next_socket_id(), 3);
    assert!(w.has_socket(1));
    assert!(w.has_socket(2));
}

#[test]
fn failed_creation_passes_errno_and_keeps_ids() {
    let mut w: Worker<u32, u32> = Worker::new(libc::EAGAIN);
    assert_eq!(w.on_socket_created(Err(22)), Err(22));
    assert_eq!(w.next_socket_id(), 1);
    assert_eq!(w.on_socket_created(Ok(100)), Ok(1));
}

#[test]
fn destroyed_ids_are_not_reused() {
    let mut w: Worker<u32, u32> = Worker::new(libc::EAGAIN);
    assert_eq!(w.on_socket_created(Ok(100)), Ok(1));
    assert_eq!(w.destroy_socket(1), Some(100));
    assert_eq!(w.on_socket_created(Ok(100)), Ok(2));
    assert!(!w.has_socket(1));
}

#[test]
fn destroy_forgets_reader_and_queue() {
    let mut w: Worker<u32, u32> = Worker::new(libc::EAGAIN);
    w.on_socket_created(Ok(100)).unwrap();
    assert!(matches!(w.start_read(1, 7), StartRead::Started));
    assert_eq!(w.queue_write(1, Some(vec![Some(bytes("a"))])), WriteRequest::Queued);
    assert_eq!(w.destroy_socket(1), Some(100));
    assert!(!w.has_socket(1));
    assert!(!w.is_reading(1));
    assert!(!w.is_writing(1));
    assert_eq!(w.destroy_socket(1), None);
    assert!(matches!(w.start_read(1, 8), StartRead::NotFound(8)));
    assert_eq!(w.queue_write(1, Some(vec![Some(bytes("b"))])), WriteRequest::NoSocket);
}

#[test]
fn start_read_refuses_twice_and_unknown_sockets() {
    let mut w: Worker<u32, u32> = Worker::new(libc::EAGAIN);
    assert!(matches!(w.start_read(5, 1), StartRead::NotFound(1)));
    w.on_socket_created(Ok(100)).unwrap();
    assert!(matches!(w.start_read(1, 1), StartRead::Started));
    assert!(matches!(w.start_read(1, 2), StartRead::AlreadyReading(2)));
    assert_eq!(w.listener(1), Some(&1));
    assert_eq!(w.listener(5), None);
}

#[test]
fn abort_read_undoes_start_read() {
    let mut w: Worker<u32, u32> = Worker::new(libc::EAGAIN);
    w.on_socket_created(Ok(100)).unwrap();
    assert!(matches!(w.start_read(1, 3), StartRead::Started));
    w.abort_read(1);
    assert!(!w.is_reading(1));
    assert!(w.has_socket(1));
    assert!(matches!(w.start_read(1, 4), StartRead::Started));
    assert_eq!(w.listener(1), Some(&4));
}

#[test]
fn poll_plan_lists_readers_then_writers_in_id_order() {
    let mut w: Worker<u32, u32> = Worker::new(libc::EAGAIN);
    for _ in 0..4 {
        w.on_socket_created(Ok(100)).unwrap();
    }
    assert!(matches!(w.start_read(3, 0), StartRead::Started));
    assert!(matches!(w.start_read(1, 0), StartRead::Started));
    assert_eq!(w.queue_write(4, Some(vec![None])), WriteRequest::Queued);
    assert_eq!(w.queue_write(2, Some(vec![None])), WriteRequest::Queued);
    assert_eq!(w.queue_write(3, Some(vec![None])), WriteRequest::Queued);
    let plan = w.poll_plan();
    assert_eq!(plan.readers, vec![1, 3]);
    assert_eq!(plan.writers, vec![2, 3, 4]);
}

#[test]
fn multipart_message_is_delivered_whole() {
    let mut w: Worker<u32, u32> = Worker::new(libc::EAGAIN);
    w.on_socket_created(Ok(100)).unwrap();
    assert!(matches!(w.start_read(1, 9), StartRead::Started));
    assert!(matches!(w.reader_ready(1, POLLIN), ReadStep::Receive));
    assert!(matches!(w.frame_received(1, Ok(frame("a", true))), Delivery::Incomplete));
    assert!(matches!(w.frame_received(1, Ok(frame("b", true))), Delivery::Incomplete));
    match w.frame_received(1, Ok(frame("c", false))) {
        Delivery::Message(m) => assert_eq!(m, vec![bytes("a"), bytes("b"), bytes("c")]),
        _ => panic!("expected a message"),
    }
    // the reader keeps reading, with nothing received
    assert!(w.is_reading(1));
    match w.frame_received(1, Ok(frame("d", false))) {
        Delivery::Message(m) => assert_eq!(m, vec![bytes("d")]),
        _ => panic!("expected a message"),
    }
}

#[test]
fn spurious_receive_error_is_ignored() {
    let mut w: Worker<u32, u32> = Worker::new(libc::EAGAIN);
    w.on_socket_created(Ok(100)).unwrap();
    assert!(matches!(w.start_read(1, 9), StartRead::Started));
    assert!(matches!(w.frame_received(1, Ok(frame("a", true))), Delivery::Incomplete));
    let retry = w.retry_errno();
    assert!(matches!(w.frame_received(1, Err(retry)), Delivery::Retry));
    assert!(w.is_reading(1));
    match w.frame_received(1, Ok(frame("b", false))) {
        Delivery::Message(m) => assert_eq!(m, vec![bytes("a"), bytes("b")]),
        _ => panic!("expected a message"),
    }
}

#[test]
fn receive_error_drops_reader() {
    let mut w: Worker<u32, u32> = Worker::new(libc::EAGAIN);
    w.on_socket_created(Ok(100)).unwrap();
    assert!(matches!(w.start_read(1, 9), StartRead::Started));
    let errno = w.retry_errno() + 1;
    match w.frame_received(1, Err(errno)) {
        Delivery::Failed { listener, code } => {
            assert_eq!(listener, 9);
            assert_eq!(code, errno);
        }
        _ => panic!("expected a failure"),
    }
    assert!(!w.is_reading(1));
    assert!(w.has_socket(1));
    assert!(matches!(w.frame_received(1, Ok(frame("x", false))), Delivery::NotReading));
}

#[test]
fn poll_error_on_reader_reports_code_zero() {
    let mut w: Worker<u32, u32> = Worker::new(libc::EAGAIN);
    w.on_socket_created(Ok(100)).unwrap();
    assert!(matches!(w.start_read(1, 5), StartRead::Started));
    match w.reader_ready(1, POLLERR | POLLIN) {
        ReadStep::Failed { listener, code } => {
            assert_eq!(listener, 5);
            assert_eq!(code, 0);
        }
        _ => panic!("expected a failure"),
    }
    assert!(!w.is_reading(1));
    assert!(matches!(w.reader_ready(1, POLLIN), ReadStep::Idle));
}

#[test]
fn reader_without_events_is_idle() {
    let mut w: Worker<u32, u32> = Worker::new(libc::EAGAIN);
    w.on_socket_created(Ok(100)).unwrap();
    assert!(matches!(w.start_read(1, 5), StartRead::Started));
    assert!(matches!(w.reader_ready(1, 0), ReadStep::Idle));
    assert!(matches!(w.reader_ready(1, POLLOUT), ReadStep::Idle));
    assert!(w.is_reading(1));
}

#[test]
fn write_is_framed_as_one_multipart_message() {
    let mut w: Worker<u32, u32> = Worker::new(libc::EAGAIN);
    w.on_socket_created(Ok(100)).unwrap();
    let items = vec![Some(bytes("h")), None, Some(bytes("t"))];
    assert_eq!(w.queue_write(1, Some(items)), WriteRequest::Queued);
    assert_eq!(w.queued_frames(1), 3);
    assert_eq!(sent_bytes(w.writer_ready(1, POLLOUT)), (bytes("h"), true));
    assert_eq!(sent_bytes(w.frame_sent(1, true)), (vec![], true));
    assert_eq!(sent_bytes(w.frame_sent(1, true)), (bytes("t"), false));
    assert!(matches!(w.frame_sent(1, true), WriteStep::Idle));
    assert!(!w.is_writing(1));
}

#[test]
fn writes_queue_in_order() {
    let mut w: Worker<u32, u32> = Worker::new(libc::EAGAIN);
    w.on_socket_created(Ok(100)).unwrap();
    assert_eq!(w.queue_write(1, Some(vec![Some(bytes("a"))])), WriteRequest::Queued);
    assert_eq!(w.queue_write(1, Some(vec![Some(bytes("b")), Some(bytes("c"))])), WriteRequest::Queued);
    assert_eq!(w.queued_frames(1), 3);
    assert_eq!(sent_bytes(w.writer_ready(1, POLLOUT)), (bytes("a"), false));
    assert_eq!(sent_bytes(w.frame_sent(1, true)), (bytes("b"), true));
    assert_eq!(sent_bytes(w.frame_sent(1, true)), (bytes("c"), false));
    assert!(matches!(w.frame_sent(1, true), WriteStep::Idle));
    assert!(!w.is_writing(1));
}

#[test]
fn failed_send_keeps_frame_for_next_round() {
    let mut w: Worker<u32, u32> = Worker::new(libc::EAGAIN);
    w.on_socket_created(Ok(100)).unwrap();
    let items = vec![Some(bytes("a")), Some(bytes("b")), Some(bytes("c"))];
    assert_eq!(w.queue_write(1, Some(items)), WriteRequest::Queued);
    assert_eq!(sent_bytes(w.writer_ready(1, POLLOUT)), (bytes("a"), true));
    assert_eq!(sent_bytes(w.frame_sent(1, true)), (bytes("b"), true));
    assert!(matches!(w.frame_sent(1, false), WriteStep::Idle));
    assert_eq!(w.queued_frames(1), 2);
    assert_eq!(sent_bytes(w.writer_ready(1, POLLOUT)), (bytes("b"), true));
    assert_eq!(sent_bytes(w.frame_sent(1, true)), (bytes("c"), false));
    assert!(matches!(w.frame_sent(1, true), WriteStep::Idle));
    assert!(!w.is_writing(1));
}

#[test]
fn failed_first_send_drops_the_queue() {
    let mut w: Worker<u32, u32> = Worker::new(libc::EAGAIN);
    w.on_socket_created(Ok(100)).unwrap();
    let items = vec![Some(bytes("a")), Some(bytes("b"))];
    assert_eq!(w.queue_write(1, Some(items)), WriteRequest::Queued);
    assert_eq!(sent_bytes(w.writer_ready(1, POLLOUT)), (bytes("a"), true));
    assert!(matches!(w.frame_sent(1, false), WriteStep::Idle));
    assert!(!w.is_writing(1));
    assert_eq!(w.queued_frames(1), 0);
}

#[test]
fn single_frame_sent_ends_writing() {
    let mut w: Worker<u32, u32> = Worker::new(libc::EAGAIN);
    w.on_socket_created(Ok(100)).unwrap();
    assert_eq!(w.queue_write(1, Some(vec![Some(bytes("x"))])), WriteRequest::Queued);
    assert_eq!(sent_bytes(w.writer_ready(1, POLLOUT)), (bytes("x"), false));
    assert!(matches!(w.frame_sent(1, true), WriteStep::Idle));
    assert!(!w.is_writing(1));
}

#[test]
fn poll_error_on_writer_drops_queue() {
    let mut w: Worker<u32, u32> = Worker::new(libc::EAGAIN);
    w.on_socket_created(Ok(100)).unwrap();
    assert_eq!(w.queue_write(1, Some(vec![Some(bytes("x"))])), WriteRequest::Queued);
    assert!(matches!(w.writer_ready(1, POLLERR | POLLOUT), WriteStep::Idle));
    assert!(!w.is_writing(1));
    assert!(w.has_socket(1));
}

#[test]
fn writer_without_output_event_is_idle() {
    let mut w: Worker<u32, u32> = Worker::new(libc::EAGAIN);
    w.on_socket_created(Ok(100)).unwrap();
    assert_eq!(w.queue_write(1, Some(vec![Some(bytes("x"))])), WriteRequest::Queued);
    assert!(matches!(w.writer_ready(1, POLLIN), WriteStep::Idle));
    assert_eq!(w.queued_frames(1), 1);
    assert!(matches!(w.writer_ready(2, POLLOUT), WriteStep::Idle));
}

#[test]
fn invalid_write_is_dropped() {
    let mut w: Worker<u32, u32> = Worker::new(libc::EAGAIN);
    w.on_socket_created(Ok(100)).unwrap();
    assert_eq!(w.queue_write(1, None), WriteRequest::Invalid);
    assert!(!w.is_writing(1));
}

#[test]
fn empty_list_write_leaves_empty_queue() {
    let mut w: Worker<u32, u32> = Worker::new(libc::EAGAIN);
    w.on_socket_created(Ok(100)).unwrap();
    assert_eq!(w.queue_write(1, Some(vec![])), WriteRequest::Queued);
    assert!(w.is_writing(1));
    assert_eq!(w.queued_frames(1), 0);
    assert!(matches!(w.frame_sent(1, true), WriteStep::Idle));
    assert!(!w.is_writing(1));
}

#[test]
fn endpoint_admission() {
    let mut w: Worker<u32, u32> = Worker::new(libc::EAGAIN);
    assert!(!w.admits_endpoint(1, b"tcp://127.0.0.1:3333"));
    w.on_socket_created(Ok(100)).unwrap();
    assert!(w.admits_endpoint(1, b"tcp://127.0.0.1:3333"));
    assert!(!w.admits_endpoint(1, b"tcp://127.0.0.1\0:3333"));
}

#[test]
fn stop_drops_everything() {
    let mut w: Worker<u32, u32> = Worker::new(libc::EAGAIN);
    w.on_socket_created(Ok(100)).unwrap();
    w.on_socket_created(Ok(100)).unwrap();
    assert!(matches!(w.start_read(1, 0), StartRead::Started));
    assert_eq!(w.queue_write(2, Some(vec![None])), WriteRequest::Queued);
    w.stop();
    assert!(!w.has_socket(1));
    assert!(!w.has_socket(2));
    assert!(!w.is_reading(1));
    assert!(!w.is_writing(2));
    assert_eq!(w.next_socket_id(), 3);
}

#[test]
fn worker_owns_socket_handles() {
    let mut w: Worker<u32, String> = Worker::new(libc::EAGAIN);
    assert_eq!(w.on_socket_created(Ok("first".to_string())), Ok(1));
    assert_eq!(w.on_socket_created(Err(24)), Err(24));
    assert_eq!(w.on_socket_created(Ok("second".to_string())), Ok(2));
    assert_eq!(w.socket(1).map(|s| s.as_str()), Some("first"));
    assert_eq!(w.socket(2).map(|s| s.as_str()), Some("second"));
    assert_eq!(w.socket(3), None);
    assert_eq!(w.destroy_socket(1), Some("first".to_string()));
    assert_eq!(w.socket(1), None);
    w.stop();
    assert_eq!(w.socket(2), None);
}

#[test]
fn write_to_unknown_socket_is_dropped_undecoded() {
    let mut w: Worker<u32, u32> = Worker::new(libc::EAGAIN);
    assert_eq!(w.write_encoded(1, &[131, 106]), WriteRequest::NoSocket);
    assert!(!w.is_writing(1));
}

#[test]
fn ids_continue_after_stop() {
    let mut w: Worker<u32, u32> = Worker::new(libc::EAGAIN);
    assert_eq!(w.on_socket_created(Ok(7)), Ok(1));
    w.stop();
    assert_eq!(w.on_socket_created(Ok(8)), Ok(2));
    assert!(!w.has_socket(1));
}

#[test]
fn write_round_stops_at_first_refusal_and_resumes() {
    let mut w: Worker<u32, u32> = Worker::new(libc::EAGAIN);
    w.on_socket_created(Ok(100)).unwrap();
    let items = vec![Some(bytes("1")), Some(bytes("2")), Some(bytes("3")), Some(bytes("4"))];
    assert_eq!(w.queue_write(1, Some(items)), WriteRequest::Queued);
    // round one: 1 and 2 go out, 3 is refused and stays
    assert_eq!(sent_bytes(w.writer_ready(1, POLLOUT)), (bytes("1"), true));
    assert_eq!(sent_bytes(w.frame_sent(1, true)), (bytes("2"), true));
    assert_eq!(sent_bytes(w.frame_sent(1, true)), (bytes("3"), true));
    assert!(matches!(w.frame_sent(1, false), WriteStep::Idle));
    assert_eq!(w.queued_frames(1), 2);
    // round two: 3 and 4 go out, and the socket is no longer written
    assert_eq!(sent_bytes(w.writer_ready(1, POLLOUT)), (bytes("3"), true));
    assert_eq!(sent_bytes(w.frame_sent(1, true)), (bytes("4"), false));
    assert!(matches!(w.frame_sent(1, true), WriteStep::Idle));
    assert!(!w.is_writing(1));
}

#[test]
fn frame_sent_on_unwritten_socket_is_idle() {
    let mut w: Worker<u32, u32> = Worker::new(libc::EAGAIN);
    w.on_socket_created(Ok(100)).unwrap();
    assert!(matches!(w.frame_sent(1, true), WriteStep::Idle));
    assert!(matches!(w.frame_sent(2, false), WriteStep::Idle));
    assert!(!w.is_writing(1));
}

#[test]
fn stream_of_frames_splits_into_messages() {
    let mut w: Worker<u32, u32> = Worker::new(libc::EAGAIN);
    w.on_socket_created(Ok(100)).unwrap();
    assert!(matches!(w.start_read(1, 4), StartRead::Started));
    let stream = [("a", true), ("b", false), ("c", false), ("d", true), ("e", true)];
    let mut messages: Vec<Vec<Vec<u8>>> = Vec::new();
    for (data, more) in stream {
        match w.frame_received(1, Ok(frame(data, more))) {
            Delivery::Message(m) => messages.push(m),
            Delivery::Incomplete => {}
            _ => panic!("unexpected delivery"),
        }
    }
    assert_eq!(messages, vec![vec![bytes("a"), bytes("b")], vec![bytes("c")]]);
    match w.frame_received(1, Ok(frame("f", false))) {
        Delivery::Message(m) => assert_eq!(m, vec![bytes("d"), bytes("e"), bytes("f")]),
        _ => panic!("expected a message"),
    }
    assert_eq!(w.listener(1), Some(&4));
}
