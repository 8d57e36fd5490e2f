use rezmq_native::frames::call_outcome;
use rezmq_native::frames::{endpoint_is_valid, frames_of, send_flags, Frame, DONTWAIT, SNDMORE};
use rezmq_native::poll::{control_event, ControlEvent, READ_EVENTS, WRITE_EVENTS};
use rezmq_native::frames::{POLLERR, POLLIN, POLLOUT};

#[test]
fn frames_of_marks_all_but_last() {
    let frames = frames_of(vec![Some(b"a".to_vec()), Some(b"bc".to_vec()), None]);
    let got: Vec<(Vec<u8>, bool)> = frames.into_iter().map(|f| (f.data, f.more)).collect();
    assert_eq!(got, vec![(b"a".to_vec(), true), (b"bc".to_vec(), true), (vec![], false)]);
}

#[test]
fn frames_of_single_and_empty() {
    let frames = frames_of(vec![Some(b"only".to_vec())]);
    assert_eq!(frames.len(), 1);
    assert_eq!(frames[0].data, b"only".to_vec());
    assert!(!frames[0].more);
    assert!(frames_of(vec![]).is_empty());
}

#[test]
fn duplicate_copies_frame() {
    let f = Frame { data: b"xy".to_vec(), more: true };
    let g = f.duplicate();
    assert_eq!(g.data, f.data);
    assert_eq!(g.more, f.more);
}

#[test]
fn endpoint_nul_check() {
    assert!(endpoint_is_valid(b"ipc:///tmp/x"));
    assert!(endpoint_is_valid(b""));
    assert!(!endpoint_is_valid(b"\0"));
    assert!(!endpoint_is_valid(b"tcp://a\0"));
}

#[test]
fn send_flags_values() {
    assert_eq!(send_flags(false), DONTWAIT);
    assert_eq!(send_flags(true), DONTWAIT | SNDMORE);
    assert_eq!(send_flags(true), 3);
    assert_eq!(send_flags(false), 1);
}

#[test]
fn event_masks() {
    assert_eq!(READ_EVENTS, POLLIN | POLLERR);
    assert_eq!(WRITE_EVENTS, POLLOUT | POLLERR);
}

#[test]
fn control_events() {
    assert_eq!(control_event(0), ControlEvent::Idle);
    assert_eq!(control_event(POLLERR), ControlEvent::Closed);
    assert_eq!(control_event(POLLERR | POLLIN), ControlEvent::Closed);
    assert_eq!(control_event(POLLIN), ControlEvent::Readable);
    assert_eq!(control_event(POLLOUT), ControlEvent::Unexpected);
}

#[test]
fn call_outcome_maps_return_codes() {
    assert_eq!(call_outcome(0, 11), Ok(()));
    assert_eq!(call_outcome(5, 11), Ok(()));
    assert_eq!(call_outcome(-1, 22), Err(22));
    assert_eq!(call_outcome(i32::MIN, 98), Err(98));
}
