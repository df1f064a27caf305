use xrb::codec::{encode_request, Slot, Value};
use xrb::engine::{
    Answer, Dispatch, Engine, EngineError, Event, ReplyKind, XError, ERROR_FRAME, REPLY_FRAME,
};
use xrb::schema::Primitive;

fn reply(sequence: u16, payload: &[u8]) -> Vec<u8> {
    let mut frame = vec![REPLY_FRAME, (sequence >> 8) as u8, (sequence & 0xff) as u8];
    frame.extend_from_slice(payload);
    frame
}

fn error(sequence: u16, payload: &[u8]) -> Vec<u8> {
    let mut frame = vec![ERROR_FRAME, (sequence >> 8) as u8, (sequence & 0xff) as u8];
    frame.extend_from_slice(payload);
    frame
}

#[test]
fn issue_stamps_the_sequence_after_the_body() {
    let mut engine = Engine::new(0x0102);
    let (handle, frame) = engine.issue(&[42, 7, 8], ReplyKind(3)).unwrap();
    assert_eq!(frame, vec![42, 7, 8, 0x01, 0x02]);
    assert_eq!(handle.sequence(), 0x0102);
    assert_eq!(handle.kind(), ReplyKind(3));
    assert_eq!(engine.next_sequence(), 0x0103);
    assert!(engine.is_outstanding(0x0102));
    assert!(!engine.is_ready(&handle));
}

#[test]
fn sequences_step_by_one_and_wrap() {
    let mut engine = Engine::new(65533);
    let mut seen = Vec::new();
    let mut handles = Vec::new();
    for _ in 0..6 {
        let (handle, _) = engine.issue(&[1], ReplyKind(0)).unwrap();
        seen.push(handle.sequence());
        handles.push(handle);
    }
    assert_eq!(seen, vec![65533, 65534, 65535, 0, 1, 2]);
    assert_eq!(engine.next_sequence(), 3);
}

#[test]
fn no_sequence_repeats_before_wraparound() {
    let mut engine = Engine::new(0);
    let mut previous: Option<u16> = None;
    for n in 0..65536u32 {
        let (handle, _) = engine.issue(&[1], ReplyKind(0)).unwrap();
        assert_eq!(handle.sequence() as u32, n);
        if let Some(p) = previous {
            assert_eq!(handle.sequence(), p.wrapping_add(1));
        }
        previous = Some(handle.sequence());
        engine.release(handle);
    }
    let (handle, _) = engine.issue(&[1], ReplyKind(0)).unwrap();
    assert_eq!(handle.sequence(), 0);
}

#[test]
fn issue_is_refused_while_the_sequence_is_outstanding() {
    let mut engine = Engine::new(5);
    let (first, _) = engine.issue(&[1], ReplyKind(0)).unwrap();
    for _ in 0..65535u32 {
        let (handle, _) = engine.issue(&[1], ReplyKind(0)).unwrap();
        engine.release(handle);
    }
    assert_eq!(engine.next_sequence(), 5);
    assert_eq!(engine.issue(&[1], ReplyKind(0)).err(), Some(EngineError::WindowExhausted));
    assert_eq!(engine.next_sequence(), 5);
    engine.release(first);
    let (again, _) = engine.issue(&[1], ReplyKind(0)).unwrap();
    assert_eq!(again.sequence(), 5);
}

#[test]
fn replies_reach_their_own_handle_in_any_order() {
    let mut engine = Engine::new(10);
    let (h1, _) = engine.issue(&[1], ReplyKind(1)).unwrap();
    let (h2, _) = engine.issue(&[2], ReplyKind(2)).unwrap();
    assert_eq!(engine.dispatch(&reply(11, &[0xbb])), Dispatch::Answered { sequence: 11 });
    assert!(!engine.is_ready(&h1));
    assert!(engine.is_ready(&h2));
    assert_eq!(engine.try_get(&h1), None);
    assert_eq!(engine.dispatch(&reply(10, &[0xaa])), Dispatch::Answered { sequence: 10 });
    assert_eq!(
        engine.try_get(&h1),
        Some(Ok(Answer { sequence: 10, kind: ReplyKind(1), payload: vec![0xaa] }))
    );
    assert_eq!(
        engine.try_get(&h2),
        Some(Ok(Answer { sequence: 11, kind: ReplyKind(2), payload: vec![0xbb] }))
    );
    assert_eq!(engine.try_get(&h1), None);
    assert!(!engine.is_outstanding(10));
    assert!(!engine.is_outstanding(11));
}

#[test]
fn error_frame_is_delivered_as_error() {
    let mut engine = Engine::new(0);
    let (handle, _) = engine.issue(&[1], ReplyKind(9)).unwrap();
    assert_eq!(engine.dispatch(&error(0, &[3, 4, 5])), Dispatch::Answered { sequence: 0 });
    assert!(engine.is_ready(&handle));
    assert_eq!(engine.try_get(&handle), Some(Err(XError { sequence: 0, payload: vec![3, 4, 5] })));
}

#[test]
fn released_handle_leaves_nothing_behind() {
    let mut engine = Engine::new(7);
    let (waiting, _) = engine.issue(&[1], ReplyKind(0)).unwrap();
    let (answered, _) = engine.issue(&[1], ReplyKind(0)).unwrap();
    engine.dispatch(&reply(8, &[1]));
    assert!(engine.is_outstanding(7));
    assert!(engine.is_outstanding(8));
    engine.release(waiting);
    engine.release(answered);
    assert!(!engine.is_outstanding(7));
    assert!(!engine.is_outstanding(8));
    assert_eq!(engine.dispatch(&reply(7, &[1])), Dispatch::Desynchronized { sequence: 7 });
    assert!(!engine.is_outstanding(7));
}

#[test]
fn unmatched_reply_is_reported_and_dropped() {
    let mut engine = Engine::new(0);
    assert_eq!(engine.dispatch(&reply(0x1234, &[])), Dispatch::Desynchronized { sequence: 0x1234 });
    assert_eq!(engine.dispatch(&error(1, &[9])), Dispatch::Desynchronized { sequence: 1 });
    assert!(!engine.is_outstanding(0x1234));
    assert_eq!(engine.pending_events(), 0);
}

#[test]
fn short_frames_are_malformed() {
    let mut engine = Engine::new(0);
    let (handle, _) = engine.issue(&[1], ReplyKind(0)).unwrap();
    assert_eq!(engine.dispatch(&[]), Dispatch::Malformed);
    assert_eq!(engine.dispatch(&[REPLY_FRAME]), Dispatch::Malformed);
    assert_eq!(engine.dispatch(&[ERROR_FRAME, 0]), Dispatch::Malformed);
    assert!(!engine.is_ready(&handle));
    assert!(engine.is_outstanding(0));
}

#[test]
fn events_are_queued_in_arrival_order() {
    let mut engine = Engine::new(0);
    let (handle, _) = engine.issue(&[1], ReplyKind(0)).unwrap();
    assert_eq!(engine.next_event(), None);
    assert_eq!(engine.dispatch(&[2, 10, 11]), Dispatch::Queued);
    assert_eq!(engine.dispatch(&reply(0, &[1])), Dispatch::Answered { sequence: 0 });
    assert_eq!(engine.dispatch(&[35]), Dispatch::Queued);
    assert_eq!(engine.pending_events(), 2);
    assert_eq!(engine.next_event(), Some(Event { code: 2, payload: vec![10, 11] }));
    assert_eq!(engine.next_event(), Some(Event { code: 35, payload: vec![] }));
    assert_eq!(engine.next_event(), None);
    assert!(engine.is_ready(&handle));
}

#[test]
fn reply_is_read_as_the_kind_recorded_at_issue() {
    let mut engine = Engine::new(0);
    let (a, _) = engine.issue(&[1], ReplyKind(100)).unwrap();
    let (b, _) = engine.issue(&[1], ReplyKind(200)).unwrap();
    engine.dispatch(&reply(0, &[1, 2]));
    engine.dispatch(&reply(1, &[1, 2]));
    assert_eq!(engine.try_get(&a).unwrap().unwrap().kind, ReplyKind(100));
    assert_eq!(engine.try_get(&b).unwrap().unwrap().kind, ReplyKind(200));
}

#[test]
fn get_without_an_answer_never_completes() {
    let mut engine = Engine::new(0);
    let (handle, _) = engine.issue(&[1], ReplyKind(0)).unwrap();
    let (_other, _) = engine.issue(&[1], ReplyKind(0)).unwrap();
    let frames: Vec<Vec<u8>> = vec![vec![5, 1], reply(1, &[1]), vec![6], error(9, &[])];
    let mut polls = 0;
    for frame in frames.iter().cycle().take(1000) {
        assert_eq!(engine.try_get(&handle), None);
        engine.dispatch(frame);
        polls += 1;
    }
    assert_eq!(polls, 1000);
    assert_eq!(engine.try_get(&handle), None);
    assert!(engine.is_outstanding(0));
}

#[test]
fn answer_is_read_against_the_layout_of_its_kind() {
    let request = vec![Slot::Field(Primitive::U16), Slot::Field(Primitive::U8)];
    let reply_layout = vec![Slot::Field(Primitive::U8), Slot::Pad(1), Slot::Field(Primitive::I16)];
    let mut engine = Engine::new(0x0a0b);
    let body = encode_request(0x10, &request, &[Value::U16(0x2021), Value::U8(0x30)]).unwrap();
    let (handle, frame) = engine.issue(&body, ReplyKind(16)).unwrap();
    assert_eq!(frame, vec![0x10, 0x20, 0x21, 0x30, 0x0a, 0x0b]);
    engine.dispatch(&reply(0x0a0b, &[9, 0xee, 0xff, 0xfd]));
    let answer = engine.try_get(&handle).unwrap().unwrap();
    assert_eq!(answer.values(&reply_layout), Some(vec![Value::U8(9), Value::I16(-3)]));
    assert_eq!(answer.values(&request), None);
    engine.release(handle);
    assert!(!engine.is_outstanding(0x0a0b));
}
