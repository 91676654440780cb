use moq_relay::{DecodeError, Frame, FrameSource, GroupConsumer, Timestamp};

fn ts(micros: u64) -> Timestamp {
    Timestamp::from_micros(micros)
}

fn read_some(gc: &mut GroupConsumer, src: &mut FrameSource) -> Frame {
    gc.read_frame(src).expect("decode failed").expect("group ended")
}

#[test]
fn first_frame_is_keyframe_rest_are_not() {
    // Timestamps 10, 20, 40: only the first frame of the group is a keyframe.
    let payloads = vec![vec![0x0a], vec![0x14], vec![0x28]];
    let mut src = FrameSource::new(payloads);
    let mut gc = GroupConsumer::new();

    let f0 = read_some(&mut gc, &mut src);
    let f1 = read_some(&mut gc, &mut src);
    let f2 = read_some(&mut gc, &mut src);
    assert!(f0.keyframe);
    assert!(!f1.keyframe);
    assert!(!f2.keyframe);
}

#[test]
fn mixed_reads_preserve_order() {
    // Timestamps 10, 20, 30, 40. One unbuffered read, then a buffering call
    // that reads ahead past 25, then the rest: the observed order must equal
    // the emission order, with nothing lost or duplicated.
    let payloads = vec![vec![0x0a], vec![0x14], vec![0x1e], vec![0x28]];
    let mut src = FrameSource::new(payloads);
    let mut gc = GroupConsumer::new();

    let f0 = read_some(&mut gc, &mut src);
    assert_eq!(f0.timestamp.as_micros(), 10);

    let reached = gc.buffer_frames_until(ts(25), &mut src);
    assert_eq!(reached.map(|t| t.as_micros()), Some(30));

    let f1 = read_some(&mut gc, &mut src);
    let f2 = read_some(&mut gc, &mut src);
    let f3 = read_some(&mut gc, &mut src);
    assert_eq!(f1.timestamp.as_micros(), 20);
    assert_eq!(f2.timestamp.as_micros(), 30);
    assert_eq!(f3.timestamp.as_micros(), 40);
    assert!(f0.keyframe && !f1.keyframe && !f2.keyframe && !f3.keyframe);

    assert!(gc.read_frame(&mut src).unwrap().is_none());
}

#[test]
fn max_timestamp_none_before_any_read() {
    let gc = GroupConsumer::new();
    assert!(gc.max_timestamp().is_none());
}

#[test]
fn max_timestamp_tracks_running_maximum() {
    // Timestamps 40, 10, 20: the maximum stays at the largest decoded value,
    // independent of whether frames were served through the buffer.
    let payloads = vec![vec![0x28], vec![0x0a], vec![0x14]];
    let mut src = FrameSource::new(payloads);
    let mut gc = GroupConsumer::new();

    let _ = read_some(&mut gc, &mut src);
    assert_eq!(gc.max_timestamp().map(|t| t.as_micros()), Some(40));

    // Read the remaining two ahead into the buffer; the maximum is unchanged.
    let reached = gc.buffer_frames_until(ts(40), &mut src);
    assert_eq!(reached.map(|t| t.as_micros()), Some(40));
    let _ = read_some(&mut gc, &mut src);
    let _ = read_some(&mut gc, &mut src);
    assert_eq!(gc.max_timestamp().map(|t| t.as_micros()), Some(40));
}

#[test]
fn buffer_until_end_to_end() {
    // Three frames with timestamps 0, 1000 and 2500 microseconds and small
    // payloads. Buffering until 2000 must read all three (the third crosses
    // the cutoff) and report 2500; the following reads hand the frames out in
    // order with keyframe flags true, false, false.
    let payloads = vec![
        vec![0x00, 1, 2, 3],
        vec![0x43, 0xe8, 4],
        vec![0x49, 0xc4, 5],
    ];
    let mut src = FrameSource::new(payloads);
    let mut gc = GroupConsumer::new();

    let reached = gc.buffer_frames_until(ts(2000), &mut src);
    assert_eq!(reached.map(|t| t.as_micros()), Some(2500));

    let f0 = read_some(&mut gc, &mut src);
    let f1 = read_some(&mut gc, &mut src);
    let f2 = read_some(&mut gc, &mut src);
    assert_eq!(f0.timestamp.as_micros(), 0);
    assert_eq!(f1.timestamp.as_micros(), 1000);
    assert_eq!(f2.timestamp.as_micros(), 2500);
    assert!(f0.keyframe);
    assert!(!f1.keyframe);
    assert!(!f2.keyframe);
    assert_eq!(f0.payload, vec![1, 2, 3]);
    assert_eq!(f1.payload, vec![4]);
    assert_eq!(f2.payload, vec![5]);

    assert!(gc.read_frame(&mut src).unwrap().is_none());
}

#[test]
fn buffer_until_does_not_return_when_group_ends_early() {
    // The group ends at timestamp 20, short of the cutoff 100: the buffering
    // call yields no value at all rather than a premature one.
    let payloads = vec![vec![0x0a], vec![0x14]];
    let mut src = FrameSource::new(payloads);
    let mut gc = GroupConsumer::new();

    assert!(gc.buffer_frames_until(ts(100), &mut src).is_none());

    // The frames it read ahead are still there, in order.
    let f0 = read_some(&mut gc, &mut src);
    let f1 = read_some(&mut gc, &mut src);
    assert_eq!(f0.timestamp.as_micros(), 10);
    assert_eq!(f1.timestamp.as_micros(), 20);
}

#[test]
fn buffer_until_does_not_return_on_decode_failure() {
    // The second header is truncated; the cutoff is never reached, and the
    // frame buffered before the failure remains retrievable.
    let payloads = vec![vec![0x0a, 7], vec![0x40]];
    let mut src = FrameSource::new(payloads);
    let mut gc = GroupConsumer::new();

    assert!(gc.buffer_frames_until(ts(5000), &mut src).is_none());

    let f0 = read_some(&mut gc, &mut src);
    assert_eq!(f0.timestamp.as_micros(), 10);
    assert_eq!(f0.payload, vec![7]);
}

#[test]
fn buffer_until_already_satisfied_reads_one_frame_at_most_zero_cutoff() {
    // A zero cutoff is satisfied by the very first frame, even at timestamp 0.
    let payloads = vec![vec![0x00], vec![0x0a]];
    let mut src = FrameSource::new(payloads);
    let mut gc = GroupConsumer::new();

    let reached = gc.buffer_frames_until(ts(0), &mut src);
    assert_eq!(reached.map(|t| t.as_micros()), Some(0));

    // Only the first frame was consumed from the source.
    let f0 = read_some(&mut gc, &mut src);
    let f1 = read_some(&mut gc, &mut src);
    assert_eq!(f0.timestamp.as_micros(), 0);
    assert_eq!(f1.timestamp.as_micros(), 10);
}

#[test]
fn decode_failure_fails_only_that_read() {
    // Timestamp 5, then a truncated eight-byte header: the second read fails,
    // the first succeeded, and the group afterwards reports its end.
    let payloads = vec![vec![0x05, 9], vec![0xc0, 1, 2]];
    let mut src = FrameSource::new(payloads);
    let mut gc = GroupConsumer::new();

    let f0 = read_some(&mut gc, &mut src);
    assert_eq!(f0.timestamp.as_micros(), 5);
    assert_eq!(f0.payload, vec![9]);

    assert_eq!(gc.read_frame(&mut src).unwrap_err(), DecodeError::Short);

    // The failure was local to that call: the running maximum survives.
    assert_eq!(gc.max_timestamp().map(|t| t.as_micros()), Some(5));
    assert!(gc.read_frame(&mut src).unwrap().is_none());
}

#[test]
fn decode_failure_keeps_buffered_frame_retrievable() {
    // A frame is buffered, then the next header is truncated: a read that hits
    // the buffer still succeeds, and only the unbuffered read fails.
    let payloads = vec![vec![0x0a, 1], vec![0x14, 2], vec![0x40]];
    let mut src = FrameSource::new(payloads);
    let mut gc = GroupConsumer::new();

    let reached = gc.buffer_frames_until(ts(15), &mut src);
    assert_eq!(reached.map(|t| t.as_micros()), Some(20));

    let f0 = read_some(&mut gc, &mut src);
    let f1 = read_some(&mut gc, &mut src);
    assert_eq!(f0.timestamp.as_micros(), 10);
    assert_eq!(f1.timestamp.as_micros(), 20);

    assert_eq!(gc.read_frame(&mut src).unwrap_err(), DecodeError::Short);
}

#[test]
fn event_level_api_matches_composed_reads() {
    // Driving the consumer with the event-level calls an asynchronous caller
    // would use: accept when nothing is buffered, buffer while a cutoff is
    // pending, pop afterwards.
    let mut gc = GroupConsumer::new();

    assert!(gc.pop_buffered().is_none());
    let f0 = gc.accept_frame(vec![0x0a, 1]).unwrap();
    assert!(f0.keyframe);
    assert_eq!(f0.timestamp.as_micros(), 10);

    assert!(!gc.cutoff_reached(ts(20)));
    gc.buffer_frame(vec![0x14, 2]).unwrap();
    assert!(gc.cutoff_reached(ts(20)));

    let f1 = gc.pop_buffered().expect("a frame was buffered");
    assert!(!f1.keyframe);
    assert_eq!(f1.timestamp.as_micros(), 20);
    assert_eq!(f1.payload, vec![2]);
    assert!(gc.pop_buffered().is_none());
}

#[test]
fn timestamp_value_type() {
    let a = ts(3);
    let b = ts(7);
    assert_eq!(a.max(b).as_micros(), 7);
    assert_eq!(b.max(a).as_micros(), 7);
    assert_eq!(Timestamp::default().as_micros(), 0);
    assert!(b.at_least(a));
    assert!(!a.at_least(b));
    assert_eq!(a, ts(3));
}
