use flocksim::frame::{DeltaFrame, Frame, FRAME_DURATION_MILLIS};

#[test]
fn frame_duration_is_sixteen_millis() {
    assert_eq!(FRAME_DURATION_MILLIS, 16);
}

#[test]
fn new_frame_starts_at_now() {
    let frame = Frame::new(1234);
    assert_eq!(frame.number, 0);
    assert_eq!(frame.start_time, 1234);
    assert_eq!(frame.ideal_start_time, 1234);
    assert_eq!(DeltaFrame::new(7).delta, 7);
}

#[test]
fn drift_compensation_after_a_hundred_millis() {
    let frame = Frame::new(5000);
    let next = frame.next(5100);
    let delta = next.number - frame.number;
    assert!(delta >= 6);
    assert_eq!(delta, 6);
    assert_eq!(next.number, 6);
    assert_eq!(next.start_time, 5100);
    assert_eq!(next.ideal_start_time - frame.ideal_start_time, delta * 16);
    assert_eq!(next.ideal_start_time, 5096);
}

#[test]
fn next_on_the_grid_and_just_before_it() {
    let frame = Frame::new(100);
    assert_eq!(frame.next(116).number, 1);
    assert_eq!(frame.next(116).ideal_start_time, 116);
    assert_eq!(frame.next(131).number, 1);
    assert_eq!(frame.next(131).ideal_start_time, 116);
    assert_eq!(frame.next(132).number, 2);
    // A step that comes too early counts no frame and leaves the ideal start.
    let early = frame.next(115);
    assert_eq!(early.number, 0);
    assert_eq!(early.ideal_start_time, 100);
    assert_eq!(early.start_time, 115);
}

#[test]
fn ideal_start_stays_on_the_grid_of_the_first_frame() {
    let first = Frame::new(777);
    let mut frame = first;
    let mut now: u64 = 777;
    let waits = [16, 17, 33, 100, 16, 1000, 31, 16, 250, 47];
    for w in waits.iter() {
        now += w;
        let next = frame.next(now);
        assert!(next.number - frame.number >= 1);
        assert_eq!((next.ideal_start_time - first.ideal_start_time) % 16, 0);
        assert_eq!(next.ideal_start_time - first.ideal_start_time, next.number * 16);
        assert!(now - next.ideal_start_time < 16);
        assert_eq!(next.start_time, now);
        frame = next;
    }
    assert_eq!(frame.number, (now - 777) / 16);
}

#[test]
fn wait_millis_is_what_is_left_of_a_frame() {
    let frame = Frame::new(1000);
    assert_eq!(frame.wait_millis(1000), 16);
    assert_eq!(frame.wait_millis(1001), 15);
    assert_eq!(frame.wait_millis(1015), 1);
    assert_eq!(frame.wait_millis(1016), 0);
    assert_eq!(frame.wait_millis(5000), 0);
    // Lateness is made up for: after a late frame the wait is shorter.
    let late = frame.next(1020);
    assert_eq!(late.ideal_start_time, 1016);
    assert_eq!(late.wait_millis(1020), 12);
}
