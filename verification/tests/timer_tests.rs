use tetrust::animation::{FrameState, FrameTimer};

#[test]
fn zero_delay_first_frame_ready_on_first_tick() {
    let mut t = FrameTimer::equal_sized(2, 100, 0);
    assert!(matches!(t.state(10), FrameState::Ready));
    assert!(matches!(t.state(10), FrameState::Waiting));
}

#[test]
fn delay_holds_frame_zero_until_exceeded() {
    let mut t = FrameTimer::equal_sized(1, 100, 50);
    // 30 accumulated: not beyond the 50 ms delay
    assert!(matches!(t.state(30), FrameState::Waiting));
    // 60 accumulated: strictly beyond the delay
    assert!(matches!(t.state(30), FrameState::Ready));
    assert!(matches!(t.state(30), FrameState::Done));
}

#[test]
fn frames_advance_on_reaching_duration() {
    let mut t = FrameTimer::equal_sized(2, 100, 0);
    assert!(matches!(t.state(1), FrameState::Ready));
    assert!(matches!(t.state(99), FrameState::Waiting));
    // reaches exactly 100 on the accumulated total
    assert!(matches!(t.state(1), FrameState::Ready));
    assert!(matches!(t.state(1000), FrameState::Done));
}

#[test]
fn done_is_terminal() {
    let mut t = FrameTimer::equal_sized(1, 10, 0);
    assert!(matches!(t.state(20), FrameState::Ready));
    for _ in 0..5 {
        assert!(matches!(t.state(1_000_000), FrameState::Done));
        assert!(matches!(t.get_state(), FrameState::Done));
    }
}

#[test]
fn get_state_peeks_without_advancing() {
    let mut t = FrameTimer::equal_sized(1, 10, 0);
    assert!(matches!(t.get_state(), FrameState::Waiting));
    assert!(matches!(t.get_state(), FrameState::Waiting));
    assert!(matches!(t.state(20), FrameState::Ready));
    assert!(matches!(t.get_state(), FrameState::Done));
    assert!(matches!(t.get_state(), FrameState::Done));
}

#[test]
fn from_vec_irregular_frames() {
    let mut t = FrameTimer::from_vec(vec![5, 50], 0);
    assert!(matches!(t.state(1), FrameState::Ready));
    assert!(matches!(t.state(49), FrameState::Waiting));
    assert!(matches!(t.state(1), FrameState::Ready));
    assert!(matches!(t.state(1), FrameState::Done));
}

#[test]
fn empty_timer_is_immediately_done() {
    let mut t = FrameTimer::from_vec(Vec::new(), 0);
    assert!(matches!(t.get_state(), FrameState::Done));
    assert!(matches!(t.state(1), FrameState::Done));
}
