use mobcam::clock::Clock;

#[test]
fn the_first_frame_is_shown_at_once() {
    let mut clock = Clock::default();
    assert_eq!(clock.timestamp(1_000_000, || 42_000), 42_000);
}

#[test]
fn later_frames_keep_their_spacing() {
    let mut clock = Clock::default();
    assert_eq!(clock.timestamp(1_000_000, || 5_000_000_000), 5_000_000_000);
    assert_eq!(clock.timestamp(1_033_333, || unreachable!()), 5_033_333_000);
    assert_eq!(clock.timestamp(1_066_666, || unreachable!()), 5_066_666_000);
}

#[test]
fn a_frame_presented_earlier_moves_the_anchor_back() {
    let mut clock = Clock::default();
    assert_eq!(clock.timestamp(2_000_000, || 9_000_000_000), 9_000_000_000);
    assert_eq!(clock.timestamp(1_500_000, || unreachable!()), 8_500_000_000);
    assert_eq!(clock.timestamp(2_000_000, || unreachable!()), 9_000_000_000);
}

#[test]
fn a_jump_anchors_the_clock_again() {
    let mut clock = Clock::default();
    assert_eq!(clock.timestamp(1_000_000, || 1_000), 1_000);
    assert_eq!(clock.timestamp(7_000_001, || 77), 77);
    assert_eq!(clock.timestamp(7_000_002, || unreachable!()), 1_077);
    assert_eq!(clock.timestamp(2_000_001, || 5), 5);
}
