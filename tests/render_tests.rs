use canvas_sim::frame::FrameLoop;
use canvas_sim::render::{connection_strength_exec, OPAQUE};

#[test]
fn connection_strength_falls_to_zero_at_reach() {
    assert_eq!(connection_strength_exec(0, 60_000), OPAQUE);
    assert_eq!(connection_strength_exec(30_000, 60_000), 500_000);
    assert_eq!(connection_strength_exec(60_000, 60_000), 0);
    assert_eq!(connection_strength_exec(70_000, 60_000), 0);
    assert!(connection_strength_exec(59_999, 60_000) > 0);
    let mut last = OPAQUE;
    let mut d = 0;
    while d <= 60_000 {
        let s = connection_strength_exec(d, 60_000);
        assert!(s <= last);
        last = s;
        d += 997;
    }
}

#[test]
fn stopping_twice_cancels_once() {
    let mut l = FrameLoop::new();
    assert!(!l.is_running());
    l.schedule(7);
    assert!(l.is_running());
    assert_eq!(l.stop(), Some(7));
    assert_eq!(l.stop(), None);
    assert!(!l.is_running());
}
