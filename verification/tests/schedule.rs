use hud_cli::cli::once_requested;
use hud_cli::schedule::{FrameEvent, FrameSchedule, PLACE_ATTEMPTS, POLL_INTERVAL_NS};

#[test]
fn window_placed_on_first_frames_only() {
    let mut s = FrameSchedule::new(0, (10, 20, 1424, 280));
    let mut placed = 0;
    for i in 0..20u64 {
        let a = s.on_frame(&FrameEvent { now_ns: i * 1_000, escape_pressed: false });
        if let Some(at) = a.place_at {
            assert_eq!(at, (10, 20, 1424, 280));
            placed += 1;
            assert!(i < PLACE_ATTEMPTS as u64);
        }
        assert!(!a.close);
    }
    assert_eq!(placed, PLACE_ATTEMPTS);
}

#[test]
fn poll_once_a_second() {
    let mut s = FrameSchedule::new(100, (0, 0, 1424, 280));
    assert!(!s.on_frame(&FrameEvent { now_ns: 100 + POLL_INTERVAL_NS - 1, escape_pressed: false }).poll);
    assert!(s.on_frame(&FrameEvent { now_ns: 100 + POLL_INTERVAL_NS, escape_pressed: false }).poll);
    s.mark_polled(100 + POLL_INTERVAL_NS + 5);
    assert!(!s.on_frame(&FrameEvent { now_ns: 100 + POLL_INTERVAL_NS + 10, escape_pressed: false }).poll);
    assert!(s.on_frame(&FrameEvent { now_ns: 200 + 2 * POLL_INTERVAL_NS, escape_pressed: true }).close);
}

#[test]
fn once_flag() {
    let args: Vec<String> = vec!["hud-cli".into(), "--once".into()];
    assert!(once_requested(&args));
    let args2: Vec<String> = vec!["hud-cli".into(), "--onc".into(), "-once".into()];
    assert!(!once_requested(&args2));
    assert!(!once_requested(&vec![]));
}
