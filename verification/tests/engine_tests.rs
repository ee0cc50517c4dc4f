use radio_conductor::engine::{fade_volume_permille, Engine, FADE_MS};

#[test]
fn fresh_engine_is_idle() {
    let e = Engine::new();
    assert!(e.session.is_none());
    assert!(e.fading.is_none());
    assert_eq!(e.elapsed(12345), 0);
}

#[test]
fn play_records_session_and_elapsed_tracks_wall_clock() {
    let mut e = Engine::new();
    let r = e.play(0, 3, 1_000, 10.0f32.to_bits());
    assert_eq!(r.stopped, None);
    let s = e.session.expect("playing");
    assert_eq!((s.tab, s.slot), (0, 3));
    assert_eq!(s.duration_bits, 10.0f32.to_bits());
    // Two seconds later the position is exactly two seconds.
    assert_eq!(e.elapsed(3_000), 2_000);
}

#[test]
fn second_play_hard_stops_first_and_uses_fresh_sink() {
    let mut e = Engine::new();
    let a = e.play(0, 1, 100, 0);
    let b = e.play(0, 2, 200, 0);
    // A's sink is stopped the moment B starts, and B runs on a new sink.
    assert_eq!(b.stopped, Some(a.started));
    assert_ne!(b.started, a.started);
    assert_eq!(e.session.unwrap().sink, b.started);
}

#[test]
fn fade_between_plays_never_touches_new_sink() {
    let mut e = Engine::new();
    let a = e.play(0, 1, 100, 0);
    let fade = e.fade_out().expect("first fade starts");
    assert_eq!(fade, a.started);
    let b = e.play(0, 2, 200, 0);
    assert_ne!(fade, b.started);
    assert_eq!(e.fading, Some(a.started));
    // The fade task finishing stops only the detached old sink.
    e.fade_done();
    assert!(e.fading.is_none());
    assert_eq!(e.session.unwrap().sink, b.started);
}

#[test]
fn fade_out_is_single_flight() {
    let mut e = Engine::new();
    e.play(1, 1, 0, 0);
    let first = e.fade_out();
    let second = e.fade_out();
    assert!(first.is_some());
    assert_eq!(second, None);
    // After the fade task ends on the current sink, the engine is idle and
    // a later fade has nothing to do.
    e.fade_done();
    assert!(e.session.is_none());
    assert_eq!(e.fade_out(), None);
}

#[test]
fn fade_out_idle_is_noop() {
    let mut e = Engine::new();
    assert_eq!(e.fade_out(), None);
}

#[test]
fn stop_clears_session() {
    let mut e = Engine::new();
    let r = e.play(0, 0, 50, 0);
    assert_eq!(e.stop(), Some(r.started));
    assert!(e.session.is_none());
    assert_eq!(e.elapsed(99), 0);
    assert_eq!(e.stop(), None);
}

#[test]
fn fade_ramp_is_monotone_and_ends_silent() {
    let mut last = fade_volume_permille(0);
    assert_eq!(last, FADE_MS);
    let mut t = 0u64;
    while t <= FADE_MS + 64 {
        let v = fade_volume_permille(t);
        assert!(v <= last);
        last = v;
        t += 16;
    }
    assert_eq!(fade_volume_permille(FADE_MS), 0);
    assert_eq!(fade_volume_permille(FADE_MS + 1000), 0);
}

#[test]
fn elapsed_before_start_is_zero() {
    let mut e = Engine::new();
    e.play(0, 0, 1_000, 0);
    assert_eq!(e.elapsed(500), 0);
}
