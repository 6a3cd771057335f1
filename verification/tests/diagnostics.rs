use sher_display::diagnostics::{DebugMode, FrameCounters, RollingWindow, ROLLING_WINDOW};
use sher_display::common::Error;

fn mean(w: &RollingWindow<f64>) -> f64 {
    let mut total: f64 = 0.0;
    for i in 0..w.len() {
        total += *w.get(i);
    }
    total / w.len() as f64
}

#[test]
fn rolling_window_drops_oldest_sample() {
    let mut frames: RollingWindow<f64> = RollingWindow::new();
    for _ in 0..ROLLING_WINDOW {
        frames.push(10.0);
    }
    frames.push(100.0);

    assert_eq!(frames.len(), ROLLING_WINDOW);
    assert!(mean(&frames) > 10.0);
}

#[test]
fn dropped_and_missed_frames_are_counted() {
    let mut counters = FrameCounters::new();
    counters.record_frame(true);
    counters.record_frame(false);
    counters.record_missed_frame();

    assert_eq!(counters.dropped_frames, 1);
    assert_eq!(counters.missed_frames, 1);
}

#[test]
fn debug_gate_fails_closed_by_default() {
    let debug = DebugMode::new();
    assert!(debug.require_enabled().is_err());
}

#[test]
fn debug_gate_opens_once_enabled() {
    let mut debug = DebugMode::new();
    debug.enable();
    assert!(debug.require_enabled().is_ok());
}

#[test]
fn debug_gate_closes_again_and_reports_why() {
    let mut debug = DebugMode::new();
    debug.enable();
    assert!(debug.is_enabled());
    debug.disable();
    assert!(!debug.is_enabled());
    match debug.require_enabled() {
        Err(Error::Security(m)) => assert_eq!(m, "debug mode is disabled"),
        other => panic!("expected a security error, got {:?}", other),
    }
}

#[test]
fn full_window_keeps_the_latest_samples_in_order() {
    let mut w: RollingWindow<u32> = RollingWindow::new();
    for i in 0..(ROLLING_WINDOW as u32 + 5) {
        w.push(i);
    }
    assert_eq!(w.len(), ROLLING_WINDOW);
    assert_eq!(*w.get(0), 5);
    assert_eq!(*w.get(ROLLING_WINDOW - 1), ROLLING_WINDOW as u32 + 4);
}

#[test]
fn active_outputs_are_recorded() {
    let mut counters = FrameCounters::default();
    counters.set_active_outputs(2);
    assert_eq!(counters.active_outputs, 2);
    assert_eq!(counters.dropped_frames, 0);
}

#[test]
fn debug_gate_follows_the_last_call() {
    let mut debug = DebugMode::new();
    debug.enable();
    debug.disable();
    debug.enable();
    assert!(debug.require_enabled().is_ok());
    debug.disable();
    assert!(debug.require_enabled().is_err());
}
