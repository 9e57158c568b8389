use thumb_queue::dispatcher::{Dispatcher, DispatcherPhase};

#[test]
fn lifecycle_runs_in_order() {
    let mut d = Dispatcher::new();
    assert_eq!(d.phase_now(), DispatcherPhase::Setup);
    d.sink_started();
    assert_eq!(d.phase_now(), DispatcherPhase::SinkStarted);
    d.workers_started(4);
    assert_eq!(d.phase_now(), DispatcherPhase::WorkersStarted);
    d.serving();
    assert_eq!(d.phase_now(), DispatcherPhase::Serving);
}

#[test]
fn shutdown_twice_acts_once() {
    let mut d = Dispatcher::new();
    d.sink_started();
    d.workers_started(4);
    d.serving();
    // the first call asks for the shutdown sequence
    assert!(d.shutdown());
    assert_eq!(d.phase_now(), DispatcherPhase::Stopped);
    // the second reports already-stopped and asks for nothing
    assert!(!d.shutdown());
    assert_eq!(d.phase_now(), DispatcherPhase::Stopped);
}

#[test]
fn shutdown_before_serving_still_stops() {
    let mut d = Dispatcher::new();
    d.sink_started();
    assert!(d.shutdown());
    assert_eq!(d.phase_now(), DispatcherPhase::Stopped);
    assert!(!d.shutdown());
}
