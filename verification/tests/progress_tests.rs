use byzer_shell::progress::{monitor_message, monitor_tick, ExecutingProgressBar, MonitorStep};
use std::sync::mpsc::channel;

#[test]
fn unarmed_bar_sends_nothing() {
    let pb = ExecutingProgressBar::new();
    assert!(!pb.send_finish_signal(true));
}

#[test]
fn armed_bar_delivers_the_verdict() {
    let (tx, rx) = channel::<bool>();
    let mut pb = ExecutingProgressBar::new();
    pb.arm_monitor(tx);
    assert!(pb.send_finish_signal(false));
    assert_eq!(rx.recv().unwrap(), false);
}

#[test]
fn delivery_fails_once_the_listener_is_gone() {
    let (tx, rx) = channel::<bool>();
    let mut pb = ExecutingProgressBar::new();
    pb.arm_monitor(tx);
    drop(rx);
    assert!(!pb.send_finish_signal(true));
}

#[test]
fn monitor_ticks_until_signalled() {
    assert!(matches!(monitor_tick(0, None), MonitorStep::Tick { next_count: 1 }));
    assert!(matches!(monitor_tick(41, None), MonitorStep::Tick { next_count: 42 }));
    assert!(matches!(monitor_tick(7, Some(true)), MonitorStep::Finished { success: true }));
    assert!(matches!(monitor_tick(7, Some(false)), MonitorStep::Finished { success: false }));
}

#[test]
fn monitor_status_line() {
    assert_eq!(monitor_message("starting", 3), "starting 3s");
    assert_eq!(monitor_message("executing", 0), "executing 0s");
}
