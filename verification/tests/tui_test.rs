use wsblast::tui::{elapsed_text, metric_cards, progress_text, quit_requested, Key, KeyPress};
use wsblast::metrics::LiveSnapshot;
use wsblast::runner::{fd_limit_warning, progress_status, request_limit_reached};
use wsblast::tables::Tone;
use wsblast::time::Duration;

fn press(key: Key, control_only: bool) -> KeyPress {
    KeyPress { key, control_only, pressed: true }
}

#[test]
fn quit_keys() {
    assert!(quit_requested(press(Key::Char('q'), false)));
    assert!(quit_requested(press(Key::Char('Q'), false)));
    assert!(quit_requested(press(Key::Esc, false)));
    assert!(quit_requested(press(Key::Char('c'), true)));
    assert!(!quit_requested(press(Key::Char('c'), false)));
    assert!(!quit_requested(press(Key::Other, true)));
    assert!(!quit_requested(KeyPress { key: Key::Char('q'), control_only: false, pressed: false }));
}

#[test]
fn dashboard_labels() {
    assert_eq!(elapsed_text(&Duration::from_millis(12_340)), "Elapsed: 12.3s");
    assert_eq!(progress_text(&Duration::from_secs(5), &Duration::from_secs(20)), "25.0% (5.0s / 20.0s)");
    assert_eq!(progress_text(&Duration::from_secs(5), &Duration::zero()), "100.0% (5.0s / 0.0s)");
}

#[test]
fn metric_card_texts() {
    let snap = LiveSnapshot {
        active_connections: 3,
        connections_established: 4,
        connections_failed: 1,
        messages_sent: 100,
        messages_received: 50,
        bytes_sent: 2 * 1024 * 1024,
        bytes_received: 1024 * 1024,
        total_errors: 0,
    };
    let cards = metric_cards(4, &snap, &Duration::from_secs(2));
    assert_eq!(cards.len(), 4);
    assert_eq!(cards[0].value, "3");
    assert_eq!(cards[0].unit, " / 4");
    assert_eq!(cards[0].detail, "Failed: 1");
    assert_eq!(cards[1].value, "25.0");
    assert_eq!(cards[1].detail, "Total: 50");
    assert_eq!(cards[2].value, "1.00");
    assert_eq!(cards[2].detail, "Sent: 2.00 MB");
    assert_eq!(cards[3].detail, "All healthy");
    assert_eq!(cards[3].tone, Tone::Good);
}

#[test]
fn runner_decisions() {
    assert!(fd_limit_warning(10, 1024).is_none());
    let w = fd_limit_warning(1000, 1024).unwrap();
    assert!(w.contains("Configured connections (1000)"));
    assert!(w.contains("(ulimit -n = 1024)"));
    assert!(request_limit_reached(30, 30));
    assert!(!request_limit_reached(29, 30));
    let snap = LiveSnapshot {
        active_connections: 2,
        connections_established: 2,
        connections_failed: 0,
        messages_sent: 10,
        messages_received: 10,
        bytes_sent: 0,
        bytes_received: 0,
        total_errors: 1,
    };
    assert_eq!(progress_status(&snap, &Duration::from_secs(4)), "Active: 2 | Msg/s: 2.5 | Recv: 10 | Err: 1");
}
