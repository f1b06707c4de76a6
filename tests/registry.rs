use sonicdeck::registry::AudioManager;
use std::sync::mpsc;

#[test]
fn playback_ids_count_up_from_one() {
    let mut m = AudioManager::new();
    assert_eq!(m.next_playback_id(), "playback_1");
    assert_eq!(m.next_playback_id(), "playback_2");
    for _ in 0..7 {
        m.next_playback_id();
    }
    assert_eq!(m.next_playback_id(), "playback_10");
}

#[test]
fn playback_ids_are_distinct() {
    let mut m = AudioManager::default();
    let mut seen = Vec::new();
    for _ in 0..150 {
        let id = m.next_playback_id();
        assert!(!seen.contains(&id));
        seen.push(id);
    }
    assert_eq!(seen[122], "playback_123");
}

#[test]
fn signal_stop_reports_and_sends_once() {
    let mut m = AudioManager::new();
    let (tx, rx) = mpsc::channel();
    m.register_playback("playback_1".to_string(), tx);
    assert!(m.signal_stop("playback_1"));
    assert!(rx.try_recv().is_ok());
    assert!(!m.signal_stop("playback_1"));
    assert!(rx.try_recv().is_err());
}

#[test]
fn signal_stop_of_unknown_id_is_false() {
    let mut m = AudioManager::new();
    assert!(!m.signal_stop("playback_9"));
}

#[test]
fn unregister_removes_without_signal() {
    let mut m = AudioManager::new();
    let (tx, rx) = mpsc::channel();
    m.register_playback("a".to_string(), tx);
    m.unregister_playback("a");
    assert!(!m.signal_stop("a"));
    assert!(rx.try_recv().is_err());
}

#[test]
fn stop_all_signals_every_playback_and_empties() {
    let mut m = AudioManager::new();
    let (tx1, rx1) = mpsc::channel();
    let (tx2, rx2) = mpsc::channel();
    m.register_playback("a".to_string(), tx1);
    m.register_playback("b".to_string(), tx2);
    m.stop_all();
    assert!(rx1.try_recv().is_ok());
    assert!(rx2.try_recv().is_ok());
    assert!(m.get_stop_senders().is_empty());
    let (tx3, rx3) = mpsc::channel();
    m.register_playback("c".to_string(), tx3);
    assert!(rx3.try_recv().is_err());
    assert!(m.signal_stop("c"));
}

#[test]
fn register_replaces_the_handle_of_an_id() {
    let mut m = AudioManager::new();
    let (tx1, rx1) = mpsc::channel();
    let (tx2, rx2) = mpsc::channel();
    m.register_playback("a".to_string(), tx1);
    m.register_playback("a".to_string(), tx2);
    assert_eq!(m.get_stop_senders().len(), 1);
    assert!(m.signal_stop("a"));
    assert!(rx1.try_recv().is_err());
    assert!(rx2.try_recv().is_ok());
}

#[test]
fn stopping_one_playback_leaves_the_other() {
    let mut m = AudioManager::new();
    let (tx1, rx1) = mpsc::channel();
    let (tx2, rx2) = mpsc::channel();
    m.register_playback("playback_1".to_string(), tx1);
    m.register_playback("playback_2".to_string(), tx2);
    assert!(m.signal_stop("playback_1"));
    assert!(rx1.try_recv().is_ok());
    assert!(rx2.try_recv().is_err());
    let left = m.get_stop_senders();
    assert_eq!(left.len(), 1);
    assert_eq!(left[0].0, "playback_2");
}

#[test]
fn stop_handles_handed_out_reach_the_playback() {
    let mut m = AudioManager::new();
    let (tx, rx) = mpsc::channel();
    m.register_playback("a".to_string(), tx);
    let handles = m.get_stop_senders();
    assert_eq!(handles.len(), 1);
    handles[0].1.send(()).unwrap();
    assert!(rx.try_recv().is_ok());
}
