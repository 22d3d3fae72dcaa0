use syd::mux::{merge_by_schedule, Multiplexer};
use syd::relay::RegistrationRelay;
use syd::types::SydEvent;

#[test]
fn relay_emits_in_enqueue_order() {
    let mut r = RegistrationRelay::new();
    r.announce("A".to_string());
    r.announce("B".to_string());
    r.announce("C".to_string());
    assert_eq!(r.pending_len(), 3);
    assert_eq!(r.take_next(), Some("A".to_string()));
    assert_eq!(r.take_next(), Some("B".to_string()));
    assert_eq!(r.take_next(), Some("C".to_string()));
    assert_eq!(r.take_next(), None);
}

#[test]
fn relay_never_deduplicates() {
    let mut r = RegistrationRelay::new();
    r.announce("X".to_string());
    r.announce("X".to_string());
    assert_eq!(r.pending_len(), 2);
    assert_eq!(r.take_next(), Some("X".to_string()));
    assert_eq!(r.take_next(), Some("X".to_string()));
    assert_eq!(r.take_next(), None);
}

fn assert_source_order(merged: &[(usize, u32)], tag: usize, expected: &[u32]) {
    let got: Vec<u32> = merged.iter().filter(|p| p.0 == tag).map(|p| p.1).collect();
    assert_eq!(got, expected);
}

#[test]
fn merge_preserves_each_streams_order() {
    let streams = || vec![vec![1u32, 2], vec![10u32, 20]];
    let schedules: Vec<Vec<usize>> = vec![
        vec![0, 1, 0, 1],
        vec![1, 1, 0, 0],
        vec![0, 0, 1, 1],
        vec![1, 0, 0, 1],
        vec![0, 1, 1, 0],
    ];
    for sched in schedules {
        let merged = merge_by_schedule(&sched, streams());
        assert_eq!(merged.len(), 4);
        assert_source_order(&merged, 0, &[1, 2]);
        assert_source_order(&merged, 1, &[10, 20]);
    }
}

#[test]
fn merge_skips_exhausted_streams() {
    let merged = merge_by_schedule(&vec![0, 0, 0, 1], vec![vec![1u32, 2], vec![10u32]]);
    assert_eq!(merged, vec![(0, 1), (0, 2), (1, 10)]);
    let merged = merge_by_schedule(&vec![5, 0], vec![vec![7u32]]);
    assert_eq!(merged, vec![(0, 7)]);
}

#[test]
fn multiplexer_tags_events_payload_unchanged() {
    let mut m: Multiplexer<SydEvent> = Multiplexer::new(3);
    assert!(m.active());
    let (tag, ev) = m.deliver(1, SydEvent::Volume(40));
    assert_eq!(tag, 1);
    assert_eq!(ev, SydEvent::Volume(40));
    let (tag, ev) = m.deliver(0, SydEvent::BtPower(true));
    assert_eq!(tag, 0);
    assert_eq!(ev, SydEvent::BtPower(true));
}

#[test]
fn multiplexer_ends_with_the_first_lost_source() {
    let mut m: Multiplexer<SydEvent> = Multiplexer::new(3);
    m.deliver(2, SydEvent::Brightness(5));
    m.source_ended(0);
    assert!(!m.active());
}
