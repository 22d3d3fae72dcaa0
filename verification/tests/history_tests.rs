use syd::notifications::{AlertHistory, FdoNotificationServer, NotificationService, ALERT_CAPACITY};
use syd::types::NotifData;

fn alert(n: usize) -> NotifData {
    NotifData {
        summary: format!("summary {}", n),
        body: format!("body {}", n),
        app_name: format!("app {}", n),
    }
}

#[test]
fn capacity_is_fifty() {
    assert_eq!(ALERT_CAPACITY, 50);
}

#[test]
fn sixty_inserts_leave_fifty_newest_first() {
    let mut h = AlertHistory::new();
    for n in 0..60 {
        h.record(alert(n));
    }
    assert_eq!(h.len(), 50);
    let snap = h.snapshot();
    assert_eq!(snap.len(), 50);
    // Newest first: the last insertion leads, the oldest ten were evicted.
    assert_eq!(snap[0], alert(59));
    assert_eq!(snap[1], alert(58));
    assert_eq!(snap[49], alert(10));
}

#[test]
fn batch_record_matches_sequential_inserts() {
    let mut a = AlertHistory::new();
    let mut b = AlertHistory::new();
    let notes: Vec<_> = (0..60).map(alert).collect();
    for n in notes.iter() {
        a.record(n.clone());
    }
    b.record_all(notes);
    assert_eq!(a.snapshot(), b.snapshot());
    assert_eq!(b.len(), 50);
}

#[test]
fn snapshot_copies_in_insertion_order() {
    let mut h = AlertHistory::new();
    h.record(alert(1));
    h.record(alert(2));
    h.record(alert(3));
    let snap = h.snapshot();
    assert_eq!(snap, vec![alert(3), alert(2), alert(1)]);
}

#[test]
fn clear_on_empty_is_a_noop() {
    let mut h = AlertHistory::new();
    h.clear();
    h.clear();
    assert_eq!(h.len(), 0);
    assert!(h.snapshot().is_empty());
    h.record(alert(7));
    h.clear();
    h.clear();
    assert_eq!(h.len(), 0);
}

#[test]
fn notify_retains_and_returns_the_record() {
    let mut srv = FdoNotificationServer::new(AlertHistory::new());
    let (id, note) = srv.notify(
        "mail".to_string(),
        0,
        String::new(),
        "new message".to_string(),
        "hello".to_string(),
        Vec::new(),
        -1,
    );
    assert_eq!(id, 1);
    assert_eq!(note.app_name, "mail");
    assert_eq!(note.summary, "new message");
    assert_eq!(note.body, "hello");
    let snap = srv.history.snapshot();
    assert_eq!(snap.len(), 1);
    assert_eq!(snap[0], note);
}

#[test]
fn notify_evicts_beyond_capacity() {
    let mut srv = FdoNotificationServer::new(AlertHistory::new());
    for n in 0..55 {
        srv.notify(
            format!("app {}", n),
            0,
            String::new(),
            format!("s {}", n),
            String::new(),
            Vec::new(),
            -1,
        );
    }
    let snap = srv.history.snapshot();
    assert_eq!(snap.len(), 50);
    assert_eq!(snap[0].app_name, "app 54");
    assert_eq!(snap[49].app_name, "app 5");
}

#[test]
fn service_reads_and_clears() {
    let mut svc = NotificationService::new();
    assert!(svc.get_history().is_empty());
    svc.history.record(alert(1));
    assert_eq!(svc.get_history().len(), 1);
    svc.clear_history();
    assert!(svc.get_history().is_empty());
    svc.close(42);
}

#[test]
fn fdo_server_information() {
    let srv = FdoNotificationServer::new(AlertHistory::new());
    let caps = srv.get_capabilities();
    assert_eq!(caps, vec!["body".to_string()]);
    let (name, vendor, version, spec) = srv.get_server_information();
    assert_eq!(name, "Syd");
    assert_eq!(vendor, "Syd");
    assert_eq!(version, "0.1");
    assert_eq!(spec, "1.2");
    let mut srv = srv;
    srv.close_notification(9);
    assert!(srv.history.snapshot().is_empty());
}
