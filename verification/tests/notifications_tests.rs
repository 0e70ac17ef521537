use heimdallr::notifications::{NotificationServer, FIRST_EXTERNAL_ID};

fn notify(
    server: &mut NotificationServer,
    summary: &str,
    urgency: u8,
    timeout_ms: i64,
    now_ms: u64,
) -> (u32, heimdallr::notifications::Notification) {
    server.notify(
        "app".to_string(),
        0,
        "".to_string(),
        summary.to_string(),
        "body".to_string(),
        urgency,
        timeout_ms,
        now_ms,
    )
}

#[test]
fn ids_start_above_the_reserved_range_and_increase() {
    let mut s = NotificationServer::new();
    let (a, _) = notify(&mut s, "one", 1, 0, 0);
    let (b, _) = notify(&mut s, "two", 1, 0, 0);
    let (c, _) = notify(&mut s, "three", 1, 0, 0);
    assert_eq!(a, FIRST_EXTERNAL_ID);
    assert_eq!(b, a + 1);
    assert_eq!(c, b + 1);
}

#[test]
fn explicit_timeout_sets_the_deadline() {
    let mut s = NotificationServer::new();
    let (_, n) = notify(&mut s, "x", 0, 5_000, 100);
    assert_eq!(n.expired_at, Some(5_100));
}

#[test]
fn non_critical_notifications_get_the_three_second_default() {
    let mut s = NotificationServer::new();
    let (_, n) = notify(&mut s, "x", 0, 0, 100);
    assert_eq!(n.expired_at, Some(3_100));
    let (_, m) = notify(&mut s, "x", 1, 1, 100);
    assert_eq!(m.expired_at, Some(3_100));
}

#[test]
fn critical_notifications_never_expire_on_their_own() {
    let mut s = NotificationServer::new();
    let (_, n) = notify(&mut s, "x", 2, 0, 100);
    assert_eq!(n.expired_at, None);
}

#[test]
fn a_critical_notification_with_a_timeout_still_expires() {
    let mut s = NotificationServer::new();
    let (_, n) = notify(&mut s, "x", 2, 2_000, 100);
    assert_eq!(n.expired_at, Some(2_100));
}

#[test]
fn the_event_carries_the_call_and_its_identity() {
    let mut s = NotificationServer::new();
    let (id, n) = notify(&mut s, "hello", 1, 0, 42);
    assert_eq!(n.id, id);
    assert_eq!(n.app_name, "app");
    assert_eq!(n.summary, "hello");
    assert_eq!(n.body, "body");
    assert_eq!(n.urgency, 1);
    assert_eq!(n.arrived_at, 42);
    assert!(!n.reboot);
}

#[test]
fn the_reboot_summary_flags_the_event() {
    let mut s = NotificationServer::new();
    let (_, n) = notify(&mut s, "Reboot recommended", 1, 0, 0);
    assert!(n.reboot);
    let (_, m) = notify(&mut s, "Reboot recommended!", 1, 0, 0);
    assert!(!m.reboot);
}

#[test]
fn server_information_is_the_fixed_quadruple() {
    let s = NotificationServer::new();
    let (name, vendor, version, spec) = s.get_server_information();
    assert_eq!(name, "Heimdallr");
    assert_eq!(vendor, "Vincenzo");
    assert_eq!(version, "1.0");
    assert_eq!(spec, "1.2");
}
