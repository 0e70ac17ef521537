use heimdallr::anim::AnimationKey;
use heimdallr::color::FrameColor;
use heimdallr::commands::{parse_command, Command};
use heimdallr::config::Config;
use heimdallr::notifications::{Notification, NotificationServer};
use heimdallr::overlay::{should_redraw, HeimdallrLayer};
use heimdallr::record::PartialMsg;

fn overlay() -> HeimdallrLayer {
    HeimdallrLayer::new(Config::default_config())
}

fn record(resource: &str, warning: i64, icon: &str) -> PartialMsg {
    PartialMsg {
        resource: resource.as_bytes().to_vec(),
        warning,
        icon: icon.as_bytes().to_vec(),
        has_data: false,
        eta: None,
        state: None,
    }
}

fn icon_ids(o: &HeimdallrLayer) -> Vec<Vec<u8>> {
    let mut ids = Vec::new();
    let mut i = 0;
    while i < o.icon_count() {
        ids.push(o.icon_at(i).id.clone());
        i += 1;
    }
    ids
}

fn notification(id: u32, summary: &str, expires: Option<u64>, reboot: bool) -> Notification {
    Notification {
        id,
        replaces_id: 0,
        app_name: "app".to_string(),
        summary: summary.to_string(),
        body: "".to_string(),
        app_icon: "".to_string(),
        urgency: 1,
        arrived_at: 0,
        expired_at: expires,
        reboot,
    }
}

#[test]
fn icon_set_follows_most_recent_warning() {
    let mut o = overlay();
    o.apply_status(record("loadavg", 600, ""), 0);
    o.apply_status(record("ram", 200, ""), 0);
    o.apply_status(record("disk", 900, ""), 0);
    o.apply_status(record("disk", 100, ""), 0);
    let ids = icon_ids(&o);
    assert_eq!(ids, vec![b"loadavg".to_vec()]);
}

#[test]
fn unknown_resources_with_empty_glyph_are_ignored() {
    let mut o = overlay();
    o.apply_status(record("weather", 990, ""), 0);
    assert_eq!(o.icon_count(), 0);
    assert!(!o.is_animating());
}

#[test]
fn temperature_uses_the_record_icon() {
    let mut o = overlay();
    o.apply_status(record("temperature", 700, "T"), 0);
    assert_eq!(o.icon_count(), 1);
    assert_eq!(o.icon_at(0).symbol, b"T".to_vec());
    // an empty icon field resolves no glyph: the record is ignored
    let mut p = overlay();
    p.apply_status(record("temperature", 700, ""), 0);
    assert_eq!(p.icon_count(), 0);
}

#[test]
fn resending_an_identical_record_is_idempotent() {
    let mut o = overlay();
    o.apply_status(record("ram", 600, ""), 0);
    assert_eq!(o.icon_count(), 1);
    // drain the insertion's animation so any new request would be visible
    o.maybe_redraw(10_000);
    assert!(!o.is_animating());
    o.apply_status(record("ram", 600, ""), 10_000);
    assert_eq!(o.icon_count(), 1);
    assert!(!o.is_animating());
}

#[test]
fn icon_appears_then_disappears_with_height_animation() {
    let mut o = overlay();
    o.apply_status(record("loadavg", 600, ""), 0);
    assert_eq!(icon_ids(&o), vec![b"loadavg".to_vec()]);
    assert!(o.is_animating());
    // let the column animate to one icon
    o.maybe_redraw(1_000);
    assert_eq!(o.model().get(AnimationKey::IconsHeight), 1000);
    o.apply_status(record("loadavg", 100, ""), 1_000);
    assert_eq!(o.icon_count(), 0);
    // and back down to none
    o.maybe_redraw(2_000);
    assert_eq!(o.model().get(AnimationKey::IconsHeight), 0);
}

#[test]
fn replacing_an_icon_updates_its_colour_without_animation() {
    let mut o = overlay();
    o.apply_status(record("ram", 400, ""), 0);
    o.maybe_redraw(10_000);
    let before = o.icon_at(0).color;
    o.apply_status(record("ram", 1000, ""), 10_000);
    assert_eq!(o.icon_count(), 1);
    let after = o.icon_at(0).color;
    assert!(before != after);
    assert_eq!(after, (255, 0, 0, 255));
    assert!(!o.is_animating());
}

#[test]
fn connectivity_record_only_moves_the_flag() {
    let mut o = overlay();
    assert!(!o.is_connected());
    o.apply_status(record("ratatoskr", 0, ""), 0);
    assert!(o.is_connected());
    assert_eq!(o.icon_count(), 0);
    o.apply_status(record("ratatoskr", 1000, ""), 0);
    assert!(!o.is_connected());
    assert_eq!(o.icon_count(), 0);
}

#[test]
fn battery_payload_updates_the_battery_fields() {
    let mut o = overlay();
    let mut rec = record("battery", 0, "");
    rec.has_data = true;
    rec.eta = Some(380097);
    rec.state = Some(b"Discharging".to_vec());
    o.apply_status(rec, 0);
    let (eta, recharging) = o.battery();
    assert_eq!(eta, Some(380097));
    assert_eq!(recharging, Some(false));
    let mut rec2 = record("battery", 0, "");
    rec2.has_data = true;
    rec2.state = Some(b"Charging".to_vec());
    o.apply_status(rec2, 0);
    assert_eq!(o.battery(), (None, Some(true)));
}

#[test]
fn show_notification_rejects_out_of_range_indices() {
    let mut o = overlay();
    o.apply_notification(notification(300, "a", None, false), 0);
    o.apply_notification(notification(301, "b", None, false), 0);
    assert!(!o.show_notification(-1));
    assert_eq!(o.notification_index(), 0);
    assert!(!o.show_notification(2));
    assert_eq!(o.notification_index(), 0);
    assert!(o.show_notification(1));
    assert_eq!(o.notification_index(), 1);
}

#[test]
fn remove_current_on_empty_list_is_refused() {
    let mut o = overlay();
    assert!(!o.remove_notification());
    assert_eq!(o.notification_count(), 0);
}

#[test]
fn next_notification_on_empty_inbox_changes_nothing() {
    let mut o = overlay();
    o.maybe_redraw(2_000);
    assert_eq!(parse_command(b"next_notification"), Some(Command::NextNotification));
    let changed = o.apply_command(Command::NextNotification);
    assert!(!changed);
    assert_eq!(o.notification_index(), 0);
    assert!(!o.is_dirty());
}

#[test]
fn commands_move_the_cursor_and_hide() {
    let mut o = overlay();
    o.apply_notification(notification(300, "a", None, false), 0);
    o.apply_notification(notification(301, "b", None, false), 0);
    o.apply_notification(notification(302, "c", None, false), 0);
    assert!(o.apply_command(Command::NextNotification));
    assert!(o.apply_command(Command::NextNotification));
    assert_eq!(o.notification_index(), 2);
    assert!(!o.apply_command(Command::NextNotification));
    assert!(o.apply_command(Command::PrevNotification));
    assert_eq!(o.notification_index(), 1);
    assert!(o.apply_command(Command::HideNotification));
    assert_eq!(o.notification_count(), 2);
    assert_eq!(o.notification_at(0).summary, "a");
    assert_eq!(o.notification_at(1).summary, "c");
    assert_eq!(o.notification_index(), 1);
}

#[test]
fn hiding_the_last_notification_reclamps_the_cursor() {
    let mut o = overlay();
    o.apply_notification(notification(300, "a", None, false), 0);
    o.apply_notification(notification(301, "b", None, false), 0);
    assert!(o.show_notification(1));
    assert!(o.apply_command(Command::HideNotification));
    assert_eq!(o.notification_index(), 0);
    assert!(o.apply_command(Command::HideNotification));
    assert_eq!(o.notification_count(), 0);
    assert_eq!(o.notification_index(), 0);
}

#[test]
fn unrecognized_command_tokens_parse_to_nothing() {
    assert_eq!(parse_command(b"hide_notification"), Some(Command::HideNotification));
    assert_eq!(parse_command(b"prev_notification"), Some(Command::PrevNotification));
    assert_eq!(parse_command(b"frobnicate"), None);
    assert_eq!(parse_command(b""), None);
}

#[test]
fn reboot_event_synthesizes_a_persistent_icon() {
    let mut server = NotificationServer::new();
    let (_, event) = server.notify(
        "app".to_string(),
        0,
        "".to_string(),
        "Reboot recommended".to_string(),
        "".to_string(),
        1,
        0,
        0,
    );
    assert!(event.reboot);
    let mut o = overlay();
    o.apply_notification(event, 0);
    assert_eq!(o.notification_count(), 1);
    assert_eq!(icon_ids(&o), vec![b"reboot".to_vec()]);
}

#[test]
fn first_notification_starts_the_height_animation() {
    let mut o = overlay();
    o.apply_notification(notification(300, "a", None, false), 0);
    o.maybe_redraw(1_000);
    assert_eq!(o.model().get(AnimationKey::NotificationHeight), 1000);
}

#[test]
fn expired_notifications_are_swept_and_the_height_returns() {
    let mut o = overlay();
    o.apply_notification(notification(300, "a", Some(500), false), 0);
    o.apply_notification(notification(301, "b", Some(2_500), false), 0);
    o.maybe_redraw(100);
    assert!(!o.prune_expired(100));
    assert_eq!(o.notification_count(), 2);
    assert!(o.prune_expired(1_000));
    assert_eq!(o.notification_count(), 1);
    assert_eq!(o.notification_at(0).summary, "b");
    assert!(o.prune_expired(3_000));
    assert_eq!(o.notification_count(), 0);
    o.maybe_redraw(10_000);
    assert_eq!(o.model().get(AnimationKey::NotificationHeight), 0);
}

#[test]
fn scheduler_lets_motion_render_every_tick() {
    assert!(should_redraw(false, true, 0, 0, 1000));
    assert!(should_redraw(true, true, 0, 0, 1000));
}

#[test]
fn scheduler_throttles_ordinary_redraws() {
    assert!(!should_redraw(false, false, 5_000, 0, 1000));
    assert!(!should_redraw(true, false, 500, 0, 1000));
    assert!(should_redraw(true, false, 1_000, 0, 1000));
}

#[test]
fn a_render_clears_dirty_and_resets_the_timestamp() {
    let mut o = overlay();
    assert!(o.is_dirty());
    assert!(o.maybe_redraw(1_000));
    assert!(!o.is_dirty());
    // nothing new: no render before the interval has elapsed again
    o.request_redraw();
    assert!(!o.maybe_redraw(1_500));
    assert!(o.maybe_redraw(2_000));
}

#[test]
fn worst_resource_frame_colour_follows_the_hottest_icon() {
    let mut o = HeimdallrLayer::new(Config {
        frame_color: FrameColor::WorstResource,
        show_clock: true,
    });
    assert_eq!(o.frame_outline_color(), None);
    o.apply_status(record("ram", 400, ""), 0);
    o.apply_status(record("disk", 900, ""), 0);
    let hot = o.frame_outline_color().unwrap();
    let mut i = 0;
    let mut disk_color = None;
    while i < o.icon_count() {
        if o.icon_at(i).id == b"disk".to_vec() {
            disk_color = Some(o.icon_at(i).color);
        }
        i += 1;
    }
    assert_eq!(Some(hot), disk_color);
}

#[test]
fn fixed_frame_colour_is_returned_as_is() {
    let o = HeimdallrLayer::new(Config {
        frame_color: FrameColor::Rgba(1, 2, 3, 4),
        show_clock: false,
    });
    assert_eq!(o.frame_outline_color(), Some((1, 2, 3, 4)));
}
