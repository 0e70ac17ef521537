//! The notification service's logic: id allocation, expiry deadlines, and
//! the packaging of inbound calls into notification events.
//!
//! The service is driven by an inbound RPC surface that lives outside the
//! library; each call hands the plain values here and forwards the packaged
//! event to the reconciler's queue. Identifiers come from one monotonic
//! counter whose first values are reserved for internally synthesized
//! banners.

use vstd::prelude::*;

verus! {

/// The first identifier handed to an external notification; everything
/// below is reserved for internally synthesized banners.
pub const FIRST_EXTERNAL_ID: u32 = 256;

/// The summary text that flags a notification as a reboot banner.
pub open spec fn reboot_summary() -> Seq<char> {
    "Reboot recommended"@
}

/// One notification event: identity, text, urgency, arrival and expiry
/// instants in milliseconds, and the reboot flag the reconciler reacts to.
#[derive(Debug, Clone)]
pub struct Notification {
    pub id: u32,
    pub replaces_id: u32,
    pub app_name: String,
    pub summary: String,
    pub body: String,
    pub app_icon: String,
    pub urgency: u8,
    pub arrived_at: u64,
    pub expired_at: Option<u64>,
    pub reboot: bool,
}

/// When a notification expires: an explicit timeout beyond one millisecond
/// counts from now; otherwise anything short of critical urgency gets the
/// three-second default; a critical notification never expires on its own.
pub open spec fn expiry_spec(urgency: u8, expire_timeout_ms: i64, now_ms: u64) -> Option<u64> {
    if expire_timeout_ms > 1 {
        Some((now_ms + expire_timeout_ms) as u64)
    } else if urgency < 2 {
        Some((now_ms + 3000) as u64)
    } else {
        None
    }
}

/// The notification service's state: the monotonic identifier counter.
pub struct NotificationServer {
    pub(crate) next_id: u32,
}

impl NotificationServer {
    /// The next identifier that will be handed out.
    pub closed spec fn spec_next_id(&self) -> u32 {
        self.next_id
    }

    /// A fresh service, with every reserved identifier still untouched.
    pub fn new() -> (s: NotificationServer)
        ensures
            s.spec_next_id() == FIRST_EXTERNAL_ID,
    {
        NotificationServer { next_id: FIRST_EXTERNAL_ID }
    }

    /// Accept one inbound notification call: allocate the next identifier,
    /// compute the expiry deadline, and package the event for the queue.
    /// The id is returned to the caller synchronously; the counter moves
    /// strictly upwards on every call.
    pub fn notify(
        &mut self,
        app_name: String,
        replaces_id: u32,
        app_icon: String,
        summary: String,
        body: String,
        urgency: u8,
        expire_timeout_ms: i64,
        now_ms: u64,
    ) -> (r: (u32, Notification))
        requires
            old(self).spec_next_id() < 0xFFFF_FFFF,
            0 <= expire_timeout_ms <= 0x7FFF_FFFF,
            now_ms <= 0x7FFF_FFFF_FFFF_FFFF,
        ensures
            r.0 == old(self).spec_next_id(),
            final(self).spec_next_id() == old(self).spec_next_id() + 1,
            r.1.id == r.0,
            r.1.replaces_id == replaces_id,
            r.1.app_name == app_name,
            r.1.summary == summary,
            r.1.body == body,
            r.1.app_icon == app_icon,
            r.1.urgency == urgency,
            r.1.arrived_at == now_ms,
            r.1.expired_at == expiry_spec(urgency, expire_timeout_ms, now_ms),
            r.1.reboot == (summary@ == reboot_summary()),
    {
        let id = self.next_id;
        self.next_id = id + 1;
        let reboot = is_reboot_summary(&summary);
        let expired_at: Option<u64> = if expire_timeout_ms > 1 {
            Some(now_ms + (expire_timeout_ms as u64))
        } else if urgency < 2 {
            Some(now_ms + 3000)
        } else {
            None
        };
        let event = Notification {
            id,
            replaces_id,
            app_name,
            summary,
            body,
            app_icon,
            urgency,
            arrived_at: now_ms,
            expired_at,
            reboot,
        };
        (id, event)
    }

    /// The identifier the next call will be given.
    pub fn next_id(&self) -> (r: u32)
        ensures
            r == self.spec_next_id(),
    {
        self.next_id
    }

    /// The server-identity quadruple: name, vendor, version, and the
    /// protocol revision spoken.
    pub fn get_server_information(&self) -> (r: (String, String, String, String))
        ensures
            r.0@ == "Heimdallr"@,
            r.1@ == "Vincenzo"@,
            r.2@ == "1.0"@,
            r.3@ == "1.2"@,
    {
        (
            "Heimdallr".to_owned(),
            "Vincenzo".to_owned(),
            "1.0".to_owned(),
            "1.2".to_owned(),
        )
    }
}

/// Whether a summary flags the reboot banner.
pub fn is_reboot_summary(summary: &String) -> (r: bool)
    ensures
        r == (summary@ == reboot_summary()),
{
    let lit: String = "Reboot recommended".to_owned();
    summary.eq(&lit)
}

} // verus!
