//! The overlay state reconciler: the single authority over the canonical
//! presentation state.
//!
//! Once per tick the owner drains the command queue, the status queue and
//! the notification queue — in that order — through the `apply_*` methods
//! here, then asks `maybe_redraw` whether the renderer must run. Icons live
//! in a duplicate-free list keyed by resource; a status record adds,
//! replaces or removes one according to the warning threshold and the glyph
//! table, structural size changes start height animations, and every
//! visible change raises the dirty flag that the redraw scheduler consumes.

use vstd::prelude::*;
use crate::anim::Animation;
use crate::anim::AnimationKey;
use crate::anim::Animator;
use crate::anim::FrameModel;
use crate::anim::animate_spec;
use crate::anim::step_survivors;
use crate::anim::stepped_val;
use crate::anim::MAX_ANIM_VALUE;
use crate::color::FrameColor;
use crate::commands::Command;
use crate::color::get_color_gradient;
use crate::color::gradient_spec;
use crate::config::Config;
use crate::notifications::Notification;
use crate::record::PartialMsg;
use crate::record::RecordV;
use crate::stream::self_resource;

verus! {

broadcast use vstd::seq_lib::group_filter_ensures;

/// How long the two height animations run, in milliseconds.
pub const HEIGHT_ANIM_MS: u64 = 120;

/// The warning level, in thousandths, at or above which a resource shows
/// an icon.
pub const ICON_THRESHOLD_MILLI: i64 = 300;

/// The warning level, in thousandths, below which the stream's own record
/// means the connection is up.
pub const CONNECTED_BELOW_MILLI: i64 = 500;

/// One icon in the overlay's alarm column.
pub struct AlarmIcon {
    pub id: Vec<u8>,
    pub symbol: Vec<u8>,
    pub color: (u8, u8, u8, u8),
    pub warn: i64,
}

/// The spec-level image of one alarm icon.
pub struct AlarmIconV {
    pub id: Seq<u8>,
    pub symbol: Seq<u8>,
    pub color: (u8, u8, u8, u8),
    pub warn: int,
}

impl View for AlarmIcon {
    type V = AlarmIconV;

    open spec fn view(&self) -> AlarmIconV {
        AlarmIconV { id: self.id@, symbol: self.symbol@, color: self.color, warn: self.warn as int }
    }
}

/// The bytes naming the battery resource.
pub open spec fn battery_resource() -> Seq<u8> {
    seq![98u8, 97u8, 116u8, 116u8, 101u8, 114u8, 121u8]
}

/// The bytes naming the synthesized reboot icon.
pub open spec fn reboot_resource() -> Seq<u8> {
    seq![114u8, 101u8, 98u8, 111u8, 111u8, 116u8]
}

/// The glyph shown for the reboot banner.
pub open spec fn reboot_glyph() -> Seq<u8> {
    seq![226u8, 134u8, 187u8]
}

/// The glyph for the load-average resource.
pub open spec fn glyph_loadavg() -> Seq<u8> {
    seq![243u8, 176u8, 172u8, 162u8]
}

/// The glyph for the memory resource.
pub open spec fn glyph_ram() -> Seq<u8> {
    seq![243u8, 176u8, 152u8, 154u8]
}

/// The glyph for the disk resource.
pub open spec fn glyph_disk() -> Seq<u8> {
    seq![243u8, 176u8, 139u8, 138u8]
}

/// The bytes naming the load-average resource.
pub open spec fn res_loadavg() -> Seq<u8> {
    seq![108u8, 111u8, 97u8, 100u8, 97u8, 118u8, 103u8]
}

/// The bytes naming the memory resource.
pub open spec fn res_ram() -> Seq<u8> {
    seq![114u8, 97u8, 109u8]
}

/// The bytes naming the temperature resource.
pub open spec fn res_temperature() -> Seq<u8> {
    seq![116u8, 101u8, 109u8, 112u8, 101u8, 114u8, 97u8, 116u8, 117u8, 114u8, 101u8]
}

/// The bytes naming the network resource.
pub open spec fn res_network() -> Seq<u8> {
    seq![110u8, 101u8, 116u8, 119u8, 111u8, 114u8, 107u8]
}

/// The bytes naming the disk resource.
pub open spec fn res_disk() -> Seq<u8> {
    seq![100u8, 105u8, 115u8, 107u8]
}

/// The resource-id to glyph table: fixed glyphs for the load, memory and
/// disk resources, the record's own icon for temperature and network, and
/// nothing for anything else — a resource without a glyph never shows an
/// icon.
pub open spec fn glyph_of(resource: Seq<u8>, icon: Seq<u8>) -> Seq<u8> {
    if resource == res_loadavg() {
        glyph_loadavg()
    } else if resource == res_ram() {
        glyph_ram()
    } else if resource == res_temperature() {
        icon
    } else if resource == res_network() {
        icon
    } else if resource == res_disk() {
        glyph_disk()
    } else {
        Seq::<u8>::empty()
    }
}

/// The first icon with a given id, if any.
pub open spec fn find_icon(icons: Seq<AlarmIconV>, id: Seq<u8>) -> Option<int>
    decreases icons.len(),
{
    if icons.len() == 0 {
        None
    } else if icons[0].id == id {
        Some(0)
    } else {
        match find_icon(icons.skip(1), id) {
            Some(j) => Some(j + 1),
            None => None,
        }
    }
}

/// Insert an icon, or replace the one already carrying its id in place.
pub open spec fn upsert_icon(icons: Seq<AlarmIconV>, icon: AlarmIconV) -> Seq<AlarmIconV> {
    match find_icon(icons, icon.id) {
        Some(j) => icons.update(j, icon),
        None => icons.push(icon),
    }
}

/// Remove the icon carrying an id, where present.
pub open spec fn remove_icon_spec(icons: Seq<AlarmIconV>, id: Seq<u8>) -> Seq<AlarmIconV> {
    match find_icon(icons, id) {
        Some(j) => icons.remove(j),
        None => icons,
    }
}

/// No two icons share an id.
pub open spec fn icons_unique(icons: Seq<AlarmIconV>) -> bool {
    forall|i: int, j: int|
        0 <= i < j < icons.len() ==> (#[trigger] icons[i]).id != (#[trigger] icons[j]).id
}

/// The colour quad the gradient assigns to a warning level.
pub open spec fn gradient_bytes(w: int) -> (u8, u8, u8, u8) {
    let g = gradient_spec(0, 1000, w, false);
    (g.0 as u8, g.1 as u8, g.2 as u8, g.3 as u8)
}

/// What the battery payload's state text means for the recharging flag.
pub open spec fn recharging_of(state: Option<Seq<u8>>) -> Option<bool> {
    match state {
        Some(s) => if s == discharging_text() {
            Some(false)
        } else if s == charging_text() {
            Some(true)
        } else {
            None
        },
        None => None,
    }
}

/// The animation target, in thousandths, for an icon count; capped far
/// beyond any real column so the fixed-point engine never overflows.
pub open spec fn icons_target(n: int) -> int {
    if n > 1000 {
        1_000_000
    } else {
        n * 1000
    }
}


/// The battery state text meaning the battery is draining.
pub open spec fn discharging_text() -> Seq<u8> {
    seq![68u8, 105u8, 115u8, 99u8, 104u8, 97u8, 114u8, 103u8, 105u8, 110u8, 103u8]
}

/// The battery state text meaning the battery is filling.
pub open spec fn charging_text() -> Seq<u8> {
    seq![67u8, 104u8, 97u8, 114u8, 103u8, 105u8, 110u8, 103u8]
}

/// Whether two byte strings are equal.
pub fn bytes_eq(a: &[u8], b: &[u8]) -> (r: bool)
    ensures
        r == (a@ == b@),
{
    if a.len() != b.len() {
        proof {
            if a@ == b@ {
                assert(a@.len() == b@.len());
            }
        }
        return false;
    }
    let mut i: usize = 0;
    while i < a.len()
        invariant
            i <= a@.len(),
            a@.len() == b@.len(),
            forall|k: int| 0 <= k < i ==> a@[k] == b@[k],
        decreases a@.len() - i,
    {
        if a[i] != b[i] {
            return false;
        }
        i = i + 1;
    }
    proof {
        assert(a@ =~= b@);
    }
    true
}

/// Whether `s` spells out that resource or text.
fn is_ratatoskr_b(s: &[u8]) -> (r: bool)
    ensures
        r == (s@ == crate::stream::self_resource()),
{
    let r = s.len() == 9 && s[0] == 114 && s[1] == 97 && s[2] == 116 && s[3] == 97 && s[4] == 116 && s[5] == 111 && s[6] == 115 && s[7] == 107 && s[8] == 114;
    proof {
        if r {
            assert(s@ =~= crate::stream::self_resource());
        } else if s@ == crate::stream::self_resource() {
            assert(s@.len() == 9);
            assert(false);
        }
    }
    r
}

/// Whether `s` spells out that resource or text.
fn is_battery_b(s: &[u8]) -> (r: bool)
    ensures
        r == (s@ == battery_resource()),
{
    let r = s.len() == 7 && s[0] == 98 && s[1] == 97 && s[2] == 116 && s[3] == 116 && s[4] == 101 && s[5] == 114 && s[6] == 121;
    proof {
        if r {
            assert(s@ =~= battery_resource());
        } else if s@ == battery_resource() {
            assert(s@.len() == 7);
            assert(false);
        }
    }
    r
}

/// Whether `s` spells out that resource or text.
fn is_loadavg_b(s: &[u8]) -> (r: bool)
    ensures
        r == (s@ == res_loadavg()),
{
    let r = s.len() == 7 && s[0] == 108 && s[1] == 111 && s[2] == 97 && s[3] == 100 && s[4] == 97 && s[5] == 118 && s[6] == 103;
    proof {
        if r {
            assert(s@ =~= res_loadavg());
        } else if s@ == res_loadavg() {
            assert(s@.len() == 7);
            assert(false);
        }
    }
    r
}

/// Whether `s` spells out that resource or text.
fn is_ram_b(s: &[u8]) -> (r: bool)
    ensures
        r == (s@ == res_ram()),
{
    let r = s.len() == 3 && s[0] == 114 && s[1] == 97 && s[2] == 109;
    proof {
        if r {
            assert(s@ =~= res_ram());
        } else if s@ == res_ram() {
            assert(s@.len() == 3);
            assert(false);
        }
    }
    r
}

/// Whether `s` spells out that resource or text.
fn is_temperature_b(s: &[u8]) -> (r: bool)
    ensures
        r == (s@ == res_temperature()),
{
    let r = s.len() == 11 && s[0] == 116 && s[1] == 101 && s[2] == 109 && s[3] == 112 && s[4] == 101 && s[5] == 114 && s[6] == 97 && s[7] == 116 && s[8] == 117 && s[9] == 114 && s[10] == 101;
    proof {
        if r {
            assert(s@ =~= res_temperature());
        } else if s@ == res_temperature() {
            assert(s@.len() == 11);
            assert(false);
        }
    }
    r
}

/// Whether `s` spells out that resource or text.
fn is_network_b(s: &[u8]) -> (r: bool)
    ensures
        r == (s@ == res_network()),
{
    let r = s.len() == 7 && s[0] == 110 && s[1] == 101 && s[2] == 116 && s[3] == 119 && s[4] == 111 && s[5] == 114 && s[6] == 107;
    proof {
        if r {
            assert(s@ =~= res_network());
        } else if s@ == res_network() {
            assert(s@.len() == 7);
            assert(false);
        }
    }
    r
}

/// Whether `s` spells out that resource or text.
fn is_disk_b(s: &[u8]) -> (r: bool)
    ensures
        r == (s@ == res_disk()),
{
    let r = s.len() == 4 && s[0] == 100 && s[1] == 105 && s[2] == 115 && s[3] == 107;
    proof {
        if r {
            assert(s@ =~= res_disk());
        } else if s@ == res_disk() {
            assert(s@.len() == 4);
            assert(false);
        }
    }
    r
}

/// Whether `s` spells out that resource or text.
fn is_discharging_b(s: &[u8]) -> (r: bool)
    ensures
        r == (s@ == discharging_text()),
{
    let r = s.len() == 11 && s[0] == 68 && s[1] == 105 && s[2] == 115 && s[3] == 99 && s[4] == 104 && s[5] == 97 && s[6] == 114 && s[7] == 103 && s[8] == 105 && s[9] == 110 && s[10] == 103;
    proof {
        if r {
            assert(s@ =~= discharging_text());
        } else if s@ == discharging_text() {
            assert(s@.len() == 11);
            assert(false);
        }
    }
    r
}

/// Whether `s` spells out that resource or text.
fn is_charging_b(s: &[u8]) -> (r: bool)
    ensures
        r == (s@ == charging_text()),
{
    let r = s.len() == 8 && s[0] == 67 && s[1] == 104 && s[2] == 97 && s[3] == 114 && s[4] == 103 && s[5] == 105 && s[6] == 110 && s[7] == 103;
    proof {
        if r {
            assert(s@ =~= charging_text());
        } else if s@ == charging_text() {
            assert(s@.len() == 8);
            assert(false);
        }
    }
    r
}

/// Build those bytes as a vector.
fn reboot_resource_bytes() -> (v: Vec<u8>)
    ensures
        v@ == reboot_resource(),
{
    let mut v: Vec<u8> = Vec::new();
    v.push(114);
    v.push(101);
    v.push(98);
    v.push(111);
    v.push(111);
    v.push(116);
    proof {
        assert(v@ =~= reboot_resource());
    }
    v
}

/// Build those bytes as a vector.
fn reboot_glyph_bytes() -> (v: Vec<u8>)
    ensures
        v@ == reboot_glyph(),
{
    let mut v: Vec<u8> = Vec::new();
    v.push(226);
    v.push(134);
    v.push(187);
    proof {
        assert(v@ =~= reboot_glyph());
    }
    v
}

/// Build those bytes as a vector.
fn glyph_loadavg_bytes() -> (v: Vec<u8>)
    ensures
        v@ == glyph_loadavg(),
{
    let mut v: Vec<u8> = Vec::new();
    v.push(243);
    v.push(176);
    v.push(172);
    v.push(162);
    proof {
        assert(v@ =~= glyph_loadavg());
    }
    v
}

/// Build those bytes as a vector.
fn glyph_ram_bytes() -> (v: Vec<u8>)
    ensures
        v@ == glyph_ram(),
{
    let mut v: Vec<u8> = Vec::new();
    v.push(243);
    v.push(176);
    v.push(152);
    v.push(154);
    proof {
        assert(v@ =~= glyph_ram());
    }
    v
}

/// Build those bytes as a vector.
fn glyph_disk_bytes() -> (v: Vec<u8>)
    ensures
        v@ == glyph_disk(),
{
    let mut v: Vec<u8> = Vec::new();
    v.push(243);
    v.push(176);
    v.push(139);
    v.push(138);
    proof {
        assert(v@ =~= glyph_disk());
    }
    v
}


/// Where `find_icon` answers, it names the first icon carrying the id;
/// where it answers nothing, no icon carries it.
pub proof fn lemma_find_icon_char(v: Seq<AlarmIconV>, id: Seq<u8>)
    ensures
        match find_icon(v, id) {
            Some(j) => 0 <= j < v.len() && v[j].id == id && (forall|k: int|
                0 <= k < j ==> (#[trigger] v[k]).id != id),
            None => forall|k: int| 0 <= k < v.len() ==> (#[trigger] v[k]).id != id,
        },
    decreases v.len(),
{
    if v.len() > 0 && v[0].id != id {
        lemma_find_icon_char(v.skip(1), id);
        match find_icon(v.skip(1), id) {
            Some(j) => {
                assert(v.skip(1)[j] == v[j + 1]);
                assert forall|k: int| 0 <= k < j + 1 implies (#[trigger] v[k]).id != id by {
                    if k > 0 {
                        assert(v.skip(1)[k - 1] == v[k]);
                    }
                }
            },
            None => {
                assert forall|k: int| 0 <= k < v.len() implies (#[trigger] v[k]).id != id by {
                    if k > 0 {
                        assert(v.skip(1)[k - 1] == v[k]);
                    }
                }
            },
        }
    }
}

/// Find the position of the icon carrying `id`.
fn find_icon_ex(icons: &Vec<AlarmIcon>, id: &[u8]) -> (r: Option<usize>)
    ensures
        ({
            let v = icons@.map_values(|ic: AlarmIcon| ic@);
            match r {
                Some(j) => find_icon(v, id@) == Some(j as int) && j < icons@.len(),
                None => find_icon(v, id@) is None,
            }
        }),
{
    let ghost v = icons@.map_values(|ic: AlarmIcon| ic@);
    let mut i: usize = 0;
    while i < icons.len()
        invariant
            i <= icons@.len(),
            v == icons@.map_values(|ic: AlarmIcon| ic@),
            forall|k: int| 0 <= k < i ==> (#[trigger] v[k]).id != id@,
        decreases icons@.len() - i,
    {
        if bytes_eq(icons[i].id.as_slice(), id) {
            proof {
                lemma_find_icon_char(v, id@);
                assert(v[i as int].id == id@);
            }
            return Some(i);
        }
        i = i + 1;
    }
    proof {
        lemma_find_icon_char(v, id@);
    }
    None
}

/// The canonical presentation state, as one spec value.
pub struct OverlayV {
    pub icons: Seq<AlarmIconV>,
    pub battery_eta: Option<int>,
    pub battery_recharging: Option<bool>,
    pub dirty: bool,
    pub last_redraw: int,
    pub redraw_interval: int,
    pub notifications: Seq<Notification>,
    pub idx: int,
    pub connected: bool,
    pub anims: Seq<Animation>,
    pub model: FrameModel,
    pub config: Config,
}

/// The presentation state is well formed: icons keyed uniquely, the
/// animation engine sound, the cursor inside the list, and the list short
/// enough for a signed index.
pub open spec fn overlay_wf(v: OverlayV) -> bool {
    &&& icons_unique(v.icons)
    &&& crate::anim::anims_wf(v.anims)
    &&& v.model.wf()
    &&& v.notifications.len() <= 0x7FFF_FFFF
    &&& 0 <= v.idx
    &&& (v.notifications.len() == 0 ==> v.idx == 0)
    &&& (v.notifications.len() > 0 ==> v.idx < v.notifications.len())
}

/// The single-threaded owner of the canonical presentation state.
pub struct HeimdallrLayer {
    pub(crate) icons: Vec<AlarmIcon>,
    pub(crate) battery_eta: Option<i64>,
    pub(crate) battery_recharging: Option<bool>,
    pub(crate) needs_redraw: bool,
    pub(crate) last_redraw: u64,
    pub(crate) redraw_interval: u64,
    pub(crate) notifications: Vec<Notification>,
    pub(crate) notification_idx: usize,
    pub(crate) ratatoskr_connected: bool,
    pub(crate) animator: Animator,
    pub(crate) frame_model: FrameModel,
    pub(crate) config: Config,
}

impl View for HeimdallrLayer {
    type V = OverlayV;

    closed spec fn view(&self) -> OverlayV {
        OverlayV {
            icons: self.icons@.map_values(|ic: AlarmIcon| ic@),
            battery_eta: match self.battery_eta {
                Some(v) => Some(v as int),
                None => None,
            },
            battery_recharging: self.battery_recharging,
            dirty: self.needs_redraw,
            last_redraw: self.last_redraw as int,
            redraw_interval: self.redraw_interval as int,
            notifications: self.notifications@,
            idx: self.notification_idx as int,
            connected: self.ratatoskr_connected,
            anims: self.animator@,
            model: self.frame_model,
            config: self.config,
        }
    }
}

impl HeimdallrLayer {
    /// The state is well formed.
    pub open spec fn wf(&self) -> bool {
        overlay_wf(self@)
    }

    /// A fresh overlay: nothing shown, disconnected, dirty so the first
    /// tick renders, and a one-second floor between ordinary redraws.
    pub fn new(config: Config) -> (o: HeimdallrLayer)
        ensures
            o.wf(),
            o@.icons == Seq::<AlarmIconV>::empty(),
            o@.battery_eta is None,
            o@.battery_recharging is None,
            o@.dirty,
            o@.last_redraw == 0,
            o@.redraw_interval == 1000,
            o@.notifications == Seq::<Notification>::empty(),
            o@.idx == 0,
            !o@.connected,
            o@.anims == Seq::<Animation>::empty(),
            o@.model.spec_val(AnimationKey::NotificationHeight) == 0,
            o@.model.spec_val(AnimationKey::IconsHeight) == 0,
            o@.config == config,
    {
        let o = HeimdallrLayer {
            icons: Vec::new(),
            battery_eta: None,
            battery_recharging: None,
            needs_redraw: true,
            last_redraw: 0,
            redraw_interval: 1000,
            notifications: Vec::new(),
            notification_idx: 0,
            ratatoskr_connected: false,
            animator: Animator::new(),
            frame_model: FrameModel::new(),
            config,
        };
        proof {
            assert(o@.icons =~= Seq::<AlarmIconV>::empty());
        }
        o
    }

    /// Mark the canonical state changed since the last render.
    pub fn request_redraw(&mut self)
        ensures
            final(self)@ == (OverlayV { dirty: true, ..old(self)@ }),
            old(self).wf() ==> final(self).wf(),
    {
        self.needs_redraw = true;
    }
}


/// Where the cursor lands after the entry under it is removed: unchanged
/// while still in range, else the new last entry, or zero for an empty
/// list.
pub open spec fn clamp_idx(idx: int, new_len: int) -> int {
    if idx < new_len {
        idx
    } else if new_len == 0 {
        0
    } else {
        new_len - 1
    }
}

impl HeimdallrLayer {
    /// Insert an icon, or replace the one already carrying its id; nothing
    /// else moves.
    pub fn add_icon(&mut self, id: Vec<u8>, symbol: Vec<u8>, color: (u8, u8, u8, u8), warn: i64)
        requires
            old(self).wf(),
        ensures
            final(self)@ == (OverlayV {
                icons: upsert_icon(
                    old(self)@.icons,
                    (AlarmIconV { id: id@, symbol: symbol@, color, warn: warn as int }),
                ),
                ..old(self)@
            }),
            final(self).wf(),
    {
        let ghost v0 = self@.icons;
        let ghost entry_v = AlarmIconV { id: id@, symbol: symbol@, color, warn: warn as int };
        let entry = AlarmIcon { id, symbol, color, warn };
        proof {
            lemma_find_icon_char(v0, entry_v.id);
        }
        match find_icon_ex(&self.icons, entry.id.as_slice()) {
            Some(j) => {
                self.icons.remove(j);
                self.icons.insert(j, entry);
                proof {
                    assert(self@.icons =~= v0.update(j as int, entry_v));
                }
            },
            None => {
                self.icons.push(entry);
                proof {
                    assert(self@.icons =~= v0.push(entry_v));
                }
            },
        }
    }

    /// Remove the icon carrying `id`, reporting whether one was there;
    /// nothing else moves.
    pub fn remove_icon(&mut self, id: &[u8]) -> (r: bool)
        requires
            old(self).wf(),
        ensures
            r == (find_icon(old(self)@.icons, id@) is Some),
            final(self)@ == (OverlayV {
                icons: remove_icon_spec(old(self)@.icons, id@),
                ..old(self)@
            }),
            final(self).wf(),
    {
        let ghost v0 = self@.icons;
        proof {
            lemma_find_icon_char(v0, id@);
        }
        match find_icon_ex(&self.icons, id) {
            Some(j) => {
                self.icons.remove(j);
                proof {
                    assert(self@.icons =~= v0.remove(j as int));
                    assert forall|a: int, b: int|
                        0 <= a < b < self@.icons.len() implies (#[trigger] self@.icons[a]).id != (
                    #[trigger] self@.icons[b]).id by {
                        let aa = if a < j { a } else { a + 1 };
                        let bb = if b < j { b } else { b + 1 };
                        assert(self@.icons[a] == v0[aa] && self@.icons[b] == v0[bb]);
                    }
                }
                true
            },
            None => false,
        }
    }

    /// Move the cursor to `new_idx`; refused, with the cursor unchanged,
    /// for any index outside the list.
    pub fn show_notification(&mut self, new_idx: i32) -> (r: bool)
        requires
            old(self).wf(),
        ensures
            r == (0 <= new_idx < old(self)@.notifications.len()),
            r ==> final(self)@ == (OverlayV { idx: new_idx as int, ..old(self)@ }),
            !r ==> final(self)@ == old(self)@,
            final(self).wf(),
    {
        if new_idx >= 0 && (new_idx as usize) < self.notifications.len() {
            self.notification_idx = new_idx as usize;
            true
        } else {
            false
        }
    }

    /// Delete the notification under the cursor and re-clamp the cursor
    /// into range; refused on an empty list.
    pub fn remove_notification(&mut self) -> (r: bool)
        requires
            old(self).wf(),
        ensures
            r == (old(self)@.notifications.len() > 0),
            r ==> final(self)@ == (OverlayV {
                notifications: old(self)@.notifications.remove(old(self)@.idx),
                idx: clamp_idx(old(self)@.idx, old(self)@.notifications.len() - 1),
                ..old(self)@
            }),
            !r ==> final(self)@ == old(self)@,
            final(self).wf(),
    {
        if self.notifications.len() == 0 {
            return false;
        }
        let idx = self.notification_idx;
        self.notifications.remove(idx);
        let len2 = self.notifications.len();
        if idx < len2 {
        } else if len2 == 0 {
            self.notification_idx = 0;
        } else {
            self.notification_idx = len2 - 1;
        }
        true
    }

    /// One scheduling decision and its effects: advance the animations,
    /// decide whether to render, and on a render clear the dirty flag and
    /// reset the render timestamp — whichever branch triggered it.
    pub fn maybe_redraw(&mut self, now_ms: u64) -> (r: bool)
        requires
            old(self).wf(),
        ensures
            final(self).wf(),
            ({
                let animating = old(self)@.anims.len() > 0;
                let draw = animating || (old(self)@.dirty && now_ms >= old(self)@.last_redraw
                    && now_ms - old(self)@.last_redraw >= old(self)@.redraw_interval);
                &&& r == draw
                &&& final(self)@ == (OverlayV {
                    dirty: if draw {
                        false
                    } else {
                        old(self)@.dirty
                    },
                    last_redraw: if draw {
                        now_ms as int
                    } else {
                        old(self)@.last_redraw
                    },
                    anims: step_survivors(old(self)@.anims, now_ms as int),
                    model: final(self)@.model,
                    ..old(self)@
                })
                &&& (forall|k: AnimationKey| #[trigger] final(self)@.model.spec_val(k)
                    == stepped_val(
                    old(self)@.anims,
                    old(self)@.model.spec_val(k),
                    k,
                    now_ms as int,
                ))
            }),
    {
        let animating = self.animator.step(&mut self.frame_model, now_ms);
        let draw = should_redraw(
            self.needs_redraw,
            animating,
            now_ms,
            self.last_redraw,
            self.redraw_interval,
        );
        if draw {
            self.needs_redraw = false;
            self.last_redraw = now_ms;
        }
        draw
    }
}

/// The redraw scheduler's rule: motion renders every tick, the dirty flag
/// and the minimum interval gate everything else.
pub fn should_redraw(
    dirty: bool,
    animating: bool,
    now_ms: u64,
    last_redraw_ms: u64,
    min_interval_ms: u64,
) -> (r: bool)
    ensures
        r == (animating || (dirty && now_ms >= last_redraw_ms && now_ms - last_redraw_ms
            >= min_interval_ms)),
{
    animating || (dirty && now_ms >= last_redraw_ms && now_ms - last_redraw_ms >= min_interval_ms)
}


/// The command inbox's tokens that actually move state on the current
/// list: hiding needs a notification, stepping needs a neighbour.
pub open spec fn command_effective(st: OverlayV, cmd: Command) -> bool {
    match cmd {
        Command::HideNotification => st.notifications.len() > 0,
        Command::PrevNotification => st.idx >= 1 && st.notifications.len() > 0,
        Command::NextNotification => st.idx + 1 < st.notifications.len(),
    }
}

/// What one recognized command does: hide the current notification, or
/// move the cursor; an ineffective command leaves everything untouched,
/// and an effective one raises the dirty flag.
pub open spec fn apply_command_spec(st: OverlayV, cmd: Command) -> OverlayV {
    match cmd {
        Command::HideNotification => if st.notifications.len() > 0 {
            OverlayV {
                notifications: st.notifications.remove(st.idx),
                idx: clamp_idx(st.idx, st.notifications.len() - 1),
                dirty: true,
                ..st
            }
        } else {
            st
        },
        Command::PrevNotification => if st.idx >= 1 && st.notifications.len() > 0 {
            OverlayV { idx: st.idx - 1, dirty: true, ..st }
        } else {
            st
        },
        Command::NextNotification => if st.idx + 1 < st.notifications.len() {
            OverlayV { idx: st.idx + 1, dirty: true, ..st }
        } else {
            st
        },
    }
}

/// The icon-height animation started after a structural icon change: from
/// the model's in-flight value towards the new icon count.
pub open spec fn with_icons_anim(st: OverlayV, now: u64) -> OverlayV {
    OverlayV {
        anims: animate_spec(
            st.anims,
            st.model.spec_val(AnimationKey::IconsHeight) as i64,
            AnimationKey::IconsHeight,
            icons_target(st.icons.len() as int) as i64,
            HEIGHT_ANIM_MS,
            now,
        ),
        ..st
    }
}

/// The notification-height animation started when the list's emptiness
/// flips.
pub open spec fn with_notif_anim(st: OverlayV, target: i64, now: u64) -> OverlayV {
    OverlayV {
        anims: animate_spec(
            st.anims,
            st.model.spec_val(AnimationKey::NotificationHeight) as i64,
            AnimationKey::NotificationHeight,
            target,
            HEIGHT_ANIM_MS,
            now,
        ),
        ..st
    }
}

/// A below-threshold record takes its icon away, if one is shown, and then
/// animates the column to the shrunken count.
pub open spec fn remove_and_animate(st: OverlayV, id: Seq<u8>, now: u64) -> OverlayV {
    match find_icon(st.icons, id) {
        Some(j) => with_icons_anim(
            (OverlayV { icons: st.icons.remove(j), dirty: true, ..st }),
            now,
        ),
        None => st,
    }
}

/// An at-or-above-threshold record with a glyph shows its icon: a replace
/// keeps the column still, a new insertion animates it to the grown count.
pub open spec fn insert_and_animate(st: OverlayV, entry: AlarmIconV, now: u64) -> OverlayV {
    let newly = find_icon(st.icons, entry.id) is None;
    let st2 = OverlayV { icons: upsert_icon(st.icons, entry), dirty: true, ..st };
    if newly {
        with_icons_anim(st2, now)
    } else {
        st2
    }
}

/// What one status record does, in the reconciler's order: the stream's
/// own record only moves the connection flag; a battery record with a
/// payload refreshes the battery fields; then the warning threshold and
/// the glyph table decide the icon.
pub open spec fn apply_status_spec(st: OverlayV, r: RecordV, now: u64) -> OverlayV {
    if r.resource == self_resource() {
        let conn = r.warning < CONNECTED_BELOW_MILLI;
        OverlayV { connected: conn, dirty: st.dirty || (conn != st.connected), ..st }
    } else {
        let st1 = if r.resource == battery_resource() && r.has_data {
            OverlayV {
                battery_eta: r.eta,
                battery_recharging: recharging_of(r.state),
                dirty: true,
                ..st
            }
        } else {
            st
        };
        if r.warning < ICON_THRESHOLD_MILLI {
            remove_and_animate(st1, r.resource, now)
        } else {
            let g = glyph_of(r.resource, r.icon);
            if g.len() == 0 {
                st1
            } else {
                insert_and_animate(
                    st1,
                    (AlarmIconV {
                        id: r.resource,
                        symbol: g,
                        color: gradient_bytes(r.warning),
                        warn: r.warning,
                    }),
                    now,
                )
            }
        }
    }
}

/// Copy a byte vector.
fn copy_bytes(v: &Vec<u8>) -> (r: Vec<u8>)
    ensures
        r@ == v@,
{
    let mut out: Vec<u8> = Vec::new();
    let mut k: usize = 0;
    while k < v.len()
        invariant
            k <= v@.len(),
            out@ == v@.take(k as int),
        decreases v@.len() - k,
    {
        out.push(v[k]);
        proof {
            assert(v@.take(k as int + 1) =~= v@.take(k as int).push(v@[k as int]));
        }
        k = k + 1;
    }
    proof {
        assert(v@.take(v@.len() as int) =~= v@);
    }
    out
}

/// Resolve the glyph for a resource, per the glyph table.
pub fn glyph_for(resource: &[u8], icon: &Vec<u8>) -> (r: Vec<u8>)
    ensures
        r@ == glyph_of(resource@, icon@),
{
    if is_loadavg_b(resource) {
        glyph_loadavg_bytes()
    } else if is_ram_b(resource) {
        glyph_ram_bytes()
    } else if is_temperature_b(resource) {
        copy_bytes(icon)
    } else if is_network_b(resource) {
        copy_bytes(icon)
    } else if is_disk_b(resource) {
        glyph_disk_bytes()
    } else {
        Vec::new()
    }
}

impl HeimdallrLayer {
    /// Start the icon-height animation towards the current icon count.
    fn animate_icons_height(&mut self, now_ms: u64)
        requires
            old(self).wf(),
        ensures
            final(self)@ == with_icons_anim(old(self)@, now_ms),
            final(self).wf(),
    {
        let n = self.icons.len();
        let target: i64 = if n > 1000 {
            1_000_000
        } else {
            (n as i64) * 1000
        };
        self.animator.animate_property(
            &self.frame_model,
            AnimationKey::IconsHeight,
            target,
            HEIGHT_ANIM_MS,
            now_ms,
        );
    }

    /// Start the notification-height animation towards `target`.
    fn animate_notif_height(&mut self, target: i64, now_ms: u64)
        requires
            old(self).wf(),
            -MAX_ANIM_VALUE <= target <= MAX_ANIM_VALUE,
        ensures
            final(self)@ == with_notif_anim(old(self)@, target, now_ms),
            final(self).wf(),
    {
        self.animator.animate_property(
            &self.frame_model,
            AnimationKey::NotificationHeight,
            target,
            HEIGHT_ANIM_MS,
            now_ms,
        );
    }

    /// Apply one command drained from the inbox queue, reporting whether it
    /// changed anything; an effective command raises the dirty flag.
    pub fn apply_command(&mut self, cmd: Command) -> (changed: bool)
        requires
            old(self).wf(),
        ensures
            final(self)@ == apply_command_spec(old(self)@, cmd),
            changed == command_effective(old(self)@, cmd),
            final(self).wf(),
    {
        match cmd {
            Command::HideNotification => {
                let r = self.remove_notification();
                if r {
                    self.request_redraw();
                }
                r
            },
            Command::PrevNotification => {
                let idx = self.notification_idx;
                let r = if idx >= 1 {
                    self.show_notification((idx - 1) as i32)
                } else {
                    false
                };
                if r {
                    self.request_redraw();
                }
                r
            },
            Command::NextNotification => {
                let idx = self.notification_idx;
                let r = if idx + 1 < self.notifications.len() {
                    self.show_notification((idx + 1) as i32)
                } else {
                    false
                };
                if r {
                    self.request_redraw();
                }
                r
            },
        }
    }

    /// Apply one status record drained from the stream queue.
    pub fn apply_status(&mut self, rec: PartialMsg, now_ms: u64)
        requires
            old(self).wf(),
        ensures
            final(self)@ == apply_status_spec(old(self)@, rec@, now_ms),
            final(self).wf(),
    {
        if is_ratatoskr_b(rec.resource.as_slice()) {
            let conn = rec.warning < CONNECTED_BELOW_MILLI;
            if conn != self.ratatoskr_connected {
                self.needs_redraw = true;
            }
            self.ratatoskr_connected = conn;
            return;
        }
        if is_battery_b(rec.resource.as_slice()) && rec.has_data {
            self.battery_eta = rec.eta;
            self.battery_recharging = match &rec.state {
                Some(sv) => {
                    if is_discharging_b(sv.as_slice()) {
                        Some(false)
                    } else if is_charging_b(sv.as_slice()) {
                        Some(true)
                    } else {
                        None
                    }
                },
                None => None,
            };
            self.needs_redraw = true;
        }
        if rec.warning < ICON_THRESHOLD_MILLI {
            if self.remove_icon(rec.resource.as_slice()) {
                self.needs_redraw = true;
                self.animate_icons_height(now_ms);
            }
        } else {
            let glyph = glyph_for(rec.resource.as_slice(), &rec.icon);
            if glyph.len() > 0 {
                let newly = match find_icon_ex(&self.icons, rec.resource.as_slice()) {
                    Some(_) => false,
                    None => true,
                };
                let color = get_color_gradient(rec.warning);
                self.add_icon(rec.resource, glyph, color, rec.warning);
                self.needs_redraw = true;
                if newly {
                    self.animate_icons_height(now_ms);
                }
            }
        }
    }
}


/// A filter that kept everything changed nothing.
proof fn lemma_filter_full<A>(v: Seq<A>, pred: spec_fn(A) -> bool)
    requires
        v.filter(pred).len() == v.len(),
    ensures
        v.filter(pred) == v,
    decreases v.len(),
{
    reveal(Seq::filter);
    if v.len() > 0 {
        if pred(v.last()) {
            lemma_filter_full(v.drop_last(), pred);
            assert(v.drop_last().push(v.last()) =~= v);
        } else {
            v.drop_last().lemma_filter_len(pred);
        }
    }
}

/// A notification still alive at `now`: no deadline, or one still ahead.
pub open spec fn not_expired(n: Notification, now: u64) -> bool {
    match n.expired_at {
        Some(t) => t > now,
        None => true,
    }
}

/// The reboot banner's persistent icon.
pub open spec fn reboot_icon() -> AlarmIconV {
    AlarmIconV {
        id: reboot_resource(),
        symbol: reboot_glyph(),
        color: gradient_bytes(1000),
        warn: 1000,
    }
}

/// What draining one notification event does: append it and raise the
/// dirty flag; a reboot-flagged event synthesizes its persistent icon
/// regardless of any warning threshold; a list that was empty starts the
/// height animation towards full.
pub open spec fn apply_notification_spec(st: OverlayV, n: Notification, now: u64) -> OverlayV {
    let was_empty = st.notifications.len() == 0;
    let st1 = OverlayV { notifications: st.notifications.push(n), dirty: true, ..st };
    let st2 = if n.reboot {
        insert_and_animate(st1, reboot_icon(), now)
    } else {
        st1
    };
    if was_empty {
        with_notif_anim(st2, 1000, now)
    } else {
        st2
    }
}

/// What the opportunistic expiry sweep does: drop every notification whose
/// deadline has passed, re-clamp the cursor, and if anything was dropped
/// raise the dirty flag — animating the height down when the list emptied.
pub open spec fn prune_expired_spec(st: OverlayV, now: u64) -> OverlayV {
    let live = st.notifications.filter(|n: Notification| not_expired(n, now));
    if live.len() == st.notifications.len() {
        st
    } else {
        let st1 = OverlayV {
            notifications: live,
            idx: clamp_idx(st.idx, live.len() as int),
            dirty: true,
            ..st
        };
        if live.len() == 0 {
            with_notif_anim(st1, 0, now)
        } else {
            st1
        }
    }
}

/// The outline colour the frame resolves once per redraw: a fixed quad is
/// itself, the worst-resource policy borrows the colour of the icon with
/// the highest warning — the later one on a tie — and the other policies
/// draw no outline.
pub open spec fn frame_color_spec(fc: FrameColor, icons: Seq<AlarmIconV>) -> Option<
    (u8, u8, u8, u8),
> {
    match fc {
        FrameColor::Rgba(r, g, b, a) => Some((r, g, b, a)),
        FrameColor::WorstResource => if icons.len() == 0 {
            None
        } else {
            Some(icons[worst_idx(icons)].color)
        },
        FrameColor::NoColor => None,
        FrameColor::Random => None,
    }
}

/// The position of the icon with the highest warning, the later one on a
/// tie.
pub open spec fn worst_idx(icons: Seq<AlarmIconV>) -> int
    decreases icons.len(),
{
    if icons.len() <= 1 {
        0
    } else {
        let w = worst_idx(icons.drop_last());
        if icons.last().warn >= icons[w].warn {
            icons.len() - 1
        } else {
            w
        }
    }
}

/// `worst_idx` stays in range.
pub proof fn lemma_worst_idx_in_range(icons: Seq<AlarmIconV>)
    requires
        icons.len() > 0,
    ensures
        0 <= worst_idx(icons) < icons.len(),
    decreases icons.len(),
{
    if icons.len() > 1 {
        lemma_worst_idx_in_range(icons.drop_last());
    }
}

impl HeimdallrLayer {
    /// Drain one notification event from the service's queue.
    pub fn apply_notification(&mut self, n: Notification, now_ms: u64)
        requires
            old(self).wf(),
            old(self)@.notifications.len() < 0x7FFF_FFFF,
        ensures
            final(self)@ == apply_notification_spec(old(self)@, n, now_ms),
            final(self).wf(),
    {
        let was_empty = self.notifications.len() == 0;
        let reboot = n.reboot;
        self.notifications.push(n);
        self.needs_redraw = true;
        if reboot {
            let newly = match find_icon_ex(&self.icons, reboot_resource_bytes().as_slice()) {
                Some(_) => false,
                None => true,
            };
            let color = get_color_gradient(1000);
            self.add_icon(reboot_resource_bytes(), reboot_glyph_bytes(), color, 1000);
            self.needs_redraw = true;
            if newly {
                self.animate_icons_height(now_ms);
            }
        }
        if was_empty {
            self.animate_notif_height(1000, now_ms);
        }
    }

    /// Sweep out every notification whose expiry deadline has passed,
    /// reporting whether any was dropped.
    pub fn prune_expired(&mut self, now_ms: u64) -> (changed: bool)
        requires
            old(self).wf(),
        ensures
            final(self)@ == prune_expired_spec(old(self)@, now_ms),
            changed == (final(self)@.notifications.len() != old(self)@.notifications.len()),
            final(self).wf(),
    {
        let ghost v0 = self@.notifications;
        let n0 = self.notifications.len();
        let ghost pred = |n: Notification| not_expired(n, now_ms);
        let mut i: usize = 0;
        let mut j: usize = 0;
        proof {
            reveal(Seq::filter);
            assert(v0.take(0).filter(pred) =~= Seq::<Notification>::empty());
            assert(v0.skip(0) =~= v0);
            assert(self@.notifications =~= v0.take(0).filter(pred) + v0.skip(0));
        }
        while j < n0
            invariant
                v0 == old(self)@.notifications,
                n0 == v0.len(),
                j <= n0,
                i == v0.take(j as int).filter(pred).len(),
                i <= j,
                self@ == (OverlayV { notifications: v0.take(j as int).filter(pred) + v0.skip(
                    j as int,
                ), ..old(self)@ }),
                pred == (|n: Notification| not_expired(n, now_ms)),
            decreases n0 - j,
        {
            let keep = match self.notifications[i].expired_at {
                Some(t) => t > now_ms,
                None => true,
            };
            proof {
                reveal(Seq::filter);
                assert(self@.notifications[i as int] == v0[j as int]);
                assert(keep == pred(v0[j as int]));
                assert(v0.take(j as int + 1).drop_last() =~= v0.take(j as int));
                assert(v0.take(j as int + 1).last() == v0[j as int]);
            }
            if keep {
                proof {
                    assert(v0.take(j as int + 1).filter(pred) + v0.skip(j as int + 1) =~= v0.take(
                        j as int,
                    ).filter(pred) + v0.skip(j as int));
                }
                i = i + 1;
            } else {
                self.notifications.remove(i);
                proof {
                    assert(self@.notifications =~= v0.take(j as int + 1).filter(pred) + v0.skip(
                        j as int + 1,
                    ));
                }
            }
            j = j + 1;
        }
        proof {
            reveal(Seq::filter);
            assert(v0.take(n0 as int) =~= v0);
            assert(v0.skip(n0 as int) =~= Seq::<Notification>::empty());
            assert(v0.filter(pred) + Seq::<Notification>::empty() =~= v0.filter(pred));
            assert(self@.notifications == v0.filter(pred));
        }
        let len2 = self.notifications.len();
        if len2 == n0 {
            proof {
                lemma_filter_full(v0, pred);
            }
            return false;
        }
        if self.notification_idx < len2 {
        } else if len2 == 0 {
            self.notification_idx = 0;
        } else {
            self.notification_idx = len2 - 1;
        }
        self.needs_redraw = true;
        if len2 == 0 {
            self.animate_notif_height(0, now_ms);
        }
        true
    }

    /// Resolve the frame outline colour for this redraw.
    pub fn frame_outline_color(&self) -> (r: Option<(u8, u8, u8, u8)>)
        ensures
            r == frame_color_spec(self@.config.frame_color, self@.icons),
    {
        match self.config.frame_color {
            FrameColor::Rgba(cr, cg, cb, ca) => Some((cr, cg, cb, ca)),
            FrameColor::WorstResource => {
                let ghost v = self@.icons;
                if self.icons.len() == 0 {
                    return None;
                }
                let mut best: usize = 0;
                let mut k: usize = 1;
                proof {
                    assert(v.take(1).drop_last() =~= v.take(0));
                    assert(worst_idx(v.take(1)) == 0);
                }
                while k < self.icons.len()
                    invariant
                        v == self@.icons,
                        1 <= k <= v.len(),
                        best < k,
                        best == worst_idx(v.take(k as int)),
                    decreases v.len() - k,
                {
                    proof {
                        lemma_worst_idx_in_range(v.take(k as int));
                        assert(v.take(k as int + 1).drop_last() =~= v.take(k as int));
                        assert(v.take(k as int + 1).last() == v[k as int]);
                    }
                    if self.icons[k].warn >= self.icons[best].warn {
                        best = k;
                    }
                    k = k + 1;
                }
                proof {
                    assert(v.take(v.len() as int) =~= v);
                }
                Some(self.icons[best].color)
            },
            FrameColor::NoColor => None,
            FrameColor::Random => None,
        }
    }
}


/// Whether some icon carries `id`.
pub open spec fn has_icon(v: Seq<AlarmIconV>, id: Seq<u8>) -> bool {
    find_icon(v, id) is Some
}

/// Membership is the existence of an element with the id.
pub proof fn lemma_has_icon_iff(v: Seq<AlarmIconV>, id: Seq<u8>)
    ensures
        has_icon(v, id) == (exists|k: int| 0 <= k < v.len() && (#[trigger] v[k]).id == id),
{
    lemma_find_icon_char(v, id);
    if find_icon(v, id) is Some {
        let j = find_icon(v, id)->0;
        assert(v[find_icon(v, id)->0].id == id);
    }
}

/// What an upsert does to membership: the entry's id is present, every
/// other id keeps its membership, a kept length means a replace, and every
/// element carrying the entry's id is the entry itself.
pub proof fn lemma_upsert_membership(v: Seq<AlarmIconV>, e: AlarmIconV, id: Seq<u8>)
    requires
        icons_unique(v),
    ensures
        icons_unique(upsert_icon(v, e)),
        has_icon(upsert_icon(v, e), e.id),
        id != e.id ==> has_icon(upsert_icon(v, e), id) == has_icon(v, id),
        upsert_icon(v, e).len() == (if has_icon(v, e.id) {
            v.len() as int
        } else {
            (v.len() + 1) as int
        }),
        forall|k: int|
            0 <= k < upsert_icon(v, e).len() && (#[trigger] upsert_icon(v, e)[k]).id == e.id
                ==> upsert_icon(v, e)[k] == e,
{
    lemma_find_icon_char(v, e.id);
    lemma_has_icon_iff(v, e.id);
    lemma_has_icon_iff(v, id);
    let u = upsert_icon(v, e);
    match find_icon(v, e.id) {
        Some(j) => {
            assert(u == v.update(j, e));
            assert(v[j].id == e.id);
            assert(forall|k: int| 0 <= k < u.len() ==> (#[trigger] u[k]).id == v[k].id);
            lemma_has_icon_iff(u, e.id);
            lemma_has_icon_iff(u, id);
            assert(u[j].id == e.id);
            assert forall|k: int|
                0 <= k < u.len() && (#[trigger] u[k]).id == e.id implies u[k] == e by {
                if k != j {
                    assert(v[k].id == e.id && v[j].id == e.id);
                    assert(false);
                }
            }
            if id != e.id {
                if has_icon(v, id) {
                    let k = choose|k: int| 0 <= k < v.len() && (#[trigger] v[k]).id == id;
                    assert(u[k].id == id);
                }
                if has_icon(u, id) {
                    let k = choose|k: int| 0 <= k < u.len() && (#[trigger] u[k]).id == id;
                    assert(v[k].id == id);
                }
            }
        },
        None => {
            assert(u == v.push(e));
            assert(forall|k: int| 0 <= k < v.len() ==> (#[trigger] v[k]).id != e.id);
            assert(forall|k: int| 0 <= k < v.len() ==> u[k] == v[k]);
            assert(u[v.len() as int] == e);
            lemma_has_icon_iff(u, e.id);
            lemma_has_icon_iff(u, id);
            if id != e.id {
                if has_icon(v, id) {
                    let k = choose|k: int| 0 <= k < v.len() && (#[trigger] v[k]).id == id;
                    assert(u[k].id == id);
                }
                if has_icon(u, id) {
                    let k = choose|k: int| 0 <= k < u.len() && (#[trigger] u[k]).id == id;
                    assert(k != v.len());
                    assert(v[k].id == id);
                }
            }
        },
    }
}

/// What a removal does to membership: the id is gone, every other id keeps
/// its membership.
pub proof fn lemma_remove_membership(v: Seq<AlarmIconV>, id: Seq<u8>, other: Seq<u8>)
    requires
        icons_unique(v),
    ensures
        icons_unique(remove_icon_spec(v, id)),
        !has_icon(remove_icon_spec(v, id), id),
        other != id ==> has_icon(remove_icon_spec(v, id), other) == has_icon(v, other),
        remove_icon_spec(v, id).len() == (if has_icon(v, id) {
            (v.len() - 1) as int
        } else {
            v.len() as int
        }),
{
    lemma_find_icon_char(v, id);
    lemma_has_icon_iff(v, id);
    lemma_has_icon_iff(v, other);
    let u = remove_icon_spec(v, id);
    match find_icon(v, id) {
        Some(j) => {
            assert(u == v.remove(j));
            assert(forall|k: int|
                0 <= k < u.len() ==> #[trigger] u[k] == (if k < j {
                    v[k]
                } else {
                    v[k + 1]
                }));
            assert forall|a: int, b: int|
                0 <= a < b < u.len() implies (#[trigger] u[a]).id != (#[trigger] u[b]).id by {
                let aa = if a < j {
                    a
                } else {
                    a + 1
                };
                let bb = if b < j {
                    b
                } else {
                    b + 1
                };
                assert(u[a] == v[aa] && u[b] == v[bb]);
            }
            lemma_has_icon_iff(u, id);
            lemma_has_icon_iff(u, other);
            if has_icon(u, id) {
                let k = choose|k: int| 0 <= k < u.len() && (#[trigger] u[k]).id == id;
                let kk = if k < j {
                    k
                } else {
                    k + 1
                };
                assert(v[kk].id == id && v[j].id == id && kk != j);
                assert(false);
            }
            if other != id {
                if has_icon(v, other) {
                    let k = choose|k: int| 0 <= k < v.len() && (#[trigger] v[k]).id == other;
                    let kk = if k < j {
                        k
                    } else {
                        k - 1
                    };
                    assert(k != j);
                    assert(u[kk] == v[k]);
                    assert(has_icon(u, other));
                }
            }
        },
        None => {
        },
    }
}

/// One status record's effect on icon membership: the stream's own record
/// touches no icon; any other record decides its own resource's membership
/// by the threshold — given its glyph resolves — and leaves every other
/// resource alone.
pub proof fn lemma_status_step_membership(st: OverlayV, r: RecordV, now: u64, id: Seq<u8>)
    requires
        icons_unique(st.icons),
        r.warning >= ICON_THRESHOLD_MILLI ==> glyph_of(r.resource, r.icon).len() > 0,
    ensures
        icons_unique(apply_status_spec(st, r, now).icons),
        r.resource == self_resource() ==> apply_status_spec(st, r, now).icons == st.icons,
        r.resource != self_resource() && id == r.resource ==> has_icon(
            apply_status_spec(st, r, now).icons,
            id,
        ) == (r.warning >= ICON_THRESHOLD_MILLI),
        id != r.resource ==> has_icon(apply_status_spec(st, r, now).icons, id) == has_icon(
            st.icons,
            id,
        ),
{
    let out = apply_status_spec(st, r, now);
    if r.resource == self_resource() {
    } else {
        if r.warning < ICON_THRESHOLD_MILLI {
            lemma_find_icon_char(st.icons, r.resource);
            lemma_remove_membership(st.icons, r.resource, id);
            assert(out.icons == remove_icon_spec(st.icons, r.resource));
        } else {
            let g = glyph_of(r.resource, r.icon);
            assert(g.len() > 0);
            let e = AlarmIconV {
                id: r.resource,
                symbol: g,
                color: gradient_bytes(r.warning),
                warn: r.warning,
            };
            lemma_upsert_membership(st.icons, e, id);
            assert(out.icons == upsert_icon(st.icons, e));
        }
    }
}

/// Re-sending the record just applied is idempotent for the icon column:
/// the icon set does not change at all, and no new height animation is
/// requested.
pub proof fn lemma_resend_idempotent(st: OverlayV, r: RecordV, now: u64, now2: u64)
    requires
        icons_unique(st.icons),
    ensures
        ({
            let s1 = apply_status_spec(st, r, now);
            let s2 = apply_status_spec(s1, r, now2);
            &&& s2.icons == s1.icons
            &&& s2.anims == s1.anims
        }),
{
    let s1 = apply_status_spec(st, r, now);
    let s2 = apply_status_spec(s1, r, now2);
    if r.resource == self_resource() {
    } else {
        if r.warning < ICON_THRESHOLD_MILLI {
            lemma_remove_membership(st.icons, r.resource, r.resource);
            assert(s1.icons == remove_icon_spec(st.icons, r.resource));
            lemma_find_icon_char(s1.icons, r.resource);
        } else {
            let g = glyph_of(r.resource, r.icon);
            if g.len() == 0 {
            } else {
                let e = AlarmIconV {
                    id: r.resource,
                    symbol: g,
                    color: gradient_bytes(r.warning),
                    warn: r.warning,
                };
                lemma_upsert_membership(st.icons, e, r.resource);
                assert(s1.icons == upsert_icon(st.icons, e));
                lemma_find_icon_char(s1.icons, r.resource);
                match find_icon(s1.icons, r.resource) {
                    Some(j) => {
                        assert(s1.icons[j].id == e.id);
                        assert(s1.icons[j] == e);
                        lemma_upsert_membership(s1.icons, e, r.resource);
                        assert(s2.icons == s1.icons.update(j, e));
                        assert(s1.icons.update(j, e) =~= s1.icons);
                    },
                    None => {
                        assert(false);
                    },
                }
            }
        }
    }
}

/// A run of status records folded over a state, one tick's drain.
pub open spec fn apply_statuses(st: OverlayV, rs: Seq<RecordV>, now: u64) -> OverlayV
    decreases rs.len(),
{
    if rs.len() == 0 {
        st
    } else {
        apply_statuses(apply_status_spec(st, rs[0], now), rs.skip(1), now)
    }
}

/// The most recent record in `rs` concerning `id`, if any.
pub open spec fn last_for(rs: Seq<RecordV>, id: Seq<u8>) -> Option<RecordV>
    decreases rs.len(),
{
    if rs.len() == 0 {
        None
    } else {
        match last_for(rs.skip(1), id) {
            Some(r) => Some(r),
            None => if rs[0].resource == id {
                Some(rs[0])
            } else {
                None
            },
        }
    }
}

/// Folding records over a state decides each resource's membership by its
/// most recent record; resources no record names keep their membership,
/// and the stream's own records touch none.
pub proof fn lemma_icon_membership_fold(st: OverlayV, rs: Seq<RecordV>, now: u64, id: Seq<u8>)
    requires
        icons_unique(st.icons),
        forall|i: int|
            0 <= i < rs.len() ==> ((#[trigger] rs[i]).warning >= ICON_THRESHOLD_MILLI
                ==> glyph_of(rs[i].resource, rs[i].icon).len() > 0),
    ensures
        icons_unique(apply_statuses(st, rs, now).icons),
        has_icon(apply_statuses(st, rs, now).icons, id) == (match last_for(rs, id) {
            Some(r) => if r.resource == self_resource() {
                has_icon(st.icons, id)
            } else {
                r.warning >= ICON_THRESHOLD_MILLI
            },
            None => has_icon(st.icons, id),
        }),
    decreases rs.len(),
{
    if rs.len() > 0 {
        let st1 = apply_status_spec(st, rs[0], now);
        let fin = apply_statuses(st, rs, now);
        assert(fin == apply_statuses(st1, rs.skip(1), now));
        lemma_status_step_membership(st, rs[0], now, id);
        assert(forall|i: int|
            0 <= i < rs.skip(1).len() ==> #[trigger] rs.skip(1)[i] == rs[i + 1]);
        lemma_icon_membership_fold(st1, rs.skip(1), now, id);
        match last_for(rs.skip(1), id) {
            Some(r) => {
                assert(last_for(rs, id) == Some(r));
                if r.resource == self_resource() {
                    assert(has_icon(fin.icons, id) == has_icon(st1.icons, id));
                    if rs[0].resource == id {
                        assert(r.resource == id) by {
                            lemma_last_for_names(rs.skip(1), id);
                        }
                        assert(has_icon(st1.icons, id) == has_icon(st.icons, id));
                    } else {
                        assert(has_icon(st1.icons, id) == has_icon(st.icons, id));
                    }
                }
            },
            None => {
                if rs[0].resource == id {
                    assert(last_for(rs, id) == Some(rs[0]));
                    if id == self_resource() {
                        assert(has_icon(st1.icons, id) == has_icon(st.icons, id));
                    } else {
                        assert(has_icon(st1.icons, id) == (rs[0].warning
                            >= ICON_THRESHOLD_MILLI));
                    }
                } else {
                    assert(last_for(rs, id) is None);
                    assert(has_icon(st1.icons, id) == has_icon(st.icons, id));
                }
            },
        }
    }
}

/// The most recent record for `id` does name `id`.
pub proof fn lemma_last_for_names(rs: Seq<RecordV>, id: Seq<u8>)
    ensures
        match last_for(rs, id) {
            Some(r) => r.resource == id,
            None => true,
        },
    decreases rs.len(),
{
    if rs.len() > 0 {
        lemma_last_for_names(rs.skip(1), id);
    }
}

/// The icon set a run of status records builds from nothing holds exactly
/// the resources whose most recent record is at or above the warning
/// threshold — provided every such record resolves a glyph; the stream's
/// own connectivity records never add one.
pub proof fn lemma_icon_set_reconciliation(st: OverlayV, rs: Seq<RecordV>, now: u64, id: Seq<u8>)
    requires
        st.icons == Seq::<AlarmIconV>::empty(),
        forall|i: int|
            0 <= i < rs.len() ==> ((#[trigger] rs[i]).warning >= ICON_THRESHOLD_MILLI
                ==> glyph_of(rs[i].resource, rs[i].icon).len() > 0),
    ensures
        has_icon(apply_statuses(st, rs, now).icons, id) == (match last_for(rs, id) {
            Some(r) => r.resource != self_resource() && r.warning >= ICON_THRESHOLD_MILLI,
            None => false,
        }),
{
    assert(icons_unique(st.icons));
    lemma_icon_membership_fold(st, rs, now, id);
    lemma_has_icon_iff(st.icons, id);
}


impl HeimdallrLayer {
    /// How many icons the alarm column shows.
    pub fn icon_count(&self) -> (n: usize)
        ensures
            n == self@.icons.len(),
    {
        self.icons.len()
    }

    /// The icon at one position of the column.
    pub fn icon_at(&self, i: usize) -> (r: &AlarmIcon)
        requires
            i < self@.icons.len(),
        ensures
            r@ == self@.icons[i as int],
    {
        &self.icons[i]
    }

    /// How many notifications are held.
    pub fn notification_count(&self) -> (n: usize)
        ensures
            n == self@.notifications.len(),
    {
        self.notifications.len()
    }

    /// The notification at one position of the list.
    pub fn notification_at(&self, i: usize) -> (r: &Notification)
        requires
            i < self@.notifications.len(),
        ensures
            *r == self@.notifications[i as int],
    {
        &self.notifications[i]
    }

    /// The cursor selecting the displayed notification.
    pub fn notification_index(&self) -> (r: usize)
        ensures
            r == self@.idx,
    {
        self.notification_idx
    }

    /// Whether the stream endpoint is connected.
    pub fn is_connected(&self) -> (r: bool)
        ensures
            r == self@.connected,
    {
        self.ratatoskr_connected
    }

    /// Whether the canonical state changed since the last render.
    pub fn is_dirty(&self) -> (r: bool)
        ensures
            r == self@.dirty,
    {
        self.needs_redraw
    }

    /// Whether any property is still in motion.
    pub fn is_animating(&self) -> (r: bool)
        ensures
            r == (self@.anims.len() > 0),
    {
        self.animator.is_animating()
    }

    /// The animation engine's current output table.
    pub fn model(&self) -> (m: FrameModel)
        ensures
            m == self@.model,
    {
        self.frame_model
    }

    /// The battery estimate in thousandths of a minute, and whether the
    /// battery is recharging, as the latest payload reported them.
    pub fn battery(&self) -> (r: (Option<i64>, Option<bool>))
        ensures
            ({
                match r.0 {
                    Some(v) => self@.battery_eta == Some(v as int),
                    None => self@.battery_eta is None,
                }
            }),
            r.1 == self@.battery_recharging,
    {
        (self.battery_eta, self.battery_recharging)
    }
}

} // verus!
