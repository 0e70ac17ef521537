//! The animation engine: named scalar properties interpolated over time.
//!
//! Scalar values are fixed-point integers in thousandths (1000 = 1.0) and
//! instants are in milliseconds. Each animation key has at most one running
//! interpolation; starting a new one replaces the old and continues from the
//! value the model currently shows, so motion never snaps.

use vstd::prelude::*;

verus! {

broadcast use vstd::seq_lib::group_filter_ensures;

/// Largest magnitude a model value, or an animation endpoint, may have
/// (one million in whole units, expressed in thousandths).
pub const MAX_ANIM_VALUE: i64 = 1_000_000_000;

/// Longest accepted animation duration, in milliseconds.
pub const MAX_ANIM_DURATION_MS: u64 = 1_000_000_000;

/// The named properties the engine may drive.
#[derive(Debug, Clone, Copy, PartialEq, Eq, Structural)]
pub enum AnimationKey {
    NotificationHeight,
    IconsHeight,
}

/// The interpolation curves the engine knows.
#[derive(Debug, Clone, Copy, PartialEq, Eq, Structural)]
pub enum Easing {
    Linear,
    Smooth,
    Smoother,
    EaseOutCubic,
}

/// One running interpolation: from `start` to `end`, beginning at
/// `start_time` (ms) and lasting `duration` (ms).
#[derive(Debug, Clone, Copy, PartialEq, Eq, Structural)]
pub struct Animation {
    pub id: AnimationKey,
    pub start: i64,
    pub end: i64,
    pub start_time: u64,
    pub duration: u64,
}

/// The live output table of the engine: the current value of each animated
/// property, read by the renderer every frame.
#[derive(Debug, Clone, Copy, PartialEq, Eq, Structural)]
pub struct FrameModel {
    pub(crate) notif_height_ratio: i64,
    pub(crate) icons_ratio: i64,
}

/// Clamp a spec integer into `[0, 1000]`.
pub open spec fn clamp_unit_milli(t: int) -> int {
    if t < 0 {
        0
    } else if t > 1000 {
        1000
    } else {
        t
    }
}

/// The easing curves on a clamped input `t in [0, 1000]`, producing a value
/// in `[0, 1000]`; all arithmetic is fixed-point in thousandths, with
/// divisions on non-negative operands.
pub open spec fn ease_spec(e: Easing, t: int) -> int {
    let x = clamp_unit_milli(t);
    match e {
        Easing::Linear => x,
        Easing::Smooth => x * x * (3000 - 2 * x) / 1_000_000,
        Easing::Smoother => x * x * x * (6 * x * x - 15000 * x + 10_000_000) / 1_000_000_000_000,
        Easing::EaseOutCubic => 1000 - (1000 - x) * (1000 - x) * (1000 - x) / 1_000_000,
    }
}

/// A single animation is well formed: endpoints bounded, duration bounded.
pub open spec fn anim_wf(a: Animation) -> bool {
    &&& -MAX_ANIM_VALUE <= a.start <= MAX_ANIM_VALUE
    &&& -MAX_ANIM_VALUE <= a.end <= MAX_ANIM_VALUE
    &&& a.duration <= MAX_ANIM_DURATION_MS
}

/// Milliseconds elapsed since the animation began, never negative.
pub open spec fn anim_elapsed(a: Animation, now: int) -> int {
    if now <= a.start_time {
        0
    } else {
        now - a.start_time
    }
}

/// An animation has run its full duration.
pub open spec fn anim_done(a: Animation, now: int) -> bool {
    anim_elapsed(a, now) >= a.duration
}

/// The value an animation shows at instant `now`: exactly `end` once the
/// duration has elapsed, otherwise `start` moved towards `end` along the
/// ease-out cubic curve.
pub open spec fn anim_value_at(a: Animation, now: int) -> int {
    if anim_done(a, now) {
        a.end as int
    } else {
        let t = anim_elapsed(a, now) * 1000 / (a.duration as int);
        let eased = ease_spec(Easing::EaseOutCubic, t);
        if a.end >= a.start {
            a.start + (a.end - a.start) * eased / 1000
        } else {
            a.start - (a.start - a.end) * eased / 1000
        }
    }
}

/// The first animation for `k` in `s`, if any.
pub open spec fn find_anim(s: Seq<Animation>, k: AnimationKey) -> Option<Animation>
    decreases s.len(),
{
    if s.len() == 0 {
        None
    } else if s[0].id == k {
        Some(s[0])
    } else {
        find_anim(s.skip(1), k)
    }
}

/// `s` with every animation for `k` removed.
pub open spec fn remove_anim(s: Seq<Animation>, k: AnimationKey) -> Seq<Animation> {
    s.filter(|a: Animation| a.id != k)
}

/// The entries a step at instant `now` keeps: those still short of their
/// duration.
pub open spec fn step_survivors(s: Seq<Animation>, now: int) -> Seq<Animation> {
    s.filter(|a: Animation| !anim_done(a, now))
}

/// The value the model shows for `k` after a step at `now`: the running
/// animation's interpolated value if one exists, else the base value kept
/// from before.
pub open spec fn stepped_val(s: Seq<Animation>, base: int, k: AnimationKey, now: int) -> int {
    match find_anim(s, k) {
        Some(a) => anim_value_at(a, now),
        None => base,
    }
}

/// The animator's state after `animate_property(id, to, duration)` at
/// instant `now`, when the model currently shows `cur` for `id`: any running
/// entry for `id` is dropped and one fresh entry is installed, starting from
/// `cur`.
pub open spec fn animate_spec(
    s: Seq<Animation>,
    cur: i64,
    id: AnimationKey,
    to: i64,
    duration: u64,
    now: u64,
) -> Seq<Animation> {
    remove_anim(s, id).push(
        (Animation { id, start: cur, end: to, start_time: now, duration }),
    )
}

/// Where `find_anim` answers `Some`, the entry is in the sequence with the
/// looked-up key; where it answers `None`, no entry has that key.
pub proof fn lemma_find_index(s: Seq<Animation>, k: AnimationKey)
    ensures
        match find_anim(s, k) {
            Some(b) => b.id == k && exists|j: int| 0 <= j < s.len() && #[trigger] s[j] == b,
            None => forall|j: int| 0 <= j < s.len() ==> (#[trigger] s[j]).id != k,
        },
    decreases s.len(),
{
    if s.len() > 0 && s[0].id != k {
        lemma_find_index(s.skip(1), k);
        match find_anim(s.skip(1), k) {
            Some(b) => {
                let j = choose|j: int| 0 <= j < s.skip(1).len() && #[trigger] s.skip(1)[j] == b;
                assert(s[j + 1] == b);
            },
            None => {
                assert forall|j: int| 0 <= j < s.len() implies (#[trigger] s[j]).id != k by {
                    if j > 0 {
                        assert(s.skip(1)[j - 1] == s[j]);
                    }
                }
            },
        }
    }
}

/// Appending one entry only matters to `find_anim` when no earlier entry
/// already has the key.
pub proof fn lemma_find_push(s: Seq<Animation>, a: Animation, k: AnimationKey)
    ensures
        find_anim(s.push(a), k) == (match find_anim(s, k) {
            Some(b) => Some(b),
            None => if a.id == k {
                Some(a)
            } else {
                None
            },
        }),
    decreases s.len(),
{
    if s.len() == 0 {
        assert(s.push(a)[0] == a);
        assert(s.push(a).skip(1) =~= Seq::<Animation>::empty());
        assert(find_anim(Seq::<Animation>::empty(), k) == None::<Animation>);
    } else {
        assert(s.push(a)[0] == s[0]);
        assert(s.push(a).skip(1) =~= s.skip(1).push(a));
        lemma_find_push(s.skip(1), a, k);
    }
}

impl FrameModel {
    /// The model's value for a key, as a spec integer.
    pub closed spec fn spec_val(&self, id: AnimationKey) -> int {
        match id {
            AnimationKey::NotificationHeight => self.notif_height_ratio as int,
            AnimationKey::IconsHeight => self.icons_ratio as int,
        }
    }

    /// Every stored value is bounded.
    pub closed spec fn wf(&self) -> bool {
        &&& -MAX_ANIM_VALUE <= self.notif_height_ratio <= MAX_ANIM_VALUE
        &&& -MAX_ANIM_VALUE <= self.icons_ratio <= MAX_ANIM_VALUE
    }

    /// A fresh model shows zero everywhere.
    pub fn new() -> (m: FrameModel)
        ensures
            m.wf(),
            m.spec_val(AnimationKey::NotificationHeight) == 0,
            m.spec_val(AnimationKey::IconsHeight) == 0,
    {
        FrameModel { notif_height_ratio: 0, icons_ratio: 0 }
    }

    /// Overwrite the value for one key; the other keys keep their values.
    pub fn set(&mut self, id: AnimationKey, val: i64)
        requires
            -MAX_ANIM_VALUE <= val <= MAX_ANIM_VALUE,
        ensures
            old(self).wf() ==> final(self).wf(),
            final(self).spec_val(id) == val,
            forall|k: AnimationKey| k != id ==> #[trigger] final(self).spec_val(k)
                == old(self).spec_val(k),
    {
        match id {
            AnimationKey::NotificationHeight => self.notif_height_ratio = val,
            AnimationKey::IconsHeight => self.icons_ratio = val,
        }
    }

    /// Read the value for one key.
    pub fn get(&self, id: AnimationKey) -> (r: i64)
        ensures
            r == self.spec_val(id),
    {
        match id {
            AnimationKey::NotificationHeight => self.notif_height_ratio,
            AnimationKey::IconsHeight => self.icons_ratio,
        }
    }
}

/// Evaluate an easing curve at `t` thousandths of the way through, giving a
/// progress value in `[0, 1000]` thousandths.
pub fn ease(e: Easing, t: i64) -> (r: i64)
    ensures
        r == ease_spec(e, t as int),
        0 <= r <= 1000,
{
    let xs: i64 = if t < 0 {
        0
    } else if t > 1000 {
        1000
    } else {
        t
    };
    let x: u64 = xs as u64;
    proof {
        assert(x == clamp_unit_milli(t as int));
        assert(x * x <= 1_000_000) by (nonlinear_arith)
            requires 0 <= x <= 1000;
    }
    match e {
        Easing::Linear => xs,
        Easing::Smooth => {
            proof {
                assert(x * x * (3000 - 2 * x) == 1_000_000_000 - (1000 - x) * (1000 - x) * (2
                    * x + 1000)) by (nonlinear_arith)
                    requires 0 <= x <= 1000;
                assert((1000 - x) * (1000 - x) * (2 * x + 1000) >= 0) by (nonlinear_arith)
                    requires 0 <= x <= 1000;
                assert(x * x * (3000 - 2 * x) >= 0) by (nonlinear_arith)
                    requires 0 <= x <= 1000;
            }
            (x * x * (3000 - 2 * x) / 1_000_000) as i64
        },
        Easing::Smoother => {
            proof {
                assert(6 * x * x + 10_000_000 - 15000 * x == 6 * (x - 1250) * (x - 1250)
                    + 625_000) by (nonlinear_arith);
                assert(6 * (x - 1250) * (x - 1250) >= 0) by (nonlinear_arith);
                assert(6 * x * x <= 15000 * x + 10_000_000) by (nonlinear_arith)
                    requires 0 <= x <= 1000;
                assert(x * x * x <= 1_000_000_000) by (nonlinear_arith)
                    requires 0 <= x <= 1000;
                assert(x * x * x * (6 * x * x + 10_000_000 - 15000 * x) == 1_000_000_000_000_000
                    - (1000 - x) * (1000 - x) * (1000 - x) * (6 * x * x + 3000 * x
                    + 1_000_000)) by (nonlinear_arith)
                    requires 0 <= x <= 1000;
                assert((1000 - x) * (1000 - x) * (1000 - x) * (6 * x * x + 3000 * x + 1_000_000)
                    >= 0) by (nonlinear_arith)
                    requires 0 <= x <= 1000;
                assert(x * x * x * (6 * x * x + 10_000_000 - 15000 * x) >= 0) by (
                nonlinear_arith)
                    requires 0 <= x <= 1000;
                assert(x * x * x * (6 * x * x - 15000 * x + 10_000_000) == x * x * x * (6 * x
                    * x + 10_000_000 - 15000 * x)) by (nonlinear_arith);
            }
            (x * x * x * (6 * x * x + 10_000_000 - 15000 * x) / 1_000_000_000_000) as i64
        },
        Easing::EaseOutCubic => {
            let y: u64 = 1000 - x;
            proof {
                assert(y * y <= 1_000_000) by (nonlinear_arith)
                    requires 0 <= y <= 1000;
                assert(y * y * y <= 1_000_000_000) by (nonlinear_arith)
                    requires 0 <= y <= 1000;
                assert(y * y * y >= 0) by (nonlinear_arith)
                    requires 0 <= y <= 1000;
            }
            (1000 - y * y * y / 1_000_000) as i64
        },
    }
}

/// The set of running interpolations.
pub struct Animator {
    pub(crate) animations: Vec<Animation>,
}

impl View for Animator {
    type V = Seq<Animation>;

    closed spec fn view(&self) -> Seq<Animation> {
        self.animations@
    }
}

/// Every entry well formed, and no key has two running entries.
pub open spec fn anims_wf(s: Seq<Animation>) -> bool {
    &&& forall|i: int| 0 <= i < s.len() ==> anim_wf(#[trigger] s[i])
    &&& forall|i: int, j: int|
        0 <= i < j < s.len() ==> (#[trigger] s[i]).id != (#[trigger] s[j]).id
}

impl Animator {
    /// Every entry well formed, and no key has two running entries.
    pub open spec fn wf(&self) -> bool {
        anims_wf(self@)
    }

    /// An engine with no running interpolations.
    pub fn new() -> (a: Animator)
        ensures
            a.wf(),
            a@ == Seq::<Animation>::empty(),
    {
        Animator { animations: Vec::new() }
    }

    /// Whether any interpolation is currently running.
    pub fn is_animating(&self) -> (r: bool)
        ensures
            r == (self@.len() > 0),
    {
        self.animations.len() > 0
    }
}

impl Animator {
    /// Advance every running interpolation to instant `now_ms`, writing each
    /// one's current value into `model`. An entry whose duration has elapsed
    /// writes exactly its `end` value and is removed; the call reports
    /// whether any entry was processed at all.
    pub fn step(&mut self, model: &mut FrameModel, now_ms: u64) -> (changed: bool)
        requires
            old(self).wf(),
            old(model).wf(),
        ensures
            final(self).wf(),
            final(model).wf(),
            changed == (old(self)@.len() > 0),
            final(self)@ == step_survivors(old(self)@, now_ms as int),
            forall|k: AnimationKey| #[trigger] final(model).spec_val(k) == stepped_val(
                old(self)@,
                old(model).spec_val(k),
                k,
                now_ms as int,
            ),
    {
        let ghost s0 = self@;
        let ghost m0 = *old(model);
        let changed = self.animations.len() > 0;
        let mut kept: Vec<Animation> = Vec::new();
        let mut i: usize = 0;
        proof {
            reveal(Seq::filter);
            assert(s0.take(0) =~= Seq::<Animation>::empty());
        }
        while i < self.animations.len()
            invariant
                self@ == s0,
                self.wf(),
                model.wf(),
                i <= s0.len(),
                kept@ == step_survivors(s0.take(i as int), now_ms as int),
                forall|m: int| 0 <= m < kept@.len() ==> anim_wf(#[trigger] kept@[m]),
                forall|m: int, n: int|
                    0 <= m < n < kept@.len() ==> (#[trigger] kept@[m]).id != (
                    #[trigger] kept@[n]).id,
                forall|m: int, j: int|
                    0 <= m < kept@.len() && i <= j < s0.len() ==> (#[trigger] kept@[m]).id != (
                    #[trigger] s0[j]).id,
                forall|k: AnimationKey| #[trigger] model.spec_val(k) == stepped_val(
                    s0.take(i as int),
                    m0.spec_val(k),
                    k,
                    now_ms as int,
                ),
            decreases s0.len() - i,
        {
            let a = self.animations[i];
            proof {
                assert(a == s0[i as int]);
                assert(anim_wf(a));
                lemma_find_index(s0.take(i as int), a.id);
                if find_anim(s0.take(i as int), a.id) is Some {
                    let b = find_anim(s0.take(i as int), a.id)->0;
                    let j = choose|j: int|
                        0 <= j < s0.take(i as int).len() && s0.take(i as int)[j] == b;
                    assert(s0[j] == b && b.id == s0[i as int].id);
                    assert(false);
                }
                lemma_find_push(s0.take(i as int), a, a.id);
                assert(s0.take(i as int + 1) =~= s0.take(i as int).push(a));
            }
            let elapsed: u64 = if now_ms <= a.start_time {
                0
            } else {
                now_ms - a.start_time
            };
            proof {
                assert(elapsed == anim_elapsed(a, now_ms as int));
            }
            let value: i64 = if elapsed >= a.duration {
                a.end
            } else {
                let t: u64 = elapsed * 1000 / a.duration;
                proof {
                    assert(elapsed * 1000 / (a.duration as int) < 1000) by (nonlinear_arith)
                        requires 0 <= elapsed < a.duration;
                }
                let eased = ease(Easing::EaseOutCubic, t as i64);
                if a.end >= a.start {
                    let delta: u64 = (a.end - a.start) as u64;
                    proof {
                        assert(delta * eased <= delta * 1000) by (nonlinear_arith)
                            requires 0 <= eased <= 1000, 0 <= delta;
                    }
                    a.start + (delta * (eased as u64) / 1000) as i64
                } else {
                    let delta: u64 = (a.start - a.end) as u64;
                    proof {
                        assert(delta * eased <= delta * 1000) by (nonlinear_arith)
                            requires 0 <= eased <= 1000, 0 <= delta;
                    }
                    a.start - (delta * (eased as u64) / 1000) as i64
                }
            };
            proof {
                assert(value == anim_value_at(a, now_ms as int));
            }
            model.set(a.id, value);
            if elapsed < a.duration {
                kept.push(a);
            }
            proof {
                reveal(Seq::filter);
                assert(s0.take(i as int + 1).drop_last() =~= s0.take(i as int));
                assert(s0.take(i as int + 1).last() == a);
                assert(kept@ == step_survivors(s0.take(i as int + 1), now_ms as int));
                assert(s0.take(i as int + 1) =~= s0.take(i as int).push(a));
                assert forall|k: AnimationKey| #[trigger] model.spec_val(k) == stepped_val(
                    s0.take(i as int + 1),
                    m0.spec_val(k),
                    k,
                    now_ms as int,
                ) by {
                    lemma_find_push(s0.take(i as int), a, k);
                }
            }
            i = i + 1;
        }
        proof {
            assert(s0.take(s0.len() as int) =~= s0);
        }
        self.animations = kept;
        changed
    }

    /// Install a fresh interpolation for `id`, from the value the model
    /// currently shows for `id` towards `to`, lasting `duration_ms` from
    /// `now_ms`; any interpolation already running for `id` is dropped. The
    /// model itself is not touched.
    pub fn animate_property(
        &mut self,
        model: &FrameModel,
        id: AnimationKey,
        to: i64,
        duration_ms: u64,
        now_ms: u64,
    )
        requires
            old(self).wf(),
            model.wf(),
            -MAX_ANIM_VALUE <= to <= MAX_ANIM_VALUE,
            duration_ms <= MAX_ANIM_DURATION_MS,
        ensures
            final(self).wf(),
            final(self)@ == animate_spec(
                old(self)@,
                model.spec_val(id) as i64,
                id,
                to,
                duration_ms,
                now_ms,
            ),
    {
        let ghost s0 = self@;
        let mut kept: Vec<Animation> = Vec::new();
        let mut i: usize = 0;
        proof {
            reveal(Seq::filter);
            assert(s0.take(0) =~= Seq::<Animation>::empty());
        }
        while i < self.animations.len()
            invariant
                self@ == s0,
                self.wf(),
                i <= s0.len(),
                kept@ == remove_anim(s0.take(i as int), id),
                forall|m: int| 0 <= m < kept@.len() ==> anim_wf(#[trigger] kept@[m]),
                forall|m: int| 0 <= m < kept@.len() ==> (#[trigger] kept@[m]).id != id,
                forall|m: int, n: int|
                    0 <= m < n < kept@.len() ==> (#[trigger] kept@[m]).id != (
                    #[trigger] kept@[n]).id,
                forall|m: int, j: int|
                    0 <= m < kept@.len() && i <= j < s0.len() ==> (#[trigger] kept@[m]).id != (
                    #[trigger] s0[j]).id,
            decreases s0.len() - i,
        {
            let a = self.animations[i];
            if a.id != id {
                kept.push(a);
            }
            proof {
                reveal(Seq::filter);
                assert(s0.take(i as int + 1).drop_last() =~= s0.take(i as int));
                assert(s0.take(i as int + 1).last() == a);
                assert(kept@ == remove_anim(s0.take(i as int + 1), id));
            }
            i = i + 1;
        }
        proof {
            assert(s0.take(s0.len() as int) =~= s0);
        }
        let start = model.get(id);
        kept.push(Animation { id, start, end: to, start_time: now_ms, duration: duration_ms });
        self.animations = kept;
    }
}


/// Convergence: once an animation's duration has elapsed, the value a step
/// writes for it is exactly its `end` — no residual interpolation error —
/// and the entry does not survive the step, while every entry still short
/// of its duration survives unchanged.
pub proof fn lemma_step_convergence(s: Seq<Animation>, now: int)
    ensures
        forall|j: int|
            0 <= j < s.len() && anim_done(#[trigger] s[j], now) ==> anim_value_at(s[j], now)
                == s[j].end,
        forall|j: int|
            0 <= j < step_survivors(s, now).len() ==> !anim_done(
                #[trigger] step_survivors(s, now)[j],
                now,
            ),
        forall|j: int|
            0 <= j < s.len() && !anim_done(#[trigger] s[j], now) ==> step_survivors(
                s,
                now,
            ).contains(s[j]),
{
}

/// Continuation safety: replacing a running animation for a key right after
/// a step installs an entry whose `start` is the in-flight value the step
/// wrote for that key — not the replaced entry's original `start`.
pub proof fn lemma_animate_is_continuation_safe(
    s: Seq<Animation>,
    base: int,
    k: AnimationKey,
    now: u64,
    cur: i64,
    to2: i64,
    d2: u64,
    t2: u64,
)
    requires
        cur == stepped_val(s, base, k, now as int),
    ensures
        ({
            let after = animate_spec(step_survivors(s, now as int), cur, k, to2, d2, t2);
            &&& find_anim(after, k) == Some(
                (Animation { id: k, start: cur, end: to2, start_time: t2, duration: d2 }),
            )
            &&& (match find_anim(s, k) {
                Some(a) => !anim_done(a, now as int) ==> cur == anim_value_at(a, now as int),
                None => cur == base,
            })
        }),
{
    let survivors = step_survivors(s, now as int);
    let removed = remove_anim(survivors, k);
    let fresh = Animation { id: k, start: cur, end: to2, start_time: t2, duration: d2 };
    lemma_find_index(removed, k);
    if find_anim(removed, k) is Some {
        let b = find_anim(removed, k)->0;
        let j = choose|j: int| 0 <= j < removed.len() && removed[j] == b;
        assert(false);
    }
    lemma_find_push(removed, fresh, k);
}

} // verus!
