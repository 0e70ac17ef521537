use heimdallr::anim::{ease, Animator, AnimationKey, Easing, FrameModel};

#[test]
fn ease_linear_is_identity_on_range() {
    assert_eq!(ease(Easing::Linear, 0), 0);
    assert_eq!(ease(Easing::Linear, 500), 500);
    assert_eq!(ease(Easing::Linear, 1000), 1000);
}

#[test]
fn ease_clamps_outside_range() {
    assert_eq!(ease(Easing::Linear, -5), 0);
    assert_eq!(ease(Easing::EaseOutCubic, 2000), 1000);
}

#[test]
fn ease_smooth_midpoint() {
    assert_eq!(ease(Easing::Smooth, 500), 500);
}

#[test]
fn ease_smoother_midpoint() {
    assert_eq!(ease(Easing::Smoother, 500), 500);
}

#[test]
fn ease_out_cubic_values() {
    assert_eq!(ease(Easing::EaseOutCubic, 0), 0);
    assert_eq!(ease(Easing::EaseOutCubic, 500), 875);
    assert_eq!(ease(Easing::EaseOutCubic, 1000), 1000);
}

#[test]
fn model_starts_at_zero_and_stores() {
    let mut m = FrameModel::new();
    assert_eq!(m.get(AnimationKey::IconsHeight), 0);
    assert_eq!(m.get(AnimationKey::NotificationHeight), 0);
    m.set(AnimationKey::IconsHeight, 2000);
    assert_eq!(m.get(AnimationKey::IconsHeight), 2000);
    assert_eq!(m.get(AnimationKey::NotificationHeight), 0);
}

#[test]
fn step_interpolates_with_ease_out_cubic() {
    let mut a = Animator::new();
    let mut m = FrameModel::new();
    a.animate_property(&m, AnimationKey::IconsHeight, 1000, 1000, 0);
    let changed = a.step(&mut m, 500);
    assert!(changed);
    // halfway through, the ease-out cubic sits at 875 thousandths
    assert_eq!(m.get(AnimationKey::IconsHeight), 875);
}

#[test]
fn step_snaps_to_end_exactly_and_removes_entry() {
    let mut a = Animator::new();
    let mut m = FrameModel::new();
    a.animate_property(&m, AnimationKey::IconsHeight, 1000, 300, 0);
    assert!(a.step(&mut m, 300));
    assert_eq!(m.get(AnimationKey::IconsHeight), 1000);
    // the finished entry is gone: a further step reports nothing running
    assert!(!a.step(&mut m, 400));
    assert_eq!(m.get(AnimationKey::IconsHeight), 1000);
}

#[test]
fn step_without_entries_reports_false() {
    let mut a = Animator::new();
    let mut m = FrameModel::new();
    assert!(!a.step(&mut m, 10));
}

#[test]
fn animate_is_continuation_safe() {
    let mut a = Animator::new();
    let mut m = FrameModel::new();
    a.animate_property(&m, AnimationKey::IconsHeight, 1000, 1000, 0);
    a.step(&mut m, 500);
    // the model now shows the in-flight value 875; replacing the
    // animation must start from there, not from 0
    a.animate_property(&m, AnimationKey::IconsHeight, 0, 1000, 500);
    // immediately after the replacement, the value is still the in-flight one
    a.step(&mut m, 500);
    assert_eq!(m.get(AnimationKey::IconsHeight), 875);
    // and it converges to the new end
    a.step(&mut m, 1500);
    assert_eq!(m.get(AnimationKey::IconsHeight), 0);
}

#[test]
fn replacing_an_animation_keeps_one_entry_per_key() {
    let mut a = Animator::new();
    let mut m = FrameModel::new();
    a.animate_property(&m, AnimationKey::IconsHeight, 1000, 1000, 0);
    a.animate_property(&m, AnimationKey::IconsHeight, 2000, 1000, 0);
    // finishing the single remaining entry leaves nothing running
    assert!(a.step(&mut m, 1000));
    assert_eq!(m.get(AnimationKey::IconsHeight), 2000);
    assert!(!a.step(&mut m, 1001));
}

#[test]
fn independent_keys_run_side_by_side() {
    let mut a = Animator::new();
    let mut m = FrameModel::new();
    a.animate_property(&m, AnimationKey::IconsHeight, 1000, 100, 0);
    a.animate_property(&m, AnimationKey::NotificationHeight, 500, 200, 0);
    assert!(a.step(&mut m, 100));
    assert_eq!(m.get(AnimationKey::IconsHeight), 1000);
    assert!(a.step(&mut m, 200));
    assert_eq!(m.get(AnimationKey::NotificationHeight), 500);
    assert!(!a.step(&mut m, 201));
}
