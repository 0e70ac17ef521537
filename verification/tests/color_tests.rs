use heimdallr::color::{get_color_gradient, get_color_gradient_full, hsv_to_rgb};

#[test]
fn zero_warning_is_green() {
    assert_eq!(get_color_gradient(0), (85, 255, 0, 255));
}

#[test]
fn full_warning_is_red() {
    assert_eq!(get_color_gradient(1000), (255, 0, 0, 255));
}

#[test]
fn half_warning_sits_between() {
    assert_eq!(get_color_gradient(500), (255, 212, 0, 255));
}

#[test]
fn values_are_clamped_into_the_range() {
    assert_eq!(get_color_gradient(-50), get_color_gradient(0));
    assert_eq!(get_color_gradient(2_000), get_color_gradient(1000));
}

#[test]
fn hotter_warning_never_gets_greener() {
    // the red channel grows and the green channel shrinks along the sweep
    let mut w: i64 = 0;
    let mut last = get_color_gradient(0);
    while w <= 1000 {
        let c = get_color_gradient(w);
        assert!(c.0 >= last.0);
        assert!(c.1 <= last.1);
        assert_eq!(c.2, 0);
        assert_eq!(c.3, 255);
        last = c;
        w += 50;
    }
}

#[test]
fn degenerate_range_uses_the_middle() {
    // an empty range pins the ratio to one half
    assert_eq!(get_color_gradient_full(400, 400, 999, false), get_color_gradient(500));
}

#[test]
fn reversed_gradient_flips_the_sweep() {
    assert_eq!(get_color_gradient_full(0, 1000, 0, true), get_color_gradient(1000));
    assert_eq!(get_color_gradient_full(0, 1000, 1000, true), get_color_gradient(0));
}

#[test]
fn hsv_primary_points() {
    // full saturation and value: red, green and blue at their hues
    assert_eq!(hsv_to_rgb(0, 1000, 1000), (255, 0, 0));
    assert_eq!(hsv_to_rgb(120_000, 1000, 1000), (0, 255, 0));
    assert_eq!(hsv_to_rgb(240_000, 1000, 1000), (0, 0, 255));
}

#[test]
fn hsv_zero_saturation_is_grey() {
    assert_eq!(hsv_to_rgb(90_000, 0, 500), (128, 128, 128));
}
