use asset_heatmap::change::Change;
use asset_heatmap::gradient::{color_for, get_gradient, neutral, Gradient, Rgb};

fn fraction(negative: bool, numerator: u64, denominator: u64) -> Change {
    Change { negative, numerator, denominator }
}

#[test]
fn no_change_is_gray() {
    assert_eq!(color_for(Change::percent(0)), Rgb { r: 100, g: 100, b: 100 });
    assert_eq!(color_for(Change::basis_points(0)), Rgb { r: 100, g: 100, b: 100 });
    assert_eq!(color_for(Change::between(77, 77)), Rgb { r: 100, g: 100, b: 100 });
    assert_eq!(neutral(), Rgb { r: 100, g: 100, b: 100 });
}

#[test]
fn no_earlier_price_is_gray() {
    assert_eq!(color_for(Change::between(0, 5)), Rgb { r: 100, g: 100, b: 100 });
    assert_eq!(color_for(Change::between(0, 0)), Rgb { r: 100, g: 100, b: 100 });
    assert_eq!(color_for(fraction(true, 3, 0)), Rgb { r: 100, g: 100, b: 100 });
}

#[test]
fn gains_saturate_at_ten_percent() {
    assert_eq!(color_for(Change::percent(10)), Rgb { r: 0, g: 255, b: 0 });
    assert_eq!(color_for(Change::percent(25)), Rgb { r: 0, g: 255, b: 0 });
    assert_eq!(color_for(Change::percent(i64::MAX)), Rgb { r: 0, g: 255, b: 0 });
    assert_eq!(color_for(Change::between(1, u64::MAX)), Rgb { r: 0, g: 255, b: 0 });
}

#[test]
fn losses_saturate_at_ten_percent() {
    assert_eq!(color_for(Change::percent(-10)), Rgb { r: 255, g: 0, b: 0 });
    assert_eq!(color_for(Change::percent(-25)), Rgb { r: 255, g: 0, b: 0 });
    assert_eq!(color_for(Change::percent(i64::MIN)), Rgb { r: 255, g: 0, b: 0 });
    assert_eq!(color_for(Change::between(u64::MAX, 0)), Rgb { r: 255, g: 0, b: 0 });
}

#[test]
fn five_percent_is_the_midpoint() {
    assert_eq!(color_for(Change::percent(5)), Rgb { r: 100, g: 255, b: 100 });
    assert_eq!(color_for(Change::percent(-5)), Rgb { r: 255, g: 100, b: 100 });
    assert_eq!(color_for(Change::between(100, 105)), Rgb { r: 100, g: 255, b: 100 });
    assert_eq!(color_for(Change::between(100, 95)), Rgb { r: 255, g: 100, b: 100 });
}

#[test]
fn the_smallest_change_is_on_its_ramp() {
    assert_eq!(color_for(Change::between(1_000_000, 1_000_001)), Rgb { r: 200, g: 255, b: 200 });
    assert_eq!(color_for(Change::between(1_000_001, 1_000_000)), Rgb { r: 255, g: 200, b: 200 });
    assert_eq!(color_for(Change::between(u64::MAX, u64::MAX - 1)), Rgb { r: 255, g: 200, b: 200 });
    assert_eq!(color_for(Change::between(u64::MAX - 1, u64::MAX)), Rgb { r: 200, g: 255, b: 200 });
}

#[test]
fn channels_round_once_to_the_nearest() {
    // 200 - 20 * 0.01 = 199.8
    assert_eq!(color_for(Change::basis_points(1)), Rgb { r: 200, g: 255, b: 200 });
    // 200 - 20 * 0.03 = 199.4
    assert_eq!(color_for(Change::basis_points(3)), Rgb { r: 199, g: 255, b: 199 });
    // 200 - 20 * 3.42 = 131.6
    assert_eq!(color_for(Change::basis_points(342)), Rgb { r: 132, g: 255, b: 132 });
    assert_eq!(color_for(Change::basis_points(-342)), Rgb { r: 255, g: 132, b: 132 });
    // 200 - 20 * 9.99 = 0.2
    assert_eq!(color_for(Change::basis_points(999)), Rgb { r: 0, g: 255, b: 0 });
    assert_eq!(color_for(Change::basis_points(-997)), Rgb { r: 255, g: 1, b: 1 });
}

#[test]
fn ties_round_upwards() {
    // 0.025 percent: 200 - 20 * 0.025 = 199.5
    assert_eq!(color_for(fraction(false, 25, 100_000)), Rgb { r: 200, g: 255, b: 200 });
    assert_eq!(color_for(fraction(true, 25, 100_000)), Rgb { r: 255, g: 200, b: 200 });
    assert_eq!(color_for(Change::between(4000, 4001)), Rgb { r: 200, g: 255, b: 200 });
    // 0.075 percent: 198.5
    assert_eq!(color_for(Change::between(4000, 4003)), Rgb { r: 199, g: 255, b: 199 });
    // 9.975 percent: 0.5
    assert_eq!(color_for(Change::between(4000, 4399)), Rgb { r: 1, g: 255, b: 1 });
}

#[test]
fn gradient_runs_from_light_to_solid() {
    assert_eq!(get_gradient(0, 1000, Gradient::Green), Rgb { r: 200, g: 255, b: 200 });
    assert_eq!(get_gradient(0, 1000, Gradient::Red), Rgb { r: 255, g: 200, b: 200 });
    assert_eq!(get_gradient(1000, 1000, Gradient::Green), Rgb { r: 0, g: 255, b: 0 });
    assert_eq!(get_gradient(1000, 1000, Gradient::Red), Rgb { r: 255, g: 0, b: 0 });
    assert_eq!(get_gradient(25, 100, Gradient::Green), Rgb { r: 150, g: 255, b: 150 });
    assert_eq!(get_gradient(75, 100, Gradient::Red), Rgb { r: 255, g: 50, b: 50 });
    assert_eq!(get_gradient(1, 3, Gradient::Green), Rgb { r: 133, g: 255, b: 133 });
    assert_eq!(get_gradient(2, 3, Gradient::Green), Rgb { r: 67, g: 255, b: 67 });
    assert_eq!(get_gradient(1, 400, Gradient::Green), Rgb { r: 200, g: 255, b: 200 });
    assert_eq!(get_gradient(3, 400, Gradient::Red), Rgb { r: 255, g: 199, b: 199 });
    assert_eq!(Gradient::Green.light(), Rgb { r: 200, g: 255, b: 200 });
    assert_eq!(Gradient::Red.light(), Rgb { r: 255, g: 200, b: 200 });
    assert_eq!(Gradient::Green.solid(), Rgb { r: 0, g: 255, b: 0 });
    assert_eq!(Gradient::Red.solid(), Rgb { r: 255, g: 0, b: 0 });
}

#[test]
fn gradient_clamps_the_intensity() {
    assert_eq!(get_gradient(1001, 1000, Gradient::Green), Rgb { r: 0, g: 255, b: 0 });
    assert_eq!(get_gradient(u64::MAX, 1, Gradient::Red), Rgb { r: 255, g: 0, b: 0 });
    assert_eq!(get_gradient(0, 0, Gradient::Red), Rgb { r: 255, g: 0, b: 0 });
    assert_eq!(get_gradient(7, 0, Gradient::Green), Rgb { r: 0, g: 255, b: 0 });
    assert_eq!(
        get_gradient(u64::MAX - 1, u64::MAX, Gradient::Green),
        Rgb { r: 0, g: 255, b: 0 }
    );
    assert_eq!(get_gradient(1, u64::MAX, Gradient::Green), Rgb { r: 200, g: 255, b: 200 });
}

#[test]
fn colour_darkens_with_the_change() {
    let mut last = 201u16;
    for change in 1..=1000i64 {
        let c = color_for(Change::basis_points(change));
        assert_eq!(c.g, 255);
        assert_eq!(c.r, c.b);
        assert!((c.r as u16) <= last);
        last = c.r as u16;
        let d = color_for(Change::basis_points(-change));
        assert_eq!((d.r, d.g, d.b), (255, c.r, c.r));
    }
    assert_eq!(last, 0);
}
