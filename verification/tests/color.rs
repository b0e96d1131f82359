use fractal::color::{
    clamp_channel, get_color_discrete, get_color_smooth, gray_level, shade, ColorMode, Rgb, Sample,
};

const BLACK: Rgb = Rgb { r: 0, g: 0, b: 0 };

fn sample(iterations: i32, red: i64, green: i64, blue: i64) -> Sample {
    Sample { iterations, red, green, blue }
}

#[test]
fn gray_level_at_the_budget_clamps_to_white() {
    assert_eq!(gray_level(50, 50), 255);
    assert_eq!(get_color_discrete(50, 50), Rgb { r: 255, g: 255, b: 255 });
}

#[test]
fn gray_level_is_the_scaled_proportion() {
    assert_eq!(gray_level(25, 50), 127);
    assert_eq!(gray_level(1, 50), 5);
    assert_eq!(gray_level(49, 50), 249);
    assert_eq!(gray_level(1, 1000), 0);
    assert_eq!(gray_level(4, 1000), 1);
    assert_eq!(gray_level(999, 1000), 254);
    assert_eq!(gray_level(1, 255), 1);
    assert_eq!(gray_level(1, 1), 255);
}

#[test]
fn gray_level_of_no_iterations_is_zero() {
    assert_eq!(gray_level(0, 50), 0);
    assert_eq!(gray_level(0, 1), 0);
}

#[test]
fn gray_level_without_budget_is_black() {
    assert_eq!(gray_level(0, 0), 0);
    assert_eq!(gray_level(5, 0), 0);
    assert_eq!(gray_level(-5, 0), 0);
    assert_eq!(gray_level(7, -3), 0);
    assert_eq!(get_color_discrete(5, 0), BLACK);
}

#[test]
fn gray_level_saturates_outside_the_budget() {
    assert_eq!(gray_level(60, 50), 255);
    assert_eq!(gray_level(i32::MAX, 1), 255);
    assert_eq!(gray_level(i32::MAX, i32::MAX), 255);
    assert_eq!(gray_level(-1, 50), 0);
    assert_eq!(gray_level(i32::MIN, 50), 0);
    assert_eq!(gray_level(i32::MAX - 1, i32::MAX), 254);
}

#[test]
fn clamp_channel_saturates() {
    assert_eq!(clamp_channel(-1), 0);
    assert_eq!(clamp_channel(0), 0);
    assert_eq!(clamp_channel(1), 1);
    assert_eq!(clamp_channel(128), 128);
    assert_eq!(clamp_channel(255), 255);
    assert_eq!(clamp_channel(256), 255);
    assert_eq!(clamp_channel(i64::MAX), 255);
    assert_eq!(clamp_channel(i64::MIN), 0);
}

#[test]
fn smooth_color_clamps_each_channel() {
    assert_eq!(get_color_smooth(&sample(3, 300, -4, 128)), Rgb { r: 255, g: 0, b: 128 });
    assert_eq!(get_color_smooth(&sample(3, 1, 2, 3)), Rgb { r: 1, g: 2, b: 3 });
    assert_eq!(get_color_smooth(&sample(3, 256, 255, 0)), Rgb { r: 255, g: 255, b: 0 });
}

#[test]
fn interior_pixels_are_black_in_both_modes() {
    let interior = sample(50, 200, 100, 50);
    assert_eq!(shade(&interior, 50, ColorMode::Smooth), BLACK);
    assert_eq!(shade(&interior, 50, ColorMode::Discrete), BLACK);
    let no_budget = sample(0, 17, 18, 19);
    assert_eq!(shade(&no_budget, 0, ColorMode::Smooth), BLACK);
    assert_eq!(shade(&no_budget, 0, ColorMode::Discrete), BLACK);
}

#[test]
fn escaped_pixels_follow_the_policy() {
    let escaped = sample(25, 300, 7, -9);
    assert_eq!(shade(&escaped, 50, ColorMode::Smooth), Rgb { r: 255, g: 7, b: 0 });
    assert_eq!(shade(&escaped, 50, ColorMode::Discrete), Rgb { r: 127, g: 127, b: 127 });
    let early = sample(0, 10, 20, 30);
    assert_eq!(shade(&early, 50, ColorMode::Smooth), Rgb { r: 10, g: 20, b: 30 });
    assert_eq!(shade(&early, 50, ColorMode::Discrete), BLACK);
}

#[test]
fn shade_ignores_smooth_levels_in_discrete_mode() {
    let a = sample(10, 1, 2, 3);
    let b = sample(10, 250, 251, 252);
    assert_eq!(shade(&a, 40, ColorMode::Discrete), shade(&b, 40, ColorMode::Discrete));
    assert_eq!(shade(&a, 40, ColorMode::Discrete), Rgb { r: 63, g: 63, b: 63 });
}
