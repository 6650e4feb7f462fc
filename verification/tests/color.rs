use pixel_sort::color::cmyk::CMYK;
use pixel_sort::color::hsb;
use pixel_sort::color::hsl;
use pixel_sort::color::HSB;
use pixel_sort::frac::{frac_le_exec, frac_lt_exec, Frac};

fn fr(num: u32, den: u32) -> Frac {
    Frac { num, den }
}

#[test]
fn brightness_is_max_channel_over_255() {
    assert_eq!(hsb::rgb_get_brightness(&10, &200, &30), fr(200, 255));
    assert_eq!(hsb::rgb_get_brightness(&0, &0, &0), fr(0, 255));
    assert_eq!(hsb::rgb_get_brightness(&255, &255, &255), fr(255, 255));
}

#[test]
fn hue_of_primaries() {
    // red sits at the start of the circle, green a third around, blue two
    // thirds; the denominator is six times the chroma
    assert_eq!(hsb::rgb_get_hue(&255, &0, &0), fr(0, 1530));
    assert_eq!(hsb::rgb_get_hue(&0, &255, &0), fr(510, 1530));
    assert_eq!(hsb::rgb_get_hue(&0, &0, &255), fr(1020, 1530));
}

#[test]
fn hue_of_achromatic_is_zero() {
    assert_eq!(hsb::rgb_get_hue(&7, &7, &7), fr(0, 1));
    assert_eq!(hsb::rgb_get_hue(&0, &0, &0), fr(0, 1));
}

#[test]
fn hue_wraps_below_red() {
    // magenta-ish: red maximal, blue above green, so the hue wraps into the
    // top sector: (g - b) mod 6d with g < b
    let h = hsb::rgb_get_hue(&200, &0, &100);
    // d = 200, six_d = 1200, num = 1200 - 100 = 1100
    assert_eq!(h, fr(1100, 1200));
}

#[test]
fn hsb_saturation_values() {
    assert_eq!(hsb::rgb_get_saturation(&0, &0, &0), fr(0, 1));
    assert_eq!(hsb::rgb_get_saturation(&100, &50, &50), fr(50, 100));
    assert_eq!(hsb::rgb_get_saturation(&255, &255, &255), fr(0, 255));
}

#[test]
fn lightness_is_midrange_over_510() {
    assert_eq!(hsl::rgb_get_lightness(&10, &30, &20), fr(40, 510));
    assert_eq!(hsl::rgb_get_lightness(&255, &255, &255), fr(510, 510));
    assert_eq!(hsl::rgb_get_lightness(&0, &0, &0), fr(0, 510));
}

#[test]
fn hsl_saturation_values() {
    // chroma 50 over a mid-range denominator of max+min = 150
    assert_eq!(hsl::rgb_get_saturation(&100, &50, &50), fr(50, 150));
    // achromatic colors have zero saturation
    assert_eq!(hsl::rgb_get_saturation(&255, &255, &255), fr(0, 1));
    assert_eq!(hsl::rgb_get_saturation(&0, &0, &0), fr(0, 1));
    // bright colors divide by 510 - (max+min)
    assert_eq!(hsl::rgb_get_saturation(&255, &205, &205), fr(50, 50));
}

#[test]
fn hsl_and_hsb_share_hue() {
    assert_eq!(
        hsl::rgb_get_hue(&12, &200, &77),
        hsb::rgb_get_hue(&12, &200, &77)
    );
}

#[test]
fn struct_constructors_agree() {
    let a = hsb::HSB::from_rgb_u8(&10, &20, &30);
    let b = hsb::HSB::from_rgb([10, 20, 30]);
    let c = hsb::HSB::from_rgb_vec(vec![10, 20, 30]);
    assert_eq!(a, b);
    assert_eq!(a, c);
    let d = hsl::HSL::from_rgb_u8(&10, &20, &30);
    let e = hsl::HSL::from_rgb([10, 20, 30]);
    let f = hsl::HSL::from_rgb_vec(vec![10, 20, 30]);
    assert_eq!(d, e);
    assert_eq!(d, f);
}

#[test]
fn hsb_from_rgb8_reads_the_rgb_crate_pixel() {
    let px = rgb::RGB8 { r: 10, g: 200, b: 30 };
    let a = HSB::from_rgb8(&px);
    let b = HSB::from(&10, &200, &30);
    assert_eq!(a, b);
    assert_eq!(a.brightness, fr(200, 255));
}

#[test]
fn cmyk_of_black_is_pure_key() {
    let c = CMYK::from_rgb_u8(&0, &0, &0);
    assert_eq!(c.c, fr(0, 1));
    assert_eq!(c.m, fr(0, 1));
    assert_eq!(c.y, fr(0, 1));
    assert_eq!(c.k, fr(255, 255));
}

#[test]
fn cmyk_of_a_color() {
    let c = CMYK::from_rgb_u8(&102, &0, &51);
    assert_eq!(c.c, fr(0, 102));
    assert_eq!(c.m, fr(102, 102));
    assert_eq!(c.y, fr(51, 102));
    assert_eq!(c.k, fr(153, 255));
    let d = CMYK::from_rgb([102, 0, 51]);
    let e = CMYK::from_rgb_vec(vec![102, 0, 51]);
    assert_eq!(c, d);
    assert_eq!(c, e);
}

#[test]
fn fraction_comparison_is_exact() {
    // 1/3 < 34/100 even though both round to 0.33
    assert!(frac_lt_exec(fr(1, 3), fr(34, 100)));
    assert!(!frac_lt_exec(fr(34, 100), fr(1, 3)));
    // 2/4 == 1/2 as rationals
    assert!(frac_le_exec(fr(2, 4), fr(1, 2)));
    assert!(frac_le_exec(fr(1, 2), fr(2, 4)));
    assert!(!frac_lt_exec(fr(1, 2), fr(2, 4)));
}

#[test]
fn hue_with_tied_maxima_stays_on_the_sector_edge() {
    // red and blue tied at the maximum: the wrap lands at five sixths
    let h = hsb::rgb_get_hue(&200, &0, &200);
    assert_eq!(h, fr(1000, 1200));
}
