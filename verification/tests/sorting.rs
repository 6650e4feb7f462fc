use core::cmp::Ordering;

use pixel_sort::raster::Pixel;
use pixel_sort::sorting::{
    get_sort_func, sort_by_brightness, sort_by_hue, sort_by_intensity, sort_by_lightness,
    sort_by_minimum, sort_by_saturation_hsb, sort_by_saturation_hsl, sort_key, sort_pixels,
    SortMethod,
};

fn px(r: u8, g: u8, b: u8) -> Pixel {
    Pixel { r, g, b }
}

#[test]
fn sort_by_brightness_orders_ascending() {
    let v = vec![px(200, 0, 0), px(10, 10, 10), px(0, 0, 0)];
    let s = sort_pixels(&SortMethod::Brightness, &v);
    assert_eq!(s, vec![px(0, 0, 0), px(10, 10, 10), px(200, 0, 0)]);
}

#[test]
fn sort_is_stable_for_equal_keys() {
    // both pixels have intensity 5; their input order must survive
    let v = vec![px(5, 0, 0), px(0, 5, 0), px(0, 0, 5)];
    let s = sort_pixels(&SortMethod::Intensity, &v);
    assert_eq!(s, v);
}

#[test]
fn sorting_twice_changes_nothing() {
    let v = vec![px(9, 1, 1), px(3, 3, 3), px(0, 0, 200), px(9, 1, 1), px(2, 250, 7)];
    let once = sort_pixels(&SortMethod::Hue, &v);
    let twice = sort_pixels(&SortMethod::Hue, &once);
    assert_eq!(once, twice);
}

#[test]
fn sort_by_minimum_uses_smallest_channel() {
    let v = vec![px(255, 255, 9), px(8, 200, 200), px(100, 7, 100)];
    let s = sort_pixels(&SortMethod::Minimum, &v);
    assert_eq!(s, vec![px(100, 7, 100), px(8, 200, 200), px(255, 255, 9)]);
}

#[test]
fn raw_channel_keys_sort_by_that_channel() {
    let v = vec![px(3, 0, 9), px(1, 5, 8), px(2, 2, 7)];
    let by_red = sort_pixels(&SortMethod::RgbRed, &v);
    assert_eq!(by_red, vec![px(1, 5, 8), px(2, 2, 7), px(3, 0, 9)]);
    let by_green = sort_pixels(&SortMethod::RgbGreen, &v);
    assert_eq!(by_green, vec![px(3, 0, 9), px(2, 2, 7), px(1, 5, 8)]);
    let by_blue = sort_pixels(&SortMethod::RgbBlue, &v);
    assert_eq!(by_blue, vec![px(2, 2, 7), px(1, 5, 8), px(3, 0, 9)]);
}

#[test]
fn comparators_return_orderings() {
    let lo = px(0, 0, 0);
    let hi = px(255, 255, 255);
    assert_eq!(sort_by_brightness(&lo, &hi), Ordering::Less);
    assert_eq!(sort_by_brightness(&hi, &lo), Ordering::Greater);
    assert_eq!(sort_by_brightness(&lo, &lo), Ordering::Equal);
    assert_eq!(sort_by_intensity(&px(10, 10, 10), &px(30, 0, 0)), Ordering::Equal);
    assert_eq!(sort_by_minimum(&px(1, 9, 9), &px(9, 9, 2)), Ordering::Less);
    assert_eq!(sort_by_lightness(&px(0, 0, 10), &px(0, 0, 30)), Ordering::Less);
    assert_eq!(sort_by_hue(&px(255, 10, 0), &px(0, 255, 10)), Ordering::Less);
    assert_eq!(
        sort_by_saturation_hsb(&px(100, 100, 100), &px(100, 0, 0)),
        Ordering::Less
    );
    assert_eq!(
        sort_by_saturation_hsl(&px(100, 100, 100), &px(100, 0, 0)),
        Ordering::Less
    );
}

#[test]
fn get_sort_func_dispatches_on_the_method() {
    let a = px(10, 20, 30);
    let b = px(30, 20, 10);
    assert_eq!(get_sort_func(&SortMethod::RgbRed, &a, &b), Ordering::Less);
    assert_eq!(get_sort_func(&SortMethod::RgbBlue, &a, &b), Ordering::Greater);
    assert_eq!(get_sort_func(&SortMethod::Intensity, &a, &b), Ordering::Equal);
}

#[test]
fn sort_key_matches_documented_scalars() {
    let p = px(10, 200, 30);
    assert_eq!(sort_key(&SortMethod::Intensity, p).num, 240);
    assert_eq!(sort_key(&SortMethod::Intensity, p).den, 1);
    assert_eq!(sort_key(&SortMethod::Minimum, p).num, 10);
    assert_eq!(sort_key(&SortMethod::Brightness, p).num, 200);
    assert_eq!(sort_key(&SortMethod::Brightness, p).den, 255);
    assert_eq!(sort_key(&SortMethod::RgbGreen, p).num, 200);
}

#[test]
fn empty_and_singleton_pools_sort_to_themselves() {
    let e: Vec<Pixel> = vec![];
    assert_eq!(sort_pixels(&SortMethod::Hue, &e), e);
    let one = vec![px(1, 2, 3)];
    assert_eq!(sort_pixels(&SortMethod::Hue, &one), one);
}
