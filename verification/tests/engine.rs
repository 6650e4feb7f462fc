use pixel_sort::interval::{entire_row, IntervalType};
use pixel_sort::raster::{Pixel, Raster, SortError};
use pixel_sort::sorting::SortMethod;
use pixel_sort::{
    create_bool_2d_vector, get_sorted_image, get_sorted_image_raw, get_sorted_image_raw2,
    get_sorted_image_raw2_with_skips, get_sorted_image_with_skips, sort_image, sort_row,
};

fn px(r: u8, g: u8, b: u8) -> Pixel {
    Pixel { r, g, b }
}

fn gray(v: u8) -> Pixel {
    px(v, v, v)
}

fn raster(width: u32, height: u32, pixels: Vec<Pixel>) -> Raster {
    Raster::from_pixels(width, height, pixels).unwrap()
}

fn pixels_of(r: &Raster) -> Vec<Pixel> {
    r.pixels().clone()
}

#[test]
fn full_randomness_is_the_identity() {
    // every interval is skipped, so the raster passes through unchanged
    let input = vec![gray(3), gray(1), gray(2), gray(0), gray(9), gray(5), gray(4), gray(7)];
    let img = raster(4, 2, input.clone());
    let plan = entire_row(&img);
    let out = get_sorted_image_raw(&img, None, &plan, 100, &SortMethod::Brightness);
    assert_eq!(pixels_of(&out), input);
}

#[test]
fn zero_randomness_sorts_every_row() {
    let img = raster(
        4,
        2,
        vec![
            gray(3),
            gray(1),
            gray(2),
            gray(0),
            gray(9),
            gray(5),
            gray(4),
            gray(7),
        ],
    );
    let plan = entire_row(&img);
    let out = get_sorted_image_raw(&img, None, &plan, 0, &SortMethod::Brightness);
    assert_eq!(
        pixels_of(&out),
        vec![gray(0), gray(1), gray(2), gray(3), gray(4), gray(5), gray(7), gray(9)]
    );
}

#[test]
fn sorting_a_sorted_image_reproduces_it() {
    let img = raster(4, 1, vec![gray(1), gray(2), gray(3), gray(4)]);
    let plan = entire_row(&img);
    let once = get_sorted_image_raw(&img, None, &plan, 0, &SortMethod::Brightness);
    let twice = get_sorted_image_raw(&once, None, &plan, 0, &SortMethod::Brightness);
    assert_eq!(pixels_of(&once), pixels_of(&twice));
}

#[test]
fn intensity_ties_keep_input_order_end_to_end() {
    // channel sums 30, 220, 220, 220: the first pixel stays first, the tied
    // three keep their relative order, so the image is already sorted
    let input = vec![px(10, 10, 10), px(200, 10, 10), px(10, 200, 10), px(10, 10, 200)];
    let img = raster(4, 1, input.clone());
    let plan = entire_row(&img);
    let out = get_sorted_image_raw(&img, None, &plan, 0, &SortMethod::Intensity);
    assert_eq!(pixels_of(&out), input);
}

#[test]
fn masked_pixels_keep_their_input_values() {
    // mask out column 1: the pool is the other three pixels, written back in
    // ascending order over the unmasked columns only
    let img = raster(4, 1, vec![gray(3), gray(2), gray(1), gray(0)]);
    let plan = entire_row(&img);
    let mut mask = create_bool_2d_vector(1, 4);
    // the mask is indexed mask[x][y]
    mask[1][0] = false;
    let out = get_sorted_image_raw(&img, Some(&mask), &plan, 0, &SortMethod::Brightness);
    assert_eq!(pixels_of(&out), vec![gray(0), gray(2), gray(1), gray(3)]);
}

#[test]
fn explicit_skips_pick_the_intervals_to_leave_alone() {
    let img = raster(2, 2, vec![gray(2), gray(1), gray(9), gray(4)]);
    let plan = entire_row(&img);
    // skip the first row's single interval ([0,0) is empty, [0,2) is the row)
    let skips = vec![vec![false, true], vec![false, false]];
    let out = get_sorted_image_with_skips(&img, None, &plan, &skips, &SortMethod::Brightness);
    assert_eq!(pixels_of(&out), vec![gray(2), gray(1), gray(4), gray(9)]);
}

#[test]
fn rows_beyond_the_plan_copy_through() {
    let img = raster(2, 2, vec![gray(2), gray(1), gray(9), gray(4)]);
    let plan = vec![vec![0u32, 2]];
    let out = get_sorted_image_raw(&img, None, &plan, 0, &SortMethod::Brightness);
    assert_eq!(pixels_of(&out), vec![gray(1), gray(2), gray(9), gray(4)]);
}

#[test]
fn empty_plan_rows_copy_through() {
    let img = raster(2, 1, vec![gray(2), gray(1)]);
    let plan = vec![Vec::<u32>::new()];
    let out = get_sorted_image_raw(&img, None, &plan, 0, &SortMethod::Brightness);
    assert_eq!(pixels_of(&out), vec![gray(2), gray(1)]);
}

#[test]
fn sort_row_handles_partial_intervals() {
    let row = vec![gray(5), gray(4), gray(3), gray(2), gray(1), gray(0)];
    let cuts = vec![3u32];
    let out = sort_row(&row, &cuts, None, 0, &vec![false], &SortMethod::Brightness);
    // only [0,3) is sorted; the tail keeps its input pixels
    assert_eq!(out, vec![gray(3), gray(4), gray(5), gray(2), gray(1), gray(0)]);
}

#[test]
fn diagonal_plan_sorts_along_the_traversal() {
    let img = raster(3, 1, vec![px(9, 0, 0), px(3, 0, 0), px(5, 5, 5)]);
    let plan = vec![vec![(0u32, 0u32), (2, 0)]];
    let out = get_sorted_image_raw2(&img, &plan, 0, &SortMethod::Intensity);
    // the traversal covers (0,0) and (1,0) and excludes the endpoint
    assert_eq!(pixels_of(&out), vec![px(3, 0, 0), px(9, 0, 0), px(5, 5, 5)]);
}

#[test]
fn diagonal_full_randomness_is_the_identity() {
    let input = vec![gray(7), gray(6), gray(5), gray(4), gray(3), gray(2)];
    let img = raster(3, 2, input.clone());
    let plan = vec![vec![(0u32, 0u32), (2, 1)], vec![(2, 1), (0, 0)]];
    let out = get_sorted_image_raw2(&img, &plan, 100, &SortMethod::Lightness);
    assert_eq!(pixels_of(&out), input);
}

#[test]
fn diagonal_skips_leave_their_interval_alone() {
    let img = raster(3, 1, vec![px(9, 0, 0), px(3, 0, 0), px(5, 5, 5)]);
    let plan = vec![vec![(0u32, 0u32), (2, 0)]];
    let out =
        get_sorted_image_raw2_with_skips(&img, &plan, &vec![vec![true]], &SortMethod::Intensity);
    assert_eq!(pixels_of(&out), vec![px(9, 0, 0), px(3, 0, 0), px(5, 5, 5)]);
}

#[test]
fn later_paths_overwrite_earlier_ones() {
    // two overlapping single-interval paths over the same row: the second,
    // skipped one restores the input pixels it covers
    let img = raster(3, 1, vec![px(9, 0, 0), px(3, 0, 0), px(1, 1, 1)]);
    let plan = vec![vec![(0u32, 0u32), (2, 0)], vec![(0, 0), (1, 0)]];
    let skips = vec![vec![false], vec![true]];
    let out = get_sorted_image_raw2_with_skips(&img, &plan, &skips, &SortMethod::Intensity);
    // first path sorts (0,0),(1,0) -> 3,9; second path writes the input 9
    // back over (0,0)
    assert_eq!(pixels_of(&out), vec![px(9, 0, 0), px(9, 0, 0), px(1, 1, 1)]);
}

#[test]
fn dispatcher_validates_before_work() {
    let img = raster(2, 1, vec![gray(2), gray(1)]);
    let plan = IntervalType::HorizontalRow(vec![vec![0, 2]]);
    let res = get_sorted_image(&img, None, &plan, 101, &SortMethod::Brightness);
    assert!(matches!(res, Err(SortError::RandomnessOutOfRange)));

    let bad_mask = create_bool_2d_vector(5, 5);
    let res = get_sorted_image(&img, Some(&bad_mask), &plan, 0, &SortMethod::Brightness);
    assert!(matches!(res, Err(SortError::DimensionMismatch)));

    let bad_plan = IntervalType::HorizontalRow(vec![vec![0, 9]]);
    let res = get_sorted_image(&img, None, &bad_plan, 0, &SortMethod::Brightness);
    assert!(matches!(res, Err(SortError::InvalidPlan)));

    let bad_dplan = IntervalType::DynamicLine(vec![vec![(0, 0), (4, 4)]]);
    let res = get_sorted_image(&img, None, &bad_dplan, 0, &SortMethod::Brightness);
    assert!(matches!(res, Err(SortError::InvalidPlan)));
}

#[test]
fn dispatcher_renders_valid_plans() {
    let img = raster(2, 1, vec![gray(2), gray(1)]);
    let plan = IntervalType::HorizontalRow(vec![vec![0, 2]]);
    let res = get_sorted_image(&img, None, &plan, 0, &SortMethod::Brightness).unwrap();
    assert_eq!(pixels_of(&res), vec![gray(1), gray(2)]);
}

#[test]
fn sort_image_sorts_in_place() {
    let mut img = raster(3, 1, vec![gray(2), gray(0), gray(1)]);
    let plan = vec![vec![0u32, 3]];
    sort_image(&mut img, None, &plan, 0, &SortMethod::Brightness);
    assert_eq!(pixels_of(&img), vec![gray(0), gray(1), gray(2)]);
}

#[test]
fn create_bool_2d_vector_is_all_true() {
    let v = create_bool_2d_vector(3, 2);
    assert_eq!(v, vec![vec![true, true, true], vec![true, true, true]]);
}

#[test]
fn raster_construction_checks_dimensions() {
    assert!(matches!(
        Raster::from_pixels(2, 2, vec![gray(0); 3]),
        Err(SortError::BadDimensions)
    ));
    let r = Raster::new_filled(2, 2, gray(7)).unwrap();
    assert_eq!(r.width(), 2);
    assert_eq!(r.height(), 2);
    assert_eq!(pixels_of(&r), vec![gray(7); 4]);
    let mut r = r;
    r.put_pixel(1, 0, gray(9));
    assert_eq!(r.get_pixel(1, 0), gray(9));
    assert_eq!(r.get_pixel(0, 1), gray(7));
    let d = r.duplicate();
    assert_eq!(pixels_of(&d), pixels_of(&r));
}

#[test]
fn randomness_between_extremes_keeps_dimensions_and_content() {
    // a middling rate makes per-interval choices; whatever they are, the
    // output is a permutation of each row under the entire-row plan
    let input = vec![gray(4), gray(2), gray(9), gray(1)];
    let img = raster(4, 1, input.clone());
    let plan = entire_row(&img);
    let out = get_sorted_image_raw(&img, None, &plan, 50, &SortMethod::Brightness);
    let mut got = pixels_of(&out);
    let mut want = input;
    got.sort_by_key(|p| p.r);
    want.sort_by_key(|p| p.r);
    assert_eq!(got, want);
}

#[test]
fn one_pixel_raster_round_trips() {
    let img = raster(1, 1, vec![px(1, 2, 3)]);
    let plan = entire_row(&img);
    let out = get_sorted_image_raw(&img, None, &plan, 0, &SortMethod::Hue);
    assert_eq!(pixels_of(&out), vec![px(1, 2, 3)]);
}

#[test]
fn zero_width_raster_renders_empty() {
    let img = raster(0, 3, vec![]);
    let plan = entire_row(&img);
    let out = get_sorted_image_raw(&img, None, &plan, 0, &SortMethod::Brightness);
    assert_eq!(pixels_of(&out), Vec::<Pixel>::new());
    assert_eq!(out.width(), 0);
    assert_eq!(out.height(), 3);
}
