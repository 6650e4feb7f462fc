use pixel_sort::math::{points_between, to_binary_mask};
use pixel_sort::raster::{Pixel, Raster};

fn px(r: u8, g: u8, b: u8) -> Pixel {
    Pixel { r, g, b }
}

fn raster(width: u32, height: u32, pixels: Vec<Pixel>) -> Raster {
    Raster::from_pixels(width, height, pixels).unwrap()
}

#[test]
fn points_between_same_point_is_empty() {
    assert_eq!(points_between(&(2, 2), &(2, 2)), Vec::<(u32, u32)>::new());
    assert_eq!(points_between(&(0, 0), &(0, 0)), Vec::<(u32, u32)>::new());
}

#[test]
fn points_between_horizontal() {
    assert_eq!(points_between(&(0, 0), &(3, 0)), vec![(0, 0), (1, 0), (2, 0)]);
    assert_eq!(points_between(&(3, 5), &(0, 5)), vec![(3, 5), (2, 5), (1, 5)]);
}

#[test]
fn points_between_vertical() {
    assert_eq!(
        points_between(&(0, 0), &(0, 4)),
        vec![(0, 0), (0, 1), (0, 2), (0, 3)]
    );
    assert_eq!(points_between(&(7, 2), &(7, 0)), vec![(7, 2), (7, 1)]);
}

#[test]
fn points_between_diagonal_staircase() {
    // ties on accumulated side distance advance the y axis first
    assert_eq!(
        points_between(&(0, 0), &(2, 2)),
        vec![(0, 0), (0, 1), (1, 1), (1, 2)]
    );
}

#[test]
fn points_between_shallow_slope() {
    assert_eq!(
        points_between(&(0, 0), &(3, 1)),
        vec![(0, 0), (1, 0), (2, 0), (2, 1)]
    );
}

#[test]
fn points_between_starts_at_origin_and_ends_near_target() {
    let cases = [
        ((0u32, 0u32), (5u32, 3u32)),
        ((4, 1), (0, 6)),
        ((9, 9), (0, 0)),
        ((1, 7), (8, 7)),
    ];
    for (a, b) in cases {
        let pts = points_between(&a, &b);
        assert_eq!(pts[0], a);
        let last = pts[pts.len() - 1];
        assert!(last.0.abs_diff(b.0) <= 1);
        assert!(last.1.abs_diff(b.1) <= 1);
        // every visited point stays inside the endpoints' bounding box
        for p in &pts {
            assert!(p.0 >= a.0.min(b.0) && p.0 <= a.0.max(b.0));
            assert!(p.1 >= a.1.min(b.1) && p.1 <= a.1.max(b.1));
        }
    }
}

#[test]
fn binarize_all_black_is_all_false() {
    let img = raster(2, 2, vec![px(0, 0, 0); 4]);
    let mask = to_binary_mask(&img);
    assert_eq!(mask.len(), 2);
    for col in &mask {
        assert_eq!(col, &vec![false, false]);
    }
}

#[test]
fn binarize_all_white_is_all_true() {
    let img = raster(2, 2, vec![px(255, 255, 255); 4]);
    let mask = to_binary_mask(&img);
    for col in &mask {
        assert_eq!(col, &vec![true, true]);
    }
}

#[test]
fn binarize_threshold_is_strict_at_384() {
    // channel sums 384 and 385 fall on either side of the cut
    let img = raster(2, 1, vec![px(128, 128, 128), px(128, 128, 129)]);
    let mask = to_binary_mask(&img);
    assert_eq!(mask[0][0], false);
    assert_eq!(mask[1][0], true);
}

#[test]
fn binarize_is_indexed_column_then_row() {
    let img = raster(
        2,
        1,
        vec![px(0, 0, 0), px(255, 255, 255)],
    );
    let mask = to_binary_mask(&img);
    assert_eq!(mask.len(), 2);
    assert_eq!(mask[0].len(), 1);
    assert_eq!(mask[0][0], false);
    assert_eq!(mask[1][0], true);
}
