use pixel_sort::interval::{
    entire_row, extend_dynamic_line_interval_to_width, extend_dynamic_line_interval_to_width_2,
    get_interval, random, sin_wave, threshold, Interval, IntervalType,
};
use pixel_sort::raster::{Pixel, Raster, SortError};

fn px(r: u8, g: u8, b: u8) -> Pixel {
    Pixel { r, g, b }
}

fn raster(width: u32, height: u32, pixels: Vec<Pixel>) -> Raster {
    Raster::from_pixels(width, height, pixels).unwrap()
}

fn gray(v: u8) -> Pixel {
    px(v, v, v)
}

#[test]
fn entire_row_covers_each_row_once() {
    let img = raster(3, 2, vec![gray(0); 6]);
    let plan = entire_row(&img);
    assert_eq!(plan, vec![vec![0, 3], vec![0, 3]]);
}

#[test]
fn random_rows_are_increasing_and_end_at_width() {
    let img = raster(100, 4, vec![gray(0); 400]);
    let plan = random(&img, &5);
    assert_eq!(plan.len(), 4);
    for row in &plan {
        assert!(!row.is_empty());
        assert_eq!(*row.last().unwrap(), 100);
        let mut prev = 0u32;
        for &c in row {
            assert!(c > prev);
            // each advance came from one draw of at most the length parameter,
            // except the closing cut at the row's width
            assert!(c - prev <= 5 || c == 100);
            prev = c;
        }
    }
}

#[test]
fn random_clamps_short_lengths() {
    // a zero multiplier behaves as length two: gaps of at most two
    let img = raster(30, 1, vec![gray(0); 30]);
    let plan = random(&img, &0);
    let row = &plan[0];
    let mut prev = 0u32;
    for &c in row {
        assert!(c - prev <= 2 || c == 30);
        prev = c;
    }
}

#[test]
fn threshold_with_full_open_band_cuts_nothing_on_extremes() {
    // black and white pixels sit on the band's closed edges, never strictly
    // inside the open band (0, 1)
    let img = raster(2, 2, vec![gray(0), gray(255), gray(255), gray(0)]);
    let plan = threshold(&img, &0, &1000, &false);
    assert_eq!(plan, vec![Vec::<u32>::new(), Vec::<u32>::new()]);
}

#[test]
fn threshold_exclusive_cuts_midrange_pixels() {
    let img = raster(3, 1, vec![gray(100), gray(100), gray(100)]);
    // level 200/510 lies strictly inside (0, 1): every column is a boundary
    let plan = threshold(&img, &0, &1000, &false);
    assert_eq!(plan, vec![vec![0, 1, 2, 3]]);
}

#[test]
fn threshold_inclusive_cuts_outside_the_band() {
    let img = raster(3, 1, vec![gray(100), gray(200), gray(100)]);
    // levels 200/510 and 400/510; band [0.5, 1.0] keeps only the bright pixel
    let plan = threshold(&img, &500, &1000, &true);
    assert_eq!(plan, vec![vec![0, 2, 3]]);
}

#[test]
fn threshold_mixed_rows_keep_empty_rows_empty() {
    let img = raster(1, 2, vec![gray(0), gray(100)]);
    let plan = threshold(&img, &0, &1000, &false);
    assert_eq!(plan, vec![vec![], vec![0, 1]]);
}

#[test]
fn extend_shifts_waypoints_both_ways() {
    let line = vec![(2u32, 0u32), (0, 1)];
    let plan = extend_dynamic_line_interval_to_width(&4, &2, &line);
    assert_eq!(plan.len(), 4);
    // offset 0: both shifts of each waypoint coincide with the waypoint
    // itself and stay inside [0, 4)
    assert_eq!(plan[0], vec![(2, 0), (2, 0), (0, 1), (0, 1)]);
    // offset 1: (3,0) and (1,1) from the right, (1,0) from the left; the
    // left shift of (0,1) falls off the raster
    assert_eq!(plan[1], vec![(3, 0), (1, 0), (1, 1)]);
    // offset 2: the right shift of (2,0) leaves the raster, its left shift
    // lands exactly on column 0 and is kept
    assert_eq!(plan[2], vec![(0, 0), (2, 1)]);
    // offset 3: only the right shift of (0,1) survives
    assert_eq!(plan[3], vec![(3, 1)]);
}

#[test]
fn extend_2_sweeps_a_sloped_line() {
    let line = vec![(0u32, 0u32), (3, 3)];
    let plan = extend_dynamic_line_interval_to_width_2(&4, &4, &line);
    assert_eq!(plan.len(), 4);
    assert_eq!(plan[0], vec![(0, 3), (0, 3)]);
    assert_eq!(plan[1], vec![(0, 2), (1, 3)]);
    assert_eq!(plan[2], vec![(0, 1), (2, 3)]);
    assert_eq!(plan[3], vec![(0, 0), (3, 3)]);
}

#[test]
fn extend_2_of_empty_line_is_empty() {
    let plan = extend_dynamic_line_interval_to_width_2(&4, &4, &Vec::new());
    assert!(plan.is_empty());
}

#[test]
fn sin_wave_samples_the_quarter_turn_amplitudes() {
    // height 9 sampled every 2 rows gives amplitudes 0, 71, 100, 71, 0; only
    // the zero-amplitude waypoints survive in a one-column raster, each once
    // per shift direction
    let img = raster(1, 9, vec![gray(0); 9]);
    let plan = sin_wave(&img, &2);
    assert_eq!(plan.len(), 1);
    assert_eq!(plan[0], vec![(0, 0), (0, 0), (0, 8), (0, 8)]);
}

#[test]
fn sin_wave_shifts_the_wave_across_the_width() {
    let img = raster(200, 3, vec![gray(0); 600]);
    let plan = sin_wave(&img, &1);
    assert_eq!(plan.len(), 200);
    // waypoints are (0,0), (71,1), (100,2); at offset 50 both shifts stay in
    // range for the latter two
    assert_eq!(
        plan[50],
        vec![(50, 0), (121, 1), (21, 1), (150, 2), (50, 2)]
    );
}

#[test]
fn get_interval_dispatches_entire_row() {
    let img = raster(2, 2, vec![gray(0); 4]);
    let plan = get_interval(&Interval::EntireRow, &img, &50, &200, &800, &0, &false, &Vec::new());
    match plan {
        Ok(IntervalType::HorizontalRow(rows)) => assert_eq!(rows, vec![vec![0, 2], vec![0, 2]]),
        _ => panic!("expected a horizontal plan"),
    }
}

#[test]
fn get_interval_rejects_thresholds_out_of_range() {
    let img = raster(2, 2, vec![gray(0); 4]);
    let plan = get_interval(&Interval::Threshold, &img, &50, &2000, &800, &0, &false, &Vec::new());
    assert!(matches!(plan, Err(SortError::ThresholdOutOfRange)));
}

#[test]
fn get_interval_angle_above_ninety_is_empty() {
    let img = raster(2, 2, vec![gray(0); 4]);
    let plan = get_interval(
        &Interval::Angle,
        &img,
        &50,
        &200,
        &800,
        &120,
        &false,
        &vec![(0, 0), (1, 1)],
    );
    match plan {
        Ok(IntervalType::DynamicLine(paths)) => assert!(paths.is_empty()),
        _ => panic!("expected an empty diagonal plan"),
    }
}

#[test]
fn get_interval_rejects_segments_outside_the_raster() {
    let img = raster(2, 2, vec![gray(0); 4]);
    let plan = get_interval(
        &Interval::Angle,
        &img,
        &50,
        &200,
        &800,
        &45,
        &false,
        &vec![(0, 0), (5, 7)],
    );
    assert!(matches!(plan, Err(SortError::InvalidPlan)));
}

#[test]
fn get_interval_angle_sweeps_the_segment() {
    let img = raster(4, 4, vec![gray(0); 16]);
    let line = vec![(0u32, 0u32), (3, 3)];
    let plan = get_interval(&Interval::Angle, &img, &50, &200, &800, &45, &false, &line);
    match plan {
        Ok(IntervalType::DynamicLine(paths)) => {
            assert_eq!(paths, extend_dynamic_line_interval_to_width_2(&4, &4, &line));
        },
        _ => panic!("expected a diagonal plan"),
    }
}

#[test]
fn sin_wave_clamps_short_lengths() {
    let img = raster(1, 9, vec![gray(0); 9]);
    // a zero length behaves as length two
    assert_eq!(sin_wave(&img, &0), sin_wave(&img, &2));
}

#[test]
fn get_interval_dispatches_random_and_zigzag() {
    let img = raster(8, 2, vec![gray(0); 16]);
    match get_interval(&Interval::Random, &img, &3, &0, &1000, &0, &false, &Vec::new()) {
        Ok(IntervalType::HorizontalRow(rows)) => {
            assert_eq!(rows.len(), 2);
            for row in &rows {
                assert_eq!(*row.last().unwrap(), 8);
            }
        }
        _ => panic!("expected a horizontal plan"),
    }
    match get_interval(&Interval::AbsSinWave, &img, &1, &0, &1000, &0, &false, &Vec::new()) {
        Ok(IntervalType::DynamicLine(paths)) => {
            assert_eq!(paths, sin_wave(&img, &1));
        }
        _ => panic!("expected a diagonal plan"),
    }
}
