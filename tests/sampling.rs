use raytracer::sampling::{anti_aliasing_offsets, pixel_offset, round_ratio};

#[test]
fn round_ratio_rounds_to_nearest() {
    assert_eq!(round_ratio(100, 3), 33);
    assert_eq!(round_ratio(200, 3), 67);
    assert_eq!(round_ratio(0, 5), 0);
    assert_eq!(round_ratio(7, 1), 7);
}

#[test]
fn round_ratio_rounds_half_up() {
    assert_eq!(round_ratio(100, 8), 13);
    assert_eq!(round_ratio(5, 2), 3);
    assert_eq!(round_ratio(1, 2), 1);
}

#[test]
fn round_ratio_at_the_limits() {
    assert_eq!(round_ratio(u64::MAX, u64::MAX), 1);
    assert_eq!(round_ratio(u64::MAX, 2), 1u64 << 63);
    assert_eq!(round_ratio(u64::MAX, 1), u64::MAX);
    assert_eq!(round_ratio(u64::MAX / 2, u64::MAX), 0);
    assert_eq!(round_ratio(u64::MAX / 2 + 1, u64::MAX), 1);
}

#[test]
fn single_sample_sits_at_pixel_centre() {
    assert_eq!(anti_aliasing_offsets(1), vec![(50, -50)]);
}

#[test]
fn two_by_two_grid_row_by_row() {
    assert_eq!(
        anti_aliasing_offsets(2),
        vec![(33, -33), (67, -33), (33, -67), (67, -67)]
    );
}

#[test]
fn three_by_three_grid() {
    let r = anti_aliasing_offsets(3);
    assert_eq!(r.len(), 9);
    assert_eq!(r[0], (25, -25));
    assert_eq!(r[4], (50, -50));
    assert_eq!(r[5], (75, -50));
    assert_eq!(r[8], (75, -75));
}

#[test]
fn grid_ties_round_up() {
    let r = anti_aliasing_offsets(7);
    assert_eq!(r.len(), 49);
    assert_eq!(r[0], (13, -13));
    assert_eq!(r[48], (88, -88));
}

#[test]
fn grid_matches_float_rounding_to_two_digits() {
    for n in 1u32..=12 {
        let r = anti_aliasing_offsets(n);
        assert_eq!(r.len(), (n * n) as usize);
        let mut k = 0usize;
        for i in 1..=n {
            for j in 1..=n {
                let dx = (100.0f32 * (j as f32 / (n + 1) as f32)).round() as i32;
                let dy = (100.0f32 * (-(i as f32) / (n + 1) as f32)).round() as i32;
                assert_eq!(r[k], (dx, dy));
                k += 1;
            }
        }
    }
}

#[test]
fn grid_offsets_stay_inside_pixel() {
    for n in [1u32, 2, 5, 50, 199, 250] {
        for (dx, dy) in anti_aliasing_offsets(n) {
            assert!((0..=100).contains(&dx));
            assert!((-100..=0).contains(&dy));
        }
    }
}

#[test]
fn pixel_offset_from_centre() {
    assert_eq!(pixel_offset(600, 400, 0, 0), (-300, 200));
    assert_eq!(pixel_offset(600, 400, 599, 399), (299, -199));
    assert_eq!(pixel_offset(5, 5, 2, 2), (0, 0));
    assert_eq!(pixel_offset(1, 1, 0, 0), (0, 0));
}
