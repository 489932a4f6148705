use raytracer::orbit::{orbit_frame, orbit_sweep, Turn};

fn degrees(t: Turn) -> f64 {
    360.0 * t.num as f64 / t.den as f64
}

#[test]
fn four_frame_orbit_is_ninety_degrees_apart() {
    let frames: Vec<Turn> = (0..4).map(|k| orbit_frame(k, 4)).collect();
    assert_eq!(frames[0], Turn { num: 4, den: 16 });
    assert_eq!(frames[3], Turn { num: 16, den: 16 });
    for k in 0..3 {
        assert_eq!(degrees(frames[k + 1]) - degrees(frames[k]), 90.0);
    }
    assert_eq!(degrees(frames[0]), 90.0);
    assert_eq!(degrees(frames[3]), 360.0);
}

#[test]
fn four_frame_orbit_cameras_differ() {
    let (look_x, look_z, radius) = (0.0f32, -20.0f32, 20.0f32);
    let cams: Vec<(f32, f32)> = (0..4)
        .map(|k| {
            let t = orbit_frame(k, 4);
            let a = std::f32::consts::TAU * t.num as f32 / t.den as f32;
            (a.cos() * radius + look_x, a.sin() * radius + look_z)
        })
        .collect();
    let (first, last) = (cams[0], cams[3]);
    let dist = ((first.0 - last.0).powi(2) + (first.1 - last.1).powi(2)).sqrt();
    assert!(dist > 20.0);
    for k in 0..3 {
        let d = ((cams[k].0 - cams[k + 1].0).powi(2) + (cams[k].1 - cams[k + 1].1).powi(2)).sqrt();
        assert!((d - radius * 2.0f32.sqrt()).abs() < 1e-3);
    }
}

#[test]
fn sweep_end_points() {
    assert_eq!(
        orbit_sweep(4),
        (Turn { num: 4, den: 16 }, Turn { num: 16, den: 16 })
    );
    assert_eq!(
        orbit_sweep(100),
        (Turn { num: 100, den: 400 }, Turn { num: 496, den: 400 })
    );
}

#[test]
fn single_frame_orbit() {
    let (start, end) = orbit_sweep(1);
    assert_eq!(start, end);
    assert_eq!(orbit_frame(0, 1), start);
}

#[test]
fn frames_are_evenly_spaced_points_of_sweep() {
    for n in 2u32..20 {
        let (start, end) = orbit_sweep(n);
        for k in 0..n {
            let f = orbit_frame(k, n);
            assert_eq!(f.den, start.den);
            assert_eq!(
                f.num * (n as u64 - 1),
                start.num * (n as u64 - 1) + k as u64 * (end.num - start.num)
            );
        }
    }
}

#[test]
fn no_frame_repeats_on_circle() {
    for n in 1u32..30 {
        let mut seen: Vec<u64> = Vec::new();
        for k in 0..n {
            let f = orbit_frame(k, n);
            let pos = f.num % f.den;
            assert!(!seen.contains(&pos));
            seen.push(pos);
        }
    }
}
