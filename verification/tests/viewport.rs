use fractal_renderer::args::{ColorScheme, ScanConfig};
use fractal_renderer::fixed::{Fixed, ONE};
use fractal_renderer::renderer::Renderer;

fn fx(value: f64) -> Fixed {
    Fixed::from_raw((value * ONE as f64) as i64)
}

fn raw_center(renderer: &Renderer) -> (i64, i64) {
    let (x, y) = renderer.center();
    (x.to_raw(), y.to_raw())
}

/// The distance of a pan, computed on its own: three tenths of the product
/// of the amount and the scale, each division rounded toward zero.
fn pan_distance(amount: i64, scale: i64) -> i64 {
    let product = (amount as i128 * scale as i128) / (ONE as i128);
    (product * 3 / 10) as i64
}

#[test]
fn a_new_renderer_shows_the_full_view() {
    let renderer = Renderer::new();
    assert_eq!(renderer.width(), 800);
    assert_eq!(renderer.height(), 600);
    assert_eq!(raw_center(&renderer), (-ONE / 2, 0));
    assert_eq!(renderer.scale().to_raw(), 5 * (ONE / 2));
    assert_eq!(renderer.max_iterations(), 200);
    assert_eq!(renderer.color_scheme(), ColorScheme::Smooth);
    assert_eq!(renderer.scan_level(), 0);
    assert_eq!(renderer.scan_config(), ScanConfig { enabled: true, initial_stride: 8 });
    assert!(renderer.is_scanning());
}

#[test]
fn corners_follow_centre_and_scale() {
    let mut renderer = Renderer::new();
    let (first, opposite) = renderer.corners();
    // The region of extent 2.5 around -0.5: from -1.75 - 1.25i to 0.75 + 1.25i.
    assert_eq!((first.re, first.im), (fx(-1.75), fx(-1.25)));
    assert_eq!((opposite.re, opposite.im), (fx(0.75), fx(1.25)));
    assert!(renderer.pan(fx(1.0), fx(0.0)));
    assert!(renderer.zoom(fx(0.5)));
    let (first, opposite) = renderer.corners();
    assert_eq!((first.re, first.im), (fx(0.25 - 0.625), fx(-0.625)));
    assert_eq!((opposite.re, opposite.im), (fx(0.25 + 0.625), fx(0.625)));
}

#[test]
fn pan_moves_by_a_fraction_of_the_extent() {
    let mut renderer = Renderer::new();
    // One unit at scale 2.5 and speed 0.3: 0.75.
    assert!(renderer.pan(fx(1.0), fx(0.0)));
    assert_eq!(raw_center(&renderer), (ONE / 4, 0));
    assert!(renderer.pan(fx(0.0), fx(-2.0)));
    assert_eq!(raw_center(&renderer), (ONE / 4, -3 * (ONE / 2)));
    // Half the scale, half the distance.
    assert!(renderer.zoom(fx(0.5)));
    assert!(renderer.pan(fx(-1.0), fx(0.0)));
    assert_eq!(raw_center(&renderer), (ONE / 4 - 3 * (ONE / 8), -3 * (ONE / 2)));
}

#[test]
fn pan_rounds_toward_zero() {
    let mut renderer = Renderer::new();
    let scale = renderer.scale().to_raw();
    let step = fx(0.05);
    assert!(renderer.pan(step, Fixed::from_raw(-step.to_raw())));
    let distance = pan_distance(step.to_raw(), scale);
    assert_eq!(distance, 2702159776422297);
    assert_eq!(step.to_raw(), 3602879701896397);
    assert_eq!(raw_center(&renderer), (-ONE / 2 + distance, -distance));
}

#[test]
fn pan_and_the_opposite_pan_restore_the_centre() {
    let amounts = [(0.05, 0.0), (0.0, -0.05), (1.0, 1.0), (0.333, -0.777), (-3.1, 2.9), (1e-15, 1e-16)];
    for scale_factor in [1.0, 0.9, 0.37, 0.001, 3.9] {
        let mut renderer = Renderer::new();
        assert!(renderer.zoom(fx(scale_factor)));
        for (dx, dy) in amounts {
            let before = raw_center(&renderer);
            let (dx, dy) = (fx(dx), fx(dy));
            assert!(renderer.pan(dx, dy));
            assert!(renderer.pan(Fixed::from_raw(-dx.to_raw()), Fixed::from_raw(-dy.to_raw())));
            assert_eq!(raw_center(&renderer), before);
        }
    }
}

#[test]
fn pans_commute() {
    let (a, b) = ((fx(0.3), fx(-0.7)), (fx(-1.1), fx(0.45)));
    let mut first = Renderer::new();
    assert!(first.pan(a.0, a.1));
    assert!(first.pan(b.0, b.1));
    let mut second = Renderer::new();
    assert!(second.pan(b.0, b.1));
    assert!(second.pan(a.0, a.1));
    assert_eq!(raw_center(&first), raw_center(&second));
}

#[test]
fn pan_beyond_the_limit_is_rejected() {
    let mut renderer = Renderer::new();
    // 100 units at scale 2.5 and speed 0.3 are 75, beyond the limit of 64.
    assert!(!renderer.pan(fx(100.0), fx(0.0)));
    assert_eq!(raw_center(&renderer), (-ONE / 2, 0));
    assert!(!renderer.pan(fx(0.0), fx(-100.0)));
    assert_eq!(raw_center(&renderer), (-ONE / 2, 0));
    // A pan is applied in both directions or in none.
    assert!(!renderer.pan(fx(1.0), fx(100.0)));
    assert_eq!(raw_center(&renderer), (-ONE / 2, 0));
    // 86 units are 64.5 and end at exactly 64.
    assert!(renderer.pan(fx(86.0), fx(0.0)));
    assert_eq!(raw_center(&renderer), (64 * ONE, 0));
    // At the limit, the smallest amount that moves at all is rejected.
    assert!(!renderer.pan(Fixed::from_raw(2), fx(0.0)));
    assert!(renderer.pan(Fixed::from_raw(1), fx(0.0)));
    assert_eq!(raw_center(&renderer), (64 * ONE, 0));
    assert!(renderer.pan(Fixed::from_raw(-2), fx(0.0)));
    assert_eq!(raw_center(&renderer), (64 * ONE - 1, 0));
}

#[test]
fn zoom_scales_around_the_centre() {
    let mut renderer = Renderer::new();
    assert!(renderer.zoom(fx(0.5)));
    assert_eq!(renderer.scale().to_raw(), 5 * (ONE / 4));
    assert_eq!(raw_center(&renderer), (-ONE / 2, 0));
    assert!(renderer.zoom(fx(4.0)));
    assert_eq!(renderer.scale().to_raw(), 5 * ONE);
    assert!(renderer.zoom(fx(2.0)));
    assert_eq!(renderer.scale().to_raw(), 10 * ONE);
    assert_eq!(raw_center(&renderer), (-ONE / 2, 0));
}

#[test]
fn zoom_rounds_toward_zero() {
    let mut renderer = Renderer::new();
    // 2.5 times an odd factor ends in one half, which is dropped.
    assert!(renderer.zoom(Fixed::from_raw(64851834634135143)));
    assert_eq!(renderer.scale().to_raw(), 162129586585337857);
    let mut renderer = Renderer::new();
    assert_eq!(fx(0.9).to_raw(), 64851834634135144);
    assert!(renderer.zoom(fx(0.9)));
    assert_eq!(renderer.scale().to_raw(), 162129586585337860);
}

#[test]
fn zoom_beyond_the_largest_scale_is_rejected() {
    let mut renderer = Renderer::new();
    assert!(!renderer.zoom(fx(4.5)));
    assert_eq!(renderer.scale().to_raw(), 5 * (ONE / 2));
    assert!(renderer.zoom(fx(4.0)));
    assert_eq!(renderer.scale().to_raw(), 10 * ONE);
    assert!(!renderer.zoom(Fixed::from_raw(ONE + 8)));
    assert!(renderer.zoom(fx(1.0)));
    assert_eq!(renderer.scale().to_raw(), 10 * ONE);
}

#[test]
fn zoom_that_would_collapse_or_invert_the_region_is_rejected() {
    let mut renderer = Renderer::new();
    assert!(!renderer.zoom(fx(0.0)));
    assert!(!renderer.zoom(fx(-1.0)));
    assert!(!renderer.zoom(fx(-0.5)));
    assert!(!renderer.zoom(Fixed::from_raw(i64::MIN)));
    assert!(!renderer.zoom(Fixed::from_raw(i64::MAX)));
    assert_eq!(renderer.scale().to_raw(), 5 * (ONE / 2));
    // Down to the smallest scale, and not below it.
    while renderer.scale().to_raw() > 1 {
        assert!(renderer.zoom(fx(0.5)));
    }
    assert_eq!(renderer.scale().to_raw(), 1);
    assert!(!renderer.zoom(fx(0.5)));
    assert_eq!(renderer.scale().to_raw(), 1);
    assert!(renderer.zoom(fx(2.0)));
    assert_eq!(renderer.scale().to_raw(), 2);
}

#[test]
fn zoom_in_and_out_by_the_reciprocal_restores_the_scale_within_tolerance() {
    for start in [1.0, 0.5, 0.123, 3.99, 0.000001] {
        for factor in [0.9, 0.5, 0.75, 0.1, 0.999, 0.3333] {
            let mut renderer = Renderer::new();
            assert!(renderer.zoom(fx(start)));
            let before = renderer.scale().to_raw();
            let center = raw_center(&renderer);
            let corners = renderer.corners();
            let factor = fx(factor);
            let back = factor.reciprocal().expect("the factor has a reciprocal");
            assert!(renderer.zoom(factor));
            let between = renderer.scale().to_raw();
            assert!(renderer.zoom(back));
            let after = renderer.scale().to_raw();
            let tolerance = between / ONE + ONE / factor.to_raw() + 2;
            assert!(after <= before);
            assert!(before - after <= tolerance);
            assert!(tolerance <= 16);
            assert_eq!(raw_center(&renderer), center);
            let restored = renderer.corners();
            for (now, then) in [
                (restored.0.re, corners.0.re),
                (restored.0.im, corners.0.im),
                (restored.1.re, corners.1.re),
                (restored.1.im, corners.1.im),
            ] {
                assert!((now.to_raw() - then.to_raw()).abs() <= tolerance);
            }
        }
    }
}

#[test]
fn zoom_out_and_in_is_not_restored_where_the_largest_scale_intervenes() {
    let mut renderer = Renderer::new();
    let out = fx(8.0);
    assert!(!renderer.zoom(out));
    assert!(renderer.zoom(out.reciprocal().expect("an eighth")));
    assert_eq!(renderer.scale().to_raw(), 5 * (ONE / 16));
}
