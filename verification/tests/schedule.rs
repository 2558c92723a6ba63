use fractal_renderer::args::{Args, ColorScheme, ScanConfig};
use fractal_renderer::fixed::{Fixed, ONE};
use fractal_renderer::renderer::Renderer;

fn fx(value: f64) -> Fixed {
    Fixed::from_raw((value * ONE as f64) as i64)
}

fn small(enabled: bool, initial_stride: u32) -> Renderer {
    let mut renderer = Renderer::new();
    let args = Args::default()
        .with_size(4, 4)
        .with_max_iterations(20)
        .with_scan_config(enabled, initial_stride);
    renderer.apply_args(&args);
    renderer
}

#[test]
fn stride_halves_with_each_level() {
    let mut renderer = small(true, 8);
    let mut frame = vec![0u8; 64];
    let mut strides = Vec::new();
    while renderer.is_scanning() {
        strides.push(renderer.current_stride());
        renderer.render(&mut frame);
    }
    assert_eq!(strides, vec![8, 4, 2, 1]);
    assert_eq!(renderer.current_stride(), 0);
}

#[test]
fn each_render_advances_one_level_until_full_resolution() {
    let mut renderer = small(true, 8);
    let mut frame = vec![0u8; 64];
    for k in 0..4 {
        assert_eq!(renderer.scan_level(), k);
        assert!(renderer.is_scanning());
        renderer.render(&mut frame);
    }
    assert_eq!(renderer.scan_level(), 4);
    assert!(!renderer.is_scanning());
}

#[test]
fn renders_after_the_last_pass_change_nothing() {
    let mut renderer = small(true, 2);
    let mut frame = vec![0u8; 64];
    renderer.render(&mut frame);
    renderer.render(&mut frame);
    assert_eq!(renderer.scan_level(), 2);
    assert!(!renderer.is_scanning());
    let mut scribbled = vec![7u8; 64];
    for _ in 0..5 {
        renderer.render(&mut scribbled);
        assert_eq!(renderer.scan_level(), 2);
        assert!(!renderer.is_scanning());
        assert_eq!(scribbled, vec![7u8; 64]);
    }
}

#[test]
fn pass_counts_of_other_initial_strides() {
    for (initial, passes) in [(0u32, 0u32), (1, 1), (2, 2), (3, 2), (5, 3), (16, 5), (u32::MAX, 32), (1 << 31, 32)] {
        let mut renderer = small(true, initial);
        let mut frame = vec![0u8; 64];
        let mut count = 0;
        while renderer.is_scanning() {
            renderer.render(&mut frame);
            count += 1;
            assert_eq!(renderer.scan_level(), count);
            assert!(count <= 32);
        }
        assert_eq!(count, passes);
        renderer.render(&mut frame);
        assert_eq!(renderer.scan_level(), passes);
    }
}

#[test]
fn every_mutation_restarts_refinement() {
    let mut renderer = small(true, 8);
    let mut frame = vec![0u8; 64];
    renderer.render(&mut frame);
    renderer.render(&mut frame);
    assert_eq!(renderer.scan_level(), 2);
    assert!(renderer.pan(fx(0.05), fx(0.0)));
    assert_eq!(renderer.scan_level(), 0);

    renderer.render(&mut frame);
    assert_eq!(renderer.scan_level(), 1);
    assert!(renderer.zoom(fx(0.9)));
    assert_eq!(renderer.scan_level(), 0);

    renderer.render(&mut frame);
    renderer.change_color_scheme(ColorScheme::Rainbow);
    assert_eq!(renderer.scan_level(), 0);
    assert_eq!(renderer.color_scheme(), ColorScheme::Rainbow);

    renderer.render(&mut frame);
    renderer.apply_args(&Args::default().with_size(4, 4).with_max_iterations(30));
    assert_eq!(renderer.scan_level(), 0);
    assert_eq!(renderer.max_iterations(), 30);
}

#[test]
fn a_rejected_mutation_restarts_nothing() {
    let mut renderer = small(true, 8);
    let mut frame = vec![0u8; 64];
    renderer.render(&mut frame);
    renderer.render(&mut frame);
    assert!(!renderer.zoom(fx(100.0)));
    assert_eq!(renderer.scan_level(), 2);
    assert!(!renderer.pan(fx(120.0), fx(0.0)));
    assert_eq!(renderer.scan_level(), 2);
}

#[test]
fn mutations_restart_refinement_after_it_has_finished() {
    let mut renderer = small(true, 1);
    let mut frame = vec![0u8; 64];
    renderer.render(&mut frame);
    assert!(!renderer.is_scanning());
    assert!(renderer.zoom(fx(1.1)));
    assert!(renderer.is_scanning());
    assert_eq!(renderer.scan_level(), 0);
}

#[test]
fn without_refinement_nothing_is_ever_owed() {
    let mut renderer = small(false, 8);
    assert!(!renderer.is_scanning());
    let mut frame = vec![0u8; 64];
    let mut again = vec![0u8; 64];
    renderer.render(&mut frame);
    assert_eq!(renderer.scan_level(), 0);
    assert!(!renderer.is_scanning());
    renderer.render(&mut again);
    assert_eq!(renderer.scan_level(), 0);
    assert_eq!(frame, again);
}

#[test]
fn apply_args_takes_over_size_cap_and_refinement() {
    let mut renderer = Renderer::new();
    let args = Args::default().with_size(800, 600).with_max_iterations(200);
    assert!(!renderer.apply_args(&args));
    assert_eq!(renderer.width(), 800);
    assert_eq!(renderer.height(), 600);
    let args = args.with_size(320, 200).with_max_iterations(50).with_scan_config(false, 4);
    assert!(renderer.apply_args(&args));
    assert_eq!(renderer.width(), 320);
    assert_eq!(renderer.height(), 200);
    assert_eq!(renderer.max_iterations(), 50);
    assert_eq!(renderer.scan_config(), ScanConfig { enabled: false, initial_stride: 4 });
    // The scheme and the region stay those of the renderer.
    assert_eq!(renderer.color_scheme(), ColorScheme::Smooth);
    assert_eq!(renderer.scale().to_raw(), 5 * (ONE / 2));
    assert!(renderer.apply_args(&args.with_size(320, 201)));
    assert!(!renderer.apply_args(&args.with_size(320, 201)));
}

#[test]
fn resize_gives_the_target_another_size() {
    let mut renderer = small(true, 8);
    let mut frame = vec![0u8; 64];
    renderer.render(&mut frame);
    assert_eq!(renderer.scan_level(), 1);
    assert!(renderer.resize(6, 3));
    assert_eq!((renderer.width(), renderer.height()), (6, 3));
    assert_eq!(renderer.scan_level(), 0);
    let mut frame = vec![0u8; 72];
    renderer.render(&mut frame);
    assert_eq!(renderer.scan_level(), 1);
    assert_eq!(frame[3], 255);
    assert_eq!(frame[71], 255);
}

#[test]
fn resize_rejects_a_size_without_pixels() {
    let mut renderer = small(true, 8);
    let mut frame = vec![0u8; 64];
    renderer.render(&mut frame);
    for (width, height) in [(0u32, 5u32), (5, 0), (0, 0)] {
        assert!(!renderer.resize(width, height));
        assert_eq!((renderer.width(), renderer.height()), (4, 4));
        assert_eq!(renderer.scan_level(), 1);
    }
}
