use fractal_renderer::args::{Args, ColorScheme};
use fractal_renderer::fixed::{Fixed, ONE};
use fractal_renderer::fractals::{color_map, mandelbrot, ColorMode};
use fractal_renderer::renderer::{color_mode, Renderer};

fn fx(value: f64) -> Fixed {
    Fixed::from_raw((value * ONE as f64) as i64)
}

fn renderer(width: u32, height: u32, cap: u32, scheme: ColorScheme, stride: Option<u32>) -> Renderer {
    let mut renderer = Renderer::new();
    let args = Args::default()
        .with_size(width, height)
        .with_max_iterations(cap)
        .with_scan_config(stride.is_some(), stride.unwrap_or(8));
    renderer.apply_args(&args);
    renderer.change_color_scheme(scheme);
    renderer
}

/// The coordinate of a sample, computed on its own.
fn coordinate(center: i64, scale: i64, index: u32, size: u32) -> Fixed {
    let offset = (2 * index as i128 - size as i128) * scale as i128 / (2 * size as i128);
    Fixed::from_raw((center as i128 + offset) as i64)
}

/// The frame of a pass, computed pixel by pixel without any sharing.
fn expected_frame(renderer: &Renderer, stride: u32) -> Vec<u8> {
    let (width, height) = (renderer.width(), renderer.height());
    let (cx, cy) = renderer.center();
    let scale = renderer.scale().to_raw();
    let mode = color_mode(renderer.color_scheme());
    let mut frame = Vec::new();
    for y in 0..height {
        for x in 0..width {
            let re = coordinate(cx.to_raw(), scale, x - x % stride, width);
            let im = coordinate(cy.to_raw(), scale, y - y % stride, height);
            let n = mandelbrot(re, im, renderer.max_iterations());
            let rgb = color_map(n, renderer.max_iterations(), mode);
            frame.extend_from_slice(&[rgb[0], rgb[1], rgb[2], 255]);
        }
    }
    frame
}

fn pixel(frame: &[u8], width: u32, x: u32, y: u32) -> [u8; 4] {
    let at = 4 * (y * width + x) as usize;
    [frame[at], frame[at + 1], frame[at + 2], frame[at + 3]]
}

#[test]
fn full_view_of_four_by_four_pixels() {
    let mut renderer = renderer(4, 4, 100, ColorScheme::Red, None);
    let mut frame = vec![0u8; 4 * 4 * 4];
    renderer.render(&mut frame);
    assert_eq!(frame.len(), 64);
    // The pixel at the centre samples -0.5: a point of the set.
    assert_eq!(pixel(&frame, 4, 2, 2), [0, 0, 0, 255]);
    // Its left neighbour samples -1.125, inside the disc around -1.
    assert_eq!(pixel(&frame, 4, 1, 2), [0, 0, 0, 255]);
    // The corner samples -1.75 - 1.25i, outside the disc of radius two: one
    // iteration, and 2.55 rounded down.
    assert_eq!(mandelbrot(fx(-1.75), fx(-1.25), 100), 1);
    assert_eq!(pixel(&frame, 4, 0, 0), [2, 0, 0, 255]);
    // The corners to its right and below it lie outside the set as well.
    let right = mandelbrot(fx(0.125), fx(-1.25), 100);
    let below = mandelbrot(fx(-1.75), fx(0.625), 100);
    assert!(right < 100 && below < 100);
    assert_eq!(pixel(&frame, 4, 3, 0), [color_map(right, 100, ColorMode::Red)[0], 0, 0, 255]);
    assert_eq!(pixel(&frame, 4, 0, 3), [color_map(below, 100, ColorMode::Red)[0], 0, 0, 255]);
    assert_ne!(pixel(&frame, 4, 3, 0), [0, 0, 0, 255]);
    assert_ne!(pixel(&frame, 4, 0, 3), [0, 0, 0, 255]);
    // The last pixel samples 0.125 + 0.625i, at three quarters of the
    // extent, not at its far edge.
    let last = mandelbrot(fx(0.125), fx(0.625), 100);
    assert_eq!(pixel(&frame, 4, 3, 3), [color_map(last, 100, ColorMode::Red)[0], 0, 0, 255]);
    // Every pixel is opaque.
    for k in 0..16 {
        assert_eq!(frame[4 * k + 3], 255);
    }
    assert_eq!(frame, expected_frame(&renderer, 1));
}

#[test]
fn stride_two_samples_four_points_and_fills_their_blocks() {
    let mut renderer = renderer(4, 4, 100, ColorScheme::BlackAndWhite, Some(2));
    let mut frame = vec![0u8; 64];
    renderer.render(&mut frame);
    assert_eq!(renderer.scan_level(), 1);
    let (cx, cy) = renderer.center();
    let scale = renderer.scale().to_raw();
    for (ax, ay) in [(0u32, 0u32), (2, 0), (0, 2), (2, 2)] {
        let re = coordinate(cx.to_raw(), scale, ax, 4);
        let im = coordinate(cy.to_raw(), scale, ay, 4);
        let rgb = color_map(mandelbrot(re, im, 100), 100, ColorMode::BlackAndWhite);
        for (dx, dy) in [(0, 0), (1, 0), (0, 1), (1, 1)] {
            assert_eq!(pixel(&frame, 4, ax + dx, ay + dy), [rgb[0], rgb[1], rgb[2], 255]);
        }
    }
    // The four samples are distinct points with three distinct colours.
    assert_eq!(pixel(&frame, 4, 0, 0), [2, 2, 2, 255]);
    assert_eq!(pixel(&frame, 4, 2, 2), [0, 0, 0, 255]);
    assert_ne!(pixel(&frame, 4, 2, 0), pixel(&frame, 4, 0, 0));
    // The next pass is at full resolution.
    renderer.render(&mut frame);
    assert_eq!(frame, expected_frame(&renderer, 1));
}

#[test]
fn blocks_are_clipped_at_the_edges() {
    for (width, height, stride) in [(5u32, 7u32, 2u32), (7, 5, 4), (3, 3, 8), (1, 9, 3), (9, 1, 3), (6, 6, 3), (10, 4, 5)] {
        let mut renderer = renderer(width, height, 40, ColorScheme::Electric, Some(stride));
        let mut frame = vec![0u8; (4 * width * height) as usize];
        renderer.render(&mut frame);
        assert_eq!(frame, expected_frame(&renderer, stride), "{} by {}, stride {}", width, height, stride);
    }
}

#[test]
fn every_pass_of_a_refinement_is_the_image_of_its_stride() {
    let mut renderer = renderer(13, 11, 60, ColorScheme::Psychedelic, Some(8));
    let mut frame = vec![0u8; 4 * 13 * 11];
    for stride in [8, 4, 2, 1] {
        renderer.render(&mut frame);
        assert_eq!(frame, expected_frame(&renderer, stride));
    }
}

#[test]
fn every_scheme_renders_its_own_colours() {
    let schemes = [
        ColorScheme::Smooth,
        ColorScheme::Zebra,
        ColorScheme::Red,
        ColorScheme::Blue,
        ColorScheme::BlackAndWhite,
        ColorScheme::Rainbow,
        ColorScheme::Psychedelic,
        ColorScheme::GreenGradient,
        ColorScheme::Electric,
    ];
    for scheme in schemes {
        let mut renderer = renderer(8, 6, 50, scheme, None);
        let mut frame = vec![0u8; 4 * 8 * 6];
        renderer.render(&mut frame);
        assert_eq!(frame, expected_frame(&renderer, 1));
        // The centre is a point of the set in every scheme.
        assert_eq!(pixel(&frame, 8, 4, 3), [0, 0, 0, 255]);
    }
}

#[test]
fn render_overwrites_what_the_frame_held() {
    let mut renderer = renderer(6, 5, 30, ColorScheme::Zebra, None);
    let mut clean = vec![0u8; 120];
    let mut dirty = vec![0xabu8; 120];
    renderer.render(&mut clean);
    renderer.render(&mut dirty);
    assert_eq!(clean, dirty);
}

#[test]
fn the_view_follows_pan_and_zoom() {
    let mut renderer = renderer(9, 7, 80, ColorScheme::Rainbow, None);
    let mut frame = vec![0u8; 4 * 9 * 7];
    renderer.render(&mut frame);
    let before = frame.clone();
    assert!(renderer.pan(fx(0.5), fx(-0.25)));
    assert!(renderer.zoom(fx(0.6)));
    renderer.render(&mut frame);
    assert_eq!(frame, expected_frame(&renderer, 1));
    assert_ne!(frame, before);
}

#[test]
fn counts_beyond_the_palette_are_mapped_directly() {
    let mut renderer = renderer(5, 5, 5000, ColorScheme::Red, None);
    let mut frame = vec![0u8; 100];
    renderer.render(&mut frame);
    assert_eq!(pixel(&frame, 5, 2, 2), [0, 0, 0, 255]);
    for n in [0u32, 1, 1023, 1024, 1025, 4999, 5000] {
        assert_eq!(renderer.get_color(n), color_map(n, 5000, ColorMode::Red));
    }
}

#[test]
fn get_color_agrees_with_color_map() {
    let renderer = Renderer::new();
    for n in 0..=200 {
        assert_eq!(renderer.get_color(n), color_map(n, 200, ColorMode::Smooth));
    }
}

#[test]
fn a_large_frame_is_rendered_in_parallel_bands() {
    let mut renderer = renderer(160, 120, 50, ColorScheme::BlackAndWhite, Some(4));
    let mut frame = vec![0u8; 4 * 160 * 120];
    renderer.render(&mut frame);
    assert_eq!(frame, expected_frame(&renderer, 4));
}
