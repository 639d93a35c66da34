use pixel_renderer::{
    draw_line, fill_triangle, fill_with, outline_triangle, render_model, render_triangle, set_pixel,
    triangle_line_sweep, Color, FillStrategy, ScreenPosition, ShadedTriangle,
};

fn p(x: u32, y: u32) -> ScreenPosition {
    ScreenPosition { x, y }
}

/// The coordinates of the pixels of a buffer that are not zero.
fn lit(buffer: &[u32], width: u32) -> Vec<(u32, u32)> {
    let mut out = Vec::new();
    for (i, v) in buffer.iter().enumerate() {
        if *v != 0 {
            out.push((i as u32 % width, i as u32 / width));
        }
    }
    out
}

fn sorted(mut v: Vec<(u32, u32)>) -> Vec<(u32, u32)> {
    v.sort();
    v
}

#[test]
fn packed_colors() {
    assert_eq!(Color::red().as_u32(), 0x00ff_0000);
    assert_eq!(Color::green().as_u32(), 0x0000_ff00);
    assert_eq!(Color::white().as_u32(), 0x00ff_ffff);
    assert_eq!(Color::from_u8_rgb(1, 2, 3).as_u32(), 0x0001_0203);
    assert_eq!(Color::from_u8_rgb(0, 0, 0).as_u32(), 0);
}

#[test]
fn set_pixel_in_bounds() {
    let mut buffer = vec![0u32; 12];
    set_pixel(4, &mut buffer, 3, 1, Color::red());
    assert_eq!(buffer[7], 0x00ff_0000);
    assert_eq!(lit(&buffer, 4), vec![(3, 1)]);
}

#[test]
fn set_pixel_out_of_bounds_is_skipped() {
    let mut buffer = vec![0u32; 12];
    // Below the last row.
    set_pixel(4, &mut buffer, 0, 3, Color::red());
    // Past the end of a row: it does not wrap into the next row.
    set_pixel(4, &mut buffer, 4, 0, Color::red());
    set_pixel(4, &mut buffer, u32::MAX, u32::MAX, Color::red());
    set_pixel(0, &mut buffer, 0, 0, Color::red());
    assert!(buffer.iter().all(|v| *v == 0));
}

#[test]
fn horizontal_line_misses_last_pixel() {
    let mut buffer = vec![0u32; 25];
    draw_line(&mut buffer, 5, &p(0, 2), &p(4, 2), Color::white());
    assert_eq!(lit(&buffer, 5), vec![(0, 2), (1, 2), (2, 2), (3, 2)]);
}

#[test]
fn steep_line_is_swept_along_y() {
    let mut buffer = vec![0u32; 36];
    draw_line(&mut buffer, 6, &p(1, 0), &p(3, 4), Color::white());
    // x = 1 + 2 * y / 4, rounded down, for y in 0..4
    assert_eq!(sorted(lit(&buffer, 6)), vec![(1, 0), (1, 1), (2, 2), (2, 3)]);
}

#[test]
fn sloped_line_interpolates() {
    let mut buffer = vec![0u32; 100];
    draw_line(&mut buffer, 10, &p(8, 1), &p(0, 5), Color::green());
    // Swept from x = 0 up to 8, y = (5 * (8 - x) + 1 * x) / 8 rounded down.
    assert_eq!(
        sorted(lit(&buffer, 10)),
        vec![(0, 5), (1, 4), (2, 4), (3, 3), (4, 3), (5, 2), (6, 2), (7, 1)]
    );
    assert_eq!(buffer[5 * 10], 0x0000_ff00);
}

#[test]
fn line_is_symmetric_under_endpoint_swap() {
    let ends = [(p(1, 1), p(7, 4)), (p(2, 9), p(5, 0)), (p(0, 3), p(9, 3)), (p(4, 0), p(4, 8))];
    for (a, b) in ends.iter() {
        let mut forward = vec![0u32; 100];
        let mut backward = vec![0u32; 100];
        draw_line(&mut forward, 10, a, b, Color::white());
        draw_line(&mut backward, 10, b, a, Color::white());
        assert_eq!(forward, backward);
        assert!(!lit(&forward, 10).is_empty());
    }
}

#[test]
fn degenerate_line_draws_nothing() {
    let mut buffer = vec![0u32; 100];
    draw_line(&mut buffer, 10, &p(3, 3), &p(3, 3), Color::white());
    assert!(buffer.iter().all(|v| *v == 0));
}

#[test]
fn line_off_the_buffer_is_clipped() {
    let mut buffer = vec![0u32; 16];
    draw_line(&mut buffer, 4, &p(2, 1), &p(7, 1), Color::white());
    assert_eq!(lit(&buffer, 4), vec![(2, 1), (3, 1)]);
}

#[test]
fn fill_right_triangle() {
    let mut buffer = vec![0u32; 25];
    fill_triangle(&mut buffer, 5, &p(0, 0), &p(4, 0), &p(0, 4), Color::red());
    assert_eq!(sorted(lit(&buffer, 5)), vec![(1, 1), (1, 2), (2, 1)]);
    assert_eq!(buffer[6], 0x00ff_0000);
}

#[test]
fn fill_does_not_depend_on_winding() {
    let mut one = vec![0u32; 400];
    let mut other = vec![0u32; 400];
    fill_triangle(&mut one, 20, &p(2, 3), &p(17, 6), &p(8, 18), Color::white());
    fill_triangle(&mut other, 20, &p(8, 18), &p(17, 6), &p(2, 3), Color::white());
    assert_eq!(one, other);
    assert!(lit(&one, 20).len() > 50);
}

#[test]
fn fill_collinear_triangle_draws_nothing() {
    let mut buffer = vec![0u32; 400];
    fill_triangle(&mut buffer, 20, &p(0, 0), &p(5, 5), &p(10, 10), Color::white());
    fill_triangle(&mut buffer, 20, &p(1, 7), &p(9, 7), &p(15, 7), Color::white());
    assert!(buffer.iter().all(|v| *v == 0));
}

#[test]
fn fill_stays_strictly_inside_bounding_box() {
    let mut buffer = vec![0u32; 400];
    fill_triangle(&mut buffer, 20, &p(3, 2), &p(16, 9), &p(6, 17), Color::white());
    for (x, y) in lit(&buffer, 20) {
        assert!(3 < x && x < 16 && 2 < y && y < 17);
    }
}

#[test]
fn outline_right_triangle() {
    let mut buffer = vec![0u32; 25];
    outline_triangle(&mut buffer, 5, &p(0, 0), &p(4, 0), &p(0, 4), Color::white());
    assert_eq!(
        sorted(lit(&buffer, 5)),
        vec![(0, 0), (0, 1), (0, 2), (0, 3), (0, 4), (1, 0), (1, 3), (2, 0), (2, 2), (3, 0), (3, 1)]
    );
}

#[test]
fn line_sweep_right_triangle() {
    let mut buffer = vec![0u32; 25];
    triangle_line_sweep(&mut buffer, 5, p(0, 0), p(4, 0), p(0, 4), Color::red());
    assert_eq!(
        sorted(lit(&buffer, 5)),
        vec![
            (0, 0),
            (0, 1),
            (0, 2),
            (0, 3),
            (0, 4),
            (1, 0),
            (1, 1),
            (1, 2),
            (1, 3),
            (2, 0),
            (2, 1),
            (2, 2),
            (3, 0),
            (3, 1)
        ]
    );
}

#[test]
fn line_sweep_stays_in_bounding_box() {
    let corners = [
        (p(2, 0), p(12, 10), p(3, 9)),
        (p(5, 0), p(15, 6), p(9, 14)),
        (p(3, 2), p(16, 9), p(6, 17)),
        (p(0, 0), p(2, 18), p(4, 0)),
    ];
    for (a, b, c) in corners.iter() {
        let mut buffer = vec![0u32; 400];
        triangle_line_sweep(&mut buffer, 20, *a, *b, *c, Color::white());
        let (min_x, max_x) = (a.x.min(b.x).min(c.x), a.x.max(b.x).max(c.x));
        let (min_y, max_y) = (a.y.min(b.y).min(c.y), a.y.max(b.y).max(c.y));
        let pixels = lit(&buffer, 20);
        assert!(!pixels.is_empty());
        for (x, y) in pixels {
            assert!(min_x <= x && x <= max_x && min_y <= y && y <= max_y);
        }
    }
}

#[test]
fn line_sweep_skips_row_without_edge_hit() {
    // Row 5 meets no column of the short side from (2, 0) to (3, 9): nothing is
    // drawn at its left, in particular not column 0.
    let mut buffer = vec![0u32; 400];
    triangle_line_sweep(&mut buffer, 20, p(2, 0), p(12, 10), p(3, 9), Color::white());
    assert_eq!(buffer[5 * 20], 0);
    assert_eq!(buffer[5 * 20 + 1], 0);
    // The outline is still drawn on that row.
    assert!(lit(&buffer, 20).iter().any(|q| q.1 == 5));
}

#[test]
fn fill_strategies() {
    let mut by_weights = vec![0u32; 25];
    let mut direct = vec![0u32; 25];
    fill_with(FillStrategy::Barycentric, &mut by_weights, 5, &p(0, 0), &p(4, 0), &p(0, 4), Color::red());
    fill_triangle(&mut direct, 5, &p(0, 0), &p(4, 0), &p(0, 4), Color::red());
    assert_eq!(by_weights, direct);

    let mut swept = vec![0u32; 25];
    let mut direct = vec![0u32; 25];
    fill_with(FillStrategy::LineSweep, &mut swept, 5, &p(0, 0), &p(4, 0), &p(0, 4), Color::red());
    triangle_line_sweep(&mut direct, 5, p(0, 0), p(4, 0), p(0, 4), Color::red());
    assert_eq!(swept, direct);
}

#[test]
fn render_single_triangle_into_frame() {
    // The triangle (-0.5, -0.5), (0.5, -0.5), (0, 0.5) mapped to an 800 x 600 frame.
    let (width, height) = (800u32, 600u32);
    let mut buffer = vec![0u32; (width * height) as usize];
    let triangle = ShadedTriangle { a: p(200, 150), b: p(600, 150), c: p(400, 450), shade: Some(128) };
    render_model(width, &mut buffer, &vec![triangle]);
    for (x, y) in lit(&buffer, width) {
        assert!(200 <= x && x <= 600 && 150 <= y && y <= 450);
    }
    assert_eq!(buffer[(300 * width + 400) as usize], 0x0080_8080);
    assert_eq!(buffer[(160 * width + 400) as usize], 0x0080_8080);
    // The outline is white.
    assert_eq!(buffer[(150 * width + 300) as usize], 0x00ff_ffff);
    // Corners of the bounding box lie outside the triangle.
    assert_eq!(buffer[(440 * width + 210) as usize], 0);
    assert_eq!(buffer[(440 * width + 590) as usize], 0);
}

#[test]
fn culled_triangle_draws_nothing() {
    let mut buffer = vec![0u32; 100];
    let triangle = ShadedTriangle { a: p(1, 1), b: p(8, 1), c: p(4, 8), shade: None };
    render_triangle(10, &mut buffer, &triangle);
    render_model(10, &mut buffer, &vec![triangle]);
    assert!(buffer.iter().all(|v| *v == 0));
}

#[test]
fn later_triangles_paint_over_earlier_ones() {
    let first = ShadedTriangle { a: p(0, 0), b: p(9, 0), c: p(0, 9), shade: Some(10) };
    let second = ShadedTriangle { a: p(0, 0), b: p(9, 0), c: p(0, 9), shade: Some(200) };
    let mut buffer = vec![0u32; 100];
    render_model(10, &mut buffer, &vec![first, second]);
    assert_eq!(buffer[2 * 10 + 2], 0x00c8_c8c8);
    let mut buffer = vec![0u32; 100];
    render_model(10, &mut buffer, &vec![second, first]);
    assert_eq!(buffer[2 * 10 + 2], 0x000a_0a0a);
}
