use pixel_renderer::{barycentric, is_inside_triangle, is_on_line, ScreenPosition};

fn p(x: u32, y: u32) -> ScreenPosition {
    ScreenPosition { x, y }
}

#[test]
fn horizontal_line_between_ends() {
    for x in 6..=85 {
        assert!(is_on_line(&p(6, 40), &p(85, 40), &p(x, 40)));
    }
    assert!(!is_on_line(&p(6, 40), &p(85, 40), &p(20, 41)));
}

#[test]
fn vertical_line_between_ends() {
    for y in 0..=100 {
        assert!(is_on_line(&p(6, 0), &p(6, 100), &p(6, y)));
    }
    // A vertical line never reaches another column, and nothing is divided by zero.
    assert!(!is_on_line(&p(6, 0), &p(6, 100), &p(7, 50)));
}

#[test]
fn sloped_line_truncates_toward_zero() {
    // y = x / 2 through (0, 0) and (10, 5)
    assert!(is_on_line(&p(0, 0), &p(10, 5), &p(4, 2)));
    assert!(is_on_line(&p(0, 0), &p(10, 5), &p(5, 2)));
    assert!(!is_on_line(&p(0, 0), &p(10, 5), &p(3, 2)));
    assert!(is_on_line(&p(0, 0), &p(10, 5), &p(3, 1)));
    // Given in the other order, the same line.
    assert!(is_on_line(&p(10, 5), &p(0, 0), &p(5, 2)));
}

#[test]
fn sloped_line_below_zero_saturates() {
    // y = 10 - x: past x = 10 the line is below row 0, which reads as row 0.
    assert!(is_on_line(&p(0, 10), &p(10, 0), &p(15, 0)));
    assert!(!is_on_line(&p(0, 10), &p(10, 0), &p(15, 1)));
}

#[test]
fn barycentric_weights_at_vertices() {
    let (a, b, c) = (p(2, 3), p(12, 5), p(4, 17));
    let wa = barycentric(&a, &b, &c, &a).unwrap();
    assert_eq!((wa.wa, wa.wb, wa.wc), (wa.denom, 0, 0));
    let wb = barycentric(&a, &b, &c, &b).unwrap();
    assert_eq!((wb.wa, wb.wb, wb.wc), (0, wb.denom, 0));
    let wc = barycentric(&a, &b, &c, &c).unwrap();
    assert_eq!((wc.wa, wc.wb, wc.wc), (0, 0, wc.denom));
    // Twice the signed area of the triangle.
    assert_eq!(wa.denom, (12 - 2) * (17 - 3) - (5 - 3) * (4 - 2));
}

#[test]
fn barycentric_weights_inside() {
    let (a, b, c) = (p(0, 0), p(10, 0), p(0, 20));
    let w = barycentric(&a, &b, &c, &p(1, 1)).unwrap();
    assert_eq!(w.denom, 200);
    assert_eq!((w.wa, w.wb, w.wc), (170, 20, 10));
    assert_eq!(w.wa + w.wb + w.wc, w.denom);
}

#[test]
fn barycentric_of_degenerate_triangle_is_none() {
    assert!(barycentric(&p(0, 0), &p(5, 5), &p(10, 10), &p(3, 3)).is_none());
    assert!(barycentric(&p(4, 4), &p(4, 4), &p(4, 4), &p(4, 4)).is_none());
}

#[test]
fn collinear_triangle_contains_nothing() {
    let (a, b, c) = (p(0, 0), p(5, 5), p(10, 10));
    for x in 0..12 {
        for y in 0..12 {
            assert!(!is_inside_triangle(&a, &b, &c, &p(x, y)));
        }
    }
}

#[test]
fn edges_and_vertices_are_outside() {
    let (a, b, c) = (p(0, 0), p(4, 0), p(0, 4));
    assert!(!is_inside_triangle(&a, &b, &c, &p(0, 0)));
    assert!(!is_inside_triangle(&a, &b, &c, &p(2, 0)));
    assert!(!is_inside_triangle(&a, &b, &c, &p(2, 2)));
    assert!(is_inside_triangle(&a, &b, &c, &p(1, 2)));
    // Winding does not matter.
    assert!(is_inside_triangle(&a, &c, &b, &p(1, 2)));
}

#[test]
fn large_coordinates_do_not_overflow() {
    let m = u32::MAX;
    let (a, b, c) = (p(0, 0), p(m, 0), p(0, m));
    assert!(is_inside_triangle(&a, &b, &c, &p(1, 1)));
    assert!(!is_inside_triangle(&a, &b, &c, &p(m, m)));
    assert!(is_on_line(&p(0, 0), &p(m, m), &p(m - 1, m - 1)));
}
