use vstd::prelude::*;
use crate::canvas::{lemma_paint_twice, paint, set_pixel};
use crate::colors::Color;
use crate::geometry::ScreenPosition;

verus! {

/// The distance between two coordinates.
pub open spec fn distance(p: int, q: int) -> int {
    if p < q {
        q - p
    } else {
        p - q
    }
}

/// A line is steep when its vertical extent exceeds its horizontal extent; it
/// is then swept along y instead of x.
pub open spec fn is_steep(a: ScreenPosition, b: ScreenPosition) -> bool {
    distance(a.x as int, b.x as int) < distance(a.y as int, b.y as int)
}

/// The sweep of the line from a to b, as `(u0, v0, u1, v1)`: u is the swept
/// (longer) axis and v the other one, and the end with the lower u comes first.
pub open spec fn sweep(a: ScreenPosition, b: ScreenPosition) -> (int, int, int, int) {
    let (u0, v0, u1, v1) = if is_steep(a, b) {
        (a.y as int, a.x as int, b.y as int, b.x as int)
    } else {
        (a.x as int, a.y as int, b.x as int, b.y as int)
    };
    if u1 < u0 {
        (u1, v1, u0, v0)
    } else {
        (u0, v0, u1, v1)
    }
}

/// Linear interpolation from `v0` to `v1` at step `s` of `e`, rounded down:
/// `v0 * (1 - t) + v1 * t` with `t = s / e`.
pub open spec fn lerp(v0: int, v1: int, s: int, e: int) -> int {
    (v0 * (e - s) + v1 * s) / e
}

/// Pixel (x, y) is plotted by the line from a to b: its coordinate u along the
/// swept axis satisfies `u0 <= u < u1`, and its other coordinate is the one
/// interpolated at u. The far end u1 of the sweep is not plotted, and a line
/// whose ends coincide plots nothing.
pub open spec fn line_covers(a: ScreenPosition, b: ScreenPosition, x: int, y: int) -> bool {
    let (u0, v0, u1, v1) = sweep(a, b);
    let (u, v) = if is_steep(a, b) {
        (y, x)
    } else {
        (x, y)
    };
    u0 <= u < u1 && v == lerp(v0, v1, u - u0, u1 - u0)
}

/// The pixels of the line from a to b, as a cover for `paint`.
pub open spec fn line_cover(a: ScreenPosition, b: ScreenPosition) -> spec_fn(int, int) -> bool {
    |x: int, y: int| line_covers(a, b, x, y)
}

/// An interpolated value lies between the two values it interpolates.
pub proof fn lemma_lerp_between(v0: int, v1: int, s: int, e: int)
    requires
        0 <= v0,
        0 <= v1,
        0 <= s <= e,
        0 < e,
    ensures
        v0 <= v1 ==> v0 <= lerp(v0, v1, s, e) <= v1,
        v1 <= v0 ==> v1 <= lerp(v0, v1, s, e) <= v0,
        v0 * (e - s) + v1 * s <= (if v0 <= v1 { v1 } else { v0 }) * e,
{
    let n = v0 * (e - s) + v1 * s;
    let lo = if v0 <= v1 { v0 } else { v1 };
    let hi = if v0 <= v1 { v1 } else { v0 };
    assert(lo * e <= n <= hi * e) by (nonlinear_arith)
        requires
            n == v0 * (e - s) + v1 * s,
            lo <= v0 <= hi,
            lo <= v1 <= hi,
            0 <= s <= e,
    ;
    assert(lo <= n / e <= hi) by (nonlinear_arith)
        requires
            lo * e <= n <= hi * e,
            0 < e,
    ;
}

/// Drawing a line from b to a plots exactly the pixels of drawing it from a to b.
pub proof fn lemma_line_symmetric(a: ScreenPosition, b: ScreenPosition, s: Seq<u32>, width: u32, value: u32)
    ensures
        forall|x: int, y: int| line_covers(a, b, x, y) == line_covers(b, a, x, y),
        paint(s, width, line_cover(a, b), value) == paint(s, width, line_cover(b, a), value),
{
    assert(paint(s, width, line_cover(a, b), value) =~= paint(s, width, line_cover(b, a), value));
}

/// Every pixel of a line lies in the bounding box of its two ends.
pub proof fn lemma_line_in_box(a: ScreenPosition, b: ScreenPosition, x: int, y: int)
    requires
        line_covers(a, b, x, y),
    ensures
        a.x <= x <= b.x || b.x <= x <= a.x,
        a.y <= y <= b.y || b.y <= y <= a.y,
{
    let (u0, v0, u1, v1) = sweep(a, b);
    lemma_lerp_between(v0, v1, (if is_steep(a, b) { y } else { x }) - u0, u1 - u0);
}

/// Draw the line from a to b into a row-major buffer with rows of `width`
/// pixels: one pixel for each step along the longer axis, from the lower end
/// up to but excluding the upper end, the other coordinate interpolated.
/// Pixels outside the buffer are skipped.
pub fn draw_line(buffer: &mut Vec<u32>, width: u32, a: &ScreenPosition, b: &ScreenPosition, color: Color)
    ensures
        final(buffer)@ == paint(old(buffer)@, width, line_cover(*a, *b), color.spec_as_u32()),
{
    let dx = if a.x < b.x {
        b.x - a.x
    } else {
        a.x - b.x
    };
    let dy = if a.y < b.y {
        b.y - a.y
    } else {
        a.y - b.y
    };
    let steep = dx < dy;
    let (mut x0, mut y0, mut x1, mut y1) = if steep {
        (a.y, a.x, b.y, b.x)
    } else {
        (a.x, a.y, b.x, b.y)
    };
    if x1 < x0 {
        let (sx, sy) = (x0, y0);
        x0 = x1;
        y0 = y1;
        x1 = sx;
        y1 = sy;
    }
    let ghost value = color.spec_as_u32();
    let ghost start = buffer@;
    assert(sweep(*a, *b) == (x0 as int, y0 as int, x1 as int, y1 as int));
    let mut x = x0;
    while x < x1
        invariant
            x0 <= x <= x1,
            sweep(*a, *b) == (x0 as int, y0 as int, x1 as int, y1 as int),
            steep == is_steep(*a, *b),
            value == color.spec_as_u32(),
            buffer@ == paint(
                start,
                width,
                |px: int, py: int| line_covers(*a, *b, px, py) && (if steep { py } else { px }) < x,
                value,
            ),
        decreases x1 - x,
    {
        let e = (x1 - x0) as u64;
        let s = (x - x0) as u64;
        proof {
            lemma_lerp_between(y0 as int, y1 as int, s as int, e as int);
            assert((if y0 <= y1 { y1 } else { y0 }) as int * e <= 0xffff_ffff * 0xffff_ffff)
                by (nonlinear_arith)
                requires
                    e <= 0xffff_ffff,
                    y0 <= 0xffff_ffff,
                    y1 <= 0xffff_ffff,
            ;
            assert(0 <= y0 as int * (e - s) <= 0xffff_ffff * 0xffff_ffff) by (nonlinear_arith)
                requires
                    s <= e <= 0xffff_ffff,
                    y0 <= 0xffff_ffff,
            ;
            assert(0 <= y1 as int * s <= 0xffff_ffff * 0xffff_ffff) by (nonlinear_arith)
                requires
                    s <= e <= 0xffff_ffff,
                    y1 <= 0xffff_ffff,
            ;
        }
        let y = ((y0 as u64 * (e - s) + y1 as u64 * s) / e) as u32;
        let ghost before = buffer@;
        if steep {
            set_pixel(width, buffer, y, x, color);
        } else {
            set_pixel(width, buffer, x, y, color);
        }
        proof {
            let old_cover = |px: int, py: int|
                line_covers(*a, *b, px, py) && (if steep { py } else { px }) < x;
            let one = |px: int, py: int|
                if steep {
                    px == y && py == x
                } else {
                    px == x && py == y
                };
            let new_cover = |px: int, py: int|
                line_covers(*a, *b, px, py) && (if steep { py } else { px }) < x + 1;
            assert(buffer@ == paint(before, width, one, value)) by {
                if steep {
                    assert(paint(before, width, one, value) =~= paint(
                        before,
                        width,
                        |px: int, py: int| px == y && py == x,
                        value,
                    ));
                } else {
                    assert(paint(before, width, one, value) =~= paint(
                        before,
                        width,
                        |px: int, py: int| px == x && py == y,
                        value,
                    ));
                }
            }
            lemma_paint_twice(start, width, old_cover, one, new_cover, value);
        }
        x = x + 1;
    }
    assert(buffer@ =~= paint(start, width, line_cover(*a, *b), value));
}

} // verus!
