use vstd::prelude::*;
use crate::canvas::{lemma_paint_nothing, lemma_paint_twice, paint, set_pixel};
use crate::colors::Color;
use crate::geometry::{
    is_inside_triangle,
    is_on_line,
    lemma_collinear_never_inside,
    on_line,
    orient,
    strictly_inside,
    ScreenPosition,
};
use crate::line::{draw_line, lemma_line_in_box, line_cover, line_covers};

verus! {

/// The screen position with coordinates (x, y), both in the range of `u32`.
pub open spec fn pos(x: int, y: int) -> ScreenPosition {
    ScreenPosition { x: x as u32, y: y as u32 }
}

/// Whether a coordinate is in the range of `u32`.
pub open spec fn in_u32(v: int) -> bool {
    0 <= v <= u32::MAX
}

/// The pixels strictly inside the triangle (a, b, c).
pub open spec fn fill_cover(a: ScreenPosition, b: ScreenPosition, c: ScreenPosition) -> spec_fn(int, int) -> bool {
    |x: int, y: int| in_u32(x) && in_u32(y) && strictly_inside(a, b, c, pos(x, y))
}

/// The pixels of the three edges a-b, a-c and c-b of a triangle, drawn as lines.
pub open spec fn outline_cover(a: ScreenPosition, b: ScreenPosition, c: ScreenPosition) -> spec_fn(int, int) -> bool {
    |x: int, y: int| line_covers(a, b, x, y) || line_covers(a, c, x, y) || line_covers(c, b, x, y)
}

/// Draw the outline of a triangle: the lines a-b, a-c and c-b.
pub fn outline_triangle(
    buffer: &mut Vec<u32>,
    width: u32,
    a: &ScreenPosition,
    b: &ScreenPosition,
    c: &ScreenPosition,
    color: Color,
)
    ensures
        final(buffer)@ == paint(old(buffer)@, width, outline_cover(*a, *b, *c), color.spec_as_u32()),
{
    let ghost start = buffer@;
    let ghost value = color.spec_as_u32();
    draw_line(buffer, width, a, b, color);
    draw_line(buffer, width, a, c, color);
    proof {
        lemma_paint_twice(
            start,
            width,
            line_cover(*a, *b),
            line_cover(*a, *c),
            |x: int, y: int| line_covers(*a, *b, x, y) || line_covers(*a, *c, x, y),
            value,
        );
    }
    draw_line(buffer, width, c, b, color);
    proof {
        lemma_paint_twice(
            start,
            width,
            |x: int, y: int| line_covers(*a, *b, x, y) || line_covers(*a, *c, x, y),
            line_cover(*c, *b),
            outline_cover(*a, *b, *c),
            value,
        );
    }
}

/// With weights of one strict sign that balance `wa * ra + wb * rb + wc * rc == 0`,
/// the offsets cannot all lie on one side of zero unless all are zero.
proof fn lemma_balanced_offsets(wa: int, wb: int, wc: int, ra: int, rb: int, rc: int)
    requires
        wa * ra + wb * rb + wc * rc == 0,
        (wa > 0 && wb > 0 && wc > 0) || (wa < 0 && wb < 0 && wc < 0),
    ensures
        (ra <= 0 && rb <= 0 && rc <= 0) ==> (ra == 0 && rb == 0 && rc == 0),
        (ra >= 0 && rb >= 0 && rc >= 0) ==> (ra == 0 && rb == 0 && rc == 0),
{
    assert((ra <= 0 && rb <= 0 && rc <= 0) ==> (ra == 0 && rb == 0 && rc == 0)) by (nonlinear_arith)
        requires
            wa * ra + wb * rb + wc * rc == 0,
            (wa > 0 && wb > 0 && wc > 0) || (wa < 0 && wb < 0 && wc < 0),
    ;
    assert((ra >= 0 && rb >= 0 && rc >= 0) ==> (ra == 0 && rb == 0 && rc == 0)) by (nonlinear_arith)
        requires
            wa * ra + wb * rb + wc * rc == 0,
            (wa > 0 && wb > 0 && wc > 0) || (wa < 0 && wb < 0 && wc < 0),
    ;
}

/// The weights of the three cross products of three vectors balance them:
/// `(b x c) * a + (c x a) * b + (a x b) * c == 0`, in either coordinate.
proof fn lemma_cross_balance(ax: int, ay: int, bx: int, by: int, cx: int, cy: int)
    ensures
        (bx * cy - by * cx) * ax + (cx * ay - cy * ax) * bx + (ax * by - ay * bx) * cx == 0,
        (bx * cy - by * cx) * ay + (cx * ay - cy * ax) * by + (ax * by - ay * bx) * cy == 0,
{
    assert((bx * cy - by * cx) * ax + (cx * ay - cy * ax) * bx + (ax * by - ay * bx) * cx == 0)
        by (nonlinear_arith);
    assert((bx * cy - by * cx) * ay + (cx * ay - cy * ax) * by + (ax * by - ay * bx) * cy == 0)
        by (nonlinear_arith);
}

/// `orient(a, b, p)` is the cross product of the offsets of a and b from p.
proof fn lemma_orient_from(a: ScreenPosition, b: ScreenPosition, p: ScreenPosition)
    ensures
        orient(a, b, p) == (a.x as int - p.x as int) * (b.y as int - p.y as int) - (a.y as int
            - p.y as int) * (b.x as int - p.x as int),
{
    let (ax, ay, bx, by, px, py) = (a.x as int, a.y as int, b.x as int, b.y as int, p.x as int, p.y as int);
    assert((bx - ax) * (py - ay) - (by - ay) * (px - ax) == (ax - px) * (by - py) - (ay - py) * (bx
        - px)) by (nonlinear_arith);
}

/// A point strictly inside a triangle lies strictly inside its bounding box.
pub proof fn lemma_inside_in_box(a: ScreenPosition, b: ScreenPosition, c: ScreenPosition, p: ScreenPosition)
    requires
        strictly_inside(a, b, c, p),
    ensures
        !(p.x <= a.x && p.x <= b.x && p.x <= c.x),
        !(p.x >= a.x && p.x >= b.x && p.x >= c.x),
        !(p.y <= a.y && p.y <= b.y && p.y <= c.y),
        !(p.y >= a.y && p.y >= b.y && p.y >= c.y),
{
    let (ax, ay) = (a.x as int - p.x as int, a.y as int - p.y as int);
    let (bx, by) = (b.x as int - p.x as int, b.y as int - p.y as int);
    let (cx, cy) = (c.x as int - p.x as int, c.y as int - p.y as int);
    lemma_orient_from(b, c, p);
    lemma_orient_from(c, a, p);
    lemma_orient_from(a, b, p);
    lemma_cross_balance(ax, ay, bx, by, cx, cy);
    let (wa, wb, wc) = (orient(b, c, p), orient(c, a, p), orient(a, b, p));
    lemma_balanced_offsets(wa, wb, wc, ax, bx, cx);
    lemma_balanced_offsets(wa, wb, wc, ay, by, cy);
    assert(wc == ax * by - ay * bx);
    if ax == 0 && bx == 0 {
        assert(ax * by - ay * bx == 0) by (nonlinear_arith)
            requires
                ax == 0,
                bx == 0,
        ;
    }
    if ay == 0 && by == 0 {
        assert(ax * by - ay * bx == 0) by (nonlinear_arith)
            requires
                ay == 0,
                by == 0,
        ;
    }
}

fn min3(p: u32, q: u32, r: u32) -> (m: u32)
    ensures
        m <= p && m <= q && m <= r,
        m == p || m == q || m == r,
{
    let m = if p < q {
        p
    } else {
        q
    };
    if r < m {
        r
    } else {
        m
    }
}

fn max3(p: u32, q: u32, r: u32) -> (m: u32)
    ensures
        m >= p && m >= q && m >= r,
        m == p || m == q || m == r,
{
    let m = if p > q {
        p
    } else {
        q
    };
    if r > m {
        r
    } else {
        m
    }
}

/// Fill the pixels strictly inside the triangle (a, b, c) with the color: each
/// pixel of the bounding box is tested with its barycentric weights. A
/// degenerate triangle fills nothing; pixels outside the buffer are skipped.
pub fn fill_triangle(
    buffer: &mut Vec<u32>,
    width: u32,
    a: &ScreenPosition,
    b: &ScreenPosition,
    c: &ScreenPosition,
    color: Color,
)
    ensures
        final(buffer)@ == paint(old(buffer)@, width, fill_cover(*a, *b, *c), color.spec_as_u32()),
{
    let ghost start = buffer@;
    let ghost value = color.spec_as_u32();
    let min_x = min3(a.x, b.x, c.x);
    let max_x = max3(a.x, b.x, c.x);
    let min_y = min3(a.y, b.y, c.y);
    let max_y = max3(a.y, b.y, c.y);
    let ghost inside = fill_cover(*a, *b, *c);
    let mut y = min_y;
    while y < max_y
        invariant
            min_y <= y <= max_y,
            min_x <= max_x,
            value == color.spec_as_u32(),
            inside == fill_cover(*a, *b, *c),
            buffer@ == paint(
                start,
                width,
                |px: int, py: int| min_x <= px < max_x && min_y <= py < y && inside(px, py),
                value,
            ),
        decreases max_y - y,
    {
        let mut x = min_x;
        while x < max_x
            invariant
                min_y <= y < max_y,
                min_x <= x <= max_x,
                value == color.spec_as_u32(),
                inside == fill_cover(*a, *b, *c),
                buffer@ == paint(
                    start,
                    width,
                    |px: int, py: int|
                        min_x <= px < max_x && min_y <= py <= y && (py < y || px < x) && inside(
                            px,
                            py,
                        ),
                    value,
                ),
            decreases max_x - x,
        {
            let p = ScreenPosition { x, y };
            let ghost done = |px: int, py: int|
                min_x <= px < max_x && min_y <= py <= y && (py < y || px < x) && inside(px, py);
            let ghost next = |px: int, py: int|
                min_x <= px < max_x && min_y <= py <= y && (py < y || px < x + 1) && inside(px, py);
            if is_inside_triangle(a, b, c, &p) {
                set_pixel(width, buffer, x, y, color);
                proof {
                    lemma_paint_twice(
                        start,
                        width,
                        done,
                        |px: int, py: int| px == x && py == y,
                        next,
                        value,
                    );
                }
            } else {
                assert(paint(start, width, done, value) =~= paint(start, width, next, value));
            }
            x = x + 1;
        }
        assert(paint(
            start,
            width,
            |px: int, py: int|
                min_x <= px < max_x && min_y <= py <= y && (py < y || px < x) && inside(px, py),
            value,
        ) =~= paint(
            start,
            width,
            |px: int, py: int| min_x <= px < max_x && min_y <= py < y + 1 && inside(px, py),
            value,
        ));
        y = y + 1;
    }
    proof {
        assert forall|px: int, py: int| #[trigger] inside(px, py) implies min_x <= px < max_x
            && min_y <= py < max_y by {
            lemma_inside_in_box(*a, *b, *c, pos(px, py));
        }
    }
    assert(buffer@ =~= paint(start, width, inside, value));
}

/// Filling a triangle whose vertices are collinear leaves the buffer as it is.
pub proof fn lemma_fill_degenerate(
    a: ScreenPosition,
    b: ScreenPosition,
    c: ScreenPosition,
    s: Seq<u32>,
    width: u32,
    value: u32,
)
    requires
        orient(a, b, c) == 0,
    ensures
        paint(s, width, fill_cover(a, b, c), value) == s,
{
    assert forall|x: int, y: int| !#[trigger] fill_cover(a, b, c)(x, y) by {
        lemma_collinear_never_inside(a, b, c, pos(x, y));
    }
    lemma_paint_nothing(s, width, fill_cover(a, b, c), value);
}

/// The three vertices ordered by row, top first; vertices on one row keep the
/// order in which they were given.
pub open spec fn sorted_by_y(a: ScreenPosition, b: ScreenPosition, c: ScreenPosition) -> (ScreenPosition, ScreenPosition, ScreenPosition) {
    if a.y <= b.y {
        if b.y <= c.y {
            (a, b, c)
        } else if a.y <= c.y {
            (a, c, b)
        } else {
            (c, a, b)
        }
    } else {
        if a.y <= c.y {
            (b, a, c)
        } else if b.y <= c.y {
            (b, c, a)
        } else {
            (c, b, a)
        }
    }
}

fn sort_by_y(a: &ScreenPosition, b: &ScreenPosition, c: &ScreenPosition) -> (r: (ScreenPosition, ScreenPosition, ScreenPosition))
    ensures
        r == sorted_by_y(*a, *b, *c),
{
    if a.y <= b.y {
        if b.y <= c.y {
            (*a, *b, *c)
        } else if a.y <= c.y {
            (*a, *c, *b)
        } else {
            (*c, *a, *b)
        }
    } else {
        if a.y <= c.y {
            (*b, *a, *c)
        } else if b.y <= c.y {
            (*b, *c, *a)
        } else {
            (*c, *b, *a)
        }
    }
}

/// The last column in `lo..n` at which row y meets the line through e0 and
/// e1, or `None` when there is none.
pub open spec fn last_hit(e0: ScreenPosition, e1: ScreenPosition, y: int, lo: int, n: int) -> Option<int>
    decreases n - lo,
{
    if n <= lo {
        None
    } else if on_line(e0, e1, pos(n - 1, y)) {
        Some(n - 1)
    } else {
        last_hit(e0, e1, y, lo, n - 1)
    }
}

/// The last column at which row y meets the edge from e0 to e1, searched only
/// among the columns that the edge spans and that lie below `width`; `None`
/// when the row meets none of them.
pub open spec fn edge_hit(e0: ScreenPosition, e1: ScreenPosition, width: u32, y: int) -> Option<int> {
    let lo = if e0.x <= e1.x { e0.x as int } else { e1.x as int };
    let hi = if e0.x <= e1.x { e1.x as int } else { e0.x as int };
    let end = if hi + 1 < width { hi + 1 } else { width as int };
    last_hit(e0, e1, y, lo, end)
}

/// The column where row y meets the short side of the triangle: the edge from
/// top to middle above the middle vertex, the edge from bottom to middle from
/// there on.
pub open spec fn sweep_left(a: ScreenPosition, b: ScreenPosition, c: ScreenPosition, width: u32, y: int) -> Option<int> {
    let (top, middle, bottom) = sorted_by_y(a, b, c);
    if y < middle.y {
        edge_hit(top, middle, width, y)
    } else {
        edge_hit(bottom, middle, width, y)
    }
}

/// The column where row y meets the long side of the triangle, from top to bottom.
pub open spec fn sweep_right(a: ScreenPosition, b: ScreenPosition, c: ScreenPosition, width: u32, y: int) -> Option<int> {
    let (top, middle, bottom) = sorted_by_y(a, b, c);
    edge_hit(top, bottom, width, y)
}

/// The pixels that the sweep draws on the rows from the top vertex down to,
/// but excluding, the bottom one: on each row where both sides are met, the
/// line between the two columns; nothing on a row where a side is missed.
pub open spec fn sweep_rows_cover(a: ScreenPosition, b: ScreenPosition, c: ScreenPosition, width: u32, x: int, y: int) -> bool {
    let (top, middle, bottom) = sorted_by_y(a, b, c);
    top.y <= y < bottom.y && match (sweep_left(a, b, c, width, y), sweep_right(a, b, c, width, y)) {
        (Some(left), Some(right)) => line_covers(pos(left, y), pos(right, y), x, y),
        _ => false,
    }
}

/// The pixels that the sweep-line fill draws: its rows and the outline.
pub open spec fn sweep_cover(a: ScreenPosition, b: ScreenPosition, c: ScreenPosition, width: u32) -> spec_fn(int, int) -> bool {
    |x: int, y: int| sweep_rows_cover(a, b, c, width, x, y) || outline_cover(a, b, c)(x, y)
}

/// A column found by `last_hit` lies in the searched range.
proof fn lemma_last_hit_range(e0: ScreenPosition, e1: ScreenPosition, y: int, lo: int, n: int)
    ensures
        last_hit(e0, e1, y, lo, n) matches Some(k) ==> lo <= k < n,
    decreases n - lo,
{
    if n > lo && !on_line(e0, e1, pos(n - 1, y)) {
        lemma_last_hit_range(e0, e1, y, lo, n - 1);
    }
}

/// The last column at which row y meets the edge from e0 to e1 (see `edge_hit`).
fn find_edge_hit(e0: &ScreenPosition, e1: &ScreenPosition, width: u32, y: u32) -> (r: Option<u32>)
    ensures
        match r {
            Some(k) => edge_hit(*e0, *e1, width, y as int) == Some(k as int),
            None => edge_hit(*e0, *e1, width, y as int) is None,
        },
{
    let lo = if e0.x <= e1.x {
        e0.x
    } else {
        e1.x
    };
    let hi = if e0.x <= e1.x {
        e1.x
    } else {
        e0.x
    };
    let end: u64 = if (hi as u64) + 1 < width as u64 {
        hi as u64 + 1
    } else {
        width as u64
    };
    let mut hit: Option<u32> = None;
    let mut x: u64 = lo as u64;
    while x < end
        invariant
            lo <= x,
            x <= end || x == lo,
            end <= u32::MAX as u64 + 1,
            match hit {
                Some(k) => last_hit(*e0, *e1, y as int, lo as int, x as int) == Some(k as int),
                None => last_hit(*e0, *e1, y as int, lo as int, x as int) is None,
            },
        decreases end - x,
    {
        let p = ScreenPosition { x: x as u32, y };
        assert(p == pos(x as int, y as int));
        if is_on_line(e0, e1, &p) {
            hit = Some(x as u32);
        }
        x = x + 1;
    }
    hit
}

/// Pixel (x, y) lies in the closed bounding box of the vertices a, b and c.
pub open spec fn in_bounding_box(a: ScreenPosition, b: ScreenPosition, c: ScreenPosition, x: int, y: int) -> bool {
    ((a.x <= x || b.x <= x || c.x <= x) && (x <= a.x || x <= b.x || x <= c.x)) && ((a.y <= y
        || b.y <= y || c.y <= y) && (y <= a.y || y <= b.y || y <= c.y))
}

/// Every pixel of the outline lies in the triangle's bounding box.
pub proof fn lemma_outline_in_box(a: ScreenPosition, b: ScreenPosition, c: ScreenPosition, x: int, y: int)
    requires
        outline_cover(a, b, c)(x, y),
    ensures
        in_bounding_box(a, b, c, x, y),
{
    if line_covers(a, b, x, y) {
        lemma_line_in_box(a, b, x, y);
    } else if line_covers(a, c, x, y) {
        lemma_line_in_box(a, c, x, y);
    } else {
        lemma_line_in_box(c, b, x, y);
    }
}

/// A column where a row meets an edge lies between the edge's end columns.
proof fn lemma_edge_hit_range(e0: ScreenPosition, e1: ScreenPosition, width: u32, y: int)
    ensures
        edge_hit(e0, e1, width, y) matches Some(k) ==> (e0.x <= k <= e1.x || e1.x <= k <= e0.x),
{
    let lo = if e0.x <= e1.x { e0.x as int } else { e1.x as int };
    let hi = if e0.x <= e1.x { e1.x as int } else { e0.x as int };
    let end = if hi + 1 < width { hi + 1 } else { width as int };
    lemma_last_hit_range(e0, e1, y, lo, end);
}

/// Every pixel that the sweep-line fill draws lies in the closed bounding box
/// of the triangle's vertices.
pub proof fn lemma_sweep_in_box(a: ScreenPosition, b: ScreenPosition, c: ScreenPosition, width: u32, x: int, y: int)
    requires
        sweep_cover(a, b, c, width)(x, y),
    ensures
        in_bounding_box(a, b, c, x, y),
{
    if outline_cover(a, b, c)(x, y) {
        lemma_outline_in_box(a, b, c, x, y);
    } else {
        let (top, middle, bottom) = sorted_by_y(a, b, c);
        lemma_edge_hit_range(top, middle, width, y);
        lemma_edge_hit_range(bottom, middle, width, y);
        lemma_edge_hit_range(top, bottom, width, y);
        let left = sweep_left(a, b, c, width, y)->0;
        let right = sweep_right(a, b, c, width, y)->0;
        lemma_line_in_box(pos(left, y), pos(right, y), x, y);
    }
}

/// Fill the triangle (a, b, c) row by row: on each row from the top vertex
/// to the bottom one, find the columns where the row meets the short side and
/// the long side by testing each column that the side spans, and draw the line
/// between them (a row where a side is missed is skipped); then draw the
/// outline. Slower than `fill_triangle`. Everything drawn stays in the
/// triangle's bounding box (`lemma_sweep_in_box`).
pub fn triangle_line_sweep(
    buffer: &mut Vec<u32>,
    width: u32,
    a: ScreenPosition,
    b: ScreenPosition,
    c: ScreenPosition,
    color: Color,
)
    ensures
        final(buffer)@ == paint(old(buffer)@, width, sweep_cover(a, b, c, width), color.spec_as_u32()),
{
    let ghost start = buffer@;
    let ghost value = color.spec_as_u32();
    let (top, middle, bottom) = sort_by_y(&a, &b, &c);
    let mut y = top.y;
    while y < bottom.y
        invariant
            (top, middle, bottom) == sorted_by_y(a, b, c),
            top.y <= y,
            value == color.spec_as_u32(),
            buffer@ == paint(
                start,
                width,
                |px: int, py: int| sweep_rows_cover(a, b, c, width, px, py) && py < y,
                value,
            ),
        decreases bottom.y - y,
    {
        let left = if y < middle.y {
            find_edge_hit(&top, &middle, width, y)
        } else {
            find_edge_hit(&bottom, &middle, width, y)
        };
        let right = find_edge_hit(&top, &bottom, width, y);
        match (left, right) {
            (Some(x1), Some(x2)) => {
                let l = ScreenPosition { x: x1, y };
                let r = ScreenPosition { x: x2, y };
                draw_line(buffer, width, &l, &r, color);
                proof {
                    assert(l == pos(x1 as int, y as int));
                    assert(r == pos(x2 as int, y as int));
                    assert forall|px: int, py: int| line_covers(l, r, px, py) implies py == y by {
                        lemma_line_in_box(l, r, px, py);
                    }
                    lemma_paint_twice(
                        start,
                        width,
                        |px: int, py: int| sweep_rows_cover(a, b, c, width, px, py) && py < y,
                        line_cover(l, r),
                        |px: int, py: int| sweep_rows_cover(a, b, c, width, px, py) && py < y + 1,
                        value,
                    );
                }
            },
            _ => {
                assert(paint(
                    start,
                    width,
                    |px: int, py: int| sweep_rows_cover(a, b, c, width, px, py) && py < y,
                    value,
                ) =~= paint(
                    start,
                    width,
                    |px: int, py: int| sweep_rows_cover(a, b, c, width, px, py) && py < y + 1,
                    value,
                ));
            },
        }
        y = y + 1;
    }
    let ghost rows = buffer@;
    assert(rows =~= paint(
        start,
        width,
        |px: int, py: int| sweep_rows_cover(a, b, c, width, px, py),
        value,
    ));
    outline_triangle(buffer, width, &a, &b, &c, color);
    proof {
        lemma_paint_twice(
            start,
            width,
            |px: int, py: int| sweep_rows_cover(a, b, c, width, px, py),
            outline_cover(a, b, c),
            sweep_cover(a, b, c, width),
            value,
        );
    }
}

/// The two interchangeable ways of filling a triangle: testing each pixel of the
/// bounding box with its barycentric weights, or sweeping rows between the
/// sides (which also draws the outline).
#[derive(Clone, Copy, Debug, PartialEq, Eq)]
pub enum FillStrategy {
    Barycentric,
    LineSweep,
}

/// The pixels that filling the triangle with the given strategy draws.
pub open spec fn strategy_cover(
    strategy: FillStrategy,
    a: ScreenPosition,
    b: ScreenPosition,
    c: ScreenPosition,
    width: u32,
) -> spec_fn(int, int) -> bool {
    match strategy {
        FillStrategy::Barycentric => fill_cover(a, b, c),
        FillStrategy::LineSweep => sweep_cover(a, b, c, width),
    }
}

/// Fill the triangle (a, b, c) with the color, using the given strategy.
pub fn fill_with(
    strategy: FillStrategy,
    buffer: &mut Vec<u32>,
    width: u32,
    a: &ScreenPosition,
    b: &ScreenPosition,
    c: &ScreenPosition,
    color: Color,
)
    ensures
        final(buffer)@ == paint(old(buffer)@, width, strategy_cover(strategy, *a, *b, *c, width), color.spec_as_u32()),
{
    match strategy {
        FillStrategy::Barycentric => fill_triangle(buffer, width, a, b, c, color),
        FillStrategy::LineSweep => triangle_line_sweep(buffer, width, *a, *b, *c, color),
    }
}

} // verus!
