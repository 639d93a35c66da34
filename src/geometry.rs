use vstd::prelude::*;

verus! {

/// Integer pixel coordinates in a frame buffer.
#[derive(Clone, Copy, PartialEq, Eq, Debug, Structural)]
pub struct ScreenPosition {
    pub x: u32,
    pub y: u32,
}

/// Twice the signed area of the triangle (a, b, p): nonzero with one sign when
/// p lies on one side of the directed line a -> b, the other sign on the other
/// side, and zero when the three points are collinear.
pub open spec fn orient(a: ScreenPosition, b: ScreenPosition, p: ScreenPosition) -> int {
    (b.x as int - a.x as int) * (p.y as int - a.y as int) - (b.y as int - a.y as int) * (
    p.x as int - a.x as int)
}

/// The barycentric weights of p relative to the triangle (a, b, c), as numerators
/// over the common denominator `orient(a, b, c)`: the weight of each vertex is
/// the signed area of the sub-triangle that p forms with the opposite edge.
pub open spec fn weights(a: ScreenPosition, b: ScreenPosition, c: ScreenPosition, p: ScreenPosition) -> (int, int, int) {
    (orient(b, c, p), orient(c, a, p), orient(a, b, p))
}

/// p lies strictly inside the triangle (a, b, c): it is strictly on the same
/// side of all three edges. Points on an edge and all points of a degenerate
/// triangle are outside.
pub open spec fn strictly_inside(a: ScreenPosition, b: ScreenPosition, c: ScreenPosition, p: ScreenPosition) -> bool {
    (orient(a, b, p) > 0 && orient(b, c, p) > 0 && orient(c, a, p) > 0)
    || (orient(a, b, p) < 0 && orient(b, c, p) < 0 && orient(c, a, p) < 0)
}

/// `(a - b) * (c - d)` multiplied out.
proof fn lemma_mul_expand(a: int, b: int, c: int, d: int)
    ensures
        (a - b) * (c - d) == a * c - a * d - b * c + b * d,
{
    assert((a - b) * (c - d) == a * c - a * d - b * c + b * d) by (nonlinear_arith);
}

/// A product of two numbers of magnitude at most 2^32 has magnitude at most 2^64.
proof fn lemma_mul_bound(x: int, y: int)
    requires
        -0x1_0000_0000 <= x <= 0x1_0000_0000,
        -0x1_0000_0000 <= y <= 0x1_0000_0000,
    ensures
        -0x1_0000_0000_0000_0000 <= x * y <= 0x1_0000_0000_0000_0000,
{
    assert(-0x1_0000_0000_0000_0000 <= x * y <= 0x1_0000_0000_0000_0000) by (nonlinear_arith)
        requires
            -0x1_0000_0000 <= x <= 0x1_0000_0000,
            -0x1_0000_0000 <= y <= 0x1_0000_0000,
    ;
}

/// `orient(a, b, p)` multiplied out into monomials.
proof fn lemma_orient_expand(a: ScreenPosition, b: ScreenPosition, p: ScreenPosition)
    ensures
        orient(a, b, p) == (b.x as int) * (p.y as int) - (b.x as int) * (a.y as int) - (a.x as int)
            * (p.y as int) + (a.x as int) * (a.y as int) - ((b.y as int) * (p.x as int) - (
        b.y as int) * (a.x as int) - (a.y as int) * (p.x as int) + (a.y as int) * (a.x as int)),
{
    lemma_mul_expand(b.x as int, a.x as int, p.y as int, a.y as int);
    lemma_mul_expand(b.y as int, a.y as int, p.x as int, a.x as int);
}

/// The three barycentric weights of a point always add up to the denominator.
pub proof fn lemma_weights_sum(a: ScreenPosition, b: ScreenPosition, c: ScreenPosition, p: ScreenPosition)
    ensures
        orient(b, c, p) + orient(c, a, p) + orient(a, b, p) == orient(a, b, c),
{
    lemma_orient_expand(b, c, p);
    lemma_orient_expand(c, a, p);
    lemma_orient_expand(a, b, p);
    lemma_orient_expand(a, b, c);
}

/// At each vertex of a non-degenerate triangle the barycentric weights are
/// (1, 0, 0), (0, 1, 0) and (0, 0, 1) respectively.
pub proof fn lemma_weights_at_vertices(a: ScreenPosition, b: ScreenPosition, c: ScreenPosition)
    requires
        orient(a, b, c) != 0,
    ensures
        weights(a, b, c, a) == (orient(a, b, c), 0int, 0int),
        weights(a, b, c, b) == (0int, orient(a, b, c), 0int),
        weights(a, b, c, c) == (0int, 0int, orient(a, b, c)),
{
    lemma_weights_sum(a, b, c, a);
    lemma_weights_sum(a, b, c, b);
    lemma_weights_sum(a, b, c, c);
    assert(orient(c, a, a) == 0) by (nonlinear_arith);
    assert(orient(a, b, a) == 0) by (nonlinear_arith);
    assert(orient(b, c, b) == 0) by (nonlinear_arith);
    assert(orient(a, b, b) == 0) by (nonlinear_arith);
    assert(orient(b, c, c) == 0) by (nonlinear_arith);
    assert(orient(c, a, c) == 0) by (nonlinear_arith);
}

/// A triangle whose vertices are collinear has no point strictly inside it.
pub proof fn lemma_collinear_never_inside(a: ScreenPosition, b: ScreenPosition, c: ScreenPosition, p: ScreenPosition)
    requires
        orient(a, b, c) == 0,
    ensures
        !strictly_inside(a, b, c, p),
{
    lemma_weights_sum(a, b, c, p);
}

/// Relies on vecmath::vec3_cross, the cross product of two 3-vectors:
/// `[a1*b2 - a2*b1, a2*b0 - a0*b2, a0*b1 - a1*b0]`. The bounds keep every
/// intermediate product and difference inside `i128`.
#[verifier::external_body]
fn cross(a: [i128; 3], b: [i128; 3]) -> (r: [i128; 3])
    requires
        forall|i: int| 0 <= i < 3 ==> -0x1_0000_0000 <= #[trigger] a[i] <= 0x1_0000_0000,
        forall|i: int| 0 <= i < 3 ==> -0x1_0000_0000 <= #[trigger] b[i] <= 0x1_0000_0000,
    ensures
        r[0] == a[1] * b[2] - a[2] * b[1],
        r[1] == a[2] * b[0] - a[0] * b[2],
        r[2] == a[0] * b[1] - a[1] * b[0],
{
    vecmath::vec3_cross(a, b)
}

/// Barycentric weights of a point relative to a triangle (a, b, c): the point is
/// `(wa * a + wb * b + wc * c) / denom`, with `wa + wb + wc == denom != 0`.
#[derive(Clone, Copy, Debug)]
pub struct Barycentric {
    pub wa: i128,
    pub wb: i128,
    pub wc: i128,
    pub denom: i128,
}

/// The barycentric weights of p relative to the triangle (a, b, c), or `None`
/// when the triangle is degenerate (its vertices are collinear).
pub fn barycentric(a: &ScreenPosition, b: &ScreenPosition, c: &ScreenPosition, p: &ScreenPosition) -> (r: Option<Barycentric>)
    ensures
        r is None <==> orient(*a, *b, *c) == 0,
        r matches Some(w) ==> w.denom == orient(*a, *b, *c) && (w.wa as int, w.wb as int, w.wc as int)
            == weights(*a, *b, *c, *p),
{
    let s: [i128; 3] = [
        a.x as i128 - b.x as i128,
        a.x as i128 - c.x as i128,
        p.x as i128 - a.x as i128,
    ];
    let t: [i128; 3] = [
        a.y as i128 - b.y as i128,
        a.y as i128 - c.y as i128,
        p.y as i128 - a.y as i128,
    ];
    let k = cross(s, t);
    proof {
        lemma_orient_expand(*a, *b, *p);
        lemma_orient_expand(*c, *a, *p);
        lemma_orient_expand(*a, *b, *c);
        lemma_mul_expand(a.x as int, c.x as int, p.y as int, a.y as int);
        lemma_mul_expand(p.x as int, a.x as int, a.y as int, c.y as int);
        lemma_mul_expand(p.x as int, a.x as int, a.y as int, b.y as int);
        lemma_mul_expand(a.x as int, b.x as int, p.y as int, a.y as int);
        lemma_mul_expand(a.x as int, b.x as int, a.y as int, c.y as int);
        lemma_mul_expand(a.x as int, c.x as int, a.y as int, b.y as int);
        lemma_weights_sum(*a, *b, *c, *p);
        lemma_mul_bound(s[1] as int, t[2] as int);
        lemma_mul_bound(s[2] as int, t[1] as int);
        lemma_mul_bound(s[2] as int, t[0] as int);
        lemma_mul_bound(s[0] as int, t[2] as int);
        lemma_mul_bound(s[0] as int, t[1] as int);
        lemma_mul_bound(s[1] as int, t[0] as int);
    }
    if k[2] == 0 {
        None
    } else {
        Some(Barycentric { wa: k[2] - k[0] - k[1], wb: k[0], wc: k[1], denom: k[2] })
    }
}

/// Whether p lies strictly inside the triangle (a, b, c): all three barycentric
/// weights are strictly positive. A degenerate triangle contains no point.
pub fn is_inside_triangle(a: &ScreenPosition, b: &ScreenPosition, c: &ScreenPosition, p: &ScreenPosition) -> (r: bool)
    ensures
        r == strictly_inside(*a, *b, *c, *p),
{
    proof {
        lemma_weights_sum(*a, *b, *c, *p);
    }
    match barycentric(a, b, c, p) {
        None => false,
        Some(w) => {
            if w.denom > 0 {
                w.wa > 0 && w.wb > 0 && w.wc > 0
            } else {
                w.wa < 0 && w.wb < 0 && w.wc < 0
            }
        },
    }
}

/// `n / d` for `d > 0`, truncated toward zero and saturated to the range of
/// `u32`: negative quotients give 0, quotients past `u32::MAX` give `u32::MAX`.
pub open spec fn saturating_quotient(n: int, d: int) -> int {
    if n <= 0 {
        0
    } else if n / d > u32::MAX {
        u32::MAX as int
    } else {
        n / d
    }
}

/// The row that the line through a and b (not vertical) reaches at column x,
/// `a.y + (b.y - a.y) * (x - a.x) / (b.x - a.x)`, truncated and saturated to `u32`.
pub open spec fn line_row_at(a: ScreenPosition, b: ScreenPosition, x: int) -> int {
    let d = b.x as int - a.x as int;
    let n = (a.y as int) * d + (b.y as int - a.y as int) * (x - a.x as int);
    if d > 0 {
        saturating_quotient(n, d)
    } else {
        saturating_quotient(-n, -d)
    }
}

/// Whether `check` lies on the line through a and b: on the common row of a
/// horizontal line, on the common column of a vertical line, and otherwise on
/// the row that the line equation `y = m * x + p` gives at its column.
pub open spec fn on_line(a: ScreenPosition, b: ScreenPosition, check: ScreenPosition) -> bool {
    if a.y == b.y && a.y == check.y {
        true
    } else if a.x == b.x {
        a.x == check.x
    } else {
        check.y as int == line_row_at(a, b, check.x as int)
    }
}

/// Whether `check` lies on the line through a and b (see `on_line`). Vertical
/// lines are handled before the line equation, so nothing is ever divided by zero.
pub fn is_on_line(a: &ScreenPosition, b: &ScreenPosition, check: &ScreenPosition) -> (r: bool)
    ensures
        r == on_line(*a, *b, *check),
{
    if a.y == b.y && a.y == check.y {
        return true;
    }
    if a.x == b.x {
        return a.x == check.x;
    }
    let ax = a.x as i128;
    let ay = a.y as i128;
    let mut d: i128 = b.x as i128 - ax;
    let dy: i128 = b.y as i128 - ay;
    let dx: i128 = check.x as i128 - ax;
    proof {
        lemma_mul_bound(ay as int, d as int);
        lemma_mul_bound(dy as int, dx as int);
    }
    let mut n: i128 = ay * d + dy * dx;
    if d < 0 {
        d = -d;
        n = -n;
    }
    let row: u128 = if n <= 0 {
        0
    } else {
        let q = (n as u128) / (d as u128);
        if q > u32::MAX as u128 {
            u32::MAX as u128
        } else {
            q
        }
    };
    check.y as u128 == row
}

/// Every point on the row of a horizontal line (in particular every point
/// between its two ends) is on that line.
pub proof fn lemma_horizontal_on_line(a: ScreenPosition, b: ScreenPosition, check: ScreenPosition)
    requires
        a.y == b.y,
        check.y == a.y,
    ensures
        on_line(a, b, check),
{
}

/// Every point on the column of a vertical line (in particular every point
/// between its two ends) is on that line.
pub proof fn lemma_vertical_on_line(a: ScreenPosition, b: ScreenPosition, check: ScreenPosition)
    requires
        a.x == b.x,
        check.x == a.x,
    ensures
        on_line(a, b, check),
{
}

} // verus!
