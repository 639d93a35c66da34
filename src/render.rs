use vstd::prelude::*;
use crate::canvas::paint;
use crate::colors::{packed_rgb, Color};
use crate::geometry::ScreenPosition;
use crate::triangle::{
    fill_cover,
    fill_triangle,
    in_bounding_box,
    lemma_inside_in_box,
    lemma_outline_in_box,
    outline_cover,
    outline_triangle,
    pos,
};

verus! {

/// A triangle of a mesh mapped to screen coordinates, with its flat shade: the
/// gray level of its fill, or `None` when it faces away from the light and is
/// culled.
#[derive(Clone, Copy, Debug)]
pub struct ShadedTriangle {
    pub a: ScreenPosition,
    pub b: ScreenPosition,
    pub c: ScreenPosition,
    pub shade: Option<u8>,
}

/// The packed pixel value of the gray with all three channels at `level`.
pub open spec fn gray(level: u8) -> u32 {
    packed_rgb((level, level, level)) as u32
}

/// The packed pixel value of white.
pub open spec fn white() -> u32 {
    packed_rgb((255u8, 255u8, 255u8)) as u32
}

/// The buffer after drawing one triangle: a culled triangle draws nothing; a
/// lit one is filled with its gray, then outlined in white.
pub open spec fn render_one(s: Seq<u32>, width: u32, t: ShadedTriangle) -> Seq<u32> {
    match t.shade {
        None => s,
        Some(level) => paint(
            paint(s, width, fill_cover(t.a, t.b, t.c), gray(level)),
            width,
            outline_cover(t.a, t.b, t.c),
            white(),
        ),
    }
}

/// The buffer after drawing the triangles in order, each over the ones before.
pub open spec fn render_all(s: Seq<u32>, width: u32, ts: Seq<ShadedTriangle>) -> Seq<u32>
    decreases ts.len(),
{
    if ts.len() == 0 {
        s
    } else {
        render_one(render_all(s, width, ts.drop_last()), width, ts.last())
    }
}

/// Draw one triangle: skip it when culled, else fill it with its gray and
/// outline it in white.
pub fn render_triangle(width: u32, buffer: &mut Vec<u32>, t: &ShadedTriangle)
    ensures
        final(buffer)@ == render_one(old(buffer)@, width, *t),
{
    match t.shade {
        None => {},
        Some(level) => {
            fill_triangle(buffer, width, &t.a, &t.b, &t.c, Color::from_u8_rgb(level, level, level));
            outline_triangle(buffer, width, &t.a, &t.b, &t.c, Color::white());
        },
    }
}

/// Draw the triangles of a mesh in the order given, later ones over earlier
/// ones where they share pixels. Nothing is sorted by depth.
pub fn render_model(width: u32, buffer: &mut Vec<u32>, triangles: &Vec<ShadedTriangle>)
    ensures
        final(buffer)@ == render_all(old(buffer)@, width, triangles@),
{
    let ghost start = buffer@;
    let mut i: usize = 0;
    while i < triangles.len()
        invariant
            i <= triangles@.len(),
            buffer@ == render_all(start, width, triangles@.take(i as int)),
        decreases triangles@.len() - i,
    {
        render_triangle(width, buffer, &triangles[i]);
        assert(triangles@.take(i as int + 1).drop_last() =~= triangles@.take(i as int));
        i = i + 1;
    }
    assert(triangles@.take(i as int) =~= triangles@);
}

/// Drawing a triangle changes no pixel outside its bounding box, and gives
/// every pixel strictly inside it its gray or, on the outline, white.
pub proof fn lemma_render_one_in_box(s: Seq<u32>, width: u32, t: ShadedTriangle)
    ensures
        render_one(s, width, t).len() == s.len(),
        forall|i: int|
            0 <= i < s.len() && width > 0 && !in_bounding_box(t.a, t.b, t.c, i % width as int, i / width as int)
                ==> #[trigger] render_one(s, width, t)[i] == s[i],
        forall|i: int|
            0 <= i < s.len() && width > 0 && t.shade is Some && fill_cover(t.a, t.b, t.c)(
                i % width as int,
                i / width as int,
            ) ==> #[trigger] render_one(s, width, t)[i] == gray(t.shade->0) || render_one(
                s,
                width,
                t,
            )[i] == white(),
{
    assert forall|x: int, y: int| fill_cover(t.a, t.b, t.c)(x, y) implies in_bounding_box(
        t.a,
        t.b,
        t.c,
        x,
        y,
    ) by {
        lemma_inside_in_box(t.a, t.b, t.c, pos(x, y));
    }
    assert forall|x: int, y: int| outline_cover(t.a, t.b, t.c)(x, y) implies in_bounding_box(
        t.a,
        t.b,
        t.c,
        x,
        y,
    ) by {
        lemma_outline_in_box(t.a, t.b, t.c, x, y);
    }
}

} // verus!
