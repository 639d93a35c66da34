use vstd::prelude::*;
use vstd::arithmetic::div_mod::{lemma_fundamental_div_mod, lemma_fundamental_div_mod_converse, lemma_mod_bound};
use crate::colors::Color;

verus! {

/// The buffer `s`, read as rows of `width` pixels, with every pixel (x, y) that
/// `cover` holds of set to `value`. A pixel exists only where `x < width` and
/// its index `y * width + x` is below the buffer's length: pixels past the end
/// of a row or of the buffer are never written.
pub open spec fn paint(s: Seq<u32>, width: u32, cover: spec_fn(int, int) -> bool, value: u32) -> Seq<u32> {
    Seq::new(
        s.len(),
        |i: int|
            if width > 0 && cover(i % width as int, i / width as int) {
                value
            } else {
                s[i]
            },
    )
}

/// Painting with one value twice is painting once with the union of both covers.
pub proof fn lemma_paint_twice(
    s: Seq<u32>,
    width: u32,
    first: spec_fn(int, int) -> bool,
    second: spec_fn(int, int) -> bool,
    both: spec_fn(int, int) -> bool,
    value: u32,
)
    requires
        forall|x: int, y: int| #[trigger] both(x, y) == (first(x, y) || second(x, y)),
    ensures
        paint(paint(s, width, first, value), width, second, value) == paint(s, width, both, value),
{
    assert(paint(paint(s, width, first, value), width, second, value) =~= paint(s, width, both, value));
}

/// Painting with a cover that holds of no pixel leaves the buffer as it is.
pub proof fn lemma_paint_nothing(s: Seq<u32>, width: u32, cover: spec_fn(int, int) -> bool, value: u32)
    requires
        forall|x: int, y: int| !#[trigger] cover(x, y),
    ensures
        paint(s, width, cover, value) == s,
{
    assert(paint(s, width, cover, value) =~= s);
}

/// The index of pixel (x, y) of a row-major buffer with rows of `width` pixels
/// is `y * width + x`, and it is the only index that maps back to (x, y).
proof fn lemma_pixel_index(i: int, width: int, x: int, y: int)
    requires
        width > 0,
        0 <= x < width,
        0 <= i,
        0 <= y,
    ensures
        (i % width == x && i / width == y) <==> i == y * width + x,
{
    lemma_fundamental_div_mod(i, width);
    if i == y * width + x {
        lemma_fundamental_div_mod_converse(i, width, y, x);
    }
    if i % width == x && i / width == y {
        assert(width * y == y * width) by (nonlinear_arith);
    }
}

/// Set pixel (x, y) of a row-major buffer with rows of `width` pixels to the
/// color. A pixel past the end of its row or of the buffer is silently skipped.
pub fn set_pixel(width: u32, buffer: &mut Vec<u32>, x: u32, y: u32, color: Color)
    ensures
        final(buffer)@ == paint(old(buffer)@, width, |px: int, py: int| px == x && py == y, color.spec_as_u32()),
{
    let ghost cover = |px: int, py: int| px == x && py == y;
    if x < width {
        assert(y as int * width as int <= 0xffff_ffff * 0xffff_ffff) by (nonlinear_arith)
            requires
                y <= 0xffff_ffff,
                width <= 0xffff_ffff,
        ;
        let index: u64 = y as u64 * width as u64 + x as u64;
        if index < buffer.len() as u64 {
            buffer[index as usize] = color.as_u32();
        }
        proof {
            assert forall|i: int| 0 <= i < old(buffer)@.len() implies (#[trigger] (i % width as int) == x as int
                && i / width as int == y as int) <==> i == index as int by {
                lemma_pixel_index(i, width as int, x as int, y as int);
            }
        }
    } else {
        proof {
            assert forall|i: int| 0 <= i < old(buffer)@.len() && width > 0 implies #[trigger] (i
                % width as int) != x as int by {
                lemma_mod_bound(i, width as int);
            }
        }
    }
    assert(buffer@ =~= paint(old(buffer)@, width, cover, color.spec_as_u32()));
}

} // verus!
