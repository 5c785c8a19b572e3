//! The finished picture, as a function of the parameters and the orbits.
//!
//! All that a picture takes from the complex arithmetic is, for each position
//! and each `k`, whether the point that the position's orbit reaches after
//! `k` applications of the recurrence has escaped. Given that as a function
//! `escapes(x, y, k)`, the picture is fixed: each position's iteration count,
//! the colour of each count, and the place of each colour among the bytes.
//! The laws of the finished picture are stated here over that function.
use vstd::prelude::*;
use crate::color::{color_of, opaque_black};
use crate::escape::{
    escape_count,
    lemma_count_monotone_in_cutoff,
    lemma_escape_count,
    lemma_escape_count_unique,
};
use crate::frame::{lemma_paint_all, lemma_pixel_bytes_push, pixel_bytes, Frame, Picture};
use crate::grid::{
    lemma_index_within_count,
    lemma_position_of_index,
    lemma_position_within_grid,
    Extent,
    Grid,
    Pixel,
};
use crate::variant::Variant;

verus! {

/// The orbit of one position: `k` is taken to whether the point after `k`
/// applications has escaped.
pub open spec fn orbit_of(escapes: spec_fn(int, int, nat) -> bool, x: int, y: int) -> spec_fn(
    nat,
) -> bool {
    |k: nat| escapes(x, y, k)
}

/// The iteration count of one position.
pub open spec fn count_at(
    escapes: spec_fn(int, int, nat) -> bool,
    cutoff: u32,
    x: int,
    y: int,
) -> nat {
    escape_count(orbit_of(escapes, x, y), cutoff as nat)
}

/// The iteration counts of all positions of a grid, in visiting order.
pub open spec fn counts_of(
    extent: Extent,
    cutoff: u32,
    escapes: spec_fn(int, int, nat) -> bool,
) -> Seq<u32> {
    Seq::new(
        extent.pixel_count() as nat,
        |i: int| count_at(escapes, cutoff, extent.x_at(i), extent.y_at(i)) as u32,
    )
}

/// The bytes of the finished picture.
pub open spec fn rendered(
    variant: Variant,
    extent: Extent,
    cutoff: u32,
    escapes: spec_fn(int, int, nat) -> bool,
) -> Seq<u8> {
    pixel_bytes(variant, cutoff as nat, counts_of(extent, cutoff, escapes))
}

/// The iteration count of every position is within the cutoff.
pub proof fn lemma_counts_within_cutoff(
    extent: Extent,
    cutoff: u32,
    escapes: spec_fn(int, int, nat) -> bool,
)
    requires
        extent.valid(),
    ensures
        counts_of(extent, cutoff, escapes).len() == extent.pixel_count(),
        forall|i: int|
            0 <= i < extent.pixel_count() ==> #[trigger] counts_of(extent, cutoff, escapes)[i]
                <= cutoff,
        forall|x: int, y: int| #[trigger] count_at(escapes, cutoff, x, y) <= cutoff,
{
    assert forall|x: int, y: int| #[trigger] count_at(escapes, cutoff, x, y) <= cutoff by {
        lemma_escape_count(orbit_of(escapes, x, y), cutoff as nat);
    }
    assert(0 <= extent.pixel_count()) by (nonlinear_arith)
        requires
            extent.valid(),
    ;
}

/// Raising the cutoff never lowers the iteration count of a position.
pub proof fn lemma_count_at_monotone(
    escapes: spec_fn(int, int, nat) -> bool,
    smaller: u32,
    larger: u32,
    x: int,
    y: int,
)
    requires
        smaller <= larger,
    ensures
        count_at(escapes, smaller, x, y) <= count_at(escapes, larger, x, y),
{
    lemma_count_monotone_in_cutoff(orbit_of(escapes, x, y), smaller as nat, larger as nat);
}

/// A frame that is painted from blank with every position's iteration count,
/// in visiting order, ends complete and holding the finished picture.
pub proof fn lemma_painted_is_rendered(
    variant: Variant,
    extent: Extent,
    cutoff: u32,
    escapes: spec_fn(int, int, nat) -> bool,
)
    requires
        extent.valid(),
    ensures
        Picture::blank(variant, extent, cutoff as nat).paint_all(
            counts_of(extent, cutoff, escapes),
        ).complete(),
        Picture::blank(variant, extent, cutoff as nat).paint_all(
            counts_of(extent, cutoff, escapes),
        ).bytes == rendered(variant, extent, cutoff, escapes),
{
    lemma_counts_within_cutoff(extent, cutoff, escapes);
    lemma_paint_all(variant, extent, cutoff as nat, counts_of(extent, cutoff, escapes));
}

/// The finished picture has four bytes for each pixel of its width times its
/// height.
pub proof fn lemma_rendered_len(
    variant: Variant,
    extent: Extent,
    cutoff: u32,
    escapes: spec_fn(int, int, nat) -> bool,
)
    requires
        extent.valid(),
    ensures
        rendered(variant, extent, cutoff, escapes).len() == 4 * (extent.image_width()
            * extent.image_height()),
{
    lemma_counts_within_cutoff(extent, cutoff, escapes);
}

/// The four bytes of a position stand at four times its place in the visiting
/// order, and are the channels of the colour of its iteration count.
pub proof fn lemma_rendered_pixel(
    variant: Variant,
    extent: Extent,
    cutoff: u32,
    escapes: spec_fn(int, int, nat) -> bool,
    x: int,
    y: int,
)
    requires
        extent.valid(),
        extent.contains(x, y),
    ensures
        4 * extent.index_of(x, y) + 4 <= rendered(variant, extent, cutoff, escapes).len(),
        rendered(variant, extent, cutoff, escapes).subrange(
            4 * extent.index_of(x, y),
            4 * extent.index_of(x, y) + 4,
        ) == color_of(variant, count_at(escapes, cutoff, x, y), cutoff as nat).channels(),
{
    let index = extent.index_of(x, y);
    let bytes = rendered(variant, extent, cutoff, escapes);
    let channels = color_of(variant, count_at(escapes, cutoff, x, y), cutoff as nat).channels();
    lemma_index_within_count(extent, x, y);
    lemma_position_of_index(extent, x, y);
    lemma_counts_within_cutoff(extent, cutoff, escapes);
    let counts = counts_of(extent, cutoff, escapes);
    assert(counts[index] == count_at(escapes, cutoff, x, y));
    let part = bytes.subrange(4 * index, 4 * index + 4);
    assert forall|j: int| 0 <= j < 4 implies part[j] == channels[j] by {
        assert((4 * index + j) / 4 == index);
        assert((4 * index + j) % 4 == j);
    }
    assert(part =~= channels);
}

/// Every pixel of the finished picture is opaque: each fourth byte is 255.
pub proof fn lemma_rendered_opaque(
    variant: Variant,
    extent: Extent,
    cutoff: u32,
    escapes: spec_fn(int, int, nat) -> bool,
)
    requires
        extent.valid(),
    ensures
        forall|i: int|
            0 <= i < extent.pixel_count() ==> #[trigger] rendered(
                variant,
                extent,
                cutoff,
                escapes,
            )[4 * i + 3] == 255,
{
    lemma_counts_within_cutoff(extent, cutoff, escapes);
    let bytes = rendered(variant, extent, cutoff, escapes);
    assert forall|i: int| 0 <= i < extent.pixel_count() implies #[trigger] bytes[4 * i + 3]
        == 255 by {
        assert((4 * i + 3) / 4 == i);
        assert((4 * i + 3) % 4 == 3);
    }
}

/// In a Mandelbrot or Burning Ship picture, a position whose iteration count
/// equals the cutoff is opaque black.
pub proof fn lemma_interior_is_black(
    variant: Variant,
    extent: Extent,
    cutoff: u32,
    escapes: spec_fn(int, int, nat) -> bool,
    x: int,
    y: int,
)
    requires
        extent.valid(),
        extent.contains(x, y),
        variant != Variant::Julia,
        count_at(escapes, cutoff, x, y) == cutoff,
    ensures
        rendered(variant, extent, cutoff, escapes).subrange(
            4 * extent.index_of(x, y),
            4 * extent.index_of(x, y) + 4,
        ) == opaque_black().channels(),
{
    lemma_rendered_pixel(variant, extent, cutoff, escapes, x, y);
}

/// The finished picture is determined by the family, the grid, the cutoff and
/// what the orbits do below the cutoff: two accounts of the orbits that agree
/// on every position of the grid and every `k` below the cutoff give the same
/// bytes.
pub proof fn lemma_rendered_determined(
    variant: Variant,
    extent: Extent,
    cutoff: u32,
    first: spec_fn(int, int, nat) -> bool,
    second: spec_fn(int, int, nat) -> bool,
)
    requires
        extent.valid(),
        forall|x: int, y: int, k: nat|
            extent.contains(x, y) && k < cutoff ==> #[trigger] first(x, y, k) == second(x, y, k),
    ensures
        rendered(variant, extent, cutoff, first) == rendered(variant, extent, cutoff, second),
{
    let a = counts_of(extent, cutoff, first);
    let b = counts_of(extent, cutoff, second);
    lemma_counts_within_cutoff(extent, cutoff, first);
    lemma_counts_within_cutoff(extent, cutoff, second);
    assert forall|i: int| 0 <= i < extent.pixel_count() implies a[i] == b[i] by {
        let x = extent.x_at(i);
        let y = extent.y_at(i);
        lemma_position_within_grid(extent, i);
        let count = count_at(first, cutoff, x, y);
        lemma_escape_count(orbit_of(first, x, y), cutoff as nat);
        assert forall|k: nat| k < count implies !#[trigger] orbit_of(second, x, y)(k) by {
            assert(!orbit_of(first, x, y)(k));
            assert(first(x, y, k) == second(x, y, k));
        }
        if count < cutoff {
            assert(orbit_of(first, x, y)(count));
            assert(first(x, y, count) == second(x, y, count));
        }
        lemma_escape_count_unique(orbit_of(second, x, y), cutoff as nat, count);
    }
    assert(a =~= b);
}

/// Whether `counts` holds, for each position of the grid in visiting order,
/// a count that `count_of` gave for it.
pub open spec fn counted<F: Fn(Pixel) -> u32>(
    counts: Seq<u32>,
    extent: Extent,
    count_of: F,
) -> bool {
    &&& counts.len() == extent.pixel_count()
    &&& forall|i: int|
        #![trigger counts[i]]
        0 <= i < counts.len() ==> call_ensures(count_of, (extent.pixel_at(i),), counts[i])
}

/// Where `count_of` can give each position nothing but its iteration count,
/// the bytes of the counts that it gave are the finished picture.
pub proof fn lemma_counted_is_rendered<F: Fn(Pixel) -> u32>(
    variant: Variant,
    extent: Extent,
    cutoff: u32,
    escapes: spec_fn(int, int, nat) -> bool,
    counts: Seq<u32>,
    count_of: F,
)
    requires
        extent.valid(),
        counted(counts, extent, count_of),
        forall|i: int, count: u32|
            0 <= i < extent.pixel_count() && #[trigger] call_ensures(
                count_of,
                (extent.pixel_at(i),),
                count,
            ) ==> count == count_at(escapes, cutoff, extent.x_at(i), extent.y_at(i)),
    ensures
        pixel_bytes(variant, cutoff as nat, counts) == rendered(variant, extent, cutoff, escapes),
{
    lemma_counts_within_cutoff(extent, cutoff, escapes);
    assert(counts =~= counts_of(extent, cutoff, escapes));
}

/// Renders a whole picture: each position of the grid is visited in order,
/// `count_of` gives its iteration count, and the count's colour is appended
/// to the frame.
pub fn render<F: Fn(Pixel) -> u32>(
    variant: Variant,
    grid: Grid,
    cutoff: u32,
    count_of: F,
) -> (frame: Frame)
    requires
        forall|pixel: Pixel|
            grid@.contains(pixel.x as int, pixel.y as int) ==> call_requires(count_of, (pixel,)),
    ensures
        frame@.variant == variant,
        frame@.extent == grid@,
        frame@.cutoff == cutoff,
        frame@.complete(),
        exists|counts: Seq<u32>|
            #[trigger] counted(counts, grid@, count_of) && frame@.bytes == pixel_bytes(
                variant,
                cutoff as nat,
                counts,
            ),
{
    let mut frame = Frame::new(variant, grid, cutoff);
    let ghost mut counts: Seq<u32> = Seq::empty();
    assert(frame@.bytes =~= pixel_bytes(variant, cutoff as nat, counts));
    let mut next = frame.next_pixel();
    while next.is_some()
        invariant
            forall|pixel: Pixel|
                grid@.contains(pixel.x as int, pixel.y as int) ==> call_requires(
                    count_of,
                    (pixel,),
                ),
            frame@.variant == variant,
            frame@.extent == grid@,
            frame@.cutoff == cutoff,
            frame@.valid(),
            frame@.bytes == pixel_bytes(variant, cutoff as nat, counts),
            next.is_some() <==> !frame@.complete(),
            next matches Some(p) ==> p == grid@.pixel_at(counts.len() as int) && grid@.contains(
                p.x as int,
                p.y as int,
            ),
            forall|i: int|
                #![trigger counts[i]]
                0 <= i < counts.len() ==> call_ensures(count_of, (grid@.pixel_at(i),), counts[i]),
        decreases grid@.byte_len() - frame@.bytes.len(),
    {
        let pixel = next.unwrap();
        let count = count_of(pixel);
        frame.paint(count);
        proof {
            lemma_pixel_bytes_push(variant, cutoff as nat, counts, count);
            counts = counts.push(count);
        }
        next = frame.next_pixel();
    }
    assert(counted(counts, grid@, count_of));
    frame
}

} // verus!
