//! The frame: the picture's bytes as they are assembled.
//!
//! A frame is made for a family, a grid and a cutoff, and starts empty. The
//! pixels are painted in the grid's visiting order: the frame names the next
//! position, the caller evaluates the orbit that belongs to it and hands in
//! the iteration count, and the frame appends the four bytes of its colour.
//! When every position has been painted the bytes are the finished picture,
//! `2W` pixels wide and `2H` high.
use vstd::prelude::*;
use crate::color::{color, color_of};
use crate::grid::{Extent, Grid, Pixel};
use crate::variant::Variant;

verus! {

/// What a frame holds, as mathematical values.
pub struct Picture {
    pub variant: Variant,
    pub extent: Extent,
    pub cutoff: nat,
    /// The bytes of the pixels painted so far, four for each.
    pub bytes: Seq<u8>,
}

impl Picture {
    /// The picture before any pixel was painted.
    pub open spec fn blank(variant: Variant, extent: Extent, cutoff: nat) -> Picture {
        Picture { variant, extent, cutoff, bytes: Seq::empty() }
    }

    /// The extent is valid, the bytes are whole pixels, and there are no more
    /// of them than the grid has room for.
    pub open spec fn valid(self) -> bool {
        &&& self.extent.valid()
        &&& self.bytes.len() % 4 == 0
        &&& self.bytes.len() <= self.extent.byte_len()
    }

    /// The number of pixels painted so far.
    pub open spec fn painted(self) -> int {
        self.bytes.len() as int / 4
    }

    /// Whether every pixel of the grid has been painted.
    pub open spec fn complete(self) -> bool {
        self.bytes.len() == self.extent.byte_len()
    }

    /// The picture after the next pixel was painted for an iteration count:
    /// the four channels of the count's colour are appended. A complete
    /// picture stays as it is.
    pub open spec fn paint(self, count: u32) -> Picture {
        if self.complete() {
            self
        } else {
            Picture {
                bytes: self.bytes + color_of(self.variant, count as nat, self.cutoff).channels(),
                ..self
            }
        }
    }

    /// The picture after one pixel was painted for each of the counts, in
    /// their order.
    pub open spec fn paint_all(self, counts: Seq<u32>) -> Picture
        decreases counts.len(),
    {
        if counts.len() == 0 {
            self
        } else {
            self.paint_all(counts.drop_last()).paint(counts.last())
        }
    }
}

/// The bytes of a run of pixels, given the iteration count of each: byte
/// `4k + j` is channel `j` of the colour of count `k`.
pub open spec fn pixel_bytes(variant: Variant, cutoff: nat, counts: Seq<u32>) -> Seq<u8> {
    Seq::new(
        4 * counts.len(),
        |i: int| color_of(variant, counts[i / 4] as nat, cutoff).channels()[i % 4],
    )
}

/// Painting keeps a picture valid.
pub proof fn lemma_paint_valid(picture: Picture, count: u32)
    requires
        picture.valid(),
    ensures
        picture.paint(count).valid(),
        !picture.complete() ==> picture.paint(count).painted() == picture.painted() + 1,
{
}

/// One more count adds the four channels of its colour to the bytes of a run
/// of pixels.
pub proof fn lemma_pixel_bytes_push(variant: Variant, cutoff: nat, counts: Seq<u32>, count: u32)
    ensures
        pixel_bytes(variant, cutoff, counts.push(count)) == pixel_bytes(variant, cutoff, counts)
            + color_of(variant, count as nat, cutoff).channels(),
{
    let longer = pixel_bytes(variant, cutoff, counts.push(count));
    let joined = pixel_bytes(variant, cutoff, counts) + color_of(
        variant,
        count as nat,
        cutoff,
    ).channels();
    assert(longer.len() == joined.len());
    assert forall|i: int| 0 <= i < longer.len() implies longer[i] == joined[i] by {
        if i < 4 * counts.len() {
            assert(counts.push(count)[i / 4] == counts[i / 4]);
        } else {
            assert(i / 4 == counts.len());
            assert(i % 4 == i - 4 * counts.len());
        }
    }
    assert(longer =~= joined);
}

proof fn lemma_paint_all_bytes(blank: Picture, room: int, counts: Seq<u32>)
    requires
        blank.bytes.len() == 0,
        blank.extent.byte_len() == 4 * room,
        counts.len() <= room,
    ensures
        blank.paint_all(counts) == (Picture {
            bytes: pixel_bytes(blank.variant, blank.cutoff, counts),
            ..blank
        }),
    decreases counts.len(),
{
    if counts.len() == 0 {
        assert(blank.bytes =~= pixel_bytes(blank.variant, blank.cutoff, counts));
    } else {
        let before = counts.drop_last();
        lemma_paint_all_bytes(blank, room, before);
        lemma_pixel_bytes_push(blank.variant, blank.cutoff, before, counts.last());
        assert(before.push(counts.last()) =~= counts);
    }
}

/// Painted from blank with no more counts than the grid has pixels, a picture
/// is valid and holds exactly the bytes of those counts' colours, pixel after
/// pixel; it is complete when there is a count for every pixel.
pub proof fn lemma_paint_all(variant: Variant, extent: Extent, cutoff: nat, counts: Seq<u32>)
    requires
        extent.valid(),
        counts.len() <= extent.pixel_count(),
    ensures
        Picture::blank(variant, extent, cutoff).paint_all(counts).valid(),
        Picture::blank(variant, extent, cutoff).paint_all(counts).bytes == pixel_bytes(
            variant,
            cutoff,
            counts,
        ),
        Picture::blank(variant, extent, cutoff).paint_all(counts).complete() <==> counts.len()
            == extent.pixel_count(),
{
    lemma_paint_all_bytes(Picture::blank(variant, extent, cutoff), extent.pixel_count(), counts);
}

/// A frame under assembly.
pub struct Frame {
    variant: Variant,
    grid: Grid,
    cutoff: u32,
    data: Vec<u8>,
}

impl View for Frame {
    type V = Picture;

    closed spec fn view(&self) -> Picture {
        Picture {
            variant: self.variant,
            extent: self.grid@,
            cutoff: self.cutoff as nat,
            bytes: self.data@,
        }
    }
}

impl Frame {
    /// Every frame holds a valid picture.
    #[verifier::type_invariant]
    pub open spec fn well_formed(self) -> bool {
        self@.valid()
    }

    /// Makes the empty frame of a family, a grid and a cutoff.
    pub fn new(variant: Variant, grid: Grid, cutoff: u32) -> (frame: Frame)
        ensures
            frame@ == Picture::blank(variant, grid@, cutoff as nat),
            frame@.valid(),
    {
        proof {
            use_type_invariant(grid);
        }
        let data: Vec<u8> = Vec::with_capacity(grid.byte_len());
        Frame { variant, grid, cutoff, data }
    }

    /// The family that the frame is painted for.
    pub fn variant(&self) -> (variant: Variant)
        ensures
            variant == self@.variant,
    {
        self.variant
    }

    /// The grid whose pixels the frame holds.
    pub fn grid(&self) -> (grid: Grid)
        ensures
            grid@ == self@.extent,
    {
        self.grid
    }

    /// The cutoff under which the counts are coloured.
    pub fn cutoff(&self) -> (cutoff: u32)
        ensures
            cutoff == self@.cutoff,
    {
        self.cutoff
    }

    /// The width in pixels of the picture that the bytes are rows of, `2W`.
    pub fn width(&self) -> (width: u32)
        ensures
            width == self@.extent.image_width(),
    {
        self.grid.image_width()
    }

    /// The height in pixels of the picture that the bytes are rows of, `2H`.
    pub fn height(&self) -> (height: u32)
        ensures
            height == self@.extent.image_height(),
    {
        self.grid.image_height()
    }

    /// Whether every pixel has been painted.
    pub fn is_complete(&self) -> (complete: bool)
        ensures
            complete == self@.complete(),
    {
        self.data.len() == self.grid.byte_len()
    }

    /// The position that the next count is painted for: the one that the
    /// grid visits after those already painted. There is none once the frame
    /// is complete.
    pub fn next_pixel(&self) -> (pixel: Option<Pixel>)
        ensures
            pixel.is_some() <==> !self@.complete(),
            pixel matches Some(p) ==> p == self@.extent.pixel_at(self@.painted())
                && self@.extent.contains(p.x as int, p.y as int),
    {
        proof {
            use_type_invariant(self);
        }
        self.grid.pixel_at(self.data.len() / 4)
    }

    /// Paints the next pixel for an iteration count, and says whether it did:
    /// a complete frame takes no more and stays as it is.
    pub fn paint(&mut self, count: u32) -> (painted: bool)
        ensures
            painted == !old(self)@.complete(),
            final(self)@ == old(self)@.paint(count),
            final(self)@.valid(),
    {
        proof {
            use_type_invariant(&*self);
        }
        if self.data.len() == self.grid.byte_len() {
            return false;
        }
        let rgba = color(self.variant, count, self.cutoff);
        let mut data: Vec<u8> = Vec::new();
        std::mem::swap(&mut data, &mut self.data);
        let channels = rgba.to_bytes();
        data.push(channels[0]);
        data.push(channels[1]);
        data.push(channels[2]);
        data.push(channels[3]);
        assert(data@ =~= old(self)@.bytes + rgba.channels());
        self.data = data;
        true
    }

    /// The bytes painted so far.
    pub fn as_bytes(&self) -> (bytes: &[u8])
        ensures
            bytes@ == self@.bytes,
    {
        self.data.as_slice()
    }

    /// Gives up the frame for its bytes. Of a complete frame they are the
    /// whole picture: four bytes for each pixel of its width times its
    /// height.
    pub fn into_bytes(self) -> (bytes: Vec<u8>)
        ensures
            bytes@ == self@.bytes,
            self@.complete() ==> bytes@.len() == 4 * (self@.extent.image_width()
                * self@.extent.image_height()),
    {
        self.data
    }
}

} // verus!
