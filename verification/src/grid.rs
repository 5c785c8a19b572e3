//! The pixel grid and the order in which its pixels are visited.
//!
//! A grid of extent `W` by `H` holds the positions `(x, y)` with
//! `-W <= x < W` and `-H <= y < H`, so the picture made on it is `2W` pixels
//! wide and `2H` high. The positions are visited with `x` outermost: all
//! `y` of one `x` come before the next `x`.
use vstd::prelude::*;
use vstd::arithmetic::div_mod::{
    lemma_fundamental_div_mod,
    lemma_fundamental_div_mod_converse,
    lemma_mod_bound,
    lemma_multiply_divide_lt,
};

verus! {

/// A pixel position.
#[derive(Clone, Copy, Debug, PartialEq, Eq, Structural)]
pub struct Pixel {
    pub x: i32,
    pub y: i32,
}

/// The two extents of a grid, as mathematical integers.
pub struct Extent {
    pub width: int,
    pub height: int,
}

impl Extent {
    /// Both extents are at least 2, and the picture's bytes can be held in
    /// memory.
    pub open spec fn valid(self) -> bool {
        &&& 2 <= self.width <= i32::MAX
        &&& 2 <= self.height <= i32::MAX
        &&& self.byte_len() <= isize::MAX
    }

    /// The width of the picture in pixels.
    pub open spec fn image_width(self) -> int {
        2 * self.width
    }

    /// The height of the picture in pixels.
    pub open spec fn image_height(self) -> int {
        2 * self.height
    }

    /// The number of pixels of the picture.
    pub open spec fn pixel_count(self) -> int {
        self.image_width() * self.image_height()
    }

    /// The number of bytes of the picture: four for each pixel.
    pub open spec fn byte_len(self) -> int {
        4 * self.pixel_count()
    }

    /// Whether a position lies on the grid.
    pub open spec fn contains(self, x: int, y: int) -> bool {
        &&& -self.width <= x < self.width
        &&& -self.height <= y < self.height
    }

    /// The place of a position in the visiting order, counted from zero.
    pub open spec fn index_of(self, x: int, y: int) -> int {
        (x + self.width) * self.image_height() + (y + self.height)
    }

    /// The `x` of the position visited at a place.
    pub open spec fn x_at(self, index: int) -> int {
        index / self.image_height() - self.width
    }

    /// The `y` of the position visited at a place.
    pub open spec fn y_at(self, index: int) -> int {
        index % self.image_height() - self.height
    }

    /// The position visited at a place.
    pub open spec fn pixel_at(self, index: int) -> Pixel {
        Pixel { x: self.x_at(index) as i32, y: self.y_at(index) as i32 }
    }
}

/// Every position on the grid has a place below the number of pixels.
pub proof fn lemma_index_within_count(extent: Extent, x: int, y: int)
    requires
        extent.valid(),
        extent.contains(x, y),
    ensures
        0 <= extent.index_of(x, y) < extent.pixel_count(),
{
    let column = x + extent.width;
    let rows = extent.image_height();
    assert(0 <= column * rows) by (nonlinear_arith)
        requires
            0 <= column,
            0 <= rows,
    ;
    assert(column * rows + rows <= extent.image_width() * rows) by (nonlinear_arith)
        requires
            column + 1 <= extent.image_width(),
            0 <= rows,
    ;
}

/// Every place below the number of pixels is that of a position on the grid.
pub proof fn lemma_position_within_grid(extent: Extent, index: int)
    requires
        extent.valid(),
        0 <= index < extent.pixel_count(),
    ensures
        extent.contains(extent.x_at(index), extent.y_at(index)),
        extent.pixel_at(index).x == extent.x_at(index),
        extent.pixel_at(index).y == extent.y_at(index),
{
    let rows = extent.image_height();
    lemma_mod_bound(index, rows);
    lemma_fundamental_div_mod(index, rows);
    assert(index < rows * extent.image_width()) by (nonlinear_arith)
        requires
            index < extent.image_width() * rows,
    ;
    lemma_multiply_divide_lt(index, rows, extent.image_width());
    assert(0 <= index / rows) by (nonlinear_arith)
        requires
            0 <= index,
            0 < rows,
    ;
}

/// The position visited at a place has that place.
pub proof fn lemma_index_of_position(extent: Extent, index: int)
    requires
        extent.valid(),
        0 <= index < extent.pixel_count(),
    ensures
        extent.index_of(extent.x_at(index), extent.y_at(index)) == index,
{
    let rows = extent.image_height();
    lemma_fundamental_div_mod(index, rows);
    assert((index / rows) * rows == rows * (index / rows)) by (nonlinear_arith);
}

/// At the place of a position, that position is visited.
pub proof fn lemma_position_of_index(extent: Extent, x: int, y: int)
    requires
        extent.valid(),
        extent.contains(x, y),
    ensures
        extent.x_at(extent.index_of(x, y)) == x,
        extent.y_at(extent.index_of(x, y)) == y,
{
    let rows = extent.image_height();
    lemma_fundamental_div_mod_converse(
        extent.index_of(x, y),
        rows,
        x + extent.width,
        y + extent.height,
    );
}

/// The visiting order is `x` outermost, `y` innermost: of two positions on
/// the grid, the one with the smaller `x` is visited first, and of two with
/// the same `x`, the one with the smaller `y`.
pub proof fn lemma_scan_order(extent: Extent, x1: int, y1: int, x2: int, y2: int)
    requires
        extent.valid(),
        extent.contains(x1, y1),
        extent.contains(x2, y2),
    ensures
        extent.index_of(x1, y1) < extent.index_of(x2, y2) <==> (x1 < x2 || (x1 == x2 && y1 < y2)),
{
    let rows = extent.image_height();
    let c1 = x1 + extent.width;
    let c2 = x2 + extent.width;
    if c1 < c2 {
        assert(c1 * rows + rows <= c2 * rows) by (nonlinear_arith)
            requires
                c1 + 1 <= c2,
                0 <= rows,
        ;
    } else if c2 < c1 {
        assert(c2 * rows + rows <= c1 * rows) by (nonlinear_arith)
            requires
                c2 + 1 <= c1,
                0 <= rows,
        ;
    }
}

/// A grid whose extents were found valid.
#[derive(Clone, Copy, Debug)]
pub struct Grid {
    width: i32,
    height: i32,
}

impl View for Grid {
    type V = Extent;

    closed spec fn view(&self) -> Extent {
        Extent { width: self.width as int, height: self.height as int }
    }
}

impl Grid {
    /// Every grid has valid extents.
    #[verifier::type_invariant]
    pub open spec fn well_formed(self) -> bool {
        self@.valid()
    }

    /// Makes the grid of the given extents, where they are valid: both at
    /// least 2, and small enough for the picture's bytes to be held.
    pub fn new(width: i32, height: i32) -> (grid: Option<Grid>)
        ensures
            grid.is_some() <==> (Extent { width: width as int, height: height as int }).valid(),
            grid matches Some(g) ==> g@ == (Extent { width: width as int, height: height as int }),
    {
        if width < 2 || height < 2 {
            return None;
        }
        assert(0 <= width * height <= 0x3fff_ffff_0000_0001) by (nonlinear_arith)
            requires
                2 <= width <= 0x7fff_ffff,
                2 <= height <= 0x7fff_ffff,
        ;
        let area: u64 = width as u64 * height as u64;
        let limit: u64 = isize::MAX as u64 / 16;
        assert((2 * width) * (2 * height) * 4 == 16 * area) by (nonlinear_arith)
            requires
                area == width * height,
        ;
        if area > limit {
            return None;
        }
        Some(Grid { width, height })
    }

    /// The horizontal extent `W`: `x` ranges over `[-W, W)`.
    pub fn width(&self) -> (width: i32)
        ensures
            width == self@.width,
            self@.valid(),
    {
        proof {
            use_type_invariant(self);
        }
        self.width
    }

    /// The vertical extent `H`: `y` ranges over `[-H, H)`.
    pub fn height(&self) -> (height: i32)
        ensures
            height == self@.height,
            self@.valid(),
    {
        proof {
            use_type_invariant(self);
        }
        self.height
    }

    /// The width of the picture in pixels, `2W`.
    pub fn image_width(&self) -> (width: u32)
        ensures
            width == self@.image_width(),
    {
        proof {
            use_type_invariant(self);
        }
        2 * (self.width as u32)
    }

    /// The height of the picture in pixels, `2H`.
    pub fn image_height(&self) -> (height: u32)
        ensures
            height == self@.image_height(),
    {
        proof {
            use_type_invariant(self);
        }
        2 * (self.height as u32)
    }

    /// The number of pixels of the picture.
    pub fn pixel_count(&self) -> (count: usize)
        ensures
            count == self@.pixel_count(),
    {
        proof {
            use_type_invariant(self);
            self.lemma_sides_fit();
        }
        (2 * (self.width as usize)) * (2 * (self.height as usize))
    }

    /// The number of bytes of the picture.
    pub fn byte_len(&self) -> (len: usize)
        ensures
            len == self@.byte_len(),
    {
        proof {
            use_type_invariant(self);
        }
        4 * self.pixel_count()
    }

    /// Whether a position lies on the grid.
    pub fn contains(&self, pixel: Pixel) -> (inside: bool)
        ensures
            inside == self@.contains(pixel.x as int, pixel.y as int),
    {
        proof {
            use_type_invariant(self);
        }
        let across = -self.width <= pixel.x && pixel.x < self.width;
        let down = -self.height <= pixel.y && pixel.y < self.height;
        across && down
    }

    /// The place of a position in the visiting order, for a position on the
    /// grid.
    pub fn index_of(&self, pixel: Pixel) -> (index: Option<usize>)
        ensures
            index.is_some() <==> self@.contains(pixel.x as int, pixel.y as int),
            index matches Some(i) ==> i == self@.index_of(pixel.x as int, pixel.y as int),
    {
        if !self.contains(pixel) {
            return None;
        }
        proof {
            use_type_invariant(self);
            self.lemma_sides_fit();
            lemma_index_within_count(self@, pixel.x as int, pixel.y as int);
        }
        let column: usize = (pixel.x as i64 + self.width as i64) as usize;
        let row: usize = (pixel.y as i64 + self.height as i64) as usize;
        let rows: usize = 2 * (self.height as usize);
        assert(0 <= column * rows <= self@.index_of(pixel.x as int, pixel.y as int))
            by (nonlinear_arith)
            requires
                0 <= column,
                0 <= rows,
                0 <= row,
                self@.index_of(pixel.x as int, pixel.y as int) == column * rows + row,
        ;
        Some(column * rows + row)
    }

    /// The position visited at a place, for a place below the number of
    /// pixels.
    pub fn pixel_at(&self, index: usize) -> (pixel: Option<Pixel>)
        ensures
            pixel.is_some() <==> index < self@.pixel_count(),
            pixel matches Some(p) ==> p == self@.pixel_at(index as int) && self@.contains(
                p.x as int,
                p.y as int,
            ),
    {
        if index >= self.pixel_count() {
            return None;
        }
        proof {
            use_type_invariant(self);
            self.lemma_sides_fit();
            lemma_position_within_grid(self@, index as int);
        }
        let rows: usize = 2 * (self.height as usize);
        let column: usize = index / rows;
        let row: usize = index % rows;
        Some(
            Pixel {
                x: (column as i64 - self.width as i64) as i32,
                y: (row as i64 - self.height as i64) as i32,
            },
        )
    }

    /// Each side of the picture, and their product, is within the limit on
    /// its bytes.
    proof fn lemma_sides_fit(self)
        requires
            self@.valid(),
        ensures
            self@.image_width() <= self@.pixel_count(),
            self@.image_height() <= self@.pixel_count(),
            self@.pixel_count() <= self@.byte_len() <= isize::MAX,
    {
        let w = self@.image_width();
        let h = self@.image_height();
        assert(w <= w * h && h <= w * h) by (nonlinear_arith)
            requires
                1 <= w,
                1 <= h,
        ;
    }
}

} // verus!
