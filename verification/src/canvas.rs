//! The canvas: a grid of pixels that keeps everything painted on it.

use crate::brush::Radius;
use crate::color::{lemma_word_round_trip, Color};
use crate::geometry::{
    centre_coordinate, in_band, in_disc, lemma_stroke_is_neighbourhood_of_segment, near_segment,
    pixel_centre, Point, Position, Shape, HALF_PIXEL, MAX_SIDE, UNITS_PER_PIXEL,
};
use vstd::arithmetic::div_mod::{lemma_fundamental_div_mod, lemma_multiply_divide_lt};
use vstd::prelude::*;

verus! {

/// What a canvas holds, as the contracts see it: its size and its pixels row
/// by row, the top row first.
pub struct Raster {
    pub width: nat,
    pub height: nat,
    pub pixels: Seq<Color>,
}

impl Raster {
    /// There is exactly one pixel for every column of every row.
    pub open spec fn well_formed(self) -> bool {
        self.pixels.len() == self.width * self.height
    }

    /// Whether the grid has a pixel in column `col` of row `row`.
    pub open spec fn holds(self, col: int, row: int) -> bool {
        0 <= col < self.width && 0 <= row < self.height
    }

    /// The pixel in column `col` of row `row`.
    pub open spec fn at(self, col: int, row: int) -> Color {
        self.pixels[row * self.width + col]
    }

    /// Whether two grids have the same size.
    pub open spec fn same_frame(self, other: Raster) -> bool {
        &&& self.width == other.width
        &&& self.height == other.height
        &&& self.pixels.len() == other.pixels.len()
    }

    /// Whether this grid is `before` with `color` laid on every pixel whose
    /// centre lies in `region`, and with every other pixel as it was.
    pub open spec fn overpaints(
        self,
        before: Raster,
        region: spec_fn(Position) -> bool,
        color: Color,
    ) -> bool {
        &&& self.same_frame(before)
        &&& forall|col: int, row: int|
            self.holds(col, row) ==> #[trigger] self.at(col, row) == if region(
                pixel_centre(col, row),
            ) {
                color
            } else {
                before.at(col, row)
            }
    }

    /// The pixels as 32-bit numbers, row by row.
    pub open spec fn words(self) -> Seq<u32> {
        self.pixels.map_values(|color: Color| color.word() as u32)
    }

    /// The grid of the given size whose pixels are the colours that `words`
    /// stand for.
    pub open spec fn of_words(width: nat, height: nat, words: Seq<u32>) -> Raster {
        Raster {
            width,
            height,
            pixels: words.map_values(|word: u32| Color::of_word(word as int)),
        }
    }

    /// A grid of the given size with every pixel of one colour.
    pub open spec fn blank(width: nat, height: nat, color: Color) -> Raster {
        Raster { width, height, pixels: Seq::new(width * height, |i: int| color) }
    }
}

/// A grid of pixels of a fixed size.
pub struct Canvas {
    pub(crate) width: usize,
    pub(crate) height: usize,
    pub(crate) pixels: Vec<Color>,
}

impl View for Canvas {
    type V = Raster;

    open(crate) spec fn view(&self) -> Raster {
        Raster { width: self.width as nat, height: self.height as nat, pixels: self.pixels@ }
    }
}

/// The pixel in a column of a row has a place among the pixels.
proof fn lemma_slot(width: int, height: int, col: int, row: int)
    by (nonlinear_arith)
    requires
        0 <= col < width,
        0 <= row < height,
    ensures
        0 <= row * width + col < width * height,
{
}

/// Different pixels have different places.
proof fn lemma_slots_differ(width: int, col: int, row: int, other_col: int, other_row: int)
    by (nonlinear_arith)
    requires
        0 <= col < width,
        0 <= other_col < width,
        col != other_col || row != other_row,
    ensures
        row * width + col != other_row * width + other_col,
{
}

/// Index of the first of `side` pixels in a line whose centre lies at the
/// coordinate `least` or beyond it; `side` where there is none.
fn first_index_from(least: i64, side: usize) -> (result: usize)
    requires
        side <= MAX_SIDE,
    ensures
        result <= side,
        forall|i: int| 0 <= i < result ==> #[trigger] centre_coordinate(i) < least,
        forall|i: int| result <= i < side ==> #[trigger] centre_coordinate(i) >= least,
{
    if least <= HALF_PIXEL as i64 {
        0
    } else {
        let index: i64 = (least - HALF_PIXEL as i64 - 1) / (UNITS_PER_PIXEL as i64) + 1;
        if index >= side as i64 {
            side
        } else {
            index as usize
        }
    }
}

/// Index just past the last of `side` pixels in a line whose centre lies at
/// the coordinate `greatest` or before it; zero where there is none.
fn end_index_up_to(greatest: i64, side: usize) -> (result: usize)
    requires
        side <= MAX_SIDE,
    ensures
        result <= side,
        forall|i: int| 0 <= i < result ==> #[trigger] centre_coordinate(i) <= greatest,
        forall|i: int| result <= i < side ==> #[trigger] centre_coordinate(i) > greatest,
{
    if greatest < HALF_PIXEL as i64 {
        0
    } else {
        let index: i64 = (greatest - HALF_PIXEL as i64) / (UNITS_PER_PIXEL as i64) + 1;
        if index >= side as i64 {
            side
        } else {
            index as usize
        }
    }
}

impl Canvas {
    #[verifier::type_invariant]
    pub open(crate) spec fn sized(self) -> bool {
        &&& self.width <= MAX_SIDE
        &&& self.height <= MAX_SIDE
        &&& self.width * self.height <= usize::MAX
        &&& self.pixels@.len() == self.width * self.height
    }

    /// Whether a canvas of this size can be made: neither side exceeds
    /// [`MAX_SIDE`], and the number of pixels can be counted.
    pub open spec fn fits(width: int, height: int) -> bool {
        &&& 0 <= width <= MAX_SIDE
        &&& 0 <= height <= MAX_SIDE
        &&& width * height <= usize::MAX
    }

    /// A canvas of `width` by `height` pixels, each of the colour `background`;
    /// `None` where no canvas of that size can be made.
    pub fn create(width: usize, height: usize, background: Color) -> (result: Option<Canvas>)
        ensures
            result.is_some() <==> Self::fits(width as int, height as int),
            result matches Some(canvas) ==> canvas@ == Raster::blank(
                width as nat,
                height as nat,
                background,
            ),
    {
        if width > MAX_SIDE || height > MAX_SIDE {
            return None;
        }
        let count: usize = match width.checked_mul(height) {
            Some(count) => count,
            None => {
                return None;
            },
        };
        let mut pixels: Vec<Color> = Vec::with_capacity(count);
        while pixels.len() < count
            invariant
                pixels@.len() <= count,
                forall|i: int| 0 <= i < pixels@.len() ==> pixels@[i] == background,
            decreases count - pixels@.len(),
        {
            pixels.push(background);
        }
        assert(pixels@ =~= Raster::blank(width as nat, height as nat, background).pixels);
        Some(Canvas { width, height, pixels })
    }

    /// Fills a region with one colour: every pixel whose centre the region
    /// holds takes the colour, and every other pixel stays as it was.
    pub fn composite(&mut self, shape: Shape, color: Color)
        ensures
            final(self)@.well_formed(),
            final(self)@.overpaints(old(self)@, shape.region(), color),
    {
        proof {
            use_type_invariant(&*self);
        }
        let ghost before = self@;
        let width: usize = self.width;
        let height: usize = self.height;
        let bounds = shape.bounding_box();
        let first_col: usize = first_index_from(bounds.left, width);
        let end_col: usize = end_index_up_to(bounds.right, width);
        let first_row: usize = first_index_from(bounds.top, height);
        let end_row: usize = end_index_up_to(bounds.bottom, height);
        let mut row: usize = first_row;
        while row < end_row
            invariant
                first_row <= row,
                end_row <= height <= MAX_SIDE,
                end_col <= width <= MAX_SIDE,
                width * height <= usize::MAX,
                self@.same_frame(before),
                self@.width == width,
                self@.height == height,
                self@.well_formed(),
                forall|c: int, r: int|
                    self@.holds(c, r) ==> #[trigger] self@.at(c, r) == if first_row <= r < row
                        && first_col <= c < end_col && shape.contains(pixel_centre(c, r)) {
                        color
                    } else {
                        before.at(c, r)
                    },
            decreases end_row - row,
        {
            let mut col: usize = first_col;
            while col < end_col
                invariant
                    first_row <= row < end_row,
                    first_col <= col,
                    end_row <= height <= MAX_SIDE,
                    end_col <= width <= MAX_SIDE,
                    width * height <= usize::MAX,
                    self@.same_frame(before),
                    self@.width == width,
                    self@.height == height,
                    self@.well_formed(),
                    forall|c: int, r: int|
                        self@.holds(c, r) ==> #[trigger] self@.at(c, r) == if first_col <= c
                            < end_col && (first_row <= r < row || (r == row && c < col))
                            && shape.contains(pixel_centre(c, r)) {
                            color
                        } else {
                            before.at(c, r)
                        },
                decreases end_col - col,
            {
                proof {
                    lemma_slot(width as int, height as int, col as int, row as int);
                }
                if shape.covers(Point::centre_of_pixel(col, row)) {
                    let ghost earlier = self@;
                    assert(row * width <= row * width + col);
                    self.pixels[row * width + col] = color;
                    assert forall|c: int, r: int| self@.holds(c, r) implies #[trigger] self@.at(
                        c,
                        r,
                    ) == if first_col <= c < end_col && (first_row <= r < row || (r == row && c
                        < col + 1)) && shape.contains(pixel_centre(c, r)) {
                        color
                    } else {
                        before.at(c, r)
                    } by {
                        lemma_slot(width as int, height as int, c, r);
                        if c != col || r != row {
                            lemma_slots_differ(width as int, c, r, col as int, row as int);
                            assert(self@.at(c, r) == earlier.at(c, r));
                        }
                    }
                }
                col = col + 1;
            }
            row = row + 1;
        }
        assert forall|c: int, r: int| self@.holds(c, r) implies #[trigger] self@.at(c, r) == if (
        shape.region())(pixel_centre(c, r)) {
            color
        } else {
            before.at(c, r)
        } by {
            if shape.contains(pixel_centre(c, r)) {
                assert(bounds.holds(pixel_centre(c, r)));
            }
        }
    }

    /// Paints a filled circle: every pixel whose centre is at most `radius`
    /// away from `center` takes the colour, and no other pixel changes.
    pub fn dot(&mut self, center: Point, radius: Radius, color: Color)
        ensures
            final(self)@.well_formed(),
            final(self)@.overpaints(
                old(self)@,
                |p: Position| in_disc(p, center@, radius@),
                color,
            ),
    {
        self.composite(Shape::Disc { center, radius }, color);
    }

    /// Paints the band that bridges the circles of radius `radius` at `from`
    /// and at `to`. Between equal end points there is nothing to bridge, and
    /// the canvas stays as it is.
    pub fn segment(&mut self, from: Point, to: Point, radius: Radius, color: Color)
        ensures
            final(self)@.well_formed(),
            final(self)@.overpaints(
                old(self)@,
                |p: Position| in_band(p, from@, to@, radius@),
                color,
            ),
            from@ == to@ ==> final(self)@ == old(self)@,
    {
        proof {
            use_type_invariant(&*self);
        }
        if !from.coincides(to) {
            self.composite(Shape::Band { from, to, radius }, color);
        }
    }

    /// Carries a stroke on from `prev` to `next`: paints the circle at `next`
    /// and the band that joins it to the circle at `prev`.
    pub fn stroke_to(&mut self, prev: Point, next: Point, radius: Radius, color: Color)
        ensures
            final(self)@.well_formed(),
            final(self)@.overpaints(
                old(self)@,
                |p: Position| in_disc(p, next@, radius@) || in_band(p, prev@, next@, radius@),
                color,
            ),
    {
        self.dot(next, radius, color);
        let ghost dotted = self@;
        self.segment(prev, next, radius, color);
        assert forall|col: int, row: int| self@.holds(col, row) implies #[trigger] self@.at(
            col,
            row,
        ) == if in_disc(pixel_centre(col, row), next@, radius@) || in_band(
            pixel_centre(col, row),
            prev@,
            next@,
            radius@,
        ) {
            color
        } else {
            old(self)@.at(col, row)
        } by {
            assert(dotted.holds(col, row));
            assert(self@.at(col, row) == if in_band(
                pixel_centre(col, row),
                prev@,
                next@,
                radius@,
            ) {
                color
            } else {
                dotted.at(col, row)
            });
        }
    }

    /// Number of pixels in a row.
    pub fn width(&self) -> (result: usize)
        ensures
            result == self@.width,
            result <= MAX_SIDE,
    {
        proof {
            use_type_invariant(self);
        }
        self.width
    }

    /// Number of rows.
    pub fn height(&self) -> (result: usize)
        ensures
            result == self@.height,
            result <= MAX_SIDE,
    {
        proof {
            use_type_invariant(self);
        }
        self.height
    }

    /// The pixel in column `col` of row `row`, if the canvas has one there.
    pub fn pixel(&self, col: usize, row: usize) -> (result: Option<Color>)
        ensures
            result == if self@.holds(col as int, row as int) {
                Some(self@.at(col as int, row as int))
            } else {
                None
            },
    {
        proof {
            use_type_invariant(self);
        }
        if col < self.width && row < self.height {
            proof {
                lemma_slot(self.width as int, self.height as int, col as int, row as int);
            }
            assert(row * self.width <= row * self.width + col);
            Some(self.pixels[row * self.width + col])
        } else {
            None
        }
    }

    /// The pixels as 32-bit numbers, row by row, the top row first.
    pub fn to_words(&self) -> (words: Vec<u32>)
        ensures
            words@ == self@.words(),
    {
        let count: usize = self.pixels.len();
        let mut words: Vec<u32> = Vec::with_capacity(count);
        let mut next: usize = 0;
        while next < count
            invariant
                next <= count,
                count == self.pixels@.len(),
                words@.len() == next,
                forall|i: int| 0 <= i < next ==> words@[i] == self.pixels@[i].word() as u32,
            decreases count - next,
        {
            words.push(self.pixels[next].to_word());
            next = next + 1;
        }
        assert(words@ =~= self@.words());
        words
    }

    /// The canvas of `width` by `height` pixels whose colours `words` stand
    /// for, row by row; `None` where no canvas of that size can be made or
    /// where `words` does not hold one number for each pixel.
    pub fn from_words(width: usize, height: usize, words: &Vec<u32>) -> (result: Option<Canvas>)
        ensures
            result.is_some() <==> Self::fits(width as int, height as int) && words@.len() == width
                * height,
            result matches Some(canvas) ==> canvas@ == Raster::of_words(
                width as nat,
                height as nat,
                words@,
            ),
    {
        if width > MAX_SIDE || height > MAX_SIDE {
            return None;
        }
        let count: usize = match width.checked_mul(height) {
            Some(count) => count,
            None => {
                return None;
            },
        };
        if words.len() != count {
            return None;
        }
        let mut pixels: Vec<Color> = Vec::with_capacity(count);
        let mut next: usize = 0;
        while next < count
            invariant
                next <= count,
                count == words@.len(),
                pixels@.len() == next,
                forall|i: int| 0 <= i < next ==> pixels@[i] == Color::of_word(words@[i] as int),
            decreases count - next,
        {
            pixels.push(Color::from_word(words[next]));
            next = next + 1;
        }
        assert(pixels@ =~= Raster::of_words(width as nat, height as nat, words@).pixels);
        Some(Canvas { width, height, pixels })
    }
}

impl Clone for Canvas {
    /// A second canvas that holds what this one holds.
    fn clone(&self) -> (result: Canvas)
        ensures
            result@ == self@,
    {
        proof {
            use_type_invariant(self);
        }
        let count: usize = self.pixels.len();
        let mut pixels: Vec<Color> = Vec::with_capacity(count);
        let mut next: usize = 0;
        while next < count
            invariant
                next <= count,
                count == self.pixels@.len(),
                pixels@.len() == next,
                forall|i: int| 0 <= i < next ==> pixels@[i] == self.pixels@[i],
            decreases count - next,
        {
            pixels.push(self.pixels[next]);
            next = next + 1;
        }
        assert(pixels@ =~= self.pixels@);
        Canvas { width: self.width, height: self.height, pixels }
    }
}

/// A circle and the stroke that leads on from it join without a gap: after a
/// dot at `from` and a stroke from there to `to`, the colour lies on every
/// pixel whose centre is within `radius` of the segment between the two, and
/// every other pixel is as it was before the dot.
pub proof fn lemma_dot_and_stroke_paint_neighbourhood(
    before: Raster,
    dotted: Raster,
    stroked: Raster,
    from: Position,
    to: Position,
    radius: int,
    color: Color,
)
    requires
        dotted.overpaints(before, |p: Position| in_disc(p, from, radius), color),
        stroked.overpaints(
            dotted,
            |p: Position| in_disc(p, to, radius) || in_band(p, from, to, radius),
            color,
        ),
    ensures
        stroked.overpaints(before, |p: Position| near_segment(p, from, to, radius), color),
{
    assert forall|col: int, row: int| stroked.holds(col, row) implies #[trigger] stroked.at(
        col,
        row,
    ) == if near_segment(pixel_centre(col, row), from, to, radius) {
        color
    } else {
        before.at(col, row)
    } by {
        lemma_stroke_is_neighbourhood_of_segment(pixel_centre(col, row), from, to, radius);
        assert(dotted.holds(col, row));
        assert(dotted.at(col, row) == if in_disc(pixel_centre(col, row), from, radius) {
            color
        } else {
            before.at(col, row)
        });
    }
}

/// Filling a region leaves no choice: two grids that both are a well-formed
/// grid `before` with the same colour laid on the same region are one and the
/// same grid.
pub proof fn lemma_overpainting_is_determined(
    one: Raster,
    other: Raster,
    before: Raster,
    region: spec_fn(Position) -> bool,
    color: Color,
)
    requires
        before.well_formed(),
        one.overpaints(before, region, color),
        other.overpaints(before, region, color),
    ensures
        one == other,
{
    let width = before.width as int;
    let height = before.height as int;
    assert forall|i: int| 0 <= i < one.pixels.len() implies one.pixels[i] == other.pixels[i] by {
        assert(width != 0) by (nonlinear_arith)
            requires
                0 <= i < width * height,
        ;
        let col = i % width;
        let row = i / width;
        lemma_fundamental_div_mod(i, width);
        assert(width * row == row * width) by (nonlinear_arith);
        assert(width * height == height * width) by (nonlinear_arith);
        lemma_multiply_divide_lt(i, width, height);
        assert(one.holds(col, row) && other.holds(col, row));
        assert(one.at(col, row) == other.at(col, row));
    }
    assert(one.pixels =~= other.pixels);
}

/// The numbers that a grid is handed out as determine it: read back, they
/// give a grid with the very same pixels.
pub proof fn lemma_words_round_trip(raster: Raster)
    ensures
        Raster::of_words(raster.width, raster.height, raster.words()) == raster,
{
    let back = Raster::of_words(raster.width, raster.height, raster.words());
    assert forall|i: int| 0 <= i < raster.pixels.len() implies back.pixels[i]
        == raster.pixels[i] by {
        lemma_word_round_trip(raster.pixels[i]);
    }
    assert(back.pixels =~= raster.pixels);
}

} // verus!
