//! The game map: a grid of cells, row 0 and column 0 in the upper left.
use crate::random::roll_ratio;
use vstd::prelude::*;

verus! {

/// Width of the map in the classic game.
pub const DEFAULT_WIDTH: usize = 12;

/// Height of the map in the classic game.
pub const DEFAULT_HEIGHT: usize = 9;

/// Chance of a cell holding a star in the classic game: one in twenty.
pub const DEFAULT_STAR_NUMERATOR: u32 = 1;

/// See [`DEFAULT_STAR_NUMERATOR`].
pub const DEFAULT_STAR_DENOMINATOR: u32 = 20;

/// A row, column point on the map.
#[derive(Debug, PartialEq, Eq, Structural, Copy, Clone)]
pub struct Point(pub usize, pub usize);

/// All the things that can appear in a map cell.
#[derive(Debug, PartialEq, Eq, Structural, Hash, Copy, Clone)]
pub enum MapCell {
    /// Empty space.
    Space,
    /// An unaffiliated outpost.
    Outpost,
    /// A star.
    Star,
    /// A cell of the company with this index.
    Company(u32),
}

/// What `convert(from, to)` makes of one cell.
pub open spec fn converted(cell: MapCell, from: int, to: int) -> MapCell {
    match cell {
        MapCell::Company(id) => if id == from {
            MapCell::Company(to as u32)
        } else {
            cell
        },
        _ => cell,
    }
}

/// The map data.
#[derive(Debug)]
pub struct StarMap {
    /// The width of the map in cells.
    pub width: usize,
    /// The height of the map in cells.
    pub height: usize,
    /// The cells, row after row.
    pub data: Vec<MapCell>,
    /// A fresh cell becomes a star with chance `star_numerator / star_denominator`.
    pub star_numerator: u32,
    /// See `star_numerator`.
    pub star_denominator: u32,
}

impl View for StarMap {
    type V = Seq<MapCell>;

    open spec fn view(&self) -> Seq<MapCell> {
        self.data@
    }
}

/// The flat position of an in-bounds cell is below the cell count and tells the
/// cell apart from every other.
proof fn lemma_index(w: int, h: int, r: int, c: int, i: int, j: int)
    requires
        0 <= r < h,
        0 <= c < w,
        0 <= i < h,
        0 <= j < w,
    ensures
        0 <= r * w + c < w * h,
        r * w + c == i * w + j ==> r == i && c == j,
{
    assert(0 <= r * w + c < w * h) by (nonlinear_arith)
        requires
            0 <= r < h,
            0 <= c < w,
    ;
    if r * w + c == i * w + j {
        if r < i {
            assert(r * w + c < i * w + j) by (nonlinear_arith)
                requires
                    r < i,
                    0 <= c < w,
                    0 <= j,
            ;
        } else if i < r {
            assert(i * w + j < r * w + c) by (nonlinear_arith)
                requires
                    i < r,
                    0 <= j < w,
                    0 <= c,
            ;
        }
    }
}

impl StarMap {
    /// The chance of a star in a fresh cell, as numerator and denominator.
    pub open spec fn star_odds(&self) -> (u32, u32) {
        (self.star_numerator, self.star_denominator)
    }

    /// The grid holds `width * height` cells and the star chance is a probability.
    pub open spec fn wf(&self) -> bool {
        &&& self.data@.len() == self.width * self.height
        &&& 0 < self.star_denominator
        &&& self.star_numerator <= self.star_denominator
    }

    /// Row `r`, column `c` lies on the map.
    pub open spec fn in_bounds(&self, r: int, c: int) -> bool {
        0 <= r < self.height && 0 <= c < self.width
    }

    /// The cell at row `r`, column `c`.
    pub open spec fn cell(&self, r: int, c: int) -> MapCell {
        self.data@[r * self.width + c]
    }

    /// Every cell of the map holds `v`.
    pub open spec fn all_cells(&self, v: MapCell) -> bool {
        forall|r: int, c: int| self.in_bounds(r, c) ==> #[trigger] self.cell(r, c) == v
    }

    /// Construct a new map with the classic game's parameters, all of it empty space.
    pub fn new() -> (m: Self)
        ensures
            m.wf(),
            m.width == DEFAULT_WIDTH,
            m.height == DEFAULT_HEIGHT,
            m.star_odds() == (DEFAULT_STAR_NUMERATOR, DEFAULT_STAR_DENOMINATOR),
            m.all_cells(MapCell::Space),
    {
        Self::new_with_params(
            DEFAULT_WIDTH,
            DEFAULT_HEIGHT,
            DEFAULT_STAR_NUMERATOR,
            DEFAULT_STAR_DENOMINATOR,
        )
    }

    /// Construct a new map of empty space with custom parameters. A fresh cell
    /// becomes a star with chance `star_numerator / star_denominator`.
    pub fn new_with_params(
        width: usize,
        height: usize,
        star_numerator: u32,
        star_denominator: u32,
    ) -> (m: Self)
        requires
            width * height <= usize::MAX,
            0 < star_denominator,
            star_numerator <= star_denominator,
        ensures
            m.wf(),
            m.width == width,
            m.height == height,
            m.star_odds() == (star_numerator, star_denominator),
            m.all_cells(MapCell::Space),
    {
        let n: usize = width * height;
        let mut data: Vec<MapCell> = Vec::new();
        let mut i: usize = 0;
        while i < n
            invariant
                i <= n,
                data@.len() == i,
                forall|k: int| 0 <= k < i ==> data@[k] == MapCell::Space,
            decreases n - i,
        {
            data.push(MapCell::Space);
            i = i + 1;
        }
        let m = StarMap { width, height, data, star_numerator, star_denominator };
        assert forall|r: int, c: int| m.in_bounds(r, c) implies #[trigger] m.cell(r, c)
            == MapCell::Space by {
            lemma_index(width as int, height as int, r, c, r, c);
        }
        m
    }

    /// Regenerate the map, overwriting any previous map data: each cell
    /// independently becomes a star with the map's star chance, else empty space.
    pub fn regenerate(&mut self)
        requires
            old(self).wf(),
        ensures
            final(self).wf(),
            final(self).width == old(self).width,
            final(self).height == old(self).height,
            final(self).star_odds() == old(self).star_odds(),
            forall|r: int, c: int|
                final(self).in_bounds(r, c) ==> (#[trigger] final(self).cell(r, c)
                    == MapCell::Space || final(self).cell(r, c) == MapCell::Star),
            old(self).star_odds().0 == 0 ==> final(self).all_cells(MapCell::Space),
            old(self).star_odds().0 == old(self).star_odds().1 ==> final(self).all_cells(
                MapCell::Star,
            ),
    {
        let n: usize = self.data.len();
        let num = self.star_numerator;
        let den = self.star_denominator;
        let mut data: Vec<MapCell> = Vec::new();
        let mut i: usize = 0;
        while i < n
            invariant
                i <= n,
                n == self.width * self.height,
                0 < den,
                num <= den,
                data@.len() == i,
                forall|k: int|
                    0 <= k < i ==> (#[trigger] data@[k] == MapCell::Space || data@[k]
                        == MapCell::Star),
                num == 0 ==> forall|k: int| 0 <= k < i ==> #[trigger] data@[k] == MapCell::Space,
                num == den ==> forall|k: int| 0 <= k < i ==> #[trigger] data@[k] == MapCell::Star,
            decreases n - i,
        {
            let star = roll_ratio(num, den);
            data.push(if star {
                MapCell::Star
            } else {
                MapCell::Space
            });
            i = i + 1;
        }
        self.data = data;
        assert forall|r: int, c: int| self.in_bounds(r, c) implies 0 <= r * self.width + c < n by {
            lemma_index(self.width as int, self.height as int, r, c, r, c);
        }
    }

    /// Set the cell at row `r`, column `c` to `v`.
    pub fn set(&mut self, r: usize, c: usize, v: MapCell)
        requires
            old(self).wf(),
            old(self).in_bounds(r as int, c as int),
        ensures
            final(self).wf(),
            final(self).width == old(self).width,
            final(self).height == old(self).height,
            final(self).star_odds() == old(self).star_odds(),
            forall|i: int, j: int|
                final(self).in_bounds(i, j) ==> #[trigger] final(self).cell(i, j) == if i == r
                    && j == c {
                    v
                } else {
                    old(self).cell(i, j)
                },
    {
        proof {
            lemma_index(self.width as int, self.height as int, r as int, c as int, r as int, c as int);
        }
        let _n = self.data.len();
        let k = r * self.width + c;
        self.data.set(k, v);
        assert forall|i: int, j: int| self.in_bounds(i, j) implies #[trigger] self.cell(i, j)
            == if i == r && j == c {
            v
        } else {
            old(self).cell(i, j)
        } by {
            lemma_index(self.width as int, self.height as int, i, j, r as int, c as int);
        }
    }

    /// Get the cell at row `r`, column `c`.
    pub fn get(&self, r: usize, c: usize) -> (v: MapCell)
        requires
            self.wf(),
            self.in_bounds(r as int, c as int),
        ensures
            v == self.cell(r as int, c as int),
    {
        proof {
            lemma_index(self.width as int, self.height as int, r as int, c as int, r as int, c as int);
        }
        let _n = self.data.len();
        self.data[r * self.width + c]
    }

    /// Rewrite every cell of company `conv_from` to company `conv_to`; no other
    /// cell changes.
    pub fn convert(&mut self, conv_from: usize, conv_to: usize)
        requires
            old(self).wf(),
            conv_to <= u32::MAX,
        ensures
            final(self).wf(),
            final(self).width == old(self).width,
            final(self).height == old(self).height,
            final(self).star_odds() == old(self).star_odds(),
            forall|i: int, j: int|
                final(self).in_bounds(i, j) ==> #[trigger] final(self).cell(i, j) == converted(
                    old(self).cell(i, j),
                    conv_from as int,
                    conv_to as int,
                ),
    {
        let n: usize = self.data.len();
        let mut k: usize = 0;
        while k < n
            invariant
                k <= n,
                n == old(self).data@.len(),
                self.data@.len() == n,
                self.width == old(self).width,
                self.height == old(self).height,
                self.star_numerator == old(self).star_numerator,
                self.star_denominator == old(self).star_denominator,
                conv_to <= u32::MAX,
                forall|q: int|
                    0 <= q < n ==> #[trigger] self.data@[q] == if q < k {
                        converted(old(self).data@[q], conv_from as int, conv_to as int)
                    } else {
                        old(self).data@[q]
                    },
            decreases n - k,
        {
            if let MapCell::Company(existing) = self.data[k] {
                if existing as usize == conv_from {
                    self.data.set(k, MapCell::Company(conv_to as u32));
                }
            }
            k = k + 1;
        }
        assert forall|i: int, j: int| self.in_bounds(i, j) implies 0 <= i * self.width + j < n by {
            lemma_index(self.width as int, self.height as int, i, j, i, j);
        }
    }
}

} // verus!
