use vstd::prelude::*;
use crate::grid::{
    Grid, count_occupied, lemma_count_empty, lemma_count_update, lemma_idx_bounds, lemma_set_at,
    occupied,
};
use crate::matter::MatterId;

verus! {

/// True when `(x, y)` lies in `[0, width) x [0, height)`.
pub fn is_in_bounds_array(x: i32, y: i32, width: usize, height: usize) -> (r: bool)
    ensures
        r == (0 <= x < width && 0 <= y < height),
{
    x >= 0 && y >= 0 && (x as usize) < width && (y as usize) < height
}

/// What the painting tool can place.
#[derive(Clone, Copy, PartialEq, Eq, Structural, Debug)]
pub enum MaterialTypes {
    Air,
    Sand,
    RedSand,
    RainbowSand,
    Stone,
    BlackHole,
}

impl MaterialTypes {
    pub open spec fn spec_matter_id(self) -> Option<MatterId> {
        match self {
            MaterialTypes::Air => Some(MatterId::Empty),
            MaterialTypes::Sand | MaterialTypes::RedSand | MaterialTypes::RainbowSand => Some(MatterId::Sand),
            MaterialTypes::Stone => Some(MatterId::Rock),
            MaterialTypes::BlackHole => None,
        }
    }

    /// The matter kind this tool paints; a black hole has none and paints
    /// nothing.
    pub fn matter_id(self) -> (r: Option<MatterId>)
        ensures
            r == self.spec_matter_id(),
    {
        match self {
            MaterialTypes::Air => Some(MatterId::Empty),
            MaterialTypes::Sand | MaterialTypes::RedSand | MaterialTypes::RainbowSand => Some(MatterId::Sand),
            MaterialTypes::Stone => Some(MatterId::Rock),
            MaterialTypes::BlackHole => None,
        }
    }
}

/// The simulated world: a grid of cells and the material being painted.
pub struct World {
    cells: Vec<MatterId>,
    width: usize,
    height: usize,
    selected_material: MaterialTypes,
}

impl View for World {
    type V = Grid;

    closed spec fn view(&self) -> Grid {
        Grid { width: self.width as nat, height: self.height as nat, cells: self.cells@ }
    }
}

impl World {
    pub closed spec fn spec_selected(&self) -> MaterialTypes {
        self.selected_material
    }

    /// An all-empty world of `width` by `height` cells.
    pub fn new(width: usize, height: usize) -> (r: World)
        requires
            width * height <= usize::MAX,
        ensures
            r@ == Grid::empty(width as nat, height as nat),
            r@.wf(),
            r.spec_selected() == MaterialTypes::Sand,
    {
        let n = width * height;
        let mut cells: Vec<MatterId> = Vec::new();
        let mut i: usize = 0;
        while i < n
            invariant
                i <= n,
                cells@ == Seq::new(i as nat, |k: int| MatterId::Empty),
            decreases n - i,
        {
            cells.push(MatterId::Empty);
            i += 1;
            assert(cells@ =~= Seq::new(i as nat, |k: int| MatterId::Empty));
        }
        World { cells, width, height, selected_material: MaterialTypes::Sand }
    }

    /// A new all-empty world of the requested size; nothing is carried over.
    pub fn resize(&self, width: usize, height: usize) -> (r: World)
        requires
            width * height <= usize::MAX,
        ensures
            r@ == Grid::empty(width as nat, height as nat),
            r@.wf(),
            r.spec_selected() == self.spec_selected(),
    {
        let mut r = World::new(width, height);
        r.selected_material = self.selected_material;
        r
    }

    pub fn width(&self) -> (r: usize)
        ensures
            r == self@.width,
    {
        self.width
    }

    pub fn height(&self) -> (r: usize)
        ensures
            r == self@.height,
    {
        self.height
    }

    /// Number of cells, `width * height`.
    pub fn cell_count(&self) -> (r: usize)
        ensures
            r == self@.cells.len(),
    {
        self.cells.len()
    }

    pub fn selected_material(&self) -> (r: MaterialTypes)
        ensures
            r == self.spec_selected(),
    {
        self.selected_material
    }

    pub fn select_material(&mut self, m: MaterialTypes)
        ensures
            final(self)@ == old(self)@,
            final(self).spec_selected() == m,
    {
        self.selected_material = m;
    }

    /// The kind at `(x, y)`, `None` when out of bounds.
    pub fn cell(&self, x: usize, y: usize) -> (r: Option<MatterId>)
        requires
            self@.wf(),
        ensures
            r == if self@.in_bounds(x as int, y as int) {
                Some(self@.at(x as int, y as int))
            } else {
                None::<MatterId>
            },
    {
        if x < self.width && y < self.height {
            let len = self.cells.len();
            proof {
                lemma_idx_bounds(self.width as nat, self.height as nat, x as int, y as int);
            }
            assert(y * self.width + x < len);
            Some(self.cells[y * self.width + x])
        } else {
            None
        }
    }

    /// True when `(x, y)` is in bounds and unoccupied.
    pub fn is_open(&self, x: usize, y: usize) -> (r: bool)
        requires
            self@.wf(),
        ensures
            r == self@.is_open(x as int, y as int),
    {
        match self.cell(x, y) {
            Some(m) => m == MatterId::Empty,
            None => false,
        }
    }

    /// Sets one in-bounds cell.
    pub fn set(&mut self, x: usize, y: usize, m: MatterId)
        requires
            old(self)@.wf(),
            old(self)@.in_bounds(x as int, y as int),
        ensures
            final(self)@.wf(),
            final(self)@ == old(self)@.set(x as int, y as int, m),
            final(self).spec_selected() == old(self).spec_selected(),
    {
        let len = self.cells.len();
        proof {
            lemma_idx_bounds(self.width as nat, self.height as nat, x as int, y as int);
        }
        assert(y * self.width + x < len);
        let i = y * self.width + x;
        self.cells.set(i, m);
    }

    /// Places `matter_id` at `(x, y)`; out of bounds this does nothing and
    /// returns false.
    pub fn paint(&mut self, x: usize, y: usize, matter_id: MatterId) -> (r: bool)
        requires
            old(self)@.wf(),
        ensures
            final(self)@.wf(),
            r == old(self)@.in_bounds(x as int, y as int),
            final(self)@ == old(self)@.try_paint(x as int, y as int, matter_id),
            final(self).spec_selected() == old(self).spec_selected(),
    {
        if x < self.width && y < self.height {
            self.set(x, y, matter_id);
            true
        } else {
            false
        }
    }

    /// Paints the selected material at `(index_x, index_y)`.
    pub fn place_rect(&mut self, index_x: usize, index_y: usize) -> (r: bool)
        requires
            old(self)@.wf(),
        ensures
            final(self)@.wf(),
            r == (old(self)@.in_bounds(index_x as int, index_y as int)
                && old(self).spec_selected().spec_matter_id().is_some()),
            final(self)@ == match old(self).spec_selected().spec_matter_id() {
                Some(m) => old(self)@.try_paint(index_x as int, index_y as int, m),
                None => old(self)@,
            },
            final(self).spec_selected() == old(self).spec_selected(),
    {
        match self.selected_material.matter_id() {
            Some(m) => self.paint(index_x, index_y, m),
            None => false,
        }
    }

    /// Moves the particle at `from` to `to`. Succeeds only when `from` is
    /// occupied and `to` is in bounds and empty; otherwise nothing changes.
    pub fn move_material(&mut self, from_x: usize, from_y: usize, to_x: usize, to_y: usize) -> (r: bool)
        requires
            old(self)@.wf(),
        ensures
            final(self)@.wf(),
            r == (old(self)@.in_bounds(from_x as int, from_y as int)
                && old(self)@.at(from_x as int, from_y as int) != MatterId::Empty
                && old(self)@.is_open(to_x as int, to_y as int)),
            final(self)@ == old(self)@.try_move(from_x as int, from_y as int, to_x as int, to_y as int),
            final(self).spec_selected() == old(self).spec_selected(),
    {
        match self.cell(from_x, from_y) {
            Some(m) => {
                if m != MatterId::Empty && self.is_open(to_x, to_y) {
                    self.set(from_x, from_y, MatterId::Empty);
                    self.set(to_x, to_y, m);
                    true
                } else {
                    false
                }
            },
            None => false,
        }
    }

    /// Number of occupied cells.
    pub fn occupied_count(&self) -> (r: usize)
        requires
            self@.wf(),
        ensures
            r == self@.occupied_count(),
    {
        let n = self.cells.len();
        let mut c: usize = 0;
        let mut i: usize = 0;
        while i < n
            invariant
                n == self.cells@.len(),
                i <= n,
                c == count_occupied(self.cells@.subrange(0, i as int)),
                c <= i,
            decreases n - i,
        {
            let ghost before = self.cells@.subrange(0, i as int);
            assert(self.cells@.subrange(0, i + 1).drop_last() =~= before);
            if self.cells[i] != MatterId::Empty {
                c += 1;
            }
            i += 1;
        }
        assert(self.cells@.subrange(0, n as int) =~= self.cells@);
        c
    }
}


/// Paints the selected material around clicked cells.
#[derive(Clone, Copy, PartialEq, Eq, Structural, Debug)]
pub struct WorldDisplay {
    pub click_radius: i32,
}

/// The first cell of `[c - r, c + r)` that is not below zero.
fn span_start(c: usize, r: usize) -> (lo: usize)
    ensures
        lo == if c >= r { c - r } else { 0 },
{
    if c >= r { c - r } else { 0 }
}

/// The end of `[c - r, c + r)` cut at `n`.
fn span_end(c: usize, r: usize, n: usize) -> (hi: usize)
    ensures
        hi <= n,
        hi == if c + r <= n { c + r } else { n as int },
{
    if c >= n {
        n
    } else if n - c > r {
        c + r
    } else {
        n
    }
}

impl WorldDisplay {
    pub fn new() -> (r: WorldDisplay)
        ensures
            r.click_radius == 1,
    {
        WorldDisplay { click_radius: 1 }
    }

    /// The brush around `(cx, cy)` covers `[cx - r, cx + r) x [cy - r, cy + r)`.
    pub open spec fn in_brush(self, cx: int, cy: int, x: int, y: int) -> bool {
        let r = self.click_radius as int;
        cx - r <= x < cx + r && cy - r <= y < cy + r
    }

    /// Paints the selected material on every in-bounds cell of the brush
    /// around `(cx, cy)`; other cells keep their contents.
    pub fn paint_brush(&self, world: &mut World, cx: usize, cy: usize)
        requires
            old(world)@.wf(),
        ensures
            final(world)@.wf(),
            final(world)@.width == old(world)@.width,
            final(world)@.height == old(world)@.height,
            final(world).spec_selected() == old(world).spec_selected(),
            forall|x: int, y: int|
                #![trigger final(world)@.at(x, y)]
                final(world)@.in_bounds(x, y) ==> final(world)@.at(x, y) == match old(world).spec_selected().spec_matter_id() {
                    Some(m) => if self.in_brush(cx as int, cy as int, x, y) {
                        m
                    } else {
                        old(world)@.at(x, y)
                    },
                    None => old(world)@.at(x, y),
                },
    {
        let ghost g0 = world@;
        if self.click_radius <= 0 {
            return;
        }
        let m = match world.selected_material().matter_id() {
            Some(m) => m,
            None => {
                return;
            },
        };
        let r = self.click_radius as usize;
        let w = world.width();
        let h = world.height();
        let x_hi = span_end(cx, r, w);
        let x_lo = span_start(cx, r);
        let x_lo = if x_lo < x_hi { x_lo } else { x_hi };
        let y_hi = span_end(cy, r, h);
        let y_lo = span_start(cy, r);
        let y_lo = if y_lo < y_hi { y_lo } else { y_hi };
        let mut y = y_lo;
        while y < y_hi
            invariant
                g0.wf(),
                world@.wf(),
                world@.width == g0.width == w,
                world@.height == g0.height == h,
                world.spec_selected() == old(world).spec_selected(),
                x_hi <= w,
                y_hi <= h,
                y_lo <= y <= y_hi,
                x_lo <= x_hi,
                forall|x2: int, y2: int|
                    #![trigger world@.at(x2, y2)]
                    g0.in_bounds(x2, y2) ==> world@.at(x2, y2) == if y_lo <= y2 < y && x_lo <= x2 < x_hi {
                        m
                    } else {
                        g0.at(x2, y2)
                    },
            decreases y_hi - y,
        {
            let mut x = x_lo;
            while x < x_hi
                invariant
                    g0.wf(),
                    world@.wf(),
                    world@.width == g0.width == w,
                    world@.height == g0.height == h,
                    world.spec_selected() == old(world).spec_selected(),
                    x_hi <= w,
                    y < y_hi <= h,
                    y_lo <= y,
                    x_lo <= x <= x_hi,
                    forall|x2: int, y2: int|
                        #![trigger world@.at(x2, y2)]
                        g0.in_bounds(x2, y2) ==> world@.at(x2, y2) == if (y_lo <= y2 < y && x_lo <= x2 < x_hi)
                            || (y2 == y && x_lo <= x2 < x) {
                            m
                        } else {
                            g0.at(x2, y2)
                        },
                decreases x_hi - x,
            {
                let ghost before = world@;
                world.set(x, y, m);
                proof {
                    assert forall|x2: int, y2: int| g0.in_bounds(x2, y2) implies #[trigger] world@.at(x2, y2) == if (
                    y_lo <= y2 < y && x_lo <= x2 < x_hi) || (y2 == y && x_lo <= x2 < x + 1) {
                        m
                    } else {
                        g0.at(x2, y2)
                    } by {
                        crate::grid::lemma_set_at(before, x as int, y as int, m, x2, y2);
                    }
                }
                x += 1;
            }
            y += 1;
        }
    }
}

} // verus!
