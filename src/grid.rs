use vstd::prelude::*;
use crate::matter::MatterId;

verus! {

/// Abstract grid: `width * height` cells in row-major order, row 0 on top.
/// A cell holds exactly one kind; `Empty` means unoccupied.
pub ghost struct Grid {
    pub width: nat,
    pub height: nat,
    pub cells: Seq<MatterId>,
}

pub open spec fn occupied(m: MatterId) -> nat {
    if m == MatterId::Empty { 0 } else { 1 }
}

/// Number of occupied cells in `s`.
pub open spec fn count_occupied(s: Seq<MatterId>) -> nat
    decreases s.len(),
{
    if s.len() == 0 {
        0
    } else {
        count_occupied(s.drop_last()) + occupied(s.last())
    }
}

impl Grid {
    pub open spec fn empty(width: nat, height: nat) -> Grid {
        Grid { width, height, cells: Seq::new(width * height, |i: int| MatterId::Empty) }
    }

    pub open spec fn wf(self) -> bool {
        self.cells.len() == self.width * self.height
    }

    pub open spec fn in_bounds(self, x: int, y: int) -> bool {
        0 <= x < self.width && 0 <= y < self.height
    }

    pub open spec fn idx(self, x: int, y: int) -> int {
        y * self.width + x
    }

    pub open spec fn at(self, x: int, y: int) -> MatterId {
        self.cells[self.idx(x, y)]
    }

    /// In bounds and unoccupied.
    pub open spec fn is_open(self, x: int, y: int) -> bool {
        self.in_bounds(x, y) && self.at(x, y) == MatterId::Empty
    }

    pub open spec fn set(self, x: int, y: int, m: MatterId) -> Grid {
        Grid { cells: self.cells.update(self.idx(x, y), m), ..self }
    }

    /// The particle at `(fx, fy)` moved to `(tx, ty)`.
    pub open spec fn moved(self, fx: int, fy: int, tx: int, ty: int) -> Grid {
        self.set(fx, fy, MatterId::Empty).set(tx, ty, self.at(fx, fy))
    }

    /// What `move_material` does: the move when the source is occupied and
    /// the destination open, the same grid otherwise.
    pub open spec fn try_move(self, fx: int, fy: int, tx: int, ty: int) -> Grid {
        if self.in_bounds(fx, fy) && self.at(fx, fy) != MatterId::Empty && self.is_open(tx, ty) {
            self.moved(fx, fy, tx, ty)
        } else {
            self
        }
    }

    /// What `paint` does: sets the cell when in bounds.
    pub open spec fn try_paint(self, x: int, y: int, m: MatterId) -> Grid {
        if self.in_bounds(x, y) {
            self.set(x, y, m)
        } else {
            self
        }
    }

    pub open spec fn occupied_count(self) -> nat {
        count_occupied(self.cells)
    }
}

pub proof fn lemma_idx_bounds(w: nat, h: nat, x: int, y: int)
    requires
        0 <= x < w,
        0 <= y < h,
    ensures
        0 <= y * w + x < w * h,
        y * w + x + 1 <= w * h,
{
    assert(y * w + x < w * h) by (nonlinear_arith)
        requires
            0 <= x < w,
            0 <= y < h,
    ;
    assert(0 <= y * w) by (nonlinear_arith)
        requires
            0 <= y,
            0 <= w,
    ;
}

/// Distinct in-bounds coordinates have distinct indices.
pub proof fn lemma_idx_injective(w: nat, x1: int, y1: int, x2: int, y2: int)
    requires
        0 <= x1 < w,
        0 <= x2 < w,
        0 <= y1,
        0 <= y2,
        y1 * w + x1 == y2 * w + x2,
    ensures
        x1 == x2 && y1 == y2,
{
    if y1 < y2 {
        assert(y1 * w + w <= y2 * w) by (nonlinear_arith)
            requires
                y1 < y2,
                0 <= w,
        ;
    } else if y2 < y1 {
        assert(y2 * w + w <= y1 * w) by (nonlinear_arith)
            requires
                y2 < y1,
                0 <= w,
        ;
    }
}

/// Reading a cell after a `set`.
pub proof fn lemma_set_at(g: Grid, x: int, y: int, m: MatterId, x2: int, y2: int)
    requires
        g.wf(),
        g.in_bounds(x, y),
        g.in_bounds(x2, y2),
    ensures
        g.set(x, y, m).wf(),
        g.set(x, y, m).at(x2, y2) == if x == x2 && y == y2 { m } else { g.at(x2, y2) },
{
    lemma_idx_bounds(g.width, g.height, x, y);
    lemma_idx_bounds(g.width, g.height, x2, y2);
    if g.idx(x, y) == g.idx(x2, y2) {
        lemma_idx_injective(g.width, x, y, x2, y2);
    }
}

/// Replacing one element changes the count by the difference.
pub proof fn lemma_count_update(s: Seq<MatterId>, i: int, m: MatterId)
    requires
        0 <= i < s.len(),
    ensures
        count_occupied(s.update(i, m)) + occupied(s[i]) == count_occupied(s) + occupied(m),
    decreases s.len(),
{
    let t = s.update(i, m);
    if i == s.len() - 1 {
        assert(t.drop_last() =~= s.drop_last());
    } else {
        lemma_count_update(s.drop_last(), i, m);
        assert(t.drop_last() =~= s.drop_last().update(i, m));
    }
}

pub proof fn lemma_count_empty(n: nat)
    ensures
        count_occupied(Seq::new(n, |i: int| MatterId::Empty)) == 0,
    decreases n,
{
    if n > 0 {
        lemma_count_empty((n - 1) as nat);
        assert(Seq::new(n, |i: int| MatterId::Empty).drop_last() =~= Seq::new(
            (n - 1) as nat,
            |i: int| MatterId::Empty,
        ));
    }
}


/// A call of `World::move_material` or `World::paint`.
pub ghost enum GridOp {
    Move { fx: int, fy: int, tx: int, ty: int },
    Paint { x: int, y: int, m: MatterId },
}

pub open spec fn apply_op(g: Grid, op: GridOp) -> Grid {
    match op {
        GridOp::Move { fx, fy, tx, ty } => g.try_move(fx, fy, tx, ty),
        GridOp::Paint { x, y, m } => g.try_paint(x, y, m),
    }
}

/// The grid after the calls `ops`, in order.
pub open spec fn apply_ops(g: Grid, ops: Seq<GridOp>) -> Grid
    decreases ops.len(),
{
    if ops.len() == 0 {
        g
    } else {
        apply_op(apply_ops(g, ops.drop_last()), ops.last())
    }
}

/// A move takes the particle out of its cell and puts it in the empty one:
/// no particle is copied or lost.
pub proof fn lemma_move_conserves(g: Grid, fx: int, fy: int, tx: int, ty: int)
    requires
        g.wf(),
    ensures
        g.try_move(fx, fy, tx, ty).wf(),
        g.try_move(fx, fy, tx, ty).width == g.width,
        g.try_move(fx, fy, tx, ty).height == g.height,
        g.try_move(fx, fy, tx, ty).occupied_count() == g.occupied_count(),
{
    if g.in_bounds(fx, fy) && g.at(fx, fy) != MatterId::Empty && g.is_open(tx, ty) {
        let m = g.at(fx, fy);
        let g1 = g.set(fx, fy, MatterId::Empty);
        lemma_idx_bounds(g.width, g.height, fx, fy);
        lemma_idx_bounds(g.width, g.height, tx, ty);
        lemma_count_update(g.cells, g.idx(fx, fy), MatterId::Empty);
        lemma_set_at(g, fx, fy, MatterId::Empty, tx, ty);
        lemma_count_update(g1.cells, g1.idx(tx, ty), m);
    }
}

/// Every sequence of moves and paints keeps a well-formed grid of the same
/// size, each cell holding one kind; moves alone keep the number of
/// particles.
pub proof fn lemma_ops_keep_grid(g: Grid, ops: Seq<GridOp>)
    requires
        g.wf(),
    ensures
        apply_ops(g, ops).wf(),
        apply_ops(g, ops).width == g.width,
        apply_ops(g, ops).height == g.height,
        (forall|i: int| 0 <= i < ops.len() ==> #[trigger] ops[i] is Move) ==> apply_ops(g, ops).occupied_count()
            == g.occupied_count(),
    decreases ops.len(),
{
    if ops.len() > 0 {
        let rest = ops.drop_last();
        lemma_ops_keep_grid(g, rest);
        let h = apply_ops(g, rest);
        match ops.last() {
            GridOp::Move { fx, fy, tx, ty } => {
                lemma_move_conserves(h, fx, fy, tx, ty);
            },
            GridOp::Paint { x, y, m } => {
                if h.in_bounds(x, y) {
                    lemma_idx_bounds(h.width, h.height, x, y);
                }
            },
        }
        if forall|i: int| 0 <= i < ops.len() ==> #[trigger] ops[i] is Move {
            assert forall|i: int| 0 <= i < rest.len() implies #[trigger] rest[i] is Move by {
                assert(ops[i] is Move);
            }
            assert(ops[ops.len() - 1] is Move);
        }
    }
}

} // verus!
