use vstd::prelude::*;
use crate::grid::Grid;
use crate::matter::{MatterCharacteristic, MatterDefinition, MatterId, MatterState, MAX_TRANSITIONS, PROBABILITY_SCALE};

verus! {

/// Reactions are tried for each of the 8 neighbours in compass order, and
/// for each neighbour in table order: slot `d * 5 + r`.
pub const REACTION_SLOTS: u32 = 40;

/// Slot of the draw that picks a diagonal when both are open.
pub const COIN_SLOT: u32 = 40;

/// Slot of the draw that picks a side when a liquid may flow both ways.
pub const SIDE_SLOT: u32 = 41;

/// What the random source gives for a slot: a reaction draw is below
/// `PROBABILITY_SCALE`, a coin or side draw below 2.
pub open spec fn slot_bound(j: int) -> u32 {
    if 0 <= j < REACTION_SLOTS { PROBABILITY_SCALE } else { 2 }
}

/// Every draw of one cell is one the random source can give.
pub open spec fn cell_draws_in_range(draws: spec_fn(int) -> u32) -> bool {
    forall|j: int| #[trigger] draws(j) < slot_bound(j)
}

/// Every draw of a tick is one the random source can give.
pub open spec fn draws_in_range(draws: spec_fn(int, int, int) -> u32) -> bool {
    forall|x: int, y: int, j: int| #[trigger] draws(x, y, j) < slot_bound(j)
}

/// State of a sweep: the grid, the cells that received a particle during
/// this tick (they are not processed again), and whether anything happened.
pub ghost struct TickState {
    pub grid: Grid,
    pub fresh: Seq<bool>,
    pub changed: bool,
}

pub open spec fn start(g: Grid) -> TickState {
    TickState { grid: g, fresh: Seq::new(g.cells.len(), |i: int| false), changed: false }
}

/// The `d`-th compass neighbour of `(x, y)`, clockwise from the upper left.
pub open spec fn neighbor(x: int, y: int, d: int) -> (int, int) {
    if d == 0 {
        (x - 1, y - 1)
    } else if d == 1 {
        (x, y - 1)
    } else if d == 2 {
        (x + 1, y - 1)
    } else if d == 3 {
        (x + 1, y)
    } else if d == 4 {
        (x + 1, y + 1)
    } else if d == 5 {
        (x, y + 1)
    } else if d == 6 {
        (x - 1, y + 1)
    } else {
        (x - 1, y)
    }
}

/// The kind at `(x, y)` is occupied and defined by the registry.
pub open spec fn defined_at(g: Grid, reg: Seq<MatterDefinition>, x: int, y: int) -> bool {
    g.in_bounds(x, y) && g.at(x, y) != MatterId::Empty && g.at(x, y).index() < reg.len()
}

pub open spec fn def_at(g: Grid, reg: Seq<MatterDefinition>, x: int, y: int) -> MatterDefinition {
    reg[g.at(x, y).index() as int]
}

/// Reaction slot `j` of `def`, for the cell `(x, y)`, has a neighbour that
/// triggers it.
pub open spec fn eligible(
    g: Grid,
    reg: Seq<MatterDefinition>,
    x: int,
    y: int,
    def: MatterDefinition,
    j: int,
) -> bool {
    let d = j / 5;
    let r = j % 5;
    let (nx, ny) = neighbor(x, y, d);
    &&& defined_at(g, reg, nx, ny)
    &&& def.reactions@[r].direction.spec_has(d as nat)
    &&& def.reactions@[r].reacts.spec_intersects(def_at(g, reg, nx, ny).characteristics)
}

/// Slot `j` fires: it is eligible and its draw falls under its probability.
pub open spec fn fires(
    g: Grid,
    reg: Seq<MatterDefinition>,
    x: int,
    y: int,
    def: MatterDefinition,
    draws: spec_fn(int) -> u32,
    j: int,
) -> bool {
    eligible(g, reg, x, y, def, j) && draws(j) < def.reactions@[j % 5].probability
}

/// The first slot from `j` on that fires.
pub open spec fn first_fire(
    g: Grid,
    reg: Seq<MatterDefinition>,
    x: int,
    y: int,
    def: MatterDefinition,
    draws: spec_fn(int) -> u32,
    j: int,
) -> Option<int>
    decreases REACTION_SLOTS - j,
{
    if j < 0 || j >= REACTION_SLOTS {
        None
    } else if fires(g, reg, x, y, def, draws, j) {
        Some(j)
    } else {
        first_fire(g, reg, x, y, def, draws, j + 1)
    }
}

/// What the cell `(x, y)` turns into by reaction, if any reaction fires.
pub open spec fn reaction_result(
    g: Grid,
    reg: Seq<MatterDefinition>,
    x: int,
    y: int,
    draws: spec_fn(int) -> u32,
) -> Option<MatterId> {
    let def = def_at(g, reg, x, y);
    match first_fire(g, reg, x, y, def, draws, 0) {
        Some(j) => Some(def.reactions@[j % 5].becomes),
        None => None,
    }
}

/// Where a falling particle goes: straight down, else the open diagonal,
/// the coin choosing when both are open (0 means left).
pub open spec fn fall_target(g: Grid, x: int, y: int, coin: u32) -> Option<(int, int)> {
    if g.is_open(x, y + 1) {
        Some((x, y + 1))
    } else {
        let l = g.is_open(x - 1, y + 1);
        let r = g.is_open(x + 1, y + 1);
        if l && r {
            if coin == 0 { Some((x - 1, y + 1)) } else { Some((x + 1, y + 1)) }
        } else if l {
            Some((x - 1, y + 1))
        } else if r {
            Some((x + 1, y + 1))
        } else {
            None
        }
    }
}

/// The nearest open cell beside `(x, y)` at a distance from `k` to `d`,
/// scanning outward; when both cells at that distance are open the draw
/// chooses (0 means left).
pub open spec fn spread_from(g: Grid, x: int, y: int, side: u32, k: nat, d: nat) -> Option<(int, int)>
    decreases d + 1 - k,
{
    if k == 0 || k > d {
        None
    } else {
        let l = g.is_open(x - k, y);
        let r = g.is_open(x + k, y);
        if l && r {
            if side == 0 { Some((x - k, y)) } else { Some((x + k, y)) }
        } else if l {
            Some((x - k, y))
        } else if r {
            Some((x + k, y))
        } else {
            spread_from(g, x, y, side, k + 1, d)
        }
    }
}

/// Where a blocked liquid flows: the nearest open cell in its row within
/// `d` cells, if any.
pub open spec fn spread_target(g: Grid, x: int, y: int, side: u32, d: nat) -> Option<(int, int)> {
    spread_from(g, x, y, side, 1, d)
}

/// Where the particle at `(x, y)` moves this tick, by its physical state.
pub open spec fn move_target(
    g: Grid,
    reg: Seq<MatterDefinition>,
    x: int,
    y: int,
    draws: spec_fn(int) -> u32,
) -> Option<(int, int)> {
    let def = def_at(g, reg, x, y);
    if !def.state.spec_falls() {
        None
    } else {
        match fall_target(g, x, y, draws(COIN_SLOT as int)) {
            Some(t) => Some(t),
            None => if def.state == MatterState::Liquid {
                spread_target(g, x, y, draws(SIDE_SLOT as int), def.dispersion as nat)
            } else {
                None
            },
        }
    }
}

/// The reaction step of one cell.
pub open spec fn react_step(
    st: TickState,
    reg: Seq<MatterDefinition>,
    x: int,
    y: int,
    draws: spec_fn(int) -> u32,
) -> TickState {
    match reaction_result(st.grid, reg, x, y, draws) {
        Some(b) => if b == st.grid.at(x, y) {
            st
        } else {
            TickState { grid: st.grid.set(x, y, b), changed: true, ..st }
        },
        None => st,
    }
}

/// The movement step of one cell.
pub open spec fn move_step(
    st: TickState,
    reg: Seq<MatterDefinition>,
    x: int,
    y: int,
    draws: spec_fn(int) -> u32,
) -> TickState {
    if !defined_at(st.grid, reg, x, y) {
        st
    } else {
        match move_target(st.grid, reg, x, y, draws) {
            Some((tx, ty)) => TickState {
                grid: st.grid.moved(x, y, tx, ty),
                fresh: st.fresh.update(st.grid.idx(tx, ty), true),
                changed: true,
            },
            None => st,
        }
    }
}

/// One cell of a sweep: a particle that is defined and did not arrive this
/// tick first reacts (when `react`), then moves if it is still there.
pub open spec fn step_cell(
    st: TickState,
    reg: Seq<MatterDefinition>,
    x: int,
    y: int,
    draws: spec_fn(int) -> u32,
    react: bool,
) -> TickState {
    if st.fresh[st.grid.idx(x, y)] || !defined_at(st.grid, reg, x, y) {
        st
    } else {
        let st1 = if react { react_step(st, reg, x, y, draws) } else { st };
        move_step(st1, reg, x, y, draws)
    }
}

/// Row `y`, cells `0 .. n` from left to right.
pub open spec fn sweep_row(
    st: TickState,
    reg: Seq<MatterDefinition>,
    y: int,
    n: nat,
    draws: spec_fn(int, int, int) -> u32,
    react: bool,
) -> TickState
    decreases n,
{
    if n == 0 {
        st
    } else {
        let x = n - 1;
        step_cell(sweep_row(st, reg, y, (n - 1) as nat, draws, react), reg, x, y, |j: int| draws(x, y, j), react)
    }
}

/// The bottom `rows` rows, bottom row first.
pub open spec fn sweep(
    st: TickState,
    reg: Seq<MatterDefinition>,
    rows: nat,
    draws: spec_fn(int, int, int) -> u32,
    react: bool,
) -> TickState
    decreases rows,
{
    if rows == 0 {
        st
    } else {
        sweep_row(
            sweep(st, reg, (rows - 1) as nat, draws, react),
            reg,
            st.grid.height - rows,
            st.grid.width,
            draws,
            react,
        )
    }
}

/// One tick of `g` under the registry `reg`, where `draws(x, y, slot)` is
/// the random draw the cell `(x, y)` makes for `slot`: the new grid and
/// whether any particle moved or changed kind.
pub open spec fn tick(
    g: Grid,
    reg: Seq<MatterDefinition>,
    draws: spec_fn(int, int, int) -> u32,
    react: bool,
) -> (Grid, bool) {
    let st = sweep(start(g), reg, g.height, draws, react);
    (st.grid, st.changed)
}


/// Slots in `[a, b)` that do not fire are skipped.
pub proof fn lemma_first_fire_skip(
    g: Grid,
    reg: Seq<MatterDefinition>,
    x: int,
    y: int,
    def: MatterDefinition,
    draws: spec_fn(int) -> u32,
    a: int,
    b: int,
)
    requires
        0 <= a <= b <= REACTION_SLOTS,
        forall|k: int| a <= k < b ==> !fires(g, reg, x, y, def, draws, k),
    ensures
        first_fire(g, reg, x, y, def, draws, a) == first_fire(g, reg, x, y, def, draws, b),
    decreases b - a,
{
    if a < b {
        lemma_first_fire_skip(g, reg, x, y, def, draws, a + 1, b);
    }
}

/// The reaction search reads only the reaction slots.
pub proof fn lemma_first_fire_frame(
    g: Grid,
    reg: Seq<MatterDefinition>,
    x: int,
    y: int,
    def: MatterDefinition,
    d1: spec_fn(int) -> u32,
    d2: spec_fn(int) -> u32,
    j: int,
)
    requires
        forall|k: int| 0 <= k < REACTION_SLOTS ==> #[trigger] d1(k) == d2(k),
    ensures
        first_fire(g, reg, x, y, def, d1, j) == first_fire(g, reg, x, y, def, d2, j),
    decreases REACTION_SLOTS - j,
{
    if 0 <= j < REACTION_SLOTS {
        lemma_first_fire_frame(g, reg, x, y, def, d1, d2, j + 1);
    }
}

/// A row sweep reads only the draws of the cells it has passed.
pub proof fn lemma_sweep_row_frame(
    st: TickState,
    reg: Seq<MatterDefinition>,
    y: int,
    n: nat,
    d1: spec_fn(int, int, int) -> u32,
    d2: spec_fn(int, int, int) -> u32,
    react: bool,
)
    requires
        forall|x: int, j: int| 0 <= x < n ==> #[trigger] d1(x, y, j) == d2(x, y, j),
    ensures
        sweep_row(st, reg, y, n, d1, react) == sweep_row(st, reg, y, n, d2, react),
    decreases n,
{
    if n > 0 {
        let x = n - 1;
        lemma_sweep_row_frame(st, reg, y, (n - 1) as nat, d1, d2, react);
        assert((|j: int| d1(x, y, j)) =~= (|j: int| d2(x, y, j)));
    }
}

/// A sweep reads only the draws of the rows it has passed.
pub proof fn lemma_sweep_frame(
    st: TickState,
    reg: Seq<MatterDefinition>,
    rows: nat,
    d1: spec_fn(int, int, int) -> u32,
    d2: spec_fn(int, int, int) -> u32,
    react: bool,
)
    requires
        forall|x: int, y: int, j: int| st.grid.height - rows <= y ==> #[trigger] d1(x, y, j) == d2(x, y, j),
    ensures
        sweep(st, reg, rows, d1, react) == sweep(st, reg, rows, d2, react),
    decreases rows,
{
    if rows > 0 {
        lemma_sweep_frame(st, reg, (rows - 1) as nat, d1, d2, react);
        lemma_sweep_row_frame(
            sweep(st, reg, (rows - 1) as nat, d1, react),
            reg,
            st.grid.height - rows,
            st.grid.width,
            d1,
            d2,
            react,
        );
    }
}

/// The shape of a sweep state: dimensions and lengths agree.
pub open spec fn shaped(st: TickState, w: nat, h: nat) -> bool {
    &&& st.grid.width == w
    &&& st.grid.height == h
    &&& st.grid.wf()
    &&& st.fresh.len() == st.grid.cells.len()
}

/// Whether a step happened: when it reports no change, nothing changed.
pub open spec fn quiet_step(a: TickState, b: TickState) -> bool {
    &&& (a.changed ==> b.changed)
    &&& (!b.changed ==> a.grid == b.grid)
}

pub proof fn lemma_step_cell(
    st: TickState,
    reg: Seq<MatterDefinition>,
    x: int,
    y: int,
    draws: spec_fn(int) -> u32,
    react: bool,
)
    requires
        shaped(st, st.grid.width, st.grid.height),
        st.grid.in_bounds(x, y),
    ensures
        shaped(step_cell(st, reg, x, y, draws, react), st.grid.width, st.grid.height),
        quiet_step(st, step_cell(st, reg, x, y, draws, react)),
{
    crate::grid::lemma_idx_bounds(st.grid.width, st.grid.height, x, y);
    if !(st.fresh[st.grid.idx(x, y)] || !defined_at(st.grid, reg, x, y)) {
        let st1 = if react { react_step(st, reg, x, y, draws) } else { st };
        assert(shaped(st1, st.grid.width, st.grid.height));
        if defined_at(st1.grid, reg, x, y) {
            match move_target(st1.grid, reg, x, y, draws) {
                Some((tx, ty)) => {
                    lemma_move_target_open(st1.grid, reg, x, y, draws);
                    crate::grid::lemma_idx_bounds(st.grid.width, st.grid.height, tx, ty);
                },
                None => {},
            }
        }
    }
}

/// A move target is an open cell in bounds.
pub proof fn lemma_move_target_open(
    g: Grid,
    reg: Seq<MatterDefinition>,
    x: int,
    y: int,
    draws: spec_fn(int) -> u32,
)
    requires
        g.wf(),
        g.in_bounds(x, y),
    ensures
        move_target(g, reg, x, y, draws) matches Some((tx, ty)) ==> g.is_open(tx, ty),
{
    let def = def_at(g, reg, x, y);
    lemma_spread_open(g, x, y, draws(SIDE_SLOT as int), 1, def.dispersion as nat);
}

/// A spread target is an open cell in the same row.
pub proof fn lemma_spread_open(g: Grid, x: int, y: int, side: u32, k: nat, d: nat)
    ensures
        spread_from(g, x, y, side, k, d) matches Some((tx, ty)) ==> g.is_open(tx, ty) && ty == y,
    decreases d + 1 - k,
{
    if k > 0 && k <= d {
        lemma_spread_open(g, x, y, side, k + 1, d);
    }
}

/// Whether a liquid finds a cell does not depend on the draw.
pub proof fn lemma_spread_none(g: Grid, x: int, y: int, s1: u32, s2: u32, k: nat, d: nat)
    ensures
        spread_from(g, x, y, s1, k, d).is_none() == spread_from(g, x, y, s2, k, d).is_none(),
    decreases d + 1 - k,
{
    if k > 0 && k <= d {
        lemma_spread_none(g, x, y, s1, s2, k + 1, d);
    }
}

/// Beyond the grid's width no cell is found.
pub proof fn lemma_spread_past_width(g: Grid, x: int, y: int, side: u32, k: nat, d: nat)
    requires
        0 <= x < g.width,
        k >= g.width,
    ensures
        spread_from(g, x, y, side, k, d).is_none(),
    decreases d + 1 - k,
{
    if k > 0 && k <= d {
        lemma_spread_past_width(g, x, y, side, k + 1, d);
    }
}

pub proof fn lemma_sweep_row(
    st: TickState,
    reg: Seq<MatterDefinition>,
    y: int,
    n: nat,
    draws: spec_fn(int, int, int) -> u32,
    react: bool,
)
    requires
        shaped(st, st.grid.width, st.grid.height),
        0 <= y < st.grid.height,
        n <= st.grid.width,
    ensures
        shaped(sweep_row(st, reg, y, n, draws, react), st.grid.width, st.grid.height),
        quiet_step(st, sweep_row(st, reg, y, n, draws, react)),
    decreases n,
{
    if n > 0 {
        lemma_sweep_row(st, reg, y, (n - 1) as nat, draws, react);
        let x = n - 1;
        lemma_step_cell(sweep_row(st, reg, y, (n - 1) as nat, draws, react), reg, x, y, |j: int| draws(x, y, j), react);
    }
}

pub proof fn lemma_sweep(
    st: TickState,
    reg: Seq<MatterDefinition>,
    rows: nat,
    draws: spec_fn(int, int, int) -> u32,
    react: bool,
)
    requires
        shaped(st, st.grid.width, st.grid.height),
        rows <= st.grid.height,
    ensures
        shaped(sweep(st, reg, rows, draws, react), st.grid.width, st.grid.height),
        quiet_step(st, sweep(st, reg, rows, draws, react)),
    decreases rows,
{
    if rows > 0 {
        lemma_sweep(st, reg, (rows - 1) as nat, draws, react);
        lemma_sweep_row(sweep(st, reg, (rows - 1) as nat, draws, react), reg, st.grid.height - rows, st.grid.width, draws, react);
    }
}

/// A tick keeps the grid's shape, and when it reports no change the grid is
/// as it was.
pub proof fn lemma_tick_shape(
    g: Grid,
    reg: Seq<MatterDefinition>,
    draws: spec_fn(int, int, int) -> u32,
    react: bool,
)
    requires
        g.wf(),
    ensures
        tick(g, reg, draws, react).0.wf(),
        tick(g, reg, draws, react).0.width == g.width,
        tick(g, reg, draws, react).0.height == g.height,
        !tick(g, reg, draws, react).1 ==> tick(g, reg, draws, react).0 == g,
{
    lemma_sweep(start(g), reg, g.height, draws, react);
}


/// A movement step that changes nothing changes nothing whatever the draws:
/// the draws only choose between open cells.
pub proof fn lemma_quiet_step_any_draws(
    st: TickState,
    reg: Seq<MatterDefinition>,
    x: int,
    y: int,
    d1: spec_fn(int) -> u32,
    d2: spec_fn(int) -> u32,
)
    requires
        !st.changed,
        !step_cell(st, reg, x, y, d1, false).changed,
    ensures
        step_cell(st, reg, x, y, d1, false) == st,
        step_cell(st, reg, x, y, d2, false) == st,
{
    if !(st.fresh[st.grid.idx(x, y)] || !defined_at(st.grid, reg, x, y)) {
        let def = def_at(st.grid, reg, x, y);
        lemma_spread_none(st.grid, x, y, d1(SIDE_SLOT as int), d2(SIDE_SLOT as int), 1, def.dispersion as nat);
        assert(move_target(st.grid, reg, x, y, d1).is_none());
        assert(move_target(st.grid, reg, x, y, d2).is_none());
    }
}

pub proof fn lemma_quiet_row_any_draws(
    st: TickState,
    reg: Seq<MatterDefinition>,
    y: int,
    n: nat,
    d1: spec_fn(int, int, int) -> u32,
    d2: spec_fn(int, int, int) -> u32,
)
    requires
        shaped(st, st.grid.width, st.grid.height),
        0 <= y < st.grid.height,
        n <= st.grid.width,
        !st.changed,
        !sweep_row(st, reg, y, n, d1, false).changed,
    ensures
        sweep_row(st, reg, y, n, d1, false) == st,
        sweep_row(st, reg, y, n, d2, false) == st,
    decreases n,
{
    if n > 0 {
        let x = n - 1;
        let prev = sweep_row(st, reg, y, (n - 1) as nat, d1, false);
        lemma_sweep_row(st, reg, y, (n - 1) as nat, d1, false);
        lemma_step_cell(prev, reg, x, y, |j: int| d1(x, y, j), false);
        lemma_quiet_row_any_draws(st, reg, y, (n - 1) as nat, d1, d2);
        lemma_quiet_step_any_draws(st, reg, x, y, |j: int| d1(x, y, j), |j: int| d2(x, y, j));
    }
}

pub proof fn lemma_quiet_sweep_any_draws(
    st: TickState,
    reg: Seq<MatterDefinition>,
    rows: nat,
    d1: spec_fn(int, int, int) -> u32,
    d2: spec_fn(int, int, int) -> u32,
)
    requires
        shaped(st, st.grid.width, st.grid.height),
        rows <= st.grid.height,
        !st.changed,
        !sweep(st, reg, rows, d1, false).changed,
    ensures
        sweep(st, reg, rows, d1, false) == st,
        sweep(st, reg, rows, d2, false) == st,
    decreases rows,
{
    if rows > 0 {
        let prev = sweep(st, reg, (rows - 1) as nat, d1, false);
        lemma_sweep(st, reg, (rows - 1) as nat, d1, false);
        lemma_sweep_row(prev, reg, st.grid.height - rows, st.grid.width, d1, false);
        lemma_quiet_sweep_any_draws(st, reg, (rows - 1) as nat, d1, d2);
        lemma_quiet_row_any_draws(st, reg, st.grid.height - rows, st.grid.width, d1, d2);
    }
}

/// Settled stays settled: when a movement-only tick reports no change, the
/// grid is as it was, and a movement-only tick under any draws reports no
/// change either.
pub proof fn lemma_settled_stays_settled(
    g: Grid,
    reg: Seq<MatterDefinition>,
    d1: spec_fn(int, int, int) -> u32,
    d2: spec_fn(int, int, int) -> u32,
)
    requires
        g.wf(),
        !tick(g, reg, d1, false).1,
    ensures
        tick(g, reg, d1, false) == (g, false),
        tick(g, reg, d2, false) == (g, false),
{
    lemma_quiet_sweep_any_draws(start(g), reg, g.height, d1, d2);
}

/// A quiescent grid stays quiescent: when a tick reports no change, the
/// grid is as it was, so the tick again from there, with the same draws,
/// reports no change.
pub proof fn lemma_quiescent_stays_quiescent(
    g: Grid,
    reg: Seq<MatterDefinition>,
    draws: spec_fn(int, int, int) -> u32,
    react: bool,
)
    requires
        g.wf(),
        !tick(g, reg, draws, react).1,
    ensures
        tick(g, reg, draws, react) == (g, false),
        tick(tick(g, reg, draws, react).0, reg, draws, react) == (g, false),
{
    lemma_tick_shape(g, reg, draws, react);
}

/// A tick is determined by the grid, the registry and the draws: equal
/// grids under the same registry and draws give equal grids and flags.
pub proof fn lemma_tick_deterministic(
    g1: Grid,
    g2: Grid,
    reg: Seq<MatterDefinition>,
    draws: spec_fn(int, int, int) -> u32,
    react: bool,
)
    requires
        g1 == g2,
    ensures
        tick(g1, reg, draws, react) == tick(g2, reg, draws, react),
{
}


/// One cell step never adds a particle; without reactions it keeps their
/// number.
pub proof fn lemma_step_cell_count(
    st: TickState,
    reg: Seq<MatterDefinition>,
    x: int,
    y: int,
    draws: spec_fn(int) -> u32,
    react: bool,
)
    requires
        shaped(st, st.grid.width, st.grid.height),
        st.grid.in_bounds(x, y),
    ensures
        step_cell(st, reg, x, y, draws, react).grid.occupied_count() <= st.grid.occupied_count(),
        !react ==> step_cell(st, reg, x, y, draws, react).grid.occupied_count() == st.grid.occupied_count(),
{
    crate::grid::lemma_idx_bounds(st.grid.width, st.grid.height, x, y);
    if !(st.fresh[st.grid.idx(x, y)] || !defined_at(st.grid, reg, x, y)) {
        let st1 = if react { react_step(st, reg, x, y, draws) } else { st };
        if react {
            match reaction_result(st.grid, reg, x, y, draws) {
                Some(b) => {
                    crate::grid::lemma_count_update(st.grid.cells, st.grid.idx(x, y), b);
                },
                None => {},
            }
        }
        assert(st1.grid.occupied_count() <= st.grid.occupied_count());
        if defined_at(st1.grid, reg, x, y) {
            match move_target(st1.grid, reg, x, y, draws) {
                Some((tx, ty)) => {
                    lemma_move_target_open(st1.grid, reg, x, y, draws);
                    crate::grid::lemma_move_conserves(st1.grid, x, y, tx, ty);
                },
                None => {},
            }
        }
    }
}

pub proof fn lemma_sweep_row_count(
    st: TickState,
    reg: Seq<MatterDefinition>,
    y: int,
    n: nat,
    draws: spec_fn(int, int, int) -> u32,
    react: bool,
)
    requires
        shaped(st, st.grid.width, st.grid.height),
        0 <= y < st.grid.height,
        n <= st.grid.width,
    ensures
        sweep_row(st, reg, y, n, draws, react).grid.occupied_count() <= st.grid.occupied_count(),
        !react ==> sweep_row(st, reg, y, n, draws, react).grid.occupied_count() == st.grid.occupied_count(),
    decreases n,
{
    if n > 0 {
        let x = n - 1;
        lemma_sweep_row(st, reg, y, (n - 1) as nat, draws, react);
        lemma_sweep_row_count(st, reg, y, (n - 1) as nat, draws, react);
        lemma_step_cell_count(sweep_row(st, reg, y, (n - 1) as nat, draws, react), reg, x, y, |j: int| draws(x, y, j), react);
    }
}

pub proof fn lemma_sweep_count(
    st: TickState,
    reg: Seq<MatterDefinition>,
    rows: nat,
    draws: spec_fn(int, int, int) -> u32,
    react: bool,
)
    requires
        shaped(st, st.grid.width, st.grid.height),
        rows <= st.grid.height,
    ensures
        sweep(st, reg, rows, draws, react).grid.occupied_count() <= st.grid.occupied_count(),
        !react ==> sweep(st, reg, rows, draws, react).grid.occupied_count() == st.grid.occupied_count(),
    decreases rows,
{
    if rows > 0 {
        let prev = sweep(st, reg, (rows - 1) as nat, draws, react);
        lemma_sweep(st, reg, (rows - 1) as nat, draws, react);
        lemma_sweep_count(st, reg, (rows - 1) as nat, draws, react);
        lemma_sweep_row_count(prev, reg, st.grid.height - rows, st.grid.width, draws, react);
    }
}

/// A tick never creates particles: moves carry a particle from one cell to
/// an empty one, and reactions only transform or remove. Without reactions
/// the number of particles is kept.
pub proof fn lemma_tick_never_creates(
    g: Grid,
    reg: Seq<MatterDefinition>,
    draws: spec_fn(int, int, int) -> u32,
    react: bool,
)
    requires
        g.wf(),
    ensures
        tick(g, reg, draws, react).0.occupied_count() <= g.occupied_count(),
        !react ==> tick(g, reg, draws, react).0.occupied_count() == g.occupied_count(),
{
    lemma_sweep_count(start(g), reg, g.height, draws, react);
}

} // verus!
