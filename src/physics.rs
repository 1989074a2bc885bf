use vstd::prelude::*;
use rand::rngs::StdRng;
use crate::dice::roll;
use crate::grid::{lemma_idx_bounds, Grid};
use crate::matter::{MatterDefinition, MatterId, MatterState, MAX_TRANSITIONS, PROBABILITY_SCALE};
use crate::registry::Registry;
use crate::tick::{
    TickState, cell_draws_in_range, draws_in_range, first_fire, fires, fall_target, lemma_first_fire_frame,
    lemma_first_fire_skip, lemma_move_target_open, lemma_spread_past_width, lemma_step_cell, lemma_sweep_frame,
    lemma_sweep_row_frame, lemma_tick_shape, move_target, neighbor, shaped, spread_from, spread_target, start,
    step_cell, sweep, sweep_row, tick, COIN_SLOT, REACTION_SLOTS,
    SIDE_SLOT,
};
use crate::world::World;

verus! {

pub open spec fn as_pos(t: Option<(usize, usize)>) -> Option<(int, int)> {
    match t {
        Some((a, b)) => Some((a as int, b as int)),
        None => None,
    }
}

pub open spec fn state_of(g: Grid, fresh: Seq<bool>, changed: bool) -> TickState {
    TickState { grid: g, fresh, changed }
}

/// `draws` with `slot` set to `v`.
pub open spec fn with_draw(draws: spec_fn(int) -> u32, slot: int, v: u32) -> spec_fn(int) -> u32 {
    |j: int| if j == slot { v } else { draws(j) }
}

/// The `d`-th neighbour of `(x, y)` when it is in bounds.
fn neighbor_cell(world: &World, x: usize, y: usize, d: u32) -> (r: Option<(usize, usize)>)
    requires
        world@.wf(),
        world@.in_bounds(x as int, y as int),
        d < 8,
    ensures
        r.is_some() == world@.in_bounds(neighbor(x as int, y as int, d as int).0, neighbor(x as int, y as int, d as int).1),
        r matches Some((nx, ny)) ==> (nx as int, ny as int) == neighbor(x as int, y as int, d as int),
{
    let w = world.width();
    let h = world.height();
    let left = x > 0;
    let right = x + 1 < w;
    let up = y > 0;
    let down = y + 1 < h;
    if d == 0 {
        if left && up { Some((x - 1, y - 1)) } else { None }
    } else if d == 1 {
        if up { Some((x, y - 1)) } else { None }
    } else if d == 2 {
        if right && up { Some((x + 1, y - 1)) } else { None }
    } else if d == 3 {
        if right { Some((x + 1, y)) } else { None }
    } else if d == 4 {
        if right && down { Some((x + 1, y + 1)) } else { None }
    } else if d == 5 {
        if down { Some((x, y + 1)) } else { None }
    } else if d == 6 {
        if left && down { Some((x - 1, y + 1)) } else { None }
    } else {
        if left { Some((x - 1, y)) } else { None }
    }
}


/// The reaction search of the cell `(x, y)` whose definition is `def`:
/// draws for each eligible slot in order and stops at the first that fires.
/// Returns the kind it turns into and the draws made, by slot.
fn react_cell(world: &World, reg: &Registry, x: usize, y: usize, def: &MatterDefinition, rng: &mut StdRng) -> (res: (
    Option<MatterId>,
    Ghost<spec_fn(int) -> u32>,
))
    requires
        world@.wf(),
        world@.in_bounds(x as int, y as int),
    ensures
        res.0 == match first_fire(world@, reg@, x as int, y as int, *def, res.1@, 0) {
            Some(j) => Some(def.reactions@[j % 5].becomes),
            None => None::<MatterId>,
        },
        forall|k: int| !(0 <= k < REACTION_SLOTS) ==> #[trigger] res.1@(k) == 0,
        cell_draws_in_range(res.1@),
{
    let ghost g = world@;
    let ghost mut cd: spec_fn(int) -> u32 = |j: int| 0u32;
    let mut d: u32 = 0;
    while d < 8
        invariant
            world@ == g,
            g.wf(),
            g.in_bounds(x as int, y as int),
            d <= 8,
            forall|k: int| 0 <= k < d * 5 ==> !#[trigger] fires(g, reg@, x as int, y as int, *def, cd, k),
            forall|k: int| !(0 <= k < REACTION_SLOTS) ==> #[trigger] cd(k) == 0,
            cell_draws_in_range(cd),
        decreases 8 - d,
    {
        let nb = neighbor_cell(world, x, y, d);
        let mut done = true;
        if let Some((nx, ny)) = nb {
            let nm = match world.cell(nx, ny) {
                Some(m) => m,
                None => MatterId::Empty,
            };
            if nm != MatterId::Empty && reg.defines(nm) {
                done = false;
                let nchars = reg.lookup(nm).characteristics;
                let mut r: usize = 0;
                while r < MAX_TRANSITIONS
                    invariant
                        world@ == g,
                        g.wf(),
                        g.in_bounds(x as int, y as int),
                        d < 8,
                        r <= MAX_TRANSITIONS,
                        (nx as int, ny as int) == neighbor(x as int, y as int, d as int),
                        g.in_bounds(nx as int, ny as int),
                        nm == g.at(nx as int, ny as int),
                        nm != MatterId::Empty,
                        nm.index() < reg@.len(),
                        nchars == reg@[nm.index() as int].characteristics,
                        forall|k: int| 0 <= k < d * 5 + r ==> !#[trigger] fires(g, reg@, x as int, y as int, *def, cd, k),
                        forall|k: int| !(0 <= k < REACTION_SLOTS) ==> #[trigger] cd(k) == 0,
                        cell_draws_in_range(cd),
                    decreases MAX_TRANSITIONS - r,
                {
                    let rc = def.reactions[r];
                    let j: u32 = d * 5 + r as u32;
                    assert(j as int / 5 == d as int && j as int % 5 == r as int);
                    if rc.direction.has(d) && rc.reacts.intersects(nchars) {
                        let v = roll(rng, PROBABILITY_SCALE);
                        proof {
                            let ghost before = cd;
                            cd = with_draw(cd, j as int, v);
                            assert forall|k: int| 0 <= k < j implies !#[trigger] fires(
                                g,
                                reg@,
                                x as int,
                                y as int,
                                *def,
                                cd,
                                k,
                            ) by {
                                assert(cd(k) == before(k));
                                assert(!fires(g, reg@, x as int, y as int, *def, before, k));
                            }
                        }
                        if v < rc.probability {
                            proof {
                                assert(fires(g, reg@, x as int, y as int, *def, cd, j as int));
                                lemma_first_fire_skip(g, reg@, x as int, y as int, *def, cd, 0, j as int);
                            }
                            return (Some(rc.becomes), Ghost(cd));
                        }
                    }
                    assert(!fires(g, reg@, x as int, y as int, *def, cd, j as int));
                    r += 1;
                }
            }
        }
        if done {
            assert forall|k: int| d * 5 <= k < d * 5 + 5 implies !#[trigger] fires(g, reg@, x as int, y as int, *def, cd, k) by {
                assert(k / 5 == d as int);
            }
        }
        d += 1;
    }
    proof {
        lemma_first_fire_skip(g, reg@, x as int, y as int, *def, cd, 0, REACTION_SLOTS as int);
    }
    (None, Ghost(cd))
}


/// Where a falling particle at `(x, y)` goes; draws the coin only when both
/// diagonals are open.
fn fall_cell(world: &World, x: usize, y: usize, rng: &mut StdRng, cd: Ghost<spec_fn(int) -> u32>) -> (res: (
    Option<(usize, usize)>,
    Ghost<spec_fn(int) -> u32>,
))
    requires
        world@.wf(),
        world@.in_bounds(x as int, y as int),
        cell_draws_in_range(cd@),
    ensures
        forall|k: int| k != COIN_SLOT ==> #[trigger] res.1@(k) == cd@(k),
        cell_draws_in_range(res.1@),
        as_pos(res.0) == fall_target(world@, x as int, y as int, res.1@(COIN_SLOT as int)),
{
    let w = world.width();
    let h = world.height();
    if y + 1 >= h {
        return (None, cd);
    }
    if world.is_open(x, y + 1) {
        return (Some((x, y + 1)), cd);
    }
    let l = x > 0 && world.is_open(x - 1, y + 1);
    let r = x + 1 < w && world.is_open(x + 1, y + 1);
    if l && r {
        let c = roll(rng, 2);
        let ghost cd2 = with_draw(cd@, COIN_SLOT as int, c);
        if c == 0 {
            (Some((x - 1, y + 1)), Ghost(cd2))
        } else {
            (Some((x + 1, y + 1)), Ghost(cd2))
        }
    } else if l {
        (Some((x - 1, y + 1)), cd)
    } else if r {
        (Some((x + 1, y + 1)), cd)
    } else {
        (None, cd)
    }
}

/// Where a blocked liquid at `(x, y)` flows: the nearest open cell in its
/// row within `dispersion`; draws the side only when both cells at that
/// distance are open.
fn spread_cell(world: &World, x: usize, y: usize, dispersion: u32, rng: &mut StdRng, cd: Ghost<spec_fn(int) -> u32>) -> (res: (
    Option<(usize, usize)>,
    Ghost<spec_fn(int) -> u32>,
))
    requires
        world@.wf(),
        world@.in_bounds(x as int, y as int),
        cell_draws_in_range(cd@),
    ensures
        forall|k: int| k != SIDE_SLOT ==> #[trigger] res.1@(k) == cd@(k),
        cell_draws_in_range(res.1@),
        as_pos(res.0) == spread_target(world@, x as int, y as int, res.1@(SIDE_SLOT as int), dispersion as nat),
{
    let ghost g = world@;
    let w = world.width();
    let d = dispersion as usize;
    let mut k: usize = 1;
    while k <= d && k < w
        invariant
            world@ == g,
            g.wf(),
            w == g.width,
            g.in_bounds(x as int, y as int),
            1 <= k,
            d == dispersion,
            cell_draws_in_range(cd@),
            forall|s: u32|
                #[trigger] spread_from(g, x as int, y as int, s, k as nat, d as nat) == spread_from(
                    g,
                    x as int,
                    y as int,
                    s,
                    1,
                    d as nat,
                ),
        decreases w - k,
    {
        let l = x >= k && world.is_open(x - k, y);
        let r = w - x > k && world.is_open(x + k, y);
        if l && r {
            let s = roll(rng, 2);
            let ghost cd2 = with_draw(cd@, SIDE_SLOT as int, s);
            assert(spread_from(g, x as int, y as int, s, k as nat, d as nat) == spread_from(g, x as int, y as int, s, 1, d as nat));
            if s == 0 {
                return (Some((x - k, y)), Ghost(cd2));
            } else {
                return (Some((x + k, y)), Ghost(cd2));
            }
        } else if l {
            assert(spread_from(g, x as int, y as int, cd@(SIDE_SLOT as int), k as nat, d as nat) == spread_from(g, x as int, y as int, cd@(SIDE_SLOT as int), 1, d as nat));
            return (Some((x - k, y)), cd);
        } else if r {
            assert(spread_from(g, x as int, y as int, cd@(SIDE_SLOT as int), k as nat, d as nat) == spread_from(g, x as int, y as int, cd@(SIDE_SLOT as int), 1, d as nat));
            return (Some((x + k, y)), cd);
        }
        assert forall|s: u32| #[trigger] spread_from(g, x as int, y as int, s, (k + 1) as nat, d as nat) == spread_from(
            g,
            x as int,
            y as int,
            s,
            1,
            d as nat,
        ) by {
            assert(spread_from(g, x as int, y as int, s, k as nat, d as nat) == spread_from(g, x as int, y as int, s, 1, d as nat));
        }
        k += 1;
    }
    proof {
        let s = cd@(SIDE_SLOT as int);
        assert(spread_from(g, x as int, y as int, s, k as nat, d as nat) == spread_from(g, x as int, y as int, s, 1, d as nat));
        if k >= w {
            lemma_spread_past_width(g, x as int, y as int, s, k as nat, d as nat);
        }
    }
    (None, cd)
}

/// Where the particle at `(x, y)`, of definition `def`, moves this tick.
fn move_cell(
    world: &World,
    reg: &Registry,
    x: usize,
    y: usize,
    def: &MatterDefinition,
    rng: &mut StdRng,
    cd: Ghost<spec_fn(int) -> u32>,
) -> (res: (Option<(usize, usize)>, Ghost<spec_fn(int) -> u32>))
    requires
        world@.wf(),
        world@.in_bounds(x as int, y as int),
        world@.at(x as int, y as int).index() < reg@.len(),
        *def == reg@[world@.at(x as int, y as int).index() as int],
        cell_draws_in_range(cd@),
    ensures
        forall|k: int| k != COIN_SLOT && k != SIDE_SLOT ==> #[trigger] res.1@(k) == cd@(k),
        cell_draws_in_range(res.1@),
        as_pos(res.0) == move_target(world@, reg@, x as int, y as int, res.1@),
{
    if !def.state.falls() {
        return (None, cd);
    }
    let (t, cd1) = fall_cell(world, x, y, rng, cd);
    if t.is_some() {
        return (t, cd1);
    }
    if def.state == MatterState::Liquid {
        let (t2, cd2) = spread_cell(world, x, y, def.dispersion, rng, cd1);
        (t2, cd2)
    } else {
        (None, cd1)
    }
}


/// One cell of the sweep, as `step_cell` states it; returns the draws made.
fn step_cell_exec(
    world: &mut World,
    fresh: &mut Vec<bool>,
    changed: &mut bool,
    reg: &Registry,
    x: usize,
    y: usize,
    rng: &mut StdRng,
    react: bool,
) -> (cd: Ghost<spec_fn(int) -> u32>)
    requires
        old(world)@.wf(),
        old(fresh)@.len() == old(world)@.cells.len(),
        old(world)@.in_bounds(x as int, y as int),
    ensures
        state_of(final(world)@, final(fresh)@, *final(changed)) == step_cell(
            state_of(old(world)@, old(fresh)@, *old(changed)),
            reg@,
            x as int,
            y as int,
            cd@,
            react,
        ),
        cell_draws_in_range(cd@),
        final(world).spec_selected() == old(world).spec_selected(),
{
    let ghost st0 = state_of(world@, fresh@, *changed);
    let w = world.width();
    let h = world.height();
    let cells = fresh.len();
    proof {
        lemma_idx_bounds(w as nat, h as nat, x as int, y as int);
    }
    assert(y * w + x < cells);
    let i = y * w + x;
    let m = match world.cell(x, y) {
        Some(m) => m,
        None => MatterId::Empty,
    };
    if fresh[i] || m == MatterId::Empty || !reg.defines(m) {
        return Ghost(|j: int| 0u32);
    }
    let mut cd: Ghost<spec_fn(int) -> u32> = Ghost(|j: int| 0u32);
    if react {
        let def = *reg.lookup(m);
        let (res, cd1) = react_cell(world, reg, x, y, &def, rng);
        cd = cd1;
        if let Some(b) = res {
            if b != m {
                world.set(x, y, b);
                *changed = true;
            }
        }
    }
    let ghost st1 = state_of(world@, fresh@, *changed);
    let ghost cd1 = cd@;
    let m1 = match world.cell(x, y) {
        Some(m) => m,
        None => MatterId::Empty,
    };
    if m1 != MatterId::Empty && reg.defines(m1) {
        let def1 = *reg.lookup(m1);
        let (t, cd2) = move_cell(world, reg, x, y, &def1, rng, cd);
        cd = cd2;
        proof {
            lemma_first_fire_frame(
                st0.grid,
                reg@,
                x as int,
                y as int,
                reg@[m.index() as int],
                cd1,
                cd@,
                0,
            );
        }
        if let Some((tx, ty)) = t {
            proof {
                lemma_move_target_open(world@, reg@, x as int, y as int, cd@);
                lemma_idx_bounds(w as nat, h as nat, tx as int, ty as int);
            }
            world.move_material(x, y, tx, ty);
            fresh.set(ty * w + tx, true);
            *changed = true;
        }
    }
    cd
}

/// A full sweep, bottom row first and each row left to right.
fn run_tick(world: &mut World, reg: &Registry, rng: &mut StdRng, react: bool) -> (changed: bool)
    requires
        old(world)@.wf(),
    ensures
        exists|draws: spec_fn(int, int, int) -> u32|
            draws_in_range(draws) && tick(old(world)@, reg@, draws, react) == (final(world)@, changed),
        final(world)@.wf(),
        final(world)@.width == old(world)@.width,
        final(world)@.height == old(world)@.height,
        !changed ==> final(world)@ == old(world)@,
        final(world).spec_selected() == old(world).spec_selected(),
{
    let ghost g0 = world@;
    let ghost sel = world.spec_selected();
    let w = world.width();
    let h = world.height();
    let n = world.cell_count();
    let mut fresh: Vec<bool> = Vec::new();
    let mut i: usize = 0;
    while i < n
        invariant
            i <= n,
            fresh@ == Seq::new(i as nat, |k: int| false),
        decreases n - i,
    {
        fresh.push(false);
        i += 1;
        assert(fresh@ =~= Seq::new(i as nat, |k: int| false));
    }
    let mut changed = false;
    let ghost mut draws: spec_fn(int, int, int) -> u32 = |a: int, b: int, c: int| 0u32;
    let mut row: usize = 0;
    while row < h
        invariant
            g0.wf(),
            g0.width == w,
            g0.height == h,
            row <= h,
            world.spec_selected() == sel,
            draws_in_range(draws),
            state_of(world@, fresh@, changed) == sweep(start(g0), reg@, row as nat, draws, react),
            shaped(state_of(world@, fresh@, changed), w as nat, h as nat),
        decreases h - row,
    {
        let y = h - 1 - row;
        let mut x: usize = 0;
        while x < w
            invariant
                g0.wf(),
                g0.width == w,
                g0.height == h,
                row < h,
                y == h - 1 - row,
                x <= w,
                world.spec_selected() == sel,
                draws_in_range(draws),
                state_of(world@, fresh@, changed) == sweep_row(
                    sweep(start(g0), reg@, row as nat, draws, react),
                    reg@,
                    y as int,
                    x as nat,
                    draws,
                    react,
                ),
                shaped(state_of(world@, fresh@, changed), w as nat, h as nat),
            decreases w - x,
        {
            let ghost before = state_of(world@, fresh@, changed);
            let cd = step_cell_exec(world, &mut fresh, &mut changed, reg, x, y, rng, react);
            proof {
                lemma_step_cell(before, reg@, x as int, y as int, cd@, react);
                let d2 = |a: int, b: int, j: int|
                    if a == x as int && b == y as int {
                        cd@(j)
                    } else {
                        draws(a, b, j)
                    };
                lemma_sweep_frame(start(g0), reg@, row as nat, draws, d2, react);
                lemma_sweep_row_frame(
                    sweep(start(g0), reg@, row as nat, d2, react),
                    reg@,
                    y as int,
                    x as nat,
                    draws,
                    d2,
                    react,
                );
                assert((|j: int| d2(x as int, y as int, j)) =~= cd@);
                draws = d2;
            }
            x += 1;
        }
        row += 1;
    }
    assert(draws_in_range(draws) && tick(g0, reg@, draws, react) == (world@, changed));
    proof {
        lemma_tick_shape(g0, reg@, draws, react);
    }
    changed
}

/// Drives the per-tick update of a world.
pub struct PhysicsEngine {}

impl Default for PhysicsEngine {
    fn default() -> (r: PhysicsEngine)
        ensures
            r == (PhysicsEngine {}),
    {
        PhysicsEngine {}
    }
}

impl PhysicsEngine {
    pub fn new() -> (r: PhysicsEngine)
        ensures
            r == (PhysicsEngine {}),
    {
        PhysicsEngine {}
    }

    /// One tick: every particle that did not arrive this tick, bottom row
    /// first and each row left to right, first reacts with its neighbours
    /// as they stand at that point of the sweep and then, if still there,
    /// moves. The result is the model `tick` for the draws `rng` gave; true
    /// when any particle moved or changed kind.
    pub fn update_world(&mut self, world: &mut World, registry: &Registry, rng: &mut StdRng) -> (r: bool)
        requires
            old(world)@.wf(),
        ensures
            exists|draws: spec_fn(int, int, int) -> u32|
                draws_in_range(draws) && tick(old(world)@, registry@, draws, true) == (final(world)@, r),
            final(world)@.wf(),
            final(world)@.width == old(world)@.width,
            final(world)@.height == old(world)@.height,
            !r ==> final(world)@ == old(world)@,
            final(world).spec_selected() == old(world).spec_selected(),
    {
        run_tick(world, registry, rng, true)
    }

    /// One tick of movement alone: as `update_world` without reactions.
    pub fn apply_gravity_to_sand(&mut self, world: &mut World, registry: &Registry, rng: &mut StdRng) -> (r: bool)
        requires
            old(world)@.wf(),
        ensures
            exists|draws: spec_fn(int, int, int) -> u32|
                draws_in_range(draws) && tick(old(world)@, registry@, draws, false) == (final(world)@, r),
            final(world)@.wf(),
            final(world)@.width == old(world)@.width,
            final(world)@.height == old(world)@.height,
            !r ==> final(world)@ == old(world)@,
            final(world).spec_selected() == old(world).spec_selected(),
    {
        run_tick(world, registry, rng, false)
    }
}

} // verus!
