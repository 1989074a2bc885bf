use rand::rngs::StdRng;
use rand::SeedableRng;
use sand_engine::matter::{
    Direction, MatterCharacteristic, MatterDefinition, MatterId, MatterReaction, MatterState, ALL_DIRECTIONS,
    CORRODES, CORROSIVE, DOWN, ERASER, PROBABILITY_SCALE,
};
use sand_engine::physics::PhysicsEngine;
use sand_engine::registry::Registry;
use sand_engine::world::World;

fn column(world: &World, x: usize) -> Vec<MatterId> {
    (0..world.height()).map(|y| world.cell(x, y).unwrap()).collect()
}

fn inert(id: MatterId, state: MatterState, characteristics: u32) -> MatterDefinition {
    let mut d = MatterDefinition::zero();
    d.id = id;
    d.state = state;
    d.characteristics = MatterCharacteristic::from_bits(characteristics);
    d
}

#[test]
fn free_fall_in_a_column() {
    let reg = Registry::standard();
    let mut rng = StdRng::seed_from_u64(1);
    let mut engine = PhysicsEngine::new();
    let mut w = World::new(1, 5);
    w.paint(0, 0, MatterId::Sand);
    for tick in 1..=4 {
        assert!(engine.update_world(&mut w, &reg, &mut rng));
        for y in 0..5 {
            let expected = if y == tick { MatterId::Sand } else { MatterId::Empty };
            assert_eq!(w.cell(0, y), Some(expected));
        }
    }
    assert!(!engine.update_world(&mut w, &reg, &mut rng));
    assert!(!engine.update_world(&mut w, &reg, &mut rng));
    assert_eq!(column(&w, 0)[4], MatterId::Sand);
    assert_eq!(w.occupied_count(), 1);
}

#[test]
fn blocked_settle_on_solid_row() {
    let table = vec![
        MatterDefinition::new(MatterId::Empty),
        MatterDefinition::new(MatterId::Sand),
        inert(MatterId::Rock, MatterState::Solid, 0),
    ];
    let reg = Registry::define(table).unwrap();
    let mut rng = StdRng::seed_from_u64(2);
    let mut engine = PhysicsEngine::new();
    let mut w = World::new(3, 2);
    for x in 0..3 {
        w.paint(x, 1, MatterId::Rock);
    }
    w.paint(1, 0, MatterId::Sand);
    assert!(!engine.update_world(&mut w, &reg, &mut rng));
    assert_eq!(w.cell(1, 0), Some(MatterId::Sand));
    assert_eq!(w.cell(0, 0), Some(MatterId::Empty));
    assert_eq!(w.cell(2, 0), Some(MatterId::Empty));
    assert_eq!(w.occupied_count(), 4);
}

#[test]
fn blocked_settle_with_standard_rock() {
    let reg = Registry::standard();
    let mut rng = StdRng::seed_from_u64(3);
    let mut engine = PhysicsEngine::new();
    let mut w = World::new(3, 2);
    for x in 0..3 {
        w.paint(x, 1, MatterId::Rock);
    }
    w.paint(1, 0, MatterId::Sand);
    assert!(!engine.update_world(&mut w, &reg, &mut rng));
    assert_eq!(w.cell(1, 0), Some(MatterId::Sand));
}

#[test]
fn powder_slides_to_the_open_diagonal() {
    let reg = Registry::standard();
    let mut rng = StdRng::seed_from_u64(4);
    let mut engine = PhysicsEngine::new();
    let mut w = World::new(3, 2);
    w.paint(0, 1, MatterId::Rock);
    w.paint(1, 1, MatterId::Rock);
    w.paint(1, 0, MatterId::Sand);
    assert!(engine.update_world(&mut w, &reg, &mut rng));
    assert_eq!(w.cell(2, 1), Some(MatterId::Sand));
    assert_eq!(w.cell(1, 0), Some(MatterId::Empty));
}

#[test]
fn powder_picks_a_diagonal_when_both_are_open() {
    let reg = Registry::standard();
    let mut rng = StdRng::seed_from_u64(5);
    let mut engine = PhysicsEngine::new();
    let mut w = World::new(3, 2);
    w.paint(1, 1, MatterId::Rock);
    w.paint(1, 0, MatterId::Sand);
    assert!(engine.apply_gravity_to_sand(&mut w, &reg, &mut rng));
    let left = w.cell(0, 1) == Some(MatterId::Sand);
    let right = w.cell(2, 1) == Some(MatterId::Sand);
    assert!(left != right);
    assert_eq!(w.cell(1, 0), Some(MatterId::Empty));
}

#[test]
fn corrosive_neighbour_destroys_corroding_matter() {
    let mut sand = inert(MatterId::Sand, MatterState::Solid, CORRODES);
    sand.reactions[0] = MatterReaction {
        reacts: MatterCharacteristic::from_bits(CORROSIVE),
        direction: Direction::from_bits(ALL_DIRECTIONS),
        probability: PROBABILITY_SCALE,
        becomes: MatterId::Empty,
    };
    let table = vec![MatterDefinition::zero(), sand, inert(MatterId::Rock, MatterState::Solid, CORROSIVE)];
    let reg = Registry::define(table).unwrap();
    let mut rng = StdRng::seed_from_u64(6);
    let mut engine = PhysicsEngine::new();
    let mut w = World::new(2, 1);
    w.paint(0, 0, MatterId::Sand);
    w.paint(1, 0, MatterId::Rock);
    assert!(engine.update_world(&mut w, &reg, &mut rng));
    assert_eq!(w.cell(0, 0), Some(MatterId::Empty));
    assert_eq!(w.cell(1, 0), Some(MatterId::Rock));
    assert!(!engine.update_world(&mut w, &reg, &mut rng));
}

#[test]
fn reaction_result_can_be_another_kind() {
    let mut sand = inert(MatterId::Sand, MatterState::Solid, 0);
    sand.reactions[1] = MatterReaction::becomes_on_touch(PROBABILITY_SCALE, MatterCharacteristic::from_bits(ERASER), MatterId::Rock);
    let table = vec![MatterDefinition::zero(), sand, inert(MatterId::Rock, MatterState::Solid, ERASER)];
    let reg = Registry::define(table).unwrap();
    let mut rng = StdRng::seed_from_u64(7);
    let mut w = World::new(1, 2);
    w.paint(0, 0, MatterId::Sand);
    w.paint(0, 1, MatterId::Rock);
    assert!(PhysicsEngine::new().update_world(&mut w, &reg, &mut rng));
    assert_eq!(w.cell(0, 0), Some(MatterId::Rock));
}

#[test]
fn reaction_respects_directions() {
    let mut sand = inert(MatterId::Sand, MatterState::Solid, 0);
    sand.reactions[0] = MatterReaction {
        reacts: MatterCharacteristic::from_bits(ERASER),
        direction: Direction::from_bits(DOWN),
        probability: PROBABILITY_SCALE,
        becomes: MatterId::Empty,
    };
    let table = vec![MatterDefinition::zero(), sand, inert(MatterId::Rock, MatterState::Solid, ERASER)];
    let reg = Registry::define(table).unwrap();
    let mut rng = StdRng::seed_from_u64(8);
    let mut w = World::new(1, 2);
    w.paint(0, 1, MatterId::Sand);
    w.paint(0, 0, MatterId::Rock);
    assert!(!PhysicsEngine::new().update_world(&mut w, &reg, &mut rng));
    assert_eq!(w.cell(0, 1), Some(MatterId::Sand));
}

#[test]
fn zero_probability_never_fires() {
    let mut sand = inert(MatterId::Sand, MatterState::Solid, 0);
    sand.reactions[0] = MatterReaction::becomes_on_touch(0, MatterCharacteristic::from_bits(ERASER), MatterId::Empty);
    let table = vec![MatterDefinition::zero(), sand, inert(MatterId::Rock, MatterState::Solid, ERASER)];
    let reg = Registry::define(table).unwrap();
    let mut rng = StdRng::seed_from_u64(9);
    let mut w = World::new(2, 1);
    w.paint(0, 0, MatterId::Sand);
    w.paint(1, 0, MatterId::Rock);
    for _ in 0..20 {
        assert!(!PhysicsEngine::new().update_world(&mut w, &reg, &mut rng));
    }
    assert_eq!(w.cell(0, 0), Some(MatterId::Sand));
}

fn water_on_rock_floor(width: usize) -> World {
    let mut w = World::new(width, 2);
    for x in 0..width {
        w.paint(x, 1, MatterId::Rock);
    }
    w
}

#[test]
fn water_moves_to_the_nearest_open_cell() {
    let reg = Registry::standard();
    let mut rng = StdRng::seed_from_u64(10);
    let mut engine = PhysicsEngine::new();
    let mut w = water_on_rock_floor(3);
    w.paint(0, 0, MatterId::Water);
    assert!(engine.update_world(&mut w, &reg, &mut rng));
    assert_eq!(w.cell(1, 0), Some(MatterId::Water));
    assert_eq!(w.cell(0, 0), Some(MatterId::Empty));
    assert_eq!(w.cell(2, 0), Some(MatterId::Empty));
    assert!(engine.update_world(&mut w, &reg, &mut rng));
    assert_eq!(w.occupied_count(), 4);
}

#[test]
fn water_finds_an_open_cell_past_a_blocked_one() {
    let reg = Registry::standard();
    let mut rng = StdRng::seed_from_u64(11);
    let mut w = water_on_rock_floor(8);
    w.paint(1, 0, MatterId::Rock);
    w.paint(0, 0, MatterId::Water);
    assert!(PhysicsEngine::new().apply_gravity_to_sand(&mut w, &reg, &mut rng));
    assert_eq!(w.cell(2, 0), Some(MatterId::Water));
    assert_eq!(w.cell(0, 0), Some(MatterId::Empty));
}

#[test]
fn water_searches_no_farther_than_its_dispersion() {
    let reg = Registry::standard();
    let mut rng = StdRng::seed_from_u64(14);
    let mut w = water_on_rock_floor(8);
    for x in 1..=4 {
        w.paint(x, 0, MatterId::Rock);
    }
    w.paint(0, 0, MatterId::Water);
    assert!(!PhysicsEngine::new().update_world(&mut w, &reg, &mut rng));
    assert_eq!(w.cell(0, 0), Some(MatterId::Water));
    w.paint(4, 0, MatterId::Empty);
    assert!(PhysicsEngine::new().update_world(&mut w, &reg, &mut rng));
    assert_eq!(w.cell(4, 0), Some(MatterId::Water));
}

#[test]
fn water_takes_either_side_at_equal_distance() {
    let reg = Registry::standard();
    let mut rng = StdRng::seed_from_u64(15);
    let mut w = water_on_rock_floor(5);
    w.paint(1, 0, MatterId::Rock);
    w.paint(3, 0, MatterId::Rock);
    w.paint(2, 0, MatterId::Water);
    assert!(PhysicsEngine::new().update_world(&mut w, &reg, &mut rng));
    let left = w.cell(0, 0) == Some(MatterId::Water);
    let right = w.cell(4, 0) == Some(MatterId::Water);
    assert!(left != right);
}

#[test]
fn same_seed_same_grid() {
    let reg = Registry::standard();
    let build = || {
        let mut w = World::new(6, 6);
        for x in 0..6 {
            w.paint(x, 0, MatterId::Sand);
            w.paint(x, 2, MatterId::Water);
        }
        w.paint(2, 5, MatterId::Rock);
        w
    };
    let mut a = build();
    let mut b = build();
    let mut ra = StdRng::seed_from_u64(42);
    let mut rb = StdRng::seed_from_u64(42);
    let mut engine = PhysicsEngine::new();
    for _ in 0..10 {
        let ca = engine.update_world(&mut a, &reg, &mut ra);
        let cb = engine.update_world(&mut b, &reg, &mut rb);
        assert_eq!(ca, cb);
        for y in 0..6 {
            for x in 0..6 {
                assert_eq!(a.cell(x, y), b.cell(x, y));
            }
        }
    }
}

#[test]
fn quiet_grid_stays_quiet() {
    let reg = Registry::standard();
    let mut rng = StdRng::seed_from_u64(12);
    let mut engine = PhysicsEngine::new();
    let mut w = World::new(3, 3);
    w.paint(0, 2, MatterId::Sand);
    w.paint(1, 2, MatterId::Rock);
    w.paint(2, 2, MatterId::Water);
    assert!(!engine.update_world(&mut w, &reg, &mut rng));
    for _ in 0..5 {
        assert!(!engine.update_world(&mut w, &reg, &mut rng));
        assert!(!engine.apply_gravity_to_sand(&mut w, &reg, &mut rng));
    }
    assert_eq!(w.occupied_count(), 3);
}

#[test]
fn undefined_kinds_stay_put() {
    let table = vec![MatterDefinition::zero(), MatterDefinition::new(MatterId::Sand)];
    let reg = Registry::define(table).unwrap();
    let mut rng = StdRng::seed_from_u64(13);
    let mut w = World::new(1, 3);
    w.paint(0, 0, MatterId::Water);
    assert!(!PhysicsEngine::default().update_world(&mut w, &reg, &mut rng));
    assert_eq!(w.cell(0, 0), Some(MatterId::Water));
}
