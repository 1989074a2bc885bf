use sand_engine::matter::{
    Direction, MatterCharacteristic, MatterDefinition, MatterId, MatterReaction, MatterState, MatterWithColor,
    ALL_DIRECTIONS, CORRODES, CORROSIVE, DOWN, DOWN_LEFT, ERASER, LEFT, MELTS, PROBABILITY_SCALE, UP_LEFT,
    WATER_DISPERSION,
};

#[test]
fn color_bytes_of_sand() {
    assert_eq!(MatterId::Sand.color_rgba_u8(), [0xc2, 0xb2, 0x80, 0xff]);
    assert_eq!(MatterId::Water.color_rgba_u8(), [0x0f, 0x5e, 0x9c, 0xff]);
    assert_eq!(MatterId::Empty.color_rgba_u8(), [0, 0, 0, 0]);
}

#[test]
fn matter_with_color_keeps_id_and_color() {
    let p = MatterWithColor::new(MatterId::Rock);
    assert_eq!(p.matter_id(), MatterId::Rock);
    assert_eq!(p.color, 0x787a79ff);
    let d = MatterDefinition::new(MatterId::Water).to_matter_with_color();
    assert_eq!(d.matter_id(), MatterId::Water);
    assert_eq!(d.color, 0x0f5e9cff);
}

#[test]
fn id_conversion_is_checked() {
    assert_eq!(MatterId::from_u8(0), Some(MatterId::Empty));
    assert_eq!(MatterId::from_u8(3), Some(MatterId::Water));
    assert_eq!(MatterId::from_u8(4), None);
    assert_eq!(MatterId::from_u8(255), None);
    assert_eq!(MatterId::Rock.as_u8(), 2);
    assert_eq!(MatterId::default(), MatterId::Empty);
}

#[test]
fn characteristic_sets() {
    let sand = MatterCharacteristic::from_bits(MELTS | CORRODES);
    assert!(sand.intersects(MatterCharacteristic::from_bits(CORRODES)));
    assert!(!sand.intersects(MatterCharacteristic::from_bits(CORROSIVE)));
    assert!(!sand.intersects(MatterCharacteristic::empty()));
    assert!(sand.contains(MatterCharacteristic::from_bits(MELTS)));
    assert!(!sand.contains(MatterCharacteristic::from_bits(MELTS | ERASER)));
    assert_eq!(sand.union(MatterCharacteristic::from_bits(ERASER)).bits, MELTS | CORRODES | ERASER);
}

#[test]
fn direction_sets() {
    let d = Direction::from_bits(UP_LEFT | LEFT);
    assert!(d.has(0));
    assert!(d.has(7));
    assert!(!d.has(5));
    assert!(Direction::from_bits(ALL_DIRECTIONS).has(3));
}

#[test]
fn reaction_builders() {
    let z = MatterReaction::zero();
    assert_eq!(z.probability, 0);
    assert_eq!(z.reacts.bits, 0);
    assert_eq!(z.direction.bits, 0);
    let d = MatterReaction::dies(10);
    assert_eq!(d.direction.bits, ALL_DIRECTIONS);
    assert_eq!(d.becomes, MatterId::Empty);
    let b = MatterReaction::becomes_on_touch_below(5, MatterCharacteristic::from_bits(ERASER), MatterId::Rock);
    assert_eq!(b.becomes, MatterId::Rock);
    assert!(b.direction.has(5));
    assert!(b.direction.has(6));
    assert!(!b.direction.has(1));
    assert_eq!(b.direction.bits & DOWN, DOWN);
    assert_eq!(b.direction.bits & DOWN_LEFT, DOWN_LEFT);
}

#[test]
fn built_in_definitions() {
    let sand = MatterDefinition::new(MatterId::Sand);
    assert_eq!(sand.id, MatterId::Sand);
    assert_eq!(sand.state, MatterState::Powder);
    assert_eq!(sand.characteristics.bits, MELTS | CORRODES);
    assert_eq!(sand.reactions[0].reacts.bits, CORROSIVE);
    assert_eq!(sand.reactions[0].probability, 50_000);
    assert_eq!(sand.reactions[1].reacts.bits, ERASER);
    assert_eq!(sand.reactions[1].probability, PROBABILITY_SCALE);
    assert_eq!(sand.reactions[2].probability, 0);
    let water = MatterDefinition::new(MatterId::Water);
    assert_eq!(water.state, MatterState::Liquid);
    assert_eq!(water.dispersion, WATER_DISPERSION);
    let rock = MatterDefinition::new(MatterId::Rock);
    assert_eq!(rock.state, MatterState::SolidGravity);
    let empty = MatterDefinition::zero();
    assert_eq!(empty.state, MatterState::Empty);
    assert_eq!(empty.id, MatterId::Empty);
}
