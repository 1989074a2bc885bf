use sand_engine::matter::{MatterDefinition, MatterId, MatterReaction, MatterCharacteristic, ERASER};
use sand_engine::registry::{Registry, ValidationError};

fn standard_table() -> Vec<MatterDefinition> {
    vec![
        MatterDefinition::new(MatterId::Empty),
        MatterDefinition::new(MatterId::Sand),
        MatterDefinition::new(MatterId::Rock),
        MatterDefinition::new(MatterId::Water),
    ]
}

#[test]
fn well_formed_table_is_accepted() {
    let reg = Registry::define(standard_table()).unwrap();
    assert_eq!(reg.len(), 4);
    assert_eq!(reg.lookup(MatterId::Water).id, MatterId::Water);
    assert!(reg.defines(MatterId::Water));
    assert_eq!(Registry::standard().len(), 4);
}

#[test]
fn empty_and_short_tables() {
    assert!(Registry::define(Vec::new()).is_ok());
    let short = vec![MatterDefinition::new(MatterId::Empty), MatterDefinition::new(MatterId::Sand)];
    let reg = Registry::define(short).unwrap();
    assert!(reg.defines(MatterId::Sand));
    assert!(!reg.defines(MatterId::Rock));
}

#[test]
fn mismatched_id_is_refused() {
    let mut t = standard_table();
    t.swap(1, 2);
    assert_eq!(Registry::define(t).err(), Some(ValidationError::IdMismatch { index: 1 }));
    let t2 = vec![MatterDefinition::new(MatterId::Sand)];
    assert_eq!(Registry::define(t2).err(), Some(ValidationError::IdMismatch { index: 0 }));
}

#[test]
fn out_of_range_result_is_refused() {
    let mut sand = MatterDefinition::new(MatterId::Sand);
    sand.reactions[3] = MatterReaction::becomes_on_touch(1, MatterCharacteristic::from_bits(ERASER), MatterId::Water);
    let t = vec![MatterDefinition::new(MatterId::Empty), sand];
    assert_eq!(Registry::define(t).err(), Some(ValidationError::ResultOutOfRange { index: 1, reaction: 3 }));
}

#[test]
fn first_error_wins() {
    let mut sand = MatterDefinition::new(MatterId::Sand);
    sand.reactions[2] = MatterReaction::becomes_on_touch(1, MatterCharacteristic::from_bits(ERASER), MatterId::Water);
    sand.reactions[4] = MatterReaction::becomes_on_touch(1, MatterCharacteristic::from_bits(ERASER), MatterId::Rock);
    let t = vec![MatterDefinition::new(MatterId::Empty), sand, MatterDefinition::new(MatterId::Sand)];
    let e1 = Registry::define(t.clone()).err();
    let e2 = Registry::define(t).err();
    assert_eq!(e1, Some(ValidationError::ResultOutOfRange { index: 1, reaction: 2 }));
    assert_eq!(e1, e2);
}
