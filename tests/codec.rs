use rand::rngs::StdRng;
use rand::SeedableRng;
use sand_engine::codec::{decode, encode, DecodeError, RECORD_BYTES};
use sand_engine::matter::MatterId;
use sand_engine::physics::PhysicsEngine;
use sand_engine::registry::Registry;
use sand_engine::world::World;

fn scenario(reg: &Registry) -> Vec<Option<MatterId>> {
    let mut rng = StdRng::seed_from_u64(99);
    let mut w = World::new(5, 5);
    for x in 0..5 {
        w.paint(x, 0, MatterId::Water);
        w.paint(x, 1, MatterId::Sand);
    }
    w.paint(2, 4, MatterId::Rock);
    let mut engine = PhysicsEngine::new();
    for _ in 0..6 {
        engine.update_world(&mut w, reg, &mut rng);
    }
    let mut out = Vec::new();
    for y in 0..5 {
        for x in 0..5 {
            out.push(w.cell(x, y));
        }
    }
    out
}

#[test]
fn round_trip_keeps_the_table() {
    let reg = Registry::standard();
    let bytes = encode(reg.definitions());
    assert_eq!(bytes.len(), 4 * RECORD_BYTES);
    let table = decode(&bytes).unwrap();
    assert_eq!(encode(&table), bytes);
    let reloaded = Registry::define(table).unwrap();
    assert_eq!(reloaded.len(), 4);
    assert_eq!(scenario(&reg), scenario(&reloaded));
}

#[test]
fn record_layout_is_little_endian() {
    let reg = Registry::standard();
    let bytes = encode(reg.definitions());
    assert_eq!(&bytes[RECORD_BYTES..RECORD_BYTES + 4], &[1, 0, 0, 0]);
    assert_eq!(&bytes[RECORD_BYTES + 4..RECORD_BYTES + 8], &[0xff, 0x80, 0xb2, 0xc2]);
}

#[test]
fn empty_table_round_trips() {
    let bytes = encode(&Vec::new());
    assert!(bytes.is_empty());
    assert_eq!(decode(&bytes).unwrap().len(), 0);
}

#[test]
fn bad_length_is_refused() {
    let reg = Registry::standard();
    let mut bytes = encode(reg.definitions());
    bytes.pop();
    assert_eq!(decode(&bytes).err(), Some(DecodeError::Length));
}

#[test]
fn unknown_id_is_refused() {
    let reg = Registry::standard();
    let mut bytes = encode(reg.definitions());
    bytes[2 * RECORD_BYTES] = 9;
    assert_eq!(decode(&bytes).err(), Some(DecodeError::Record { index: 2 }));
    let mut bytes2 = encode(reg.definitions());
    bytes2[RECORD_BYTES + 12] = 8;
    assert_eq!(decode(&bytes2).err(), Some(DecodeError::Record { index: 1 }));
}
