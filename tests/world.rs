use sand_engine::matter::MatterId;
use sand_engine::world::{is_in_bounds_array, MaterialTypes, World, WorldDisplay};

#[test]
fn new_world_is_empty() {
    let w = World::new(4, 3);
    assert_eq!(w.width(), 4);
    assert_eq!(w.height(), 3);
    assert_eq!(w.cell_count(), 12);
    assert_eq!(w.occupied_count(), 0);
    assert_eq!(w.cell(3, 2), Some(MatterId::Empty));
    assert_eq!(w.cell(4, 0), None);
    assert_eq!(w.cell(0, 3), None);
    assert_eq!(w.selected_material(), MaterialTypes::Sand);
}

#[test]
fn zero_sized_world() {
    let w = World::new(0, 0);
    assert_eq!(w.occupied_count(), 0);
    assert_eq!(w.cell(0, 0), None);
}

#[test]
fn paint_in_and_out_of_bounds() {
    let mut w = World::new(3, 3);
    assert!(w.paint(1, 2, MatterId::Sand));
    assert_eq!(w.cell(1, 2), Some(MatterId::Sand));
    assert!(!w.paint(3, 0, MatterId::Sand));
    assert!(!w.paint(0, 3, MatterId::Rock));
    assert_eq!(w.occupied_count(), 1);
    assert!(w.paint(1, 2, MatterId::Empty));
    assert_eq!(w.occupied_count(), 0);
}

#[test]
fn move_into_empty_cell() {
    let mut w = World::new(3, 3);
    w.paint(0, 0, MatterId::Water);
    assert!(w.move_material(0, 0, 2, 2));
    assert_eq!(w.cell(0, 0), Some(MatterId::Empty));
    assert_eq!(w.cell(2, 2), Some(MatterId::Water));
    assert_eq!(w.occupied_count(), 1);
}

#[test]
fn move_into_occupied_cell_is_noop() {
    let mut w = World::new(3, 3);
    w.paint(0, 0, MatterId::Sand);
    w.paint(1, 1, MatterId::Rock);
    assert!(!w.move_material(0, 0, 1, 1));
    assert_eq!(w.cell(0, 0), Some(MatterId::Sand));
    assert_eq!(w.cell(1, 1), Some(MatterId::Rock));
    assert_eq!(w.occupied_count(), 2);
}

#[test]
fn move_from_empty_or_out_of_bounds_fails() {
    let mut w = World::new(3, 3);
    assert!(!w.move_material(0, 0, 1, 1));
    w.paint(0, 0, MatterId::Sand);
    assert!(!w.move_material(0, 0, 3, 1));
    assert!(!w.move_material(5, 5, 1, 1));
    assert!(!w.move_material(0, 0, 0, 0));
    assert_eq!(w.cell(0, 0), Some(MatterId::Sand));
}

#[test]
fn operations_keep_one_particle_per_cell() {
    let mut w = World::new(4, 4);
    w.paint(0, 0, MatterId::Sand);
    w.paint(1, 0, MatterId::Rock);
    w.paint(2, 0, MatterId::Water);
    let moves = [(0, 0, 0, 3), (1, 0, 0, 3), (1, 0, 1, 3), (2, 0, 2, 0), (2, 0, 9, 9), (0, 3, 3, 3)];
    for (fx, fy, tx, ty) in moves {
        w.move_material(fx, fy, tx, ty);
        assert_eq!(w.occupied_count(), 3);
    }
    assert_eq!(w.cell(3, 3), Some(MatterId::Sand));
    assert_eq!(w.cell(1, 3), Some(MatterId::Rock));
    assert_eq!(w.cell(2, 0), Some(MatterId::Water));
    w.paint(3, 3, MatterId::Rock);
    assert_eq!(w.occupied_count(), 3);
}

#[test]
fn resize_discards_contents() {
    let mut w = World::new(2, 2);
    w.paint(0, 0, MatterId::Sand);
    w.select_material(MaterialTypes::Stone);
    let r = w.resize(5, 1);
    assert_eq!(r.width(), 5);
    assert_eq!(r.height(), 1);
    assert_eq!(r.occupied_count(), 0);
    assert_eq!(r.selected_material(), MaterialTypes::Stone);
}

#[test]
fn place_selected_material() {
    let mut w = World::new(2, 2);
    assert!(w.place_rect(0, 1));
    assert_eq!(w.cell(0, 1), Some(MatterId::Sand));
    w.select_material(MaterialTypes::Stone);
    assert!(w.place_rect(1, 1));
    assert_eq!(w.cell(1, 1), Some(MatterId::Rock));
    w.select_material(MaterialTypes::BlackHole);
    assert!(!w.place_rect(0, 0));
    assert_eq!(w.cell(0, 0), Some(MatterId::Empty));
    w.select_material(MaterialTypes::Air);
    assert!(w.place_rect(0, 1));
    assert_eq!(w.cell(0, 1), Some(MatterId::Empty));
    assert!(!w.place_rect(2, 0));
    assert_eq!(MaterialTypes::RedSand.matter_id(), Some(MatterId::Sand));
    assert_eq!(MaterialTypes::BlackHole.matter_id(), None);
}

#[test]
fn bounds_check() {
    assert!(is_in_bounds_array(0, 0, 1, 1));
    assert!(!is_in_bounds_array(1, 0, 1, 1));
    assert!(!is_in_bounds_array(-1, 0, 5, 5));
    assert!(!is_in_bounds_array(0, -3, 5, 5));
    assert!(is_in_bounds_array(4, 4, 5, 5));
    assert!(!is_in_bounds_array(0, 0, 0, 0));
}

#[test]
fn brush_covers_its_square() {
    let d = WorldDisplay::new();
    assert_eq!(d.click_radius, 1);
    let mut w = World::new(5, 5);
    d.paint_brush(&mut w, 2, 2);
    assert_eq!(w.occupied_count(), 4);
    assert_eq!(w.cell(1, 1), Some(MatterId::Sand));
    assert_eq!(w.cell(2, 1), Some(MatterId::Sand));
    assert_eq!(w.cell(1, 2), Some(MatterId::Sand));
    assert_eq!(w.cell(2, 2), Some(MatterId::Sand));
    assert_eq!(w.cell(3, 3), Some(MatterId::Empty));
}

#[test]
fn brush_is_cut_at_the_edges() {
    let d = WorldDisplay { click_radius: 2 };
    let mut w = World::new(3, 3);
    d.paint_brush(&mut w, 0, 0);
    assert_eq!(w.occupied_count(), 4);
    assert_eq!(w.cell(1, 1), Some(MatterId::Sand));
    assert_eq!(w.cell(2, 0), Some(MatterId::Empty));
    let none = WorldDisplay { click_radius: 0 };
    let mut w2 = World::new(3, 3);
    none.paint_brush(&mut w2, 1, 1);
    assert_eq!(w2.occupied_count(), 0);
}
