use game_core::building::{BuildingKind, CBuilding};
use game_core::world::WorldPos;

#[test]
fn building_kind_discriminants() {
    assert_eq!(BuildingKind::TownHall.code(), 1);
    assert_eq!(BuildingKind::Keep.code(), 2);
    assert_eq!(BuildingKind::Castle.code(), 3);
}

#[test]
fn building_keeps_its_placement() {
    let pos = WorldPos::new(3.5f32.to_bits(), (-2.0f32).to_bits());
    let b = CBuilding::new(BuildingKind::Keep, pos, 1.25f32.to_bits());
    assert_eq!(b.kind, BuildingKind::Keep);
    assert_eq!(b.pos, pos);
    assert_eq!(f32::from_bits(b.rotation), 1.25);
}
