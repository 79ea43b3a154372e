use rustcast::window::TilePosition;

#[test]
fn tile_positions_compare_by_variant() {
    assert_eq!(TilePosition::LeftHalf, TilePosition::LeftHalf);
    assert_ne!(TilePosition::LeftHalf, TilePosition::RightHalf);
    let p = TilePosition::Maximize;
    let q = p.clone();
    assert_eq!(p, q);
}
