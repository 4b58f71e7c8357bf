use zamlock::MapError;
use zamlock::Pos;
use zamlock::ScreenPoint;
use zamlock::TileMap;

fn flat_map(tile_size: i64) -> TileMap {
    TileMap::new(tile_size, ScreenPoint { x: 0, y: 0 }).expect("valid configuration")
}

#[test]
fn new_rejects_zero_tile_size() {
    let r = TileMap::new(0, ScreenPoint { x: 0, y: 0 });
    assert_eq!(r.err(), Some(MapError::Configuration));
}

#[test]
fn new_rejects_negative_tile_size() {
    let r = TileMap::new(-32, ScreenPoint { x: 0, y: 0 });
    assert_eq!(r.err(), Some(MapError::Configuration));
}

#[test]
fn new_rejects_oversized_origin() {
    let r = TileMap::new(32, ScreenPoint { x: 2_000_000_000_000, y: 0 });
    assert_eq!(r.err(), Some(MapError::Configuration));
}

#[test]
fn forward_transform_exact_values() {
    // Quarter-pixel screen units: 0.5 * 32 * (5 - 3) pixels = 32 px = 128.
    let map = flat_map(32);
    let s = map.world_pos_to_screen_pos(Pos::new(5, 0, 3));
    assert_eq!(s.x, 128);
    assert_eq!(s.y, -256); // -0.25 * 32 * (5 + 3) px = -64 px
    assert_eq!(s.z_order, -35); // (-0.001 * 5 - 0.01 * 3) in thousandths
}

#[test]
fn forward_transform_lifts_by_elevation() {
    let map = flat_map(32);
    let ground = map.world_pos_to_screen_pos(Pos::new(1, 0, 1));
    let raised = map.world_pos_to_screen_pos(Pos::new(1, 2, 1));
    assert_eq!(raised.x, ground.x);
    // One whole elevation step lifts by half a tile: 16 px = 64 quarter-px.
    assert_eq!(raised.y, ground.y + 64);
    assert!(raised.z_order > ground.z_order);
}

#[test]
fn absolute_transform_adds_origin() {
    let map = TileMap::new(32, ScreenPoint { x: 10, y: -20 }).expect("valid configuration");
    let rel = flat_map(32).world_pos_to_screen_pos(Pos::new(2, 1, -1));
    let abs = map.world_pos_to_screen_pos_absolute(Pos::new(2, 1, -1));
    assert_eq!(abs.x, rel.x + 10);
    assert_eq!(abs.y, rel.y - 20);
    assert_eq!(abs.z_order, rel.z_order);
}

#[test]
fn unit_screen_pos_sits_on_top_face() {
    let map = flat_map(32);
    let base = map.world_pos_to_screen_pos_absolute(Pos::new(5, 0, 3));
    let top = map.world_pos_to_unit_screen_pos_absolute(Pos::new(5, 0, 3));
    assert_eq!(top.x, base.x);
    assert_eq!(top.y, base.y + 32); // a quarter tile above the sprite centre
    assert_eq!(top.z_order, base.z_order + 5);
}

#[test]
fn inverse_transform_exact_values() {
    let map = flat_map(32);
    // (128, -256) is the forward image of (5, 0, 3) at ground level.
    let p = map.screen_pos_to_world_pos(ScreenPoint { x: 128, y: -256 });
    assert_eq!(p, Pos::new(5, 0, 3));
    // A point strictly inside a cell floors to that cell.
    let q = map.screen_pos_to_world_pos(ScreenPoint { x: 130, y: -257 });
    assert_eq!(q, Pos::new(5, 0, 3));
}

#[test]
fn round_trip_reproduces_cell() {
    // The inverse works at ground level, so the test hands it the screen
    // point with the elevation lift removed, as picking does.
    let map = TileMap::new(32, ScreenPoint { x: 10, y: -20 }).expect("valid configuration");
    let cases = [
        Pos::new(0, 0, 0),
        Pos::new(3, 1, -2),
        Pos::new(-7, 3, 5),
        Pos::new(1, -2, 1),
        Pos::new(250, 0, -975),
    ];
    for p in cases {
        let s = map.world_pos_to_screen_pos_absolute(p);
        let lift = 32 * p.y_half; // tile_size * half-steps, in quarter-pixels
        let back = map.screen_pos_to_world_pos(ScreenPoint { x: s.x, y: s.y - lift });
        assert_eq!(back.x, p.x);
        assert_eq!(back.z, p.z);
        assert_eq!(back.y_half, 0);
    }
}

#[test]
fn round_trip_holds_for_other_tile_sizes() {
    // Odd tile sizes stay exact because screen space is in quarter-pixels.
    for ts in [1, 3, 17, 31, 100] {
        let map = flat_map(ts);
        let p = Pos::new(-3, 1, 9);
        let s = map.world_pos_to_screen_pos_absolute(p);
        let back = map.screen_pos_to_world_pos(ScreenPoint { x: s.x, y: s.y - ts * p.y_half });
        assert_eq!((back.x, back.z), (p.x, p.z));
    }
}

#[test]
fn tile_records_its_shape_size_and_position() {
    let t = zamlock::Tile::new(zamlock::TileHeight::Half, 32, Pos::new(1, 1, 0));
    assert_eq!(t.height, zamlock::TileHeight::Half);
    assert_eq!(t.size, 32);
    assert_eq!(t.pos, Pos::new(1, 1, 0));
}

#[test]
fn tile_heights_scale_with_tile_size() {
    let map = flat_map(32);
    assert_eq!(map.tile_height(), 64); // half a 32 px tile, in quarter-pixels
    assert_eq!(map.tile_top_y_offset(), 32);
}
