use zamlock::ActiveTile;
use zamlock::ClickOutcome;
use zamlock::DeselectUnitEvent;
use zamlock::Pos;
use zamlock::ScreenPoint;
use zamlock::SelectMode;
use zamlock::SelectUnitEvent;
use zamlock::SelectedUnit;
use zamlock::SetPathEvent;
use zamlock::TileMap;
use zamlock::picking::click_tile;

fn flat_3x3() -> TileMap {
    let mut map = TileMap::new(32, ScreenPoint { x: 0, y: 0 }).expect("valid configuration");
    let mut next_ref: u64 = 1;
    for x in 0..3 {
        for z in 0..3 {
            map.insert_tile(Pos::new(x, 0, z), next_ref).expect("free cell");
            next_ref += 1;
        }
    }
    map
}

/// The screen point at the sprite centre of `p`, where its own footprint
/// test succeeds.
fn sprite_center(map: &TileMap, p: Pos) -> ScreenPoint {
    let s = map.world_pos_to_screen_pos_absolute(p);
    ScreenPoint { x: s.x, y: s.y }
}

#[test]
fn pick_hits_the_tile_under_the_pointer() {
    let map = flat_3x3();
    for x in 0..3 {
        for z in 0..3 {
            let p = Pos::new(x, 0, z);
            assert_eq!(map.pick(sprite_center(&map, p)), Some(p));
        }
    }
}

#[test]
fn pick_misses_empty_space() {
    let map = flat_3x3();
    // Far away from the grid's screen footprint.
    assert_eq!(map.pick(ScreenPoint { x: 100_000, y: 100_000 }), None);
}

#[test]
fn pick_prefers_the_higher_tile() {
    // Two tiles at the same x/z, elevations 0 and 1 (two half-steps), the
    // higher one uncovered: picking at the higher tile's own footprint
    // returns the higher tile, never the one below it.
    let mut map = flat_3x3();
    let high = Pos::new(1, 2, 1);
    map.insert_tile(high, 40).expect("free cell");
    let picked = map.pick(sprite_center(&map, high));
    assert_eq!(picked, Some(high));
}

#[test]
fn pick_never_returns_an_occluded_tile() {
    // The pointer sits on the lower tile's own footprint, but a tile stacked
    // above makes the lower one unpickable, so the pick misses entirely.
    let mut map = flat_3x3();
    let low = Pos::new(1, 0, 1);
    let high = Pos::new(1, 2, 1);
    let at_low = sprite_center(&map, low);
    assert_eq!(map.pick(at_low), Some(low));
    map.insert_tile(high, 40).expect("free cell");
    assert_eq!(map.pick(at_low), None);
}

#[test]
fn pick_overlapping_footprints_take_the_highest() {
    // A tile at elevation 1 screen-overlaps the ground tile one row south.
    // Its lifted footprint must win over the ground tile's.
    let mut map = flat_3x3();
    let raised = Pos::new(2, 2, 2);
    map.insert_tile(raised, 41).expect("free cell");
    // The raised tile's sprite centre coincides on screen with some ground
    // point; picking there sees the raised tile first.
    assert_eq!(map.pick(sprite_center(&map, raised)), Some(raised));
}

#[test]
fn active_tile_holds_render_reference() {
    let map = flat_3x3();
    let p = Pos::new(0, 0, 2);
    let picked = map.pick(sprite_center(&map, p)).expect("tile under pointer");
    let active = ActiveTile(map.get(&picked));
    assert_eq!(active, ActiveTile(Some(3)));
}

#[test]
fn click_with_no_active_tile_does_nothing() {
    let selected = SelectedUnit::NoSelection;
    let r = click_tile(&selected, None, Some(9), true);
    assert_eq!(r, ClickOutcome::Nothing);
}

#[test]
fn click_selects_unit_on_tile() {
    let selected = SelectedUnit::NoSelection;
    let r = click_tile(&selected, Some(Pos::new(1, 0, 1)), Some(9), false);
    assert_eq!(r, ClickOutcome::Select(SelectUnitEvent(9)));
}

#[test]
fn click_on_bare_tile_with_no_selection_does_nothing() {
    let selected = SelectedUnit::NoSelection;
    let r = click_tile(&selected, Some(Pos::new(1, 0, 1)), None, false);
    assert_eq!(r, ClickOutcome::Nothing);
}

#[test]
fn click_on_valid_move_assigns_path_and_deselects() {
    let selected = SelectedUnit::Selection { entity: 4, mode: SelectMode::Move };
    let target = Pos::new(2, 0, 1);
    let r = click_tile(&selected, Some(target), None, true);
    assert_eq!(
        r,
        ClickOutcome::MoveAndDeselect(SetPathEvent(4, target), DeselectUnitEvent(4))
    );
}

#[test]
fn click_on_invalid_move_only_deselects() {
    let selected = SelectedUnit::Selection { entity: 4, mode: SelectMode::Move };
    let r = click_tile(&selected, Some(Pos::new(2, 0, 1)), None, false);
    assert_eq!(r, ClickOutcome::Deselect(DeselectUnitEvent(4)));
}
