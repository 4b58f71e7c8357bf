use zamlock::ClickOutcome;
use zamlock::Direction;
use zamlock::Pos;
use zamlock::ScreenPoint;
use zamlock::SelectMode;
use zamlock::SelectUnitEvent;
use zamlock::SelectedUnit;
use zamlock::TileMap;
use zamlock::Unit;
use zamlock::UnitPluginGroup;
use zamlock::get_facing;

fn flat_3x3() -> TileMap {
    let mut map = TileMap::new(32, ScreenPoint { x: 0, y: 0 }).expect("valid configuration");
    let mut next_ref: u64 = 1;
    for x in 0..3 {
        for z in 0..3 {
            map.insert_tile(Pos::new(x, 0, z), next_ref).expect("free cell");
            next_ref += 1;
        }
    }
    map
}

fn spawn_at(map: &TileMap, pos: Pos, move_distance: usize) -> Unit {
    let tile = map.get(&pos).expect("tile present");
    Unit::new(map, pos, tile, 800, move_distance, Direction::NorthWest)
}

fn as_sorted(v: &[Pos]) -> Vec<(i64, i64, i64)> {
    let mut t: Vec<(i64, i64, i64)> = v.iter().map(|p| (p.x, p.y_half, p.z)).collect();
    t.sort();
    t
}

#[test]
fn valid_moves_one_step_from_corner() {
    let map = flat_3x3();
    let unit = spawn_at(&map, Pos::new(0, 0, 0), 1);
    let moves = unit.get_valid_moves(&map);
    assert_eq!(as_sorted(&moves), vec![(0, 0, 1), (1, 0, 0)]);
}

#[test]
fn valid_moves_exclude_own_position_and_deduplicate() {
    let map = flat_3x3();
    let unit = spawn_at(&map, Pos::new(1, 0, 1), 2);
    let moves = unit.get_valid_moves(&map);
    assert!(!moves.contains(&Pos::new(1, 0, 1)));
    let mut sorted = as_sorted(&moves);
    let before = sorted.len();
    sorted.dedup();
    assert_eq!(sorted.len(), before, "no position may be listed twice");
    // Two steps from the centre reach everything on the 3x3 grid.
    assert_eq!(before, 8);
}

#[test]
fn valid_moves_grow_monotonically_with_budget() {
    // Everything reachable with budget k stays reachable with budget k + 1.
    let mut map = flat_3x3();
    map.insert_tile(Pos::new(1, 1, 1), 50).expect("free cell");
    for k in 0..4 {
        let smaller = spawn_at(&map, Pos::new(0, 0, 0), k);
        let larger = spawn_at(&map, Pos::new(0, 0, 0), k + 1);
        let small_moves = smaller.get_valid_moves(&map);
        let large_moves = larger.get_valid_moves(&map);
        for p in &small_moves {
            assert!(large_moves.contains(p), "budget {} lost a tile", k + 1);
        }
    }
}

#[test]
fn valid_moves_zero_budget_is_empty() {
    let map = flat_3x3();
    let unit = spawn_at(&map, Pos::new(1, 0, 1), 0);
    assert!(unit.get_valid_moves(&map).is_empty());
}

#[test]
fn facing_follows_axis_signs() {
    let c = Pos::new(5, 0, 3);
    assert_eq!(get_facing(c, Pos::new(6, 0, 3)), Direction::NorthEast);
    assert_eq!(get_facing(c, Pos::new(4, 0, 3)), Direction::SouthWest);
    assert_eq!(get_facing(c, Pos::new(5, 0, 4)), Direction::NorthWest);
    assert_eq!(get_facing(c, Pos::new(5, 0, 2)), Direction::SouthEast);
}

#[test]
fn facing_falls_back_on_diagonal_moves() {
    // A move that changes both axes has no implied facing: the fixed
    // south-west fallback applies, as does one that changes neither.
    let c = Pos::new(5, 0, 3);
    assert_eq!(get_facing(c, Pos::new(6, 0, 4)), Direction::SouthWest);
    assert_eq!(get_facing(c, c), Direction::SouthWest);
    // Elevation alone does not turn the unit either.
    assert_eq!(get_facing(c, Pos::new(5, 1, 3)), Direction::SouthWest);
}

#[test]
fn selection_state_transitions() {
    let mut selected = SelectedUnit::default();
    assert!(selected.is_none());
    assert!(!selected.is_some());
    selected.select_unit(12);
    assert!(selected.is_some());
    assert_eq!(selected, SelectedUnit::Selection { entity: 12, mode: SelectMode::Move });
    selected.deselect_unit();
    assert!(selected.is_none());
}

#[test]
fn unit_walks_its_path_to_idle() {
    let map = flat_3x3();
    let mut unit = spawn_at(&map, Pos::new(0, 0, 0), 3);
    assert!(!unit.is_moving());
    assert_eq!(unit.next_waypoint(), None);
    unit.set_unit_path(Pos::new(2, 0, 2), &map).expect("connected");
    assert!(unit.is_moving());
    let mut steps = 0;
    while let Some(next) = unit.next_waypoint() {
        // The next waypoint is always one legal move from where the unit
        // stands.
        assert!(map.get_frontier(unit.pos).contains(&next));
        let tile = map.get(&next).expect("tile present");
        unit.arrive_at_waypoint(tile);
        assert_eq!(unit.pos, next);
        assert_eq!(unit.tile, tile);
        steps += 1;
        assert!(steps <= 4, "the walk must end");
    }
    assert_eq!(steps, 4);
    assert_eq!(unit.pos, Pos::new(2, 0, 2));
    assert!(!unit.is_moving());
}

#[test]
fn set_unit_path_failure_keeps_old_path() {
    let mut map = flat_3x3();
    map.insert_tile(Pos::new(5, 0, 5), 99).expect("free cell");
    let mut unit = spawn_at(&map, Pos::new(0, 0, 0), 3);
    unit.set_unit_path(Pos::new(2, 0, 2), &map).expect("connected");
    let planned = unit.path.clone();
    assert!(unit.set_unit_path(Pos::new(5, 0, 5), &map).is_err());
    assert_eq!(unit.path, planned);
}

#[test]
fn plugin_group_click_cycle() {
    let map = flat_3x3();
    let mut group = UnitPluginGroup::new();
    assert!(group.selected_unit.is_none());

    // Clicking the tile a unit stands on selects that unit.
    let r = group.apply_click(Some(Pos::new(0, 0, 0)), Some(7), false);
    assert_eq!(r, ClickOutcome::Select(SelectUnitEvent(7)));
    assert!(group.selected_unit.is_some());

    // Clicking a reachable tile queues the move and clears the selection.
    let target = Pos::new(1, 0, 0);
    let r = group.apply_click(Some(target), None, true);
    match r {
        ClickOutcome::MoveAndDeselect(set_path, deselect) => {
            assert_eq!(set_path.0, 7);
            assert_eq!(set_path.1, target);
            assert_eq!(deselect.0, 7);
        }
        other => panic!("expected a move, got {:?}", other),
    }
    assert!(group.selected_unit.is_none());

    // A click into the void changes nothing.
    let r = group.apply_click(None, None, false);
    assert_eq!(r, ClickOutcome::Nothing);
    assert!(group.selected_unit.is_none());
    let _ = &map;
}
