use magnate::level_editor::{
    builder, new_clump, set_tile_clump, spawn_border_tile, spawn_immovable, spawn_rune,
    spawn_solo_triangle, update_builder_state, BuilderState,
};
use magnate::rotation::{rotation_system, RotateOutcome, RotationDirection};
use magnate::savegame::{clear_world, load_request, save_level, save_request, spawn_level};
use magnate::sim::SimState;
use magnate::tilemap::{TileCoord, TriangleOrient, TriangleTile, VertexCoord};

fn up(x: i64, y: i64) -> TileCoord {
    TileCoord::new(VertexCoord::new(x, y), TriangleOrient::PointingUp)
}

fn down(x: i64, y: i64) -> TileCoord {
    TileCoord::new(VertexCoord::new(x, y), TriangleOrient::PointingDown)
}

fn place_clumped(state: &mut SimState, coord: TileCoord) -> (u64, u64) {
    let id = spawn_solo_triangle(state, coord);
    let c = new_clump(state);
    set_tile_clump(state, id, c);
    (id, c)
}

#[test]
fn save_captures_the_level() {
    let mut state = SimState::new();
    let (_, ca) = place_clumped(&mut state, up(0, 0));
    let b = spawn_solo_triangle(&mut state, down(0, 0));
    set_tile_clump(&mut state, b, ca);
    spawn_immovable(&mut state, up(3, 3));
    spawn_rune(&mut state, down(1, 1));
    // a border-like tile: clumpless and unmarked, not captured
    spawn_solo_triangle(&mut state, up(7, 7));
    let save = save_level(&state);
    assert_eq!(save.triangles.len(), 2);
    assert_eq!(save.triangles[0].0.position, up(0, 0));
    assert_eq!(save.triangles[1].0.position, down(0, 0));
    assert_eq!(save.triangles[0].1, save.triangles[1].1);
    assert_eq!(save.immovables, vec![up(3, 3)]);
    assert_eq!(save.runes.len(), 1);
    assert_eq!(save.runes[0].position, down(1, 1));
}

#[test]
fn clear_keeps_only_the_border() {
    let mut state = SimState::new();
    place_clumped(&mut state, up(0, 0));
    spawn_immovable(&mut state, up(3, 3));
    spawn_rune(&mut state, down(1, 1));
    let border = spawn_solo_triangle(&mut state, up(7, 7));
    clear_world(&mut state);
    assert_eq!(state.tiles.len(), 1);
    assert_eq!(state.tiles[0].id, border);
    assert_eq!(state.selectables.len(), 3);
    assert!(state.selectables.iter().all(|s| s.tile_id == border));
    assert!(state.runes.is_empty());
}

#[test]
fn save_and_load_round_trip() {
    let mut state = SimState::new();
    let (a, ca) = place_clumped(&mut state, up(0, 0));
    let b = spawn_solo_triangle(&mut state, down(0, 0));
    set_tile_clump(&mut state, b, ca);
    let (_c, cc) = place_clumped(&mut state, up(5, 5));
    assert_ne!(ca, cc);
    spawn_immovable(&mut state, up(3, 3));
    spawn_rune(&mut state, down(1, 1));
    let save = save_level(&state);

    // load into a different world that carries its own border
    let mut fresh = SimState::new();
    let border = spawn_solo_triangle(&mut fresh, up(9, 9));
    assert!(spawn_level(&mut fresh, &save));

    // the border survived
    assert_eq!(fresh.tiles[0].id, border);
    // the movable tiles come back with the same faces
    let movables: Vec<_> = fresh.tiles.iter().filter(|t| t.clump.is_some()).collect();
    assert_eq!(movables.len(), 3);
    assert_eq!(movables[0].tile.position, up(0, 0));
    assert_eq!(movables[1].tile.position, down(0, 0));
    assert_eq!(movables[2].tile.position, up(5, 5));
    // the clump grouping is preserved up to renumbering
    assert_eq!(movables[0].clump, movables[1].clump);
    assert_ne!(movables[0].clump, movables[2].clump);
    // obstacles and runes come back too; runes start unlit
    let obstacles: Vec<_> = fresh.tiles.iter().filter(|t| t.immovable).collect();
    assert_eq!(obstacles.len(), 1);
    assert_eq!(obstacles[0].tile.position, up(3, 3));
    assert_eq!(fresh.runes.len(), 1);
    assert_eq!(fresh.runes[0].rune.position, down(1, 1));
    assert!(!fresh.runes[0].lit);
    // every rebuilt triangle exposes its three corners again
    assert_eq!(fresh.selectables.len(), 3 + 3 * 3);
    let _ = a;
}

#[test]
fn load_replaces_the_previous_level() {
    let mut state = SimState::new();
    place_clumped(&mut state, up(0, 0));
    spawn_rune(&mut state, down(1, 1));
    let save = save_level(&state);
    // the state moves on: more tiles, more runes
    place_clumped(&mut state, up(2, 2));
    spawn_rune(&mut state, down(3, 3));
    assert!(spawn_level(&mut state, &save));
    let movables: Vec<_> = state.tiles.iter().filter(|t| t.clump.is_some()).collect();
    assert_eq!(movables.len(), 1);
    assert_eq!(movables[0].tile.position, up(0, 0));
    assert_eq!(state.runes.len(), 1);
}

#[test]
fn load_rejects_a_capture_off_the_board() {
    let mut state = SimState::new();
    let (a, _) = place_clumped(&mut state, up(0, 0));
    let mut save = save_level(&state);
    save.immovables.push(up(700_000, 0)); // outside the board's range
    let tiles_before = state.tiles.len();
    assert!(!spawn_level(&mut state, &save));
    // nothing changed, not even a partial load
    assert_eq!(state.tiles.len(), tiles_before);
    assert_eq!(state.tiles[0].id, a);
    let _ = a;
}

#[test]
fn builder_modes_follow_the_keys() {
    let mut state = SimState::new();
    assert_eq!(state.builder, BuilderState::Triangles);
    update_builder_state(&mut state, false, true, false);
    assert_eq!(state.builder, BuilderState::Immovables);
    update_builder_state(&mut state, false, false, true);
    assert_eq!(state.builder, BuilderState::Runes);
    update_builder_state(&mut state, false, false, false);
    assert_eq!(state.builder, BuilderState::Runes);
    update_builder_state(&mut state, true, false, false);
    assert_eq!(state.builder, BuilderState::Triangles);
}

#[test]
fn builder_places_what_the_mode_says() {
    let mut state = SimState::new();
    assert!(builder(&mut state, up(1, 1)));
    assert_eq!(state.tiles.len(), 1);
    assert!(state.tiles[0].clump.is_some());
    assert_eq!(state.selectables.len(), 3);

    update_builder_state(&mut state, false, true, false);
    assert!(builder(&mut state, up(2, 2)));
    assert_eq!(state.tiles.len(), 2);
    assert!(state.tiles[1].immovable);

    update_builder_state(&mut state, false, false, true);
    assert!(builder(&mut state, down(3, 3)));
    assert_eq!(state.runes.len(), 1);
    assert_eq!(state.runes[0].rune.position, down(3, 3));
}

#[test]
fn builder_refuses_a_face_off_the_board() {
    let mut state = SimState::new();
    assert!(!builder(&mut state, up(600_001, 0)));
    assert!(state.tiles.is_empty());
}

#[test]
fn distinct_clumps_stay_distinct_through_a_load() {
    let mut state = SimState::new();
    // two clumps saved in interleaved record order
    let (a1, c1) = place_clumped(&mut state, up(0, 0));
    let (_b1, c2) = place_clumped(&mut state, up(4, 4));
    let a2 = spawn_solo_triangle(&mut state, down(0, 0));
    set_tile_clump(&mut state, a2, c1);
    let b2 = spawn_solo_triangle(&mut state, down(4, 4));
    set_tile_clump(&mut state, b2, c2);
    let save = save_level(&state);
    let mut fresh = SimState::new();
    assert!(spawn_level(&mut fresh, &save));
    let movables: Vec<_> = fresh.tiles.iter().filter(|t| t.clump.is_some()).collect();
    assert_eq!(movables.len(), 4);
    assert_eq!(movables[0].clump, movables[2].clump);
    assert_eq!(movables[1].clump, movables[3].clump);
    assert_ne!(movables[0].clump, movables[1].clump);
    let _ = a1;
}

#[test]
fn load_keys_decide_the_level() {
    let mut state = SimState::new();
    // the save chord never loads
    assert_eq!(load_request(&mut state, true, Some(3), false), None);
    // a number key jumps there
    assert_eq!(load_request(&mut state, false, Some(3), false), Some(3));
    assert_eq!(state.level.current, 3);
    // no key, nothing pending: nothing loads
    assert_eq!(load_request(&mut state, false, None, false), None);
    // a pending reload fires once
    state.level.should_reload = true;
    assert_eq!(load_request(&mut state, false, None, false), Some(3));
    assert!(!state.level.should_reload);
    assert_eq!(load_request(&mut state, false, None, false), None);
    // a manual reload fires and dismisses the reload hint
    state.reload_hint_visible = true;
    assert_eq!(load_request(&mut state, false, None, true), Some(3));
    assert!(!state.reload_hint_visible);
}

#[test]
fn save_keys_decide_the_slot() {
    assert_eq!(save_request(true, Some(7)), Some(7));
    assert_eq!(save_request(true, None), None);
    assert_eq!(save_request(false, Some(7)), None);
}

#[test]
fn default_level_info() {
    let lvl = magnate::level::LevelInfo::default();
    assert_eq!(lvl.current, 1);
    assert_eq!(lvl.win_animation_progress, None);
    assert!(!lvl.should_reload);
}

#[test]
fn border_tiles_block_but_are_never_captured() {
    let mut state = SimState::new();
    let border = spawn_border_tile(&mut state, down(0, 0));
    assert!(state.selectables.is_empty());
    let (a, _) = place_clumped(&mut state, up(0, 0));
    state.selected.selected_set = vec![a];
    state.selected.anchor = VertexCoord::new(0, 0);
    // the border tile occupies a's clockwise destination
    let r = rotation_system(&mut state, RotationDirection::Clockwise);
    assert_eq!(r, RotateOutcome::Blocked);
    // it is in neither capture list
    let save = save_level(&state);
    assert_eq!(save.triangles.len(), 1);
    assert!(save.immovables.is_empty());
    // and it survives a clear
    clear_world(&mut state);
    assert_eq!(state.tiles.len(), 1);
    assert_eq!(state.tiles[0].id, border);
    assert!(state.selectables.is_empty());
}

#[test]
fn save_of_empty_world_is_empty() {
    let state = SimState::new();
    let save = save_level(&state);
    assert!(save.triangles.is_empty());
    assert!(save.immovables.is_empty());
    assert!(save.runes.is_empty());
    let tri = TriangleTile::default();
    assert_eq!(tri.position, up(0, 0));
}
