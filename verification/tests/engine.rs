use magnate::level::rune_system;
use magnate::level_editor::{new_clump, set_tile_clump, spawn_rune, spawn_solo_triangle};
use magnate::rotation::{
    merge_system, rotation_system, triangle_selection_system, RotateOutcome, RotationDirection,
};
use magnate::selection::{selection_system, update_selector, Selectable, SelectionIndicator};
use magnate::sim::SimState;
use magnate::tilemap::{TileCoord, TriangleOrient, VertexCoord, WorldPos};

fn up(x: i64, y: i64) -> TileCoord {
    TileCoord::new(VertexCoord::new(x, y), TriangleOrient::PointingUp)
}

fn down(x: i64, y: i64) -> TileCoord {
    TileCoord::new(VertexCoord::new(x, y), TriangleOrient::PointingDown)
}

/// A movable triangle in a fresh clump of its own; returns (tile id, clump id).
fn place_clumped(state: &mut SimState, coord: TileCoord) -> (u64, u64) {
    let id = spawn_solo_triangle(state, coord);
    let c = new_clump(state);
    set_tile_clump(state, id, c);
    (id, c)
}

fn clump_of(state: &SimState, id: u64) -> Option<u64> {
    state
        .tiles
        .iter()
        .find(|t| t.id == id)
        .expect("tile exists")
        .clump
}

fn coord_of(state: &SimState, id: u64) -> TileCoord {
    state
        .tiles
        .iter()
        .find(|t| t.id == id)
        .expect("tile exists")
        .tile
        .position
}

#[test]
fn selectable_new_is_unselected() {
    let s = Selectable::new(300);
    assert_eq!(s.selection_radius, 300);
    assert!(!s.is_selected);
}

#[test]
fn indicator_new_is_hidden() {
    let i = SelectionIndicator::new();
    assert!(i.selected_triggers.is_empty());
    assert!(!i.visible);
}

#[test]
fn hit_test_is_exact_on_the_boundary() {
    let w = WorldPos::new(0, 0);
    assert!(magnate::selection::hit_test(w, WorldPos::new(300, 0), 300));
    assert!(!magnate::selection::hit_test(w, WorldPos::new(301, 0), 300));
    // the lattice metric: both axes and the (1,-1) diagonal are unit length
    assert!(magnate::selection::hit_test(w, WorldPos::new(0, 300), 300));
    assert!(magnate::selection::hit_test(w, WorldPos::new(300, -300), 300));
    assert!(!magnate::selection::hit_test(w, WorldPos::new(300, 300), 300));
}

#[test]
fn pointer_over_corner_selects_it() {
    let mut state = SimState::new();
    let (id, _) = place_clumped(&mut state, up(0, 0));
    // corner 0 sits at the tile's vertex, world (0, 0)
    selection_system(&mut state, WorldPos::new(0, 0));
    assert!(state.selectables.iter().any(|s| s.selectable.is_selected));
    update_selector(&mut state);
    assert!(state.indicator.visible);
    assert_eq!(state.indicator.position, WorldPos::new(0, 0));
    assert!(state.indicator.selected_triggers.contains(&(id + 1)));
}

#[test]
fn pointer_far_away_selects_nothing() {
    let mut state = SimState::new();
    place_clumped(&mut state, up(0, 0));
    selection_system(&mut state, WorldPos::new(100_000, 100_000));
    update_selector(&mut state);
    assert!(!state.indicator.visible);
    assert!(state.indicator.selected_triggers.is_empty());
}

#[test]
fn holding_the_pointer_fires_one_transition() {
    let mut state = SimState::new();
    place_clumped(&mut state, up(0, 0));
    let p = WorldPos::new(0, 0);
    selection_system(&mut state, p);
    // spawning queued 3 transition events, hovering flips corner 0 once more
    let first_events = state.changed_selectables.len();
    assert!(first_events > 0);
    update_selector(&mut state);
    assert!(state.changed_selectables.is_empty());
    // a second tick over the same pointer reports no transition at all
    selection_system(&mut state, p);
    assert!(state.changed_selectables.is_empty());
    update_selector(&mut state);
    assert!(state.indicator.visible);
}

#[test]
fn indicator_leaves_a_deselected_target() {
    // two targets are in the hit set; a batch holding only the deselection
    // of one must move the display position onto the still-hit survivor,
    // not leave it at the removed target's location
    let mut state = SimState::new();
    let (a, _) = place_clumped(&mut state, up(0, 0));
    let (b, _) = place_clumped(&mut state, up(1, 0));
    let a_corner = a + 1; // corner 0 of a, world (0, 0)
    let b_corner = b + 1; // corner 0 of b, world (1200, 0)
    for s in state.selectables.iter_mut() {
        if s.id == a_corner {
            s.selectable.is_selected = true;
        }
    }
    state.indicator.selected_triggers = vec![b_corner, a_corner];
    state.indicator.position = WorldPos::new(1200, 0);
    state.indicator.visible = true;
    state.changed_selectables = vec![b_corner];
    update_selector(&mut state);
    assert_eq!(state.indicator.selected_triggers, vec![a_corner]);
    assert!(state.indicator.visible);
    assert_eq!(state.indicator.position, WorldPos::new(0, 0));
}

#[test]
fn indicator_position_follows_the_owning_tile() {
    // the display position tracks the still-hit corner even after its
    // owning tile moved
    let mut state = SimState::new();
    let (a, _) = place_clumped(&mut state, up(0, 0));
    selection_system(&mut state, WorldPos::new(0, 0));
    update_selector(&mut state);
    assert_eq!(state.indicator.position, WorldPos::new(0, 0));
    // rotating around (1, 0) carries the tile to ((0, 1), down), whose
    // corner 0 sits at lattice (0, 1)
    state.selected.selected_set = vec![a];
    state.selected.anchor = VertexCoord::new(1, 0);
    let r = rotation_system(&mut state, RotationDirection::Clockwise);
    assert_eq!(r, RotateOutcome::Rotated);
    update_selector(&mut state);
    assert_eq!(state.indicator.position, WorldPos::new(0, 1200));
}

#[test]
fn moving_the_pointer_away_deselects() {
    let mut state = SimState::new();
    place_clumped(&mut state, up(0, 0));
    selection_system(&mut state, WorldPos::new(0, 0));
    update_selector(&mut state);
    assert!(state.indicator.visible);
    selection_system(&mut state, WorldPos::new(50_000, 50_000));
    update_selector(&mut state);
    assert!(!state.indicator.visible);
    assert!(state.indicator.selected_triggers.is_empty());
}

#[test]
fn selection_expands_to_the_whole_clump() {
    let mut state = SimState::new();
    let (a, ca) = place_clumped(&mut state, up(0, 0));
    // b joins a's clump; c stays separate and away from the anchor
    let b = spawn_solo_triangle(&mut state, down(0, 0));
    set_tile_clump(&mut state, b, ca);
    let (c, _) = place_clumped(&mut state, up(10, 10));
    selection_system(&mut state, WorldPos::new(0, 0));
    update_selector(&mut state);
    triangle_selection_system(&mut state);
    let sel = &state.selected.selected_set;
    assert!(sel.contains(&a));
    assert!(sel.contains(&b));
    assert!(!sel.contains(&c));
    assert_eq!(state.selected.anchor, VertexCoord::new(0, 0));
}

#[test]
fn rotation_without_selection_is_a_no_op() {
    let mut state = SimState::new();
    let (a, _) = place_clumped(&mut state, up(0, 0));
    let r = rotation_system(&mut state, RotationDirection::Clockwise);
    assert_eq!(r, RotateOutcome::NoSelection);
    assert_eq!(coord_of(&state, a), up(0, 0));
}

#[test]
fn lone_tile_rotates_clockwise() {
    // tile A at ((0,0), up), nothing else: rotating clockwise around (0,0)
    // succeeds and A lands on ((0,0), down)
    let mut state = SimState::new();
    let (a, _) = place_clumped(&mut state, up(0, 0));
    state.selected.selected_set = vec![a];
    state.selected.anchor = VertexCoord::new(0, 0);
    let r = rotation_system(&mut state, RotationDirection::Clockwise);
    assert_eq!(r, RotateOutcome::Rotated);
    assert_eq!(coord_of(&state, a), down(0, 0));
    assert!(!state.rotation_hint_visible);
    assert!(state.changed_tiles.contains(&a));
}

#[test]
fn blocked_rotation_changes_nothing() {
    // tile A at ((0,0), up) and tile B at ((0,0), down) in another clump:
    // rotating A clockwise around (0,0) would land on B's face
    let mut state = SimState::new();
    let (a, _) = place_clumped(&mut state, up(0, 0));
    let (b, _) = place_clumped(&mut state, down(0, 0));
    state.selected.selected_set = vec![a];
    state.selected.anchor = VertexCoord::new(0, 0);
    state.clear_tick_changes();
    let hint_before = state.rotation_hint_visible;
    let r = rotation_system(&mut state, RotationDirection::Clockwise);
    assert_eq!(r, RotateOutcome::Blocked);
    assert_eq!(coord_of(&state, a), up(0, 0));
    assert_eq!(coord_of(&state, b), down(0, 0));
    assert_eq!(state.rotation_hint_visible, hint_before);
    assert!(state.changed_tiles.is_empty());
}

#[test]
fn one_collision_holds_back_the_whole_clump() {
    // a clump of two tiles; only the second one collides, yet neither moves
    let mut state = SimState::new();
    let (a, ca) = place_clumped(&mut state, up(0, 0));
    let b = spawn_solo_triangle(&mut state, down(0, 0));
    set_tile_clump(&mut state, b, ca);
    // the obstacle occupies a's clockwise destination around (1, 0)
    let (obstacle, _) = place_clumped(&mut state, down(0, 1));
    state.selected.selected_set = vec![a, b];
    state.selected.anchor = VertexCoord::new(1, 0);
    let r = rotation_system(&mut state, RotationDirection::Clockwise);
    assert_eq!(r, RotateOutcome::Blocked);
    assert_eq!(coord_of(&state, a), up(0, 0));
    assert_eq!(coord_of(&state, b), down(0, 0));
    assert_eq!(coord_of(&state, obstacle), down(0, 1));
}

#[test]
fn rotation_off_the_board_is_rejected() {
    let mut state = SimState::new();
    let (a, _) = place_clumped(&mut state, up(600_000, 600_000));
    state.selected.selected_set = vec![a];
    state.selected.anchor = VertexCoord::new(0, 0);
    let r = rotation_system(&mut state, RotationDirection::Clockwise);
    assert_eq!(r, RotateOutcome::OutOfRange);
    assert_eq!(coord_of(&state, a), up(600_000, 600_000));
}

#[test]
fn counter_clockwise_rotation_moves_accordingly() {
    let mut state = SimState::new();
    let (a, _) = place_clumped(&mut state, up(0, 0));
    state.selected.selected_set = vec![a];
    state.selected.anchor = VertexCoord::new(0, 0);
    let r = rotation_system(&mut state, RotationDirection::CounterClockwise);
    assert_eq!(r, RotateOutcome::Rotated);
    assert_eq!(coord_of(&state, a), down(-1, 1));
}

#[test]
fn merge_fuses_newly_adjacent_clumps() {
    let mut state = SimState::new();
    let (a, ca) = place_clumped(&mut state, up(0, 0));
    let (b, cb) = place_clumped(&mut state, down(0, 0));
    assert_ne!(ca, cb);
    // pretend a just moved here; b's face is one of a's neighbors
    state.changed_tiles = vec![a];
    state.reload_hint_visible = false;
    merge_system(&mut state);
    // the moved clump absorbs the stationary one
    assert_eq!(clump_of(&state, a), Some(ca));
    assert_eq!(clump_of(&state, b), Some(ca));
    assert!(state.reload_hint_visible);
}

#[test]
fn merge_ignores_border_and_obstacles() {
    let mut state = SimState::new();
    let (a, ca) = place_clumped(&mut state, up(0, 0));
    // a clumpless neighbor (border-like) and an immovable neighbor
    let b = spawn_solo_triangle(&mut state, down(0, 0));
    let o = magnate::level_editor::spawn_immovable(&mut state, down(0, 1));
    state.changed_tiles = vec![a];
    merge_system(&mut state);
    assert_eq!(clump_of(&state, a), Some(ca));
    assert_eq!(clump_of(&state, b), None);
    assert_eq!(clump_of(&state, o), None);
}

#[test]
fn merge_twice_changes_nothing_further() {
    let mut state = SimState::new();
    let (a, ca) = place_clumped(&mut state, up(0, 0));
    let (_b, _) = place_clumped(&mut state, down(0, 0));
    let (_c, _) = place_clumped(&mut state, down(-1, 1));
    state.changed_tiles = vec![a];
    merge_system(&mut state);
    let clumps_after_one: Vec<Option<u64>> = state.tiles.iter().map(|t| t.clump).collect();
    assert!(state.tiles.iter().all(|t| t.clump == Some(ca)));
    merge_system(&mut state);
    let clumps_after_two: Vec<Option<u64>> = state.tiles.iter().map(|t| t.clump).collect();
    assert_eq!(clumps_after_one, clumps_after_two);
}

#[test]
fn two_clumps_on_one_anchor_rotate_together() {
    // the anchor vertex (0,0) is a corner of both a's and b's faces, so
    // both clumps rotate as one gesture
    let mut state = SimState::new();
    let (a, _) = place_clumped(&mut state, up(0, 0));
    let (b, _) = place_clumped(&mut state, down(-1, 1));
    selection_system(&mut state, WorldPos::new(0, 0));
    update_selector(&mut state);
    triangle_selection_system(&mut state);
    assert!(state.selected.selected_set.contains(&a));
    assert!(state.selected.selected_set.contains(&b));
    let r = rotation_system(&mut state, RotationDirection::Clockwise);
    assert_eq!(r, RotateOutcome::Rotated);
    assert_eq!(coord_of(&state, a), down(0, 0));
    assert_eq!(coord_of(&state, b), up(0, 0));
}

#[test]
fn immovable_obstacle_blocks_rotation() {
    let mut state = SimState::new();
    let (a, _) = place_clumped(&mut state, up(0, 0));
    magnate::level_editor::spawn_immovable(&mut state, down(0, 0));
    state.selected.selected_set = vec![a];
    state.selected.anchor = VertexCoord::new(0, 0);
    let r = rotation_system(&mut state, RotationDirection::Clockwise);
    assert_eq!(r, RotateOutcome::Blocked);
    assert_eq!(coord_of(&state, a), up(0, 0));
}

#[test]
fn double_claimed_clump_joins_the_first_mover() {
    // two moved clumps are both adjacent to the same stationary clump; the
    // pair recorded first (store order of the movers) absorbs it, the
    // later claim finds it already absorbed -- the documented tie-break
    // for this otherwise unresolved case
    let mut state = SimState::new();
    let (a, ca) = place_clumped(&mut state, up(0, 0));
    let (b, cb) = place_clumped(&mut state, up(1, -1));
    let (u, _) = place_clumped(&mut state, down(0, 0));
    state.changed_tiles = vec![a, b];
    merge_system(&mut state);
    assert_eq!(clump_of(&state, a), Some(ca));
    assert_eq!(clump_of(&state, b), Some(cb));
    assert_eq!(clump_of(&state, u), Some(ca));
}

#[test]
fn merge_without_changes_is_a_no_op() {
    let mut state = SimState::new();
    let (_a, _) = place_clumped(&mut state, up(0, 0));
    let (b, cb) = place_clumped(&mut state, down(0, 0));
    state.changed_tiles = Vec::new();
    let hint = state.reload_hint_visible;
    merge_system(&mut state);
    assert_eq!(clump_of(&state, b), Some(cb));
    assert_eq!(state.reload_hint_visible, hint);
}

#[test]
fn covered_rune_lights_up_and_wins() {
    let mut state = SimState::new();
    place_clumped(&mut state, up(0, 0));
    spawn_rune(&mut state, up(0, 0));
    rune_system(&mut state, 16);
    assert!(state.runes[0].lit);
    assert_eq!(state.level.win_animation_progress, Some(0));
}

#[test]
fn uncovered_rune_stays_dark() {
    let mut state = SimState::new();
    place_clumped(&mut state, up(0, 0));
    spawn_rune(&mut state, down(5, 5));
    rune_system(&mut state, 16);
    assert!(!state.runes[0].lit);
    assert_eq!(state.level.win_animation_progress, None);
}

#[test]
fn no_runes_means_no_win() {
    let mut state = SimState::new();
    place_clumped(&mut state, up(0, 0));
    rune_system(&mut state, 16);
    assert_eq!(state.level.win_animation_progress, None);
}

#[test]
fn win_animation_advances_and_finishes() {
    let mut state = SimState::new();
    spawn_rune(&mut state, up(0, 0));
    place_clumped(&mut state, up(0, 0));
    rune_system(&mut state, 16);
    assert_eq!(state.level.win_animation_progress, Some(0));
    rune_system(&mut state, 400);
    assert_eq!(state.level.win_animation_progress, Some(400));
    rune_system(&mut state, 400);
    assert_eq!(state.level.win_animation_progress, Some(800));
    let level_before = state.level.current;
    rune_system(&mut state, 16);
    assert_eq!(state.level.win_animation_progress, None);
    assert_eq!(state.level.current, level_before + 1);
    assert!(state.level.should_reload);
}

#[test]
fn selection_survives_until_pruned() {
    let mut state = SimState::new();
    let (_, _) = place_clumped(&mut state, up(0, 0));
    selection_system(&mut state, WorldPos::new(0, 0));
    update_selector(&mut state);
    assert!(state.indicator.visible);
    // the owning tiles vanish (level cleared), the stale id is pruned
    magnate::savegame::clear_world(&mut state);
    update_selector(&mut state);
    assert!(!state.indicator.visible);
    assert!(state.indicator.selected_triggers.is_empty());
}
