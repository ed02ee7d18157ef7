//! Derivation of the rotation selection, the atomic clump rotation with its
//! collision check, and the clump merge that follows a committed move.

use vstd::prelude::*;

use crate::sim::{
    contains_id, find_sel, find_tile, has_sel, has_tile, in_anchor_range, in_board_range,
    lemma_take_step, sel_at, tile_at, PlacedSelectable, PlacedTile, SimState, COORD_LIMIT,
};
use crate::tilemap::{
    in_rotate_range, spec_corner_vertex, spec_neighbors, spec_rotated_clockwise,
    spec_rotated_counter_clockwise, TileCoord, TriangleOrient, VertexCoord,
};

verus! {

/// The derived rotation selection: the anchor vertex under the pointer and
/// the ids of every tile that must rotate with it.
#[derive(Debug)]
pub struct SelectedTrianglesState {
    /// Ids of all tiles in clumps touching the selected anchor.
    pub selected_set: Vec<u64>,
    /// The vertex the rotation pivots around; stale while nothing is
    /// selected.
    pub anchor: VertexCoord,
}

impl SelectedTrianglesState {
    /// An empty selection anchored at the origin.
    pub fn new() -> (r: SelectedTrianglesState)
        ensures
            r.selected_set@ == Seq::<u64>::empty(),
            r.anchor@ == (0int, 0int),
    {
        SelectedTrianglesState { selected_set: Vec::new(), anchor: VertexCoord { x: 0, y: 0 } }
    }
}

/// The indicator's trigger ids that still name a selectable whose owning
/// tile exists, in indicator order.
pub open spec fn spec_live_triggers(
    tiles: Seq<PlacedTile>,
    sels: Seq<PlacedSelectable>,
    trig: Seq<u64>,
) -> Seq<u64>
    decreases trig.len(),
{
    if trig.len() == 0 {
        trig
    } else {
        let rest = spec_live_triggers(tiles, sels, trig.drop_last());
        let id = trig.last();
        if has_sel(sels, id) && has_tile(tiles, sel_at(sels, id).tile_id) {
            rest.push(id)
        } else {
            rest
        }
    }
}

/// Whether some live trigger is a corner of a tile of clump `c`.
pub open spec fn spec_clump_touched(
    tiles: Seq<PlacedTile>,
    sels: Seq<PlacedSelectable>,
    live: Seq<u64>,
    c: u64,
) -> bool {
    exists|k: int|
        0 <= k < live.len() && has_sel(sels, #[trigger] live[k]) && has_tile(
            tiles,
            sel_at(sels, live[k]).tile_id,
        ) && tile_at(tiles, sel_at(sels, live[k]).tile_id).clump == Some(c)
}

/// Whether `t` must rotate: it belongs to a clump one of whose tiles has a
/// live trigger on a corner.
pub open spec fn spec_tile_selected(
    tiles: Seq<PlacedTile>,
    sels: Seq<PlacedSelectable>,
    live: Seq<u64>,
    t: PlacedTile,
) -> bool {
    t.clump matches Some(c) && spec_clump_touched(tiles, sels, live, c)
}

/// Ids of the tiles among the first `n` that must rotate, in store order.
pub open spec fn spec_selected_prefix(
    tiles: Seq<PlacedTile>,
    sels: Seq<PlacedSelectable>,
    live: Seq<u64>,
    n: int,
) -> Seq<u64>
    decreases n,
{
    if n <= 0 {
        Seq::empty()
    } else {
        let rest = spec_selected_prefix(tiles, sels, live, n - 1);
        if spec_tile_selected(tiles, sels, live, tiles[n - 1]) {
            rest.push(tiles[n - 1].id)
        } else {
            rest
        }
    }
}

/// Ids of all tiles that must rotate, in store order.
pub open spec fn spec_selected_tiles(
    tiles: Seq<PlacedTile>,
    sels: Seq<PlacedSelectable>,
    live: Seq<u64>,
) -> Seq<u64> {
    spec_selected_prefix(tiles, sels, live, tiles.len() as int)
}

/// Derive the rotation selection from the indicator: the anchor is the
/// corner under the first live trigger, and the selected set holds every
/// tile of every clump with a live trigger on one of its corners.  Runs
/// only when tiles moved or the indicator changed since the last run, and
/// consumes that flag; with no live trigger the selection is cleared.
pub fn triangle_selection_system(state: &mut SimState)
    requires
        old(state).wf(),
    ensures
        final(state).wf(),
        old(state).changed_tiles@.len() == 0 && !old(state).selection_changed ==> *final(state)
            == *old(state),
        old(state).changed_tiles@.len() > 0 || old(state).selection_changed ==> ({
            let live = spec_live_triggers(
                old(state).tiles@,
                old(state).selectables@,
                old(state).indicator.selected_triggers@,
            );
            &&& *final(state) == (SimState {
                selected: final(state).selected,
                selection_changed: false,
                ..*old(state)
            })
            &&& (live.len() == 0 ==> final(state).selected.selected_set@ == Seq::<u64>::empty()
                && final(state).selected.anchor == old(state).selected.anchor)
            &&& (live.len() > 0 ==> final(state).selected.selected_set@ == spec_selected_tiles(
                old(state).tiles@,
                old(state).selectables@,
                live,
            ) && final(state).selected.anchor@ == spec_corner_vertex(
                tile_at(old(state).tiles@, sel_at(old(state).selectables@, live[0]).tile_id).tile.position@,
                sel_at(old(state).selectables@, live[0]).corner as int,
            ))
        }),
{
    if state.changed_tiles.len() == 0 && !state.selection_changed {
        return ;
    }
    let ghost st0 = *state;
    let ghost tiles0 = state.tiles@;
    let ghost sels0 = state.selectables@;
    let ghost trig0 = state.indicator.selected_triggers@;
    state.selection_changed = false;

    // Collect the triggers that still name a selectable with a live owner.
    let mut live: Vec<u64> = Vec::new();
    let mut k: usize = 0;
    while k < state.indicator.selected_triggers.len()
        invariant
            state.wf(),
            k <= trig0.len(),
            state.tiles@ == tiles0,
            state.selectables@ == sels0,
            state.indicator.selected_triggers@ == trig0,
            live@ == spec_live_triggers(tiles0, sels0, trig0.take(k as int)),
            *state == (SimState { selection_changed: false, ..st0 }),
        decreases trig0.len() - k,
    {
        let id = state.indicator.selected_triggers[k];
        match find_sel(&state.selectables, id) {
            Some(si) => {
                let s = state.selectables[si];
                match find_tile(&state.tiles, s.tile_id) {
                    Some(_) => {
                        live.push(id);
                    },
                    None => {},
                }
            },
            None => {},
        }
        proof {
            lemma_take_step(trig0, k as int);
        }
        k += 1;
    }
    proof {
        assert(trig0.take(trig0.len() as int) =~= trig0);
    }
    let ghost livev = live@;

    if live.len() == 0 {
        state.selected.selected_set = Vec::new();
        return ;
    }

    // The anchor: the corner of the tile under the first live trigger.
    let first_id = live[0];
    let si = match find_sel(&state.selectables, first_id) {
        Some(si) => si,
        None => {
            proof {
                lemma_live_triggers_are_live(tiles0, sels0, trig0, 0);
            }
            // unreachable: a live trigger names an existing selectable
            return ;
        },
    };
    let s = state.selectables[si];
    let ti = match find_tile(&state.tiles, s.tile_id) {
        Some(ti) => ti,
        None => {
            proof {
                lemma_live_triggers_are_live(tiles0, sels0, trig0, 0);
            }
            // unreachable: a live trigger's owning tile exists
            return ;
        },
    };
    // The trigger's world position is an exact corner, so reading the
    // corner vertex directly is the same as converting the position back
    // from world space (the round trip is exact; see
    // `crate::tilemap::lemma_world_round_trip`).
    let anchor = state.tiles[ti].tile.position.corner_vertex(s.corner);
    proof {
        lemma_live_triggers_are_live(tiles0, sels0, trig0, 0);
        assert(in_anchor_range(anchor@));
    }

    // Expand to every tile of every clump with a live trigger on a corner.
    let mut selected: Vec<u64> = Vec::new();
    let mut n: usize = 0;
    while n < state.tiles.len()
        invariant
            state.wf(),
            n <= tiles0.len(),
            state.tiles@ == tiles0,
            state.selectables@ == sels0,
            live@ == livev,
            selected@ == spec_selected_prefix(tiles0, sels0, livev, n as int),
            *state == (SimState { selection_changed: false, ..st0 }),
        decreases tiles0.len() - n,
    {
        let t = state.tiles[n];
        match t.clump {
            Some(c) => {
                if clump_touched(&state.tiles, &state.selectables, &live, c) {
                    selected.push(t.id);
                }
            },
            None => {},
        }
        n += 1;
    }
    state.selected.selected_set = selected;
    state.selected.anchor = anchor;
}

/// Every entry of the live trigger list names an existing selectable whose
/// owning tile exists.
proof fn lemma_live_triggers_are_live(
    tiles: Seq<PlacedTile>,
    sels: Seq<PlacedSelectable>,
    trig: Seq<u64>,
    k: int,
)
    requires
        0 <= k < spec_live_triggers(tiles, sels, trig).len(),
    ensures
        has_sel(sels, spec_live_triggers(tiles, sels, trig)[k]),
        has_tile(tiles, sel_at(sels, spec_live_triggers(tiles, sels, trig)[k]).tile_id),
    decreases trig.len(),
{
    let live = spec_live_triggers(tiles, sels, trig);
    if trig.len() > 0 {
        let rest = spec_live_triggers(tiles, sels, trig.drop_last());
        if k < rest.len() {
            lemma_live_triggers_are_live(tiles, sels, trig.drop_last(), k);
        }
    }
}

/// Whether some live trigger is a corner of a tile of clump `c`.
fn clump_touched(
    tiles: &Vec<PlacedTile>,
    sels: &Vec<PlacedSelectable>,
    live: &Vec<u64>,
    c: u64,
) -> (r: bool)
    requires
        crate::sim::tile_ids_unique(tiles@),
        crate::sim::sel_ids_unique(sels@),
    ensures
        r == spec_clump_touched(tiles@, sels@, live@, c),
{
    let mut m: usize = 0;
    while m < live.len()
        invariant
            m <= live@.len(),
            crate::sim::tile_ids_unique(tiles@),
            crate::sim::sel_ids_unique(sels@),
            forall|k: int|
                0 <= k < m ==> !(has_sel(sels@, #[trigger] live@[k]) && has_tile(
                    tiles@,
                    sel_at(sels@, live@[k]).tile_id,
                ) && tile_at(tiles@, sel_at(sels@, live@[k]).tile_id).clump == Some(c)),
        decreases live@.len() - m,
    {
        let id = live[m];
        match find_sel(sels, id) {
            Some(si) => {
                let s = sels[si];
                match find_tile(tiles, s.tile_id) {
                    Some(ti) => {
                        match tiles[ti].clump {
                            Some(tc) => {
                                if tc == c {
                                    return true;
                                }
                            },
                            None => {},
                        }
                    },
                    None => {},
                }
            },
            None => {},
        }
        m += 1;
    }
    false
}

/// The two rotation gestures.
#[derive(Clone, Copy, Debug, PartialEq, Eq, Structural)]
pub enum RotationDirection {
    Clockwise,
    CounterClockwise,
}

/// The outcome of a rotation gesture.
#[derive(Clone, Copy, Debug, PartialEq, Eq, Structural)]
pub enum RotateOutcome {
    /// No selected tile exists: nothing to do, nothing changed.
    NoSelection,
    /// A rotated tile would leave the board's coordinate range: rejected,
    /// nothing changed.
    OutOfRange,
    /// Something is in the way: an unselected tile occupies a destination
    /// face.  Rejected, nothing changed.
    Blocked,
    /// All selected tiles moved to their rotated faces in one step.
    Rotated,
}

/// A face rotated a sixth turn in the given direction around `a`.
pub open spec fn spec_rotated(
    dir: RotationDirection,
    t: ((int, int), TriangleOrient),
    a: (int, int),
) -> ((int, int), TriangleOrient) {
    match dir {
        RotationDirection::Clockwise => spec_rotated_clockwise(t, a),
        RotationDirection::CounterClockwise => spec_rotated_counter_clockwise(t, a),
    }
}

/// Whether some placed tile is in the selected set.
pub open spec fn spec_has_live_selection(tiles: Seq<PlacedTile>, sel: Seq<u64>) -> bool {
    exists|i: int| 0 <= i < tiles.len() && sel.contains((#[trigger] tiles[i]).id)
}

/// Whether rotating some selected tile would leave the board's coordinate
/// range.
pub open spec fn spec_rotation_out_of_range(
    tiles: Seq<PlacedTile>,
    sel: Seq<u64>,
    a: (int, int),
    dir: RotationDirection,
) -> bool {
    exists|i: int|
        0 <= i < tiles.len() && sel.contains((#[trigger] tiles[i]).id) && !in_board_range(
            spec_rotated(dir, tiles[i].tile.position@, a).0,
        )
}

/// Whether some selected tile's destination face is occupied by an
/// unselected tile.
pub open spec fn spec_rotation_blocked(
    tiles: Seq<PlacedTile>,
    sel: Seq<u64>,
    a: (int, int),
    dir: RotationDirection,
) -> bool {
    exists|i: int, j: int|
        #![trigger tiles[i], tiles[j]]
        0 <= i < tiles.len() && 0 <= j < tiles.len() && sel.contains(tiles[i].id) && !sel.contains(
            tiles[j].id,
        ) && spec_rotated(dir, tiles[i].tile.position@, a) == tiles[j].tile.position@
}

/// Ids of the tiles among the first `n` that are selected, in store order.
pub open spec fn spec_moved_prefix(tiles: Seq<PlacedTile>, sel: Seq<u64>, n: int) -> Seq<u64>
    decreases n,
{
    if n <= 0 {
        Seq::empty()
    } else {
        let rest = spec_moved_prefix(tiles, sel, n - 1);
        if sel.contains(tiles[n - 1].id) {
            rest.push(tiles[n - 1].id)
        } else {
            rest
        }
    }
}

/// Ids of all selected placed tiles, in store order.
pub open spec fn spec_moved_ids(tiles: Seq<PlacedTile>, sel: Seq<u64>) -> Seq<u64> {
    spec_moved_prefix(tiles, sel, tiles.len() as int)
}

/// Whether an unselected tile occupies the face `nc`.
fn occupied_by_unselected(tiles: &Vec<PlacedTile>, sel: &Vec<u64>, nc: TileCoord) -> (r: bool)
    ensures
        r == exists|j: int|
            0 <= j < tiles@.len() && !sel@.contains((#[trigger] tiles@[j]).id) && tiles@[j].tile.position@
                == nc@,
{
    let mut j: usize = 0;
    while j < tiles.len()
        invariant
            j <= tiles@.len(),
            forall|k: int|
                0 <= k < j ==> !(!sel@.contains((#[trigger] tiles@[k]).id) && tiles@[k].tile.position@
                    == nc@),
        decreases tiles@.len() - j,
    {
        let t = tiles[j];
        if !contains_id(sel, t.id) && t.tile.position == nc {
            return true;
        }
        j += 1;
    }
    false
}

/// Rotate the whole selected clump one sixth turn around the anchor, as one
/// indivisible step: every selected tile's destination is computed first,
/// and only when no destination is occupied by an unselected tile (and none
/// leaves the board's range) are all coordinates written.  On any rejection
/// the state is exactly as before.  A committed move appends the moved ids
/// to the change list and dismisses the one-shot rotation hint.
pub fn rotation_system(state: &mut SimState, dir: RotationDirection) -> (r: RotateOutcome)
    requires
        old(state).wf(),
    ensures
        final(state).wf(),
        ({
            let tiles0 = old(state).tiles@;
            let sel = old(state).selected.selected_set@;
            let a = old(state).selected.anchor@;
            let has = spec_has_live_selection(tiles0, sel);
            let oor = spec_rotation_out_of_range(tiles0, sel, a, dir);
            let blocked = spec_rotation_blocked(tiles0, sel, a, dir);
            &&& (r == RotateOutcome::NoSelection <==> !has)
            &&& (r == RotateOutcome::OutOfRange <==> has && oor)
            &&& (r == RotateOutcome::Blocked <==> has && !oor && blocked)
            &&& (r == RotateOutcome::Rotated <==> has && !oor && !blocked)
            &&& (r != RotateOutcome::Rotated ==> *final(state) == *old(state))
            &&& (r == RotateOutcome::Rotated ==> {
                &&& *final(state) == (SimState {
                    tiles: final(state).tiles,
                    changed_tiles: final(state).changed_tiles,
                    rotation_hint_visible: false,
                    ..*old(state)
                })
                &&& final(state).tiles@.len() == tiles0.len()
                &&& (forall|i: int|
                    #![trigger final(state).tiles@[i]]
                    0 <= i < tiles0.len() && sel.contains(tiles0[i].id) ==> ({
                        let t1 = final(state).tiles@[i];
                        t1.id == tiles0[i].id && t1.clump == tiles0[i].clump && t1.immovable
                            == tiles0[i].immovable && t1.tile.position@ == spec_rotated(
                            dir,
                            tiles0[i].tile.position@,
                            a,
                        )
                    }))
                &&& (forall|i: int|
                    #![trigger final(state).tiles@[i]]
                    0 <= i < tiles0.len() && !sel.contains(tiles0[i].id) ==> final(state).tiles@[i]
                        == tiles0[i])
                &&& final(state).changed_tiles@ == old(state).changed_tiles@ + spec_moved_ids(
                    tiles0,
                    sel,
                )
            })
        }),
{
    let ghost st0 = *state;
    let ghost tiles0 = state.tiles@;
    let ghost sel0 = state.selected.selected_set@;
    let ghost a0 = state.selected.anchor@;

    // Is any selected tile actually placed?
    let mut any: bool = false;
    let mut i: usize = 0;
    while i < state.tiles.len()
        invariant
            i <= tiles0.len(),
            state.tiles@ == tiles0,
            state.selected.selected_set@ == sel0,
            *state == st0,
            any == exists|k: int|
                0 <= k < i && sel0.contains((#[trigger] tiles0[k]).id),
        decreases tiles0.len() - i,
    {
        let t = state.tiles[i];
        if contains_id(&state.selected.selected_set, t.id) {
            any = true;
        }
        i += 1;
    }
    if !any {
        return RotateOutcome::NoSelection;
    }

    // Compute every destination; reject a destination off the board.
    let anchor = state.selected.anchor;
    let mut dest: Vec<TileCoord> = Vec::new();
    let mut i: usize = 0;
    while i < state.tiles.len()
        invariant
            state.wf(),
            i <= tiles0.len(),
            st0 == *old(state),
            tiles0 == old(state).tiles@,
            sel0 == old(state).selected.selected_set@,
            a0 == old(state).selected.anchor@,
            state.tiles@ == tiles0,
            state.selected.selected_set@ == sel0,
            anchor@ == a0,
            in_anchor_range(a0),
            spec_has_live_selection(tiles0, sel0),
            *state == st0,
            dest@.len() == i,
            forall|k: int|
                #![trigger dest@[k]]
                0 <= k < i ==> dest@[k]@ == (if sel0.contains(tiles0[k].id) {
                    spec_rotated(dir, tiles0[k].tile.position@, a0)
                } else {
                    tiles0[k].tile.position@
                }),
            forall|k: int| #![trigger dest@[k]] 0 <= k < i ==> in_board_range(dest@[k].vertex@),
        decreases tiles0.len() - i,
    {
        let t = state.tiles[i];
        let nc: TileCoord = if contains_id(&state.selected.selected_set, t.id) {
            let rc = match dir {
                RotationDirection::Clockwise => t.tile.position.rotated_clockwise(anchor),
                RotationDirection::CounterClockwise => t.tile.position.rotated_counter_clockwise(
                    anchor,
                ),
            };
            if rc.vertex.x < -COORD_LIMIT || rc.vertex.x > COORD_LIMIT || rc.vertex.y < -COORD_LIMIT
                || rc.vertex.y > COORD_LIMIT {
                proof {
                    assert(sel0.contains((tiles0[i as int]).id));
                    assert(spec_rotation_out_of_range(tiles0, sel0, a0, dir));
                }
                return RotateOutcome::OutOfRange;
            }
            rc
        } else {
            t.tile.position
        };
        dest.push(nc);
        i += 1;
    }
    proof {
        assert forall|k: int|
            0 <= k < tiles0.len() && sel0.contains(
                (#[trigger] tiles0[k]).id,
            ) implies in_board_range(spec_rotated(dir, tiles0[k].tile.position@, a0).0) by {
            assert(dest@[k]@ == spec_rotated(dir, tiles0[k].tile.position@, a0));
            assert(in_board_range(dest@[k].vertex@));
        }
        assert(!spec_rotation_out_of_range(tiles0, sel0, a0, dir));
    }

    // Collision check: no destination of a selected tile may be occupied by
    // an unselected one.
    let mut i: usize = 0;
    while i < state.tiles.len()
        invariant
            state.wf(),
            i <= tiles0.len(),
            st0 == *old(state),
            tiles0 == old(state).tiles@,
            sel0 == old(state).selected.selected_set@,
            a0 == old(state).selected.anchor@,
            state.tiles@ == tiles0,
            state.selected.selected_set@ == sel0,
            spec_has_live_selection(tiles0, sel0),
            !spec_rotation_out_of_range(tiles0, sel0, a0, dir),
            *state == st0,
            dest@.len() == tiles0.len(),
            forall|k: int|
                #![trigger dest@[k]]
                0 <= k < tiles0.len() ==> dest@[k]@ == (if sel0.contains(tiles0[k].id) {
                    spec_rotated(dir, tiles0[k].tile.position@, a0)
                } else {
                    tiles0[k].tile.position@
                }),
            forall|k: int| #![trigger dest@[k]] 0 <= k < tiles0.len() ==> in_board_range(dest@[k].vertex@),
            forall|k: int, j: int|
                #![trigger tiles0[k], tiles0[j]]
                0 <= k < i && 0 <= j < tiles0.len() && sel0.contains(tiles0[k].id) && !sel0.contains(
                    tiles0[j].id,
                ) ==> spec_rotated(dir, tiles0[k].tile.position@, a0) != tiles0[j].tile.position@,
        decreases tiles0.len() - i,
    {
        let t = state.tiles[i];
        if contains_id(&state.selected.selected_set, t.id) {
            let nc = dest[i];
            if occupied_by_unselected(&state.tiles, &state.selected.selected_set, nc) {
                proof {
                    let jj = choose|j: int|
                        0 <= j < state.tiles@.len() && !sel0.contains(
                            (#[trigger] state.tiles@[j]).id,
                        ) && state.tiles@[j].tile.position@ == nc@;
                    assert(sel0.contains(tiles0[i as int].id) && !sel0.contains(tiles0[jj].id)
                        && spec_rotated(dir, tiles0[i as int].tile.position@, a0)
                        == tiles0[jj].tile.position@);
                    assert(spec_rotation_blocked(tiles0, sel0, a0, dir));
                }
                return RotateOutcome::Blocked;
            }
        }
        i += 1;
    }
    proof {
        assert(!spec_rotation_blocked(tiles0, sel0, a0, dir));
    }

    // Commit: write every destination in one pass.
    let ghost changed0 = state.changed_tiles@;
    let mut i: usize = 0;
    while i < state.tiles.len()
        invariant
            i <= tiles0.len(),
            state.tiles@.len() == tiles0.len(),
            state.selected.selected_set@ == sel0,
            dest@.len() == tiles0.len(),
            forall|k: int|
                #![trigger dest@[k]]
                0 <= k < tiles0.len() ==> dest@[k]@ == (if sel0.contains(tiles0[k].id) {
                    spec_rotated(dir, tiles0[k].tile.position@, a0)
                } else {
                    tiles0[k].tile.position@
                }),
            forall|k: int| #![trigger dest@[k]] 0 <= k < tiles0.len() ==> in_board_range(dest@[k].vertex@),
            forall|k: int|
                #![trigger state.tiles@[k]]
                i <= k < tiles0.len() ==> state.tiles@[k] == tiles0[k],
            forall|k: int|
                #![trigger state.tiles@[k]]
                0 <= k < i && sel0.contains(tiles0[k].id) ==> state.tiles@[k].id == tiles0[k].id
                    && state.tiles@[k].clump == tiles0[k].clump && state.tiles@[k].immovable
                    == tiles0[k].immovable && state.tiles@[k].tile.position == dest@[k],
            forall|k: int|
                #![trigger state.tiles@[k]]
                0 <= k < i && !sel0.contains(tiles0[k].id) ==> state.tiles@[k] == tiles0[k],
            state.changed_tiles@ == changed0 + spec_moved_prefix(tiles0, sel0, i as int),
            *state == (SimState {
                tiles: state.tiles,
                changed_tiles: state.changed_tiles,
                ..st0
            }),
        decreases tiles0.len() - i,
    {
        let t = state.tiles[i];
        if contains_id(&state.selected.selected_set, t.id) {
            state.tiles[i].tile.position = dest[i];
            state.changed_tiles.push(t.id);
        }
        i += 1;
    }
    state.rotation_hint_visible = false;
    proof {
        assert(spec_has_live_selection(tiles0, sel0));
        assert(state.tiles_wf()) by {
            assert(forall|k: int|
                0 <= k < state.tiles@.len() ==> (#[trigger] state.tiles@[k]).id == tiles0[k].id
                    && state.tiles@[k].clump == tiles0[k].clump && state.tiles@[k].immovable
                    == tiles0[k].immovable);
        }
    }
    RotateOutcome::Rotated
}

/// The first (by store order) moved tile among the first `n` whose face is
/// edge-adjacent to the face `pos`.
pub open spec fn spec_first_mover(
    tiles: Seq<PlacedTile>,
    moved: Seq<u64>,
    pos: ((int, int), TriangleOrient),
    n: int,
) -> Option<int>
    decreases n,
{
    if n <= 0 {
        None
    } else {
        match spec_first_mover(tiles, moved, pos, n - 1) {
            Some(i) => Some(i),
            None => {
                if moved.contains(tiles[n - 1].id) && spec_neighbors(
                    tiles[n - 1].tile.position@,
                ).contains(pos) {
                    Some(n - 1)
                } else {
                    None
                }
            },
        }
    }
}

/// A first mover found among the first `n` tiles stays the first mover of
/// any longer prefix.
proof fn lemma_first_mover_extends(
    tiles: Seq<PlacedTile>,
    moved: Seq<u64>,
    pos: ((int, int), TriangleOrient),
    n: int,
    m: int,
)
    requires
        0 <= n <= m,
        spec_first_mover(tiles, moved, pos, n) is Some,
    ensures
        spec_first_mover(tiles, moved, pos, m) == spec_first_mover(tiles, moved, pos, n),
    decreases m,
{
    if m > n {
        lemma_first_mover_extends(tiles, moved, pos, n, m - 1);
    }
}

/// The clump pairs to merge, considering the first `n` tiles as merge
/// candidates: for every unmoved clumped tile adjacent to a moved clumped
/// tile, the moved tile's clump (first entry) absorbs the unmoved tile's
/// clump (second entry); each distinct pair is recorded once.
pub open spec fn spec_merge_pairs_prefix(
    tiles: Seq<PlacedTile>,
    moved: Seq<u64>,
    n: int,
) -> Seq<(u64, u64)>
    decreases n,
{
    if n <= 0 {
        Seq::empty()
    } else {
        let rest = spec_merge_pairs_prefix(tiles, moved, n - 1);
        let u = tiles[n - 1];
        if moved.contains(u.id) {
            rest
        } else {
            match u.clump {
                Some(cu) => match spec_first_mover(tiles, moved, u.tile.position@, tiles.len() as int) {
                    Some(mi) => match tiles[mi].clump {
                        Some(cm) => if cm != cu && !rest.contains((cm, cu)) {
                            rest.push((cm, cu))
                        } else {
                            rest
                        },
                        None => rest,
                    },
                    None => rest,
                },
                None => rest,
            }
        }
    }
}

/// The clump pairs to merge after a move of the tiles in `moved`.
pub open spec fn spec_merge_pairs(tiles: Seq<PlacedTile>, moved: Seq<u64>) -> Seq<(u64, u64)> {
    spec_merge_pairs_prefix(tiles, moved, tiles.len() as int)
}

/// One tile after the clump `absorbed` is merged into `winner`.
pub open spec fn spec_reassigned(t: PlacedTile, winner: u64, absorbed: u64) -> PlacedTile {
    if t.clump == Some(absorbed) {
        PlacedTile { clump: Some(winner), ..t }
    } else {
        t
    }
}

/// The tile store after the merge pairs are applied in order.
pub open spec fn spec_apply_pairs(tiles: Seq<PlacedTile>, pairs: Seq<(u64, u64)>) -> Seq<
    PlacedTile,
>
    decreases pairs.len(),
{
    if pairs.len() == 0 {
        tiles
    } else {
        let prev = spec_apply_pairs(tiles, pairs.drop_last());
        let p = pairs.last();
        Seq::new(prev.len(), |i: int| spec_reassigned(prev[i], p.0, p.1))
    }
}

/// Whether `up` is edge-adjacent to `mp`.
fn is_adjacent(mp: TileCoord, up: TileCoord) -> (r: bool)
    requires
        in_rotate_range(mp.vertex@),
    ensures
        r == spec_neighbors(mp@).contains(up@),
{
    let ns = mp.iter_neighbors();
    let r = ns[0] == up || ns[1] == up || ns[2] == up;
    proof {
        if !r {
            assert forall|i: int| 0 <= i < 3 implies spec_neighbors(mp@)[i] != up@ by {
                assert(ns@[i]@ == spec_neighbors(mp@)[i]);
            }
        }
    }
    r
}

/// The first (by store order) moved tile whose face is adjacent to `pos`.
fn first_mover(tiles: &Vec<PlacedTile>, moved: &Vec<u64>, pos: TileCoord) -> (r: Option<usize>)
    requires
        forall|i: int|
            0 <= i < tiles@.len() ==> in_board_range((#[trigger] tiles@[i]).tile.position.vertex@),
    ensures
        r matches Some(i) ==> Some(i as int) == spec_first_mover(
            tiles@,
            moved@,
            pos@,
            tiles@.len() as int,
        ) && i < tiles@.len(),
        r is None ==> spec_first_mover(tiles@, moved@, pos@, tiles@.len() as int) is None,
{
    let mut i: usize = 0;
    while i < tiles.len()
        invariant
            i <= tiles@.len(),
            forall|k: int|
                0 <= k < tiles@.len() ==> in_board_range(
                    (#[trigger] tiles@[k]).tile.position.vertex@,
                ),
            spec_first_mover(tiles@, moved@, pos@, i as int) is None,
        decreases tiles@.len() - i,
    {
        let t = tiles[i];
        if contains_id(moved, t.id) && is_adjacent(t.tile.position, pos) {
            proof {
                assert(spec_first_mover(tiles@, moved@, pos@, i + 1 as int) == Some(i as int));
                lemma_first_mover_extends(tiles@, moved@, pos@, i + 1 as int, tiles@.len() as int);
            }
            return Some(i);
        }
        i += 1;
    }
    None
}

/// Whether `v` contains the pair `(a, b)`.
fn contains_pair(v: &Vec<(u64, u64)>, a: u64, b: u64) -> (r: bool)
    ensures
        r == v@.contains((a, b)),
{
    let mut i: usize = 0;
    while i < v.len()
        invariant
            i <= v@.len(),
            forall|k: int| 0 <= k < i ==> #[trigger] v@[k] != (a, b),
        decreases v@.len() - i,
    {
        let p = v[i];
        if p.0 == a && p.1 == b {
            return true;
        }
        i += 1;
    }
    false
}

/// Merge clumps that a committed move made adjacent: for every unmoved
/// clumped tile now edge-adjacent to a moved clumped tile, the moved tile's
/// clump absorbs the unmoved tile's whole clump.  Each distinct pair merges
/// once, in the store order of the unmoved tiles; when two moved clumps
/// claim the same stationary clump, the first recorded pair wins and the
/// later one finds the clump already absorbed.  The first merge raises the
/// reload hint.  Runs only when tiles moved or spawned this tick.
pub fn merge_system(state: &mut SimState)
    requires
        old(state).wf(),
    ensures
        final(state).wf(),
        old(state).changed_tiles@.len() == 0 ==> *final(state) == *old(state),
        old(state).changed_tiles@.len() > 0 ==> ({
            let pairs = spec_merge_pairs(old(state).tiles@, old(state).changed_tiles@);
            &&& *final(state) == (SimState {
                tiles: final(state).tiles,
                reload_hint_visible: final(state).reload_hint_visible,
                ..*old(state)
            })
            &&& final(state).tiles@ == spec_apply_pairs(old(state).tiles@, pairs)
            &&& final(state).reload_hint_visible == (old(state).reload_hint_visible || pairs.len()
                > 0)
        }),
{
    if state.changed_tiles.len() == 0 {
        return ;
    }
    let ghost st0 = *state;
    let ghost tiles0 = state.tiles@;
    let ghost moved0 = state.changed_tiles@;

    // Collect the clump pairs to merge.
    let mut pairs: Vec<(u64, u64)> = Vec::new();
    let mut n: usize = 0;
    while n < state.tiles.len()
        invariant
            state.wf(),
            st0 == *old(state),
            tiles0 == old(state).tiles@,
            moved0 == old(state).changed_tiles@,
            *state == st0,
            n <= tiles0.len(),
            pairs@ == spec_merge_pairs_prefix(tiles0, moved0, n as int),
            forall|k: int| 0 <= k < pairs@.len() ==> (#[trigger] pairs@[k]).0 < st0.next_clump_id,
        decreases tiles0.len() - n,
    {
        let u = state.tiles[n];
        if !contains_id(&state.changed_tiles, u.id) {
            match u.clump {
                Some(cu) => {
                    match first_mover(&state.tiles, &state.changed_tiles, u.tile.position) {
                        Some(mi) => {
                            match state.tiles[mi].clump {
                                Some(cm) => {
                                    if cm != cu && !contains_pair(&pairs, cm, cu) {
                                        pairs.push((cm, cu));
                                    }
                                },
                                None => {},
                            }
                        },
                        None => {},
                    }
                },
                None => {},
            }
        }
        n += 1;
    }

    // Apply the pairs in order.
    let ghost pairsv = pairs@;
    let any_merge = pairs.len() > 0;
    let mut k: usize = 0;
    while k < pairs.len()
        invariant
            state.wf(),
            st0 == *old(state),
            tiles0 == old(state).tiles@,
            k <= pairsv.len(),
            pairs@ == pairsv,
            forall|t: int| 0 <= t < pairsv.len() ==> (#[trigger] pairsv[t]).0 < st0.next_clump_id,
            state.tiles@ == spec_apply_pairs(tiles0, pairsv.take(k as int)),
            state.next_clump_id == st0.next_clump_id,
            *state == (SimState { tiles: state.tiles, ..st0 }),
        decreases pairsv.len() - k,
    {
        let p = pairs[k];
        let ghost prev = state.tiles@;
        let mut idx: usize = 0;
        while idx < state.tiles.len()
            invariant
                state.wf(),
                idx <= prev.len(),
                state.tiles@.len() == prev.len(),
                p.0 < state.next_clump_id,
                forall|t: int|
                    #![trigger state.tiles@[t]]
                    0 <= t < idx ==> state.tiles@[t] == spec_reassigned(prev[t], p.0, p.1),
                forall|t: int|
                    #![trigger state.tiles@[t]]
                    idx <= t < prev.len() ==> state.tiles@[t] == prev[t],
                *state == (SimState { tiles: state.tiles, ..st0 }),
                st0 == *old(state),
            decreases prev.len() - idx,
        {
            let t = state.tiles[idx];
            match t.clump {
                Some(c) => {
                    if c == p.1 {
                        state.tiles[idx].clump = Some(p.0);
                    }
                },
                None => {},
            }
            idx += 1;
        }
        proof {
            lemma_take_step(pairsv, k as int);
            assert(state.tiles@ =~= Seq::new(prev.len(), |i: int| spec_reassigned(prev[i], p.0, p.1)));
            assert(spec_apply_pairs(tiles0, pairsv.take(k + 1 as int)) == Seq::new(
                prev.len(),
                |i: int| spec_reassigned(prev[i], p.0, p.1),
            ));
        }
        k += 1;
    }
    proof {
        assert(pairsv.take(pairsv.len() as int) =~= pairsv);
    }
    state.reload_hint_visible = state.reload_hint_visible || any_merge;
}

/// Whether some pair absorbs the clump `b`.
pub open spec fn spec_pair_absorbs(pairs: Seq<(u64, u64)>, b: u64) -> bool {
    exists|k: int| 0 <= k < pairs.len() && (#[trigger] pairs[k]).1 == b
}

/// A found first mover is a moved tile adjacent to the queried face.
proof fn lemma_first_mover_props(
    tiles: Seq<PlacedTile>,
    moved: Seq<u64>,
    pos: ((int, int), TriangleOrient),
    n: int,
)
    requires
        0 <= n <= tiles.len(),
    ensures
        spec_first_mover(tiles, moved, pos, n) matches Some(mi) ==> 0 <= mi < tiles.len()
            && moved.contains(tiles[mi].id) && spec_neighbors(tiles[mi].tile.position@).contains(
            pos,
        ),
    decreases n,
{
    if n > 0 {
        lemma_first_mover_props(tiles, moved, pos, n - 1);
    }
}

/// When every moved clumped tile lies in clump `c`, every recorded pair
/// absorbs some other clump into `c`.
proof fn lemma_merge_pairs_uniform(tiles: Seq<PlacedTile>, moved: Seq<u64>, c: u64, n: int)
    requires
        0 <= n <= tiles.len(),
        forall|i: int|
            0 <= i < tiles.len() && moved.contains((#[trigger] tiles[i]).id) && tiles[i].clump
                is Some ==> tiles[i].clump == Some(c),
    ensures
        forall|k: int|
            0 <= k < spec_merge_pairs_prefix(tiles, moved, n).len() ==> (
            #[trigger] spec_merge_pairs_prefix(tiles, moved, n)[k]).0 == c
                && spec_merge_pairs_prefix(tiles, moved, n)[k].1 != c,
    decreases n,
{
    if n > 0 {
        lemma_merge_pairs_uniform(tiles, moved, c, n - 1);
        let rest = spec_merge_pairs_prefix(tiles, moved, n - 1);
        let pp = spec_merge_pairs_prefix(tiles, moved, n);
        let u = tiles[n - 1];
        lemma_first_mover_props(tiles, moved, u.tile.position@, tiles.len() as int);
        assert forall|k: int| 0 <= k < pp.len() implies (#[trigger] pp[k]).0 == c && pp[k].1
            != c by {
            if k < rest.len() {
                assert(pp[k] == rest[k]);
                assert(rest[k].0 == c && rest[k].1 != c);
            } else {
                match u.clump {
                    Some(cu) => {
                        match spec_first_mover(tiles, moved, u.tile.position@, tiles.len() as int) {
                            Some(mi) => {
                                assert(moved.contains(tiles[mi].id));
                                match tiles[mi].clump {
                                    Some(cm) => {
                                        assert(tiles[mi].clump == Some(c));
                                    },
                                    None => {},
                                }
                            },
                            None => {},
                        }
                    },
                    None => {},
                }
            }
        }
    }
}

/// Applying pairs that all absorb into `w`, where no pair absorbs `w`
/// itself: a tile's clump becomes `w` exactly when some pair absorbs it;
/// everything else about the tile is untouched.
proof fn lemma_apply_pairs_uniform(tiles: Seq<PlacedTile>, pairs: Seq<(u64, u64)>, w: u64)
    requires
        forall|k: int| 0 <= k < pairs.len() ==> (#[trigger] pairs[k]).0 == w && pairs[k].1 != w,
    ensures
        spec_apply_pairs(tiles, pairs).len() == tiles.len(),
        forall|i: int|
            0 <= i < tiles.len() ==> #[trigger] spec_apply_pairs(tiles, pairs)[i] == (
            match tiles[i].clump {
                Some(b) => if spec_pair_absorbs(pairs, b) {
                    PlacedTile { clump: Some(w), ..tiles[i] }
                } else {
                    tiles[i]
                },
                None => tiles[i],
            }),
    decreases pairs.len(),
{
    if pairs.len() > 0 {
        let ps = pairs.drop_last();
        let p = pairs.last();
        lemma_apply_pairs_uniform(tiles, ps, w);
        let prev = spec_apply_pairs(tiles, ps);
        assert forall|i: int|
            0 <= i < tiles.len() implies #[trigger] spec_apply_pairs(tiles, pairs)[i] == (
        match tiles[i].clump {
            Some(b) => if spec_pair_absorbs(pairs, b) {
                PlacedTile { clump: Some(w), ..tiles[i] }
            } else {
                tiles[i]
            },
            None => tiles[i],
        }) by {
            assert(spec_apply_pairs(tiles, pairs)[i] == spec_reassigned(prev[i], p.0, p.1));
            match tiles[i].clump {
                Some(b) => {
                    if spec_pair_absorbs(ps, b) {
                        let k = choose|k: int| 0 <= k < ps.len() && (#[trigger] ps[k]).1 == b;
                        assert(pairs[k].1 == b);
                        assert(spec_pair_absorbs(pairs, b));
                    } else if b == p.1 {
                        assert(pairs[pairs.len() - 1].1 == b);
                        assert(spec_pair_absorbs(pairs, b));
                    } else {
                        assert(!spec_pair_absorbs(pairs, b)) by {
                            if spec_pair_absorbs(pairs, b) {
                                let k = choose|k: int|
                                    0 <= k < pairs.len() && (#[trigger] pairs[k]).1 == b;
                                if k < pairs.len() - 1 {
                                    assert(ps[k].1 == b);
                                    assert(spec_pair_absorbs(ps, b));
                                }
                                assert(false);
                            }
                        }
                    }
                },
                None => {},
            }
        }
    }
}

/// The first-mover search reads only tile ids and faces, so it is the same
/// on any store that agrees on those.
proof fn lemma_first_mover_same(
    t1: Seq<PlacedTile>,
    t2: Seq<PlacedTile>,
    moved: Seq<u64>,
    pos: ((int, int), TriangleOrient),
    n: int,
)
    requires
        t1.len() == t2.len(),
        forall|i: int|
            0 <= i < t1.len() ==> (#[trigger] t2[i]).id == t1[i].id && t2[i].tile == t1[i].tile,
        0 <= n <= t1.len(),
    ensures
        spec_first_mover(t2, moved, pos, n) == spec_first_mover(t1, moved, pos, n),
    decreases n,
{
    if n > 0 {
        lemma_first_mover_same(t1, t2, moved, pos, n - 1);
    }
}

/// A recorded pair stays recorded in every longer prefix.
proof fn lemma_merge_pairs_monotonic(
    tiles: Seq<PlacedTile>,
    moved: Seq<u64>,
    p: (u64, u64),
    n: int,
    m: int,
)
    requires
        0 <= n <= m <= tiles.len(),
        spec_merge_pairs_prefix(tiles, moved, n).contains(p),
    ensures
        spec_merge_pairs_prefix(tiles, moved, m).contains(p),
    decreases m,
{
    if m > n {
        lemma_merge_pairs_monotonic(tiles, moved, p, n, m - 1);
        let rest = spec_merge_pairs_prefix(tiles, moved, m - 1);
        let k = choose|k: int| 0 <= k < rest.len() && rest[k] == p;
        assert(spec_merge_pairs_prefix(tiles, moved, m).len() >= rest.len());
        assert(spec_merge_pairs_prefix(tiles, moved, m)[k] == p);
    }
}

/// An unmoved clumped tile adjacent to a moved tile of clump `c` always
/// has its pair recorded.
proof fn lemma_merge_pair_complete(tiles: Seq<PlacedTile>, moved: Seq<u64>, c: u64, j: int)
    requires
        0 <= j < tiles.len(),
        !moved.contains(tiles[j].id),
        tiles[j].clump is Some,
        tiles[j].clump != Some(c),
        spec_first_mover(tiles, moved, tiles[j].tile.position@, tiles.len() as int) is Some,
        tiles[spec_first_mover(tiles, moved, tiles[j].tile.position@, tiles.len() as int)->Some_0].clump
            == Some(c),
    ensures
        spec_merge_pairs(tiles, moved).contains((c, tiles[j].clump->Some_0)),
{
    let cu = tiles[j].clump->Some_0;
    let rest = spec_merge_pairs_prefix(tiles, moved, j);
    let step = spec_merge_pairs_prefix(tiles, moved, j + 1);
    if rest.contains((c, cu)) {
        lemma_merge_pairs_monotonic(tiles, moved, (c, cu), j, tiles.len() as int);
    } else {
        assert(step == rest.push((c, cu)));
        assert(step[step.len() - 1] == (c, cu));
        assert(step.contains((c, cu)));
        lemma_merge_pairs_monotonic(tiles, moved, (c, cu), j + 1, tiles.len() as int);
    }
}

/// Merge is idempotent per step when the moved tiles all belong to one
/// clump `c` (as they do when one clump rotates): after one merge pass
/// every neighbor relation that could trigger a merge joins tiles of the
/// same clump, so a second pass over the same moved set records no pair
/// and changes nothing.
pub proof fn lemma_merge_idempotent(tiles: Seq<PlacedTile>, moved: Seq<u64>, c: u64)
    requires
        forall|i: int|
            0 <= i < tiles.len() && moved.contains((#[trigger] tiles[i]).id) && tiles[i].clump
                is Some ==> tiles[i].clump == Some(c),
    ensures
        ({
            let once = spec_apply_pairs(tiles, spec_merge_pairs(tiles, moved));
            spec_merge_pairs(once, moved) == Seq::<(u64, u64)>::empty()
        }),
{
    let pairs = spec_merge_pairs(tiles, moved);
    let once = spec_apply_pairs(tiles, pairs);
    lemma_merge_pairs_uniform(tiles, moved, c, tiles.len() as int);
    lemma_apply_pairs_uniform(tiles, pairs, c);
    assert forall|n: int| 0 <= n <= once.len() implies spec_merge_pairs_prefix(once, moved, n)
        == Seq::<(u64, u64)>::empty() by {
        lemma_merge_idempotent_prefix(tiles, moved, c, n);
    }
    assert(spec_merge_pairs_prefix(once, moved, once.len() as int) == Seq::<(u64, u64)>::empty());
}

/// Induction step for [`lemma_merge_idempotent`]: no prefix of the second
/// pass records a pair.
proof fn lemma_merge_idempotent_prefix(tiles: Seq<PlacedTile>, moved: Seq<u64>, c: u64, n: int)
    requires
        forall|i: int|
            0 <= i < tiles.len() && moved.contains((#[trigger] tiles[i]).id) && tiles[i].clump
                is Some ==> tiles[i].clump == Some(c),
        0 <= n <= tiles.len(),
    ensures
        spec_merge_pairs_prefix(
            spec_apply_pairs(tiles, spec_merge_pairs(tiles, moved)),
            moved,
            n,
        ) == Seq::<(u64, u64)>::empty(),
    decreases n,
{
    let pairs = spec_merge_pairs(tiles, moved);
    let once = spec_apply_pairs(tiles, pairs);
    lemma_merge_pairs_uniform(tiles, moved, c, tiles.len() as int);
    lemma_apply_pairs_uniform(tiles, pairs, c);
    if n > 0 {
        lemma_merge_idempotent_prefix(tiles, moved, c, n - 1);
        let u2 = once[n - 1];
        let u1 = tiles[n - 1];
        assert(u2.id == u1.id && u2.tile == u1.tile);
        if !moved.contains(u2.id) {
            match u2.clump {
                Some(cu2) => {
                    lemma_first_mover_same(
                        tiles,
                        once,
                        moved,
                        u2.tile.position@,
                        tiles.len() as int,
                    );
                    let fm = spec_first_mover(once, moved, u2.tile.position@, once.len() as int);
                    match fm {
                        Some(mi) => {
                            lemma_first_mover_props(
                                tiles,
                                moved,
                                u1.tile.position@,
                                tiles.len() as int,
                            );
                            match once[mi].clump {
                                Some(cm2) => {
                                    // the mover kept its clump: `c` is never absorbed
                                    assert(tiles[mi].clump is Some);
                                    assert(tiles[mi].clump == Some(c));
                                    assert(cm2 == c);
                                    // the unmoved tile is already in `c` now
                                    if u1.clump->Some_0 != c {
                                        lemma_merge_pair_complete(tiles, moved, c, n - 1);
                                        assert(spec_pair_absorbs(pairs, u1.clump->Some_0)) by {
                                            let k = choose|k: int|
                                                0 <= k < pairs.len() && pairs[k] == (
                                                c,
                                                u1.clump->Some_0,
                                                );
                                            assert((#[trigger] pairs[k]).1 == u1.clump->Some_0);
                                        }
                                    }
                                    assert(cu2 == c);
                                },
                                None => {},
                            }
                        },
                        None => {},
                    }
                },
                None => {},
            }
        }
    }
}

} // verus!
