//! Level editing: what a builder click places, and the placement of
//! triangles, immovable obstacles and runes into the simulation state.

use vstd::prelude::*;

use crate::selection::Selectable;
use crate::sim::{
    find_tile, in_board_range, tile_at, PlacedRune, PlacedSelectable, PlacedTile, SimState,
};
use crate::tilemap::{RuneTile, TileCoord, TriangleTile};

verus! {

/// Radius of a corner's hit-test target: a quarter of a triangle side
/// ([`WORLD_SCALE`] divided by four), in fixed-point world units.
pub const SELECTABLE_RADIUS: i64 = 300;

/// What the level builder places on the next click.
#[derive(Clone, Copy, Debug, PartialEq, Eq, Structural)]
pub enum BuilderState {
    Triangles,
    Immovables,
    Runes,
}

/// Advance the builder mode from this tick's key presses: one key selects
/// each mode, and with none of them pressed the mode is kept.
pub fn update_builder_state(
    state: &mut SimState,
    triangles_key: bool,
    immovables_key: bool,
    runes_key: bool,
)
    ensures
        *final(state) == (SimState { builder: final(state).builder, ..*old(state) }),
        final(state).builder == (if triangles_key {
            BuilderState::Triangles
        } else if immovables_key {
            BuilderState::Immovables
        } else if runes_key {
            BuilderState::Runes
        } else {
            old(state).builder
        }),
{
    if triangles_key {
        state.builder = BuilderState::Triangles;
    } else if immovables_key {
        state.builder = BuilderState::Immovables;
    } else if runes_key {
        state.builder = BuilderState::Runes;
    }
}

/// The selectable corner targets of a freshly spawned triangle: one per
/// corner, unselected, with the standard radius, ids following the tile's.
pub open spec fn spec_corner_targets(tile_id: u64) -> Seq<PlacedSelectable> {
    seq![
        PlacedSelectable {
            id: (tile_id + 1) as u64,
            tile_id: tile_id,
            corner: 0,
            selectable: Selectable { selection_radius: SELECTABLE_RADIUS, is_selected: false },
        },
        PlacedSelectable {
            id: (tile_id + 2) as u64,
            tile_id: tile_id,
            corner: 1,
            selectable: Selectable { selection_radius: SELECTABLE_RADIUS, is_selected: false },
        },
        PlacedSelectable {
            id: (tile_id + 3) as u64,
            tile_id: tile_id,
            corner: 2,
            selectable: Selectable { selection_radius: SELECTABLE_RADIUS, is_selected: false },
        },
    ]
}

impl SimState {
    /// Room for `n` more entity ids.
    pub open spec fn id_budget(self, n: int) -> bool {
        self.next_entity_id + n <= u64::MAX
    }
}

/// Place a movable triangle at `coord`, not yet in any clump, with its
/// three corners as selectable targets.  The new tile id is returned; the
/// tile counts as changed and its corners as changed targets.
pub fn spawn_solo_triangle(state: &mut SimState, coord: TileCoord) -> (r: u64)
    requires
        old(state).wf(),
        in_board_range(coord.vertex@),
        old(state).id_budget(4),
    ensures
        final(state).wf(),
        r == old(state).next_entity_id,
        *final(state) == (SimState {
            tiles: final(state).tiles,
            selectables: final(state).selectables,
            changed_tiles: final(state).changed_tiles,
            changed_selectables: final(state).changed_selectables,
            next_entity_id: (old(state).next_entity_id + 4) as u64,
            ..*old(state)
        }),
        final(state).tiles@ == old(state).tiles@.push(
            PlacedTile {
                id: r,
                tile: TriangleTile { position: coord },
                clump: None,
                immovable: false,
            },
        ),
        final(state).selectables@ == old(state).selectables@ + spec_corner_targets(r),
        final(state).changed_tiles@ == old(state).changed_tiles@.push(r),
        final(state).changed_selectables@ == old(state).changed_selectables@ + seq![
            (r + 1) as u64,
            (r + 2) as u64,
            (r + 3) as u64,
        ],
{
    let id = state.next_entity_id;
    state.tiles.push(
        PlacedTile { id, tile: TriangleTile { position: coord }, clump: None, immovable: false },
    );
    state.changed_tiles.push(id);
    let mut k: u8 = 0;
    while k < 3
        invariant
            k <= 3,
            state.selectables@ == old(state).selectables@ + spec_corner_targets(id).take(k as int),
            state.changed_selectables@ == old(state).changed_selectables@ + seq![
                (id + 1) as u64,
                (id + 2) as u64,
                (id + 3) as u64,
            ].take(k as int),
            id == old(state).next_entity_id,
            old(state).wf(),
            old(state).id_budget(4),
            *state == (SimState {
                tiles: state.tiles,
                selectables: state.selectables,
                changed_tiles: state.changed_tiles,
                changed_selectables: state.changed_selectables,
                ..*old(state)
            }),
            state.tiles@ == old(state).tiles@.push(
                PlacedTile {
                    id: id,
                    tile: TriangleTile { position: coord },
                    clump: None,
                    immovable: false,
                },
            ),
            state.changed_tiles@ == old(state).changed_tiles@.push(id),
        decreases 3 - k,
    {
        let sid = id + 1 + (k as u64);
        state.selectables.push(
            PlacedSelectable {
                id: sid,
                tile_id: id,
                corner: k,
                selectable: Selectable {
                    selection_radius: SELECTABLE_RADIUS,
                    is_selected: false,
                },
            },
        );
        state.changed_selectables.push(sid);
        proof {
            assert(spec_corner_targets(id).take(k + 1 as int) =~= spec_corner_targets(id).take(
                k as int,
            ).push(spec_corner_targets(id)[k as int]));
            assert(seq![(id + 1) as u64, (id + 2) as u64, (id + 3) as u64].take(k + 1 as int)
                =~= seq![(id + 1) as u64, (id + 2) as u64, (id + 3) as u64].take(k as int).push(
                seq![(id + 1) as u64, (id + 2) as u64, (id + 3) as u64][k as int],
            ));
        }
        k += 1;
    }
    state.next_entity_id = id + 4;
    proof {
        assert(spec_corner_targets(id).take(3) =~= spec_corner_targets(id));
        assert(seq![(id + 1) as u64, (id + 2) as u64, (id + 3) as u64].take(3) =~= seq![
            (id + 1) as u64,
            (id + 2) as u64,
            (id + 3) as u64,
        ]);
        assert(state.selectables@ == old(state).selectables@ + spec_corner_targets(id));
    }
    id
}

/// Place an immovable obstacle tile at `coord`: never part of a clump,
/// never selectable, but occupying its face for the collision check.
pub fn spawn_immovable(state: &mut SimState, coord: TileCoord) -> (r: u64)
    requires
        old(state).wf(),
        in_board_range(coord.vertex@),
        old(state).id_budget(1),
    ensures
        final(state).wf(),
        r == old(state).next_entity_id,
        *final(state) == (SimState {
            tiles: final(state).tiles,
            changed_tiles: final(state).changed_tiles,
            next_entity_id: (old(state).next_entity_id + 1) as u64,
            ..*old(state)
        }),
        final(state).tiles@ == old(state).tiles@.push(
            PlacedTile {
                id: r,
                tile: TriangleTile { position: coord },
                clump: None,
                immovable: true,
            },
        ),
        final(state).changed_tiles@ == old(state).changed_tiles@.push(r),
{
    let id = state.next_entity_id;
    state.tiles.push(
        PlacedTile { id, tile: TriangleTile { position: coord }, clump: None, immovable: true },
    );
    state.changed_tiles.push(id);
    state.next_entity_id = id + 1;
    id
}

/// Place a bare border tile at `coord`: no clump, no obstacle mark, no
/// selectable corners.  It blocks rotations like any other tile, but it is
/// neither saved with a level nor removed by a level clear.
pub fn spawn_border_tile(state: &mut SimState, coord: TileCoord) -> (r: u64)
    requires
        old(state).wf(),
        in_board_range(coord.vertex@),
        old(state).id_budget(1),
    ensures
        final(state).wf(),
        r == old(state).next_entity_id,
        *final(state) == (SimState {
            tiles: final(state).tiles,
            changed_tiles: final(state).changed_tiles,
            next_entity_id: (old(state).next_entity_id + 1) as u64,
            ..*old(state)
        }),
        final(state).tiles@ == old(state).tiles@.push(
            PlacedTile {
                id: r,
                tile: TriangleTile { position: coord },
                clump: None,
                immovable: false,
            },
        ),
        final(state).changed_tiles@ == old(state).changed_tiles@.push(r),
{
    let id = state.next_entity_id;
    state.tiles.push(
        PlacedTile { id, tile: TriangleTile { position: coord }, clump: None, immovable: false },
    );
    state.changed_tiles.push(id);
    state.next_entity_id = id + 1;
    id
}

/// Place a rune goal at `coord`, initially unlit, and mark that a rune was
/// added so the rune pass re-evaluates the board.
pub fn spawn_rune(state: &mut SimState, coord: TileCoord)
    requires
        old(state).wf(),
        in_board_range(coord.vertex@),
    ensures
        final(state).wf(),
        *final(state) == (SimState {
            runes: final(state).runes,
            runes_added: true,
            ..*old(state)
        }),
        final(state).runes@ == old(state).runes@.push(
            PlacedRune { rune: RuneTile { position: coord }, lit: false },
        ),
{
    state.runes.push(PlacedRune { rune: RuneTile { position: coord }, lit: false });
    state.runes_added = true;
}

/// A fresh clump id.  Clump ids are never reused, so a merged-away clump's
/// id can never come back to life.
pub fn new_clump(state: &mut SimState) -> (r: u64)
    requires
        old(state).next_clump_id < u64::MAX,
    ensures
        r == old(state).next_clump_id,
        *final(state) == (SimState {
            next_clump_id: (old(state).next_clump_id + 1) as u64,
            ..*old(state)
        }),
{
    let c = state.next_clump_id;
    state.next_clump_id = c + 1;
    c
}

/// Put the tile with id `tile_id` into the clump `clump`.  Ignored when no
/// such tile is placed or the tile is immovable.
pub fn set_tile_clump(state: &mut SimState, tile_id: u64, clump: u64)
    requires
        old(state).wf(),
        clump < old(state).next_clump_id,
    ensures
        final(state).wf(),
        *final(state) == (SimState { tiles: final(state).tiles, ..*old(state) }),
        ({
            let tiles0 = old(state).tiles@;
            if crate::sim::has_tile(tiles0, tile_id) && !tile_at(tiles0, tile_id).immovable {
                final(state).tiles@ == tiles0.update(
                    crate::sim::tile_index(tiles0, tile_id),
                    PlacedTile { clump: Some(clump), ..tile_at(tiles0, tile_id) },
                )
            } else {
                final(state).tiles@ == tiles0
            }
        }),
{
    match find_tile(&state.tiles, tile_id) {
        Some(i) => {
            if !state.tiles[i].immovable {
                state.tiles[i].clump = Some(clump);
            }
        },
        None => {},
    }
}

/// Place whatever the builder mode says at the face `coord`: a triangle in
/// a fresh clump of its own, an immovable obstacle, or a rune.  A face off
/// the board is refused and nothing changes.
pub fn builder(state: &mut SimState, coord: TileCoord) -> (r: bool)
    requires
        old(state).wf(),
        old(state).id_budget(4),
        old(state).next_clump_id < u64::MAX,
    ensures
        final(state).wf(),
        r == in_board_range(coord.vertex@),
        !r ==> *final(state) == *old(state),
        r && old(state).builder == BuilderState::Triangles ==> ({
            let id = old(state).next_entity_id;
            let c = old(state).next_clump_id;
            &&& *final(state) == (SimState {
                tiles: final(state).tiles,
                selectables: final(state).selectables,
                changed_tiles: final(state).changed_tiles,
                changed_selectables: final(state).changed_selectables,
                next_entity_id: (id + 4) as u64,
                next_clump_id: (c + 1) as u64,
                ..*old(state)
            })
            &&& final(state).tiles@ == old(state).tiles@.push(
                PlacedTile {
                    id: id,
                    tile: TriangleTile { position: coord },
                    clump: Some(c),
                    immovable: false,
                },
            )
            &&& final(state).selectables@ == old(state).selectables@ + spec_corner_targets(id)
            &&& final(state).changed_tiles@ == old(state).changed_tiles@.push(id)
            &&& final(state).changed_selectables@ == old(state).changed_selectables@ + seq![
                (id + 1) as u64,
                (id + 2) as u64,
                (id + 3) as u64,
            ]
        }),
        r && old(state).builder == BuilderState::Immovables ==> ({
            let id = old(state).next_entity_id;
            &&& *final(state) == (SimState {
                tiles: final(state).tiles,
                changed_tiles: final(state).changed_tiles,
                next_entity_id: (id + 1) as u64,
                ..*old(state)
            })
            &&& final(state).tiles@ == old(state).tiles@.push(
                PlacedTile {
                    id: id,
                    tile: TriangleTile { position: coord },
                    clump: None,
                    immovable: true,
                },
            )
            &&& final(state).changed_tiles@ == old(state).changed_tiles@.push(id)
        }),
        r && old(state).builder == BuilderState::Runes ==> ({
            &&& *final(state) == (SimState {
                runes: final(state).runes,
                runes_added: true,
                ..*old(state)
            })
            &&& final(state).runes@ == old(state).runes@.push(
                PlacedRune { rune: RuneTile { position: coord }, lit: false },
            )
        }),
{
    if coord.vertex.x < -crate::sim::COORD_LIMIT || coord.vertex.x > crate::sim::COORD_LIMIT
        || coord.vertex.y < -crate::sim::COORD_LIMIT || coord.vertex.y > crate::sim::COORD_LIMIT {
        return false;
    }
    match state.builder {
        BuilderState::Triangles => {
            let id = spawn_solo_triangle(state, coord);
            let c = new_clump(state);
            let ghost mid2 = *state;
            set_tile_clump(state, id, c);
            proof {
                let t1 = mid2.tiles@;
                assert(t1[t1.len() - 1].id == id);
                assert(crate::sim::has_tile(t1, id));
                assert(tile_at(t1, id) == t1[t1.len() - 1] && crate::sim::tile_index(t1, id)
                    == t1.len() - 1) by {
                    let j = crate::sim::tile_index(t1, id);
                    assert(0 <= j < t1.len() && t1[j].id == id);
                    if j < t1.len() - 1 {
                        assert(t1[j] == old(state).tiles@[j]);
                        assert(old(state).tiles@[j].id < old(state).next_entity_id);
                    }
                }
                assert(state.tiles@ =~= old(state).tiles@.push(
                    PlacedTile {
                        id: id,
                        tile: TriangleTile { position: coord },
                        clump: Some(c),
                        immovable: false,
                    },
                ));
            }
        },
        BuilderState::Immovables => {
            spawn_immovable(state, coord);
        },
        BuilderState::Runes => {
            spawn_rune(state, coord);
        },
    }
    true
}

} // verus!
