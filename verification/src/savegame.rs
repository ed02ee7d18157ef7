//! Saving and loading levels as plain record lists.
//!
//! A level is captured as three lists: the movable triangles with their
//! clump ids, the immovable obstacle faces, and the rune faces.  Loading
//! rebuilds the board from such a capture, renumbering clumps with fresh
//! ids but keeping the grouping intact.  Reading and writing the capture
//! (as JSON on disk or elsewhere) is the embedding's business; here live
//! the exact record contents and the rebuild.  The level border survives a
//! load: border tiles, having neither a clump nor the obstacle mark, are
//! neither saved nor cleared.

use vstd::prelude::*;

use crate::level::LevelInfo;
use crate::level_editor::{
    new_clump, set_tile_clump, spawn_immovable, spawn_rune, spawn_solo_triangle,
};
use crate::sim::{
    has_tile, in_board_range, tile_at, tile_ids_unique, PlacedRune, PlacedSelectable, PlacedTile,
    SimState,
};
use crate::tilemap::{RuneTile, TileCoord, TriangleTile};

verus! {

/// A captured level: movable triangles with their clump ids, obstacle
/// faces, and rune faces.
#[derive(Debug)]
pub struct SaveGame {
    /// Every movable triangle with the clump it belonged to.
    pub triangles: Vec<(TriangleTile, u64)>,
    /// The faces of the immovable obstacles.
    pub immovables: Vec<TileCoord>,
    /// The faces of the runes.
    pub runes: Vec<RuneTile>,
}

/// The triangle records of a capture: every clumped tile with its clump
/// id, in store order.
pub open spec fn spec_saved_triangles(tiles: Seq<PlacedTile>) -> Seq<(TriangleTile, u64)>
    decreases tiles.len(),
{
    if tiles.len() == 0 {
        Seq::empty()
    } else {
        let rest = spec_saved_triangles(tiles.drop_last());
        match tiles.last().clump {
            Some(c) => rest.push((tiles.last().tile, c)),
            None => rest,
        }
    }
}

/// The obstacle records of a capture: the face of every immovable tile, in
/// store order.
pub open spec fn spec_saved_immovables(tiles: Seq<PlacedTile>) -> Seq<TileCoord>
    decreases tiles.len(),
{
    if tiles.len() == 0 {
        Seq::empty()
    } else {
        let rest = spec_saved_immovables(tiles.drop_last());
        if tiles.last().immovable {
            rest.push(tiles.last().tile.position)
        } else {
            rest
        }
    }
}

/// The rune records of a capture, in store order.
pub open spec fn spec_saved_runes(runes: Seq<PlacedRune>) -> Seq<RuneTile>
    decreases runes.len(),
{
    if runes.len() == 0 {
        Seq::empty()
    } else {
        spec_saved_runes(runes.drop_last()).push(runes.last().rune)
    }
}

/// Capture the current level: clumped triangles with their clump ids,
/// obstacle faces, and rune faces.  Border tiles (no clump, no obstacle
/// mark) are not captured.
pub fn save_level(state: &SimState) -> (r: SaveGame)
    ensures
        r.triangles@ == spec_saved_triangles(state.tiles@),
        r.immovables@ == spec_saved_immovables(state.tiles@),
        r.runes@ == spec_saved_runes(state.runes@),
{
    let ghost tiles0 = state.tiles@;
    let ghost runes0 = state.runes@;
    let mut triangles: Vec<(TriangleTile, u64)> = Vec::new();
    let mut immovables: Vec<TileCoord> = Vec::new();
    let mut i: usize = 0;
    while i < state.tiles.len()
        invariant
            i <= tiles0.len(),
            state.tiles@ == tiles0,
            triangles@ == spec_saved_triangles(tiles0.take(i as int)),
            immovables@ == spec_saved_immovables(tiles0.take(i as int)),
        decreases tiles0.len() - i,
    {
        let t = state.tiles[i];
        match t.clump {
            Some(c) => {
                triangles.push((t.tile, c));
            },
            None => {},
        }
        if t.immovable {
            immovables.push(t.tile.position);
        }
        proof {
            crate::sim::lemma_take_step(tiles0, i as int);
        }
        i += 1;
    }
    let mut runes: Vec<RuneTile> = Vec::new();
    let mut i: usize = 0;
    while i < state.runes.len()
        invariant
            i <= runes0.len(),
            state.runes@ == runes0,
            runes@ == spec_saved_runes(runes0.take(i as int)),
        decreases runes0.len() - i,
    {
        runes.push(state.runes[i].rune);
        proof {
            crate::sim::lemma_take_step(runes0, i as int);
        }
        i += 1;
    }
    proof {
        assert(tiles0.take(tiles0.len() as int) =~= tiles0);
        assert(runes0.take(runes0.len() as int) =~= runes0);
    }
    SaveGame { triangles, immovables, runes }
}

/// Every triangle record of a capture comes from a clumped tile on the
/// board with that face and clump id.  Together with the converse law and
/// the contract of [`spawn_level`] -- which rebuilds exactly the recorded
/// faces, grouped as the recorded clump ids group them -- saving and then
/// loading reproduces the same triangle and clump sets up to clump
/// renumbering.
pub proof fn lemma_triangle_records_sound(tiles: Seq<PlacedTile>)
    ensures
        forall|q: int|
            #![trigger spec_saved_triangles(tiles)[q]]
            0 <= q < spec_saved_triangles(tiles).len() ==> exists|j: int|
                0 <= j < tiles.len() && (#[trigger] tiles[j]).clump == Some(
                    spec_saved_triangles(tiles)[q].1,
                ) && tiles[j].tile == spec_saved_triangles(tiles)[q].0,
    decreases tiles.len(),
{
    if tiles.len() > 0 {
        let prefix = tiles.drop_last();
        lemma_triangle_records_sound(prefix);
        let rest = spec_saved_triangles(prefix);
        let whole = spec_saved_triangles(tiles);
        assert forall|q: int| #![trigger whole[q]] 0 <= q < whole.len() implies exists|j: int|
            0 <= j < tiles.len() && (#[trigger] tiles[j]).clump == Some(whole[q].1)
                && tiles[j].tile == whole[q].0 by {
            if q < rest.len() {
                let j = choose|j: int|
                    0 <= j < prefix.len() && (#[trigger] prefix[j]).clump == Some(rest[q].1)
                        && prefix[j].tile == rest[q].0;
                assert(whole[q] == rest[q]);
                assert(tiles[j] == prefix[j]);
            } else {
                let lt = tiles[tiles.len() - 1];
                assert(whole[q] == (lt.tile, lt.clump->Some_0));
            }
        }
    }
}

/// Every clumped tile on the board appears in the capture's triangle
/// records, with its face and clump id.
pub proof fn lemma_triangle_records_complete(tiles: Seq<PlacedTile>)
    ensures
        forall|j: int|
            0 <= j < tiles.len() && (#[trigger] tiles[j]).clump is Some ==> exists|q: int|
                0 <= q < spec_saved_triangles(tiles).len() && #[trigger] spec_saved_triangles(
                    tiles,
                )[q] == (tiles[j].tile, tiles[j].clump->Some_0),
    decreases tiles.len(),
{
    if tiles.len() > 0 {
        let prefix = tiles.drop_last();
        lemma_triangle_records_complete(prefix);
        let rest = spec_saved_triangles(prefix);
        let whole = spec_saved_triangles(tiles);
        assert forall|j: int|
            0 <= j < tiles.len() && (#[trigger] tiles[j]).clump is Some implies exists|q: int|
            0 <= q < whole.len() && #[trigger] whole[q] == (
            tiles[j].tile,
            tiles[j].clump->Some_0,
        ) by {
            if j < tiles.len() - 1 {
                let q = choose|q: int|
                    0 <= q < rest.len() && #[trigger] rest[q] == (
                    prefix[j].tile,
                    prefix[j].clump->Some_0,
                    );
                assert(whole[q] == rest[q]);
            } else {
                assert(whole[whole.len() - 1] == (tiles[j].tile, tiles[j].clump->Some_0));
            }
        }
    }
}

/// Every obstacle record of a capture is the face of an immovable tile on
/// the board.
pub proof fn lemma_obstacle_records_sound(tiles: Seq<PlacedTile>)
    ensures
        forall|q: int|
            #![trigger spec_saved_immovables(tiles)[q]]
            0 <= q < spec_saved_immovables(tiles).len() ==> exists|j: int|
                0 <= j < tiles.len() && (#[trigger] tiles[j]).immovable && tiles[j].tile.position
                    == spec_saved_immovables(tiles)[q],
    decreases tiles.len(),
{
    if tiles.len() > 0 {
        let prefix = tiles.drop_last();
        lemma_obstacle_records_sound(prefix);
        let rest = spec_saved_immovables(prefix);
        let whole = spec_saved_immovables(tiles);
        assert forall|q: int| #![trigger whole[q]] 0 <= q < whole.len() implies exists|j: int|
            0 <= j < tiles.len() && (#[trigger] tiles[j]).immovable && tiles[j].tile.position
                == whole[q] by {
            if q < rest.len() {
                let j = choose|j: int|
                    0 <= j < prefix.len() && (#[trigger] prefix[j]).immovable
                        && prefix[j].tile.position == rest[q];
                assert(whole[q] == rest[q]);
                assert(tiles[j] == prefix[j]);
            } else {
                assert(whole[q] == tiles[tiles.len() - 1].tile.position);
            }
        }
    }
}

/// Every immovable tile's face on the board appears in the capture's
/// obstacle records.
pub proof fn lemma_obstacle_records_complete(tiles: Seq<PlacedTile>)
    ensures
        forall|j: int|
            0 <= j < tiles.len() && (#[trigger] tiles[j]).immovable ==> exists|q: int|
                0 <= q < spec_saved_immovables(tiles).len() && #[trigger] spec_saved_immovables(
                    tiles,
                )[q] == tiles[j].tile.position,
    decreases tiles.len(),
{
    if tiles.len() > 0 {
        let prefix = tiles.drop_last();
        lemma_obstacle_records_complete(prefix);
        let rest = spec_saved_immovables(prefix);
        let whole = spec_saved_immovables(tiles);
        assert forall|j: int|
            0 <= j < tiles.len() && (#[trigger] tiles[j]).immovable implies exists|q: int|
            0 <= q < whole.len() && #[trigger] whole[q] == tiles[j].tile.position by {
            if j < tiles.len() - 1 {
                let q = choose|q: int|
                    0 <= q < rest.len() && #[trigger] rest[q] == prefix[j].tile.position;
                assert(whole[q] == rest[q]);
            } else {
                assert(whole[whole.len() - 1] == tiles[j].tile.position);
            }
        }
    }
}

/// A capture's rune records are the rune faces, one for one and in order.
pub proof fn lemma_rune_records_exact(runes: Seq<PlacedRune>)
    ensures
        spec_saved_runes(runes).len() == runes.len(),
        forall|i: int|
            0 <= i < runes.len() ==> #[trigger] spec_saved_runes(runes)[i] == runes[i].rune,
    decreases runes.len(),
{
    if runes.len() > 0 {
        lemma_rune_records_exact(runes.drop_last());
    }
}

/// Whether a tile survives a level clear: only the border does -- tiles
/// with neither a clump nor the obstacle mark.
pub open spec fn spec_tile_persists(t: PlacedTile) -> bool {
    t.clump is None && !t.immovable
}

/// The tiles that survive a level clear, in store order.
pub open spec fn spec_border_tiles(tiles: Seq<PlacedTile>) -> Seq<PlacedTile>
    decreases tiles.len(),
{
    if tiles.len() == 0 {
        tiles
    } else {
        let rest = spec_border_tiles(tiles.drop_last());
        if spec_tile_persists(tiles.last()) {
            rest.push(tiles.last())
        } else {
            rest
        }
    }
}

/// The selectables that survive a level clear: those whose owning tile
/// survives, in store order.
pub open spec fn spec_surviving_sels(
    tiles: Seq<PlacedTile>,
    sels: Seq<PlacedSelectable>,
) -> Seq<PlacedSelectable>
    decreases sels.len(),
{
    if sels.len() == 0 {
        sels
    } else {
        let rest = spec_surviving_sels(tiles, sels.drop_last());
        let s = sels.last();
        if has_tile(tiles, s.tile_id) && spec_tile_persists(tile_at(tiles, s.tile_id)) {
            rest.push(s)
        } else {
            rest
        }
    }
}

/// Remove everything a level load replaces: all clumped triangles with
/// their selectable corners, all immovable obstacles, and all runes.  The
/// border stays.
pub fn clear_world(state: &mut SimState)
    requires
        old(state).wf(),
    ensures
        final(state).wf(),
        *final(state) == (SimState {
            tiles: final(state).tiles,
            selectables: final(state).selectables,
            runes: final(state).runes,
            ..*old(state)
        }),
        final(state).tiles@ == spec_border_tiles(old(state).tiles@),
        final(state).selectables@ == spec_surviving_sels(
            old(state).tiles@,
            old(state).selectables@,
        ),
        final(state).runes@ == Seq::<PlacedRune>::empty(),
{
    let ghost tiles0 = state.tiles@;
    let ghost sels0 = state.selectables@;

    let mut kept_tiles: Vec<PlacedTile> = Vec::new();
    let mut i: usize = 0;
    while i < state.tiles.len()
        invariant
            state.wf(),
            i <= tiles0.len(),
            state.tiles@ == tiles0,
            kept_tiles@ == spec_border_tiles(tiles0.take(i as int)),
            forall|k: int|
                0 <= k < kept_tiles@.len() ==> exists|j: int|
                    0 <= j < i && #[trigger] kept_tiles@[k] == tiles0[j],
        decreases tiles0.len() - i,
    {
        let t = state.tiles[i];
        let keep = match t.clump {
            Some(_) => false,
            None => !t.immovable,
        };
        if keep {
            kept_tiles.push(t);
        }
        proof {
            crate::sim::lemma_take_step(tiles0, i as int);
        }
        i += 1;
    }
    let mut kept_sels: Vec<PlacedSelectable> = Vec::new();
    let mut i: usize = 0;
    while i < state.selectables.len()
        invariant
            state.wf(),
            i <= sels0.len(),
            state.tiles@ == tiles0,
            state.selectables@ == sels0,
            kept_sels@ == spec_surviving_sels(tiles0, sels0.take(i as int)),
            forall|k: int|
                0 <= k < kept_sels@.len() ==> exists|j: int|
                    0 <= j < i && #[trigger] kept_sels@[k] == sels0[j],
        decreases sels0.len() - i,
    {
        let s = state.selectables[i];
        match crate::sim::find_tile(&state.tiles, s.tile_id) {
            Some(ti) => {
                let t = state.tiles[ti];
                let keep = match t.clump {
                    Some(_) => false,
                    None => !t.immovable,
                };
                if keep {
                    kept_sels.push(s);
                }
            },
            None => {},
        }
        proof {
            crate::sim::lemma_take_step(sels0, i as int);
        }
        i += 1;
    }
    proof {
        assert(tiles0.take(tiles0.len() as int) =~= tiles0);
        assert(sels0.take(sels0.len() as int) =~= sels0);
    }
    state.tiles = kept_tiles;
    state.selectables = kept_sels;
    state.runes = Vec::new();
    proof {
        lemma_border_tiles_distinct(tiles0);
        lemma_surviving_sels_distinct(tiles0, sels0);
        assert forall|k: int|
            0 <= k < state.tiles@.len() implies ({
            let t = #[trigger] state.tiles@[k];
            t.id < state.next_entity_id && in_board_range(t.tile.position.vertex@) && (t.clump
                matches Some(c) ==> c < state.next_clump_id && !t.immovable)
        }) by {
            let j = choose|j: int|
                0 <= j < tiles0.len() && spec_border_tiles(tiles0)[k] == #[trigger] tiles0[j];
            assert(state.tiles@[k] == tiles0[j]);
            assert(old(state).tiles@[j] == tiles0[j]);
        }
        assert forall|k: int|
            0 <= k < state.selectables@.len() implies ({
            let s = #[trigger] state.selectables@[k];
            s.id < state.next_entity_id && s.corner < 3 && 0 <= s.selectable.selection_radius
                <= crate::selection::RADIUS_LIMIT
        }) by {
            let j = choose|j: int|
                0 <= j < sels0.len() && spec_surviving_sels(tiles0, sels0)[k] == #[trigger] sels0[j];
            assert(state.selectables@[k] == sels0[j]);
            assert(old(state).selectables@[j] == sels0[j]);
        }
    }
}

/// The tiles surviving a clear keep pairwise distinct ids, and each of
/// them is one of the original tiles.
proof fn lemma_border_tiles_distinct(tiles: Seq<PlacedTile>)
    requires
        tile_ids_unique(tiles),
    ensures
        tile_ids_unique(spec_border_tiles(tiles)),
        forall|k: int|
            #![trigger spec_border_tiles(tiles)[k]]
            0 <= k < spec_border_tiles(tiles).len() ==> exists|j: int|
                0 <= j < tiles.len() && spec_border_tiles(tiles)[k] == #[trigger] tiles[j],
    decreases tiles.len(),
{
    if tiles.len() > 0 {
        let prefix = tiles.drop_last();
        assert(tile_ids_unique(prefix));
        lemma_border_tiles_distinct(prefix);
        let rest = spec_border_tiles(prefix);
        let whole = spec_border_tiles(tiles);
        assert forall|k: int| #![trigger whole[k]] 0 <= k < whole.len() implies exists|j: int|
            0 <= j < tiles.len() && whole[k] == #[trigger] tiles[j] by {
            if k < rest.len() {
                let j = choose|j: int| 0 <= j < prefix.len() && rest[k] == #[trigger] prefix[j];
                assert(whole[k] == rest[k]);
                assert(whole[k] == tiles[j]);
            } else {
                assert(whole[k] == tiles[tiles.len() - 1]);
            }
        }
        if spec_tile_persists(tiles.last()) {
            assert forall|k: int| 0 <= k < rest.len() implies (#[trigger] rest[k]).id
                != tiles.last().id by {
                let j = choose|j: int| 0 <= j < prefix.len() && rest[k] == #[trigger] prefix[j];
                assert(tiles[j].id != tiles[tiles.len() - 1].id);
            }
        }
    }
}

/// The selectables surviving a clear keep pairwise distinct ids, and each
/// of them is one of the original selectables.
proof fn lemma_surviving_sels_distinct(tiles: Seq<PlacedTile>, sels: Seq<PlacedSelectable>)
    requires
        crate::sim::sel_ids_unique(sels),
    ensures
        crate::sim::sel_ids_unique(spec_surviving_sels(tiles, sels)),
        forall|k: int|
            #![trigger spec_surviving_sels(tiles, sels)[k]]
            0 <= k < spec_surviving_sels(tiles, sels).len() ==> exists|j: int|
                0 <= j < sels.len() && spec_surviving_sels(tiles, sels)[k] == #[trigger] sels[j],
    decreases sels.len(),
{
    if sels.len() > 0 {
        let prefix = sels.drop_last();
        assert(crate::sim::sel_ids_unique(prefix));
        lemma_surviving_sels_distinct(tiles, prefix);
        let rest = spec_surviving_sels(tiles, prefix);
        let whole = spec_surviving_sels(tiles, sels);
        assert forall|k: int| #![trigger whole[k]] 0 <= k < whole.len() implies exists|j: int|
            0 <= j < sels.len() && whole[k] == #[trigger] sels[j] by {
            if k < rest.len() {
                let j = choose|j: int| 0 <= j < prefix.len() && rest[k] == #[trigger] prefix[j];
                assert(whole[k] == rest[k]);
                assert(whole[k] == sels[j]);
            } else {
                assert(whole[k] == sels[sels.len() - 1]);
            }
        }
        let s = sels.last();
        if has_tile(tiles, s.tile_id) && spec_tile_persists(tile_at(tiles, s.tile_id)) {
            assert forall|k: int| 0 <= k < rest.len() implies (#[trigger] rest[k]).id != s.id by {
                let j = choose|j: int| 0 <= j < prefix.len() && rest[k] == #[trigger] prefix[j];
                assert(sels[j].id != sels[sels.len() - 1].id);
            }
        }
    }
}

/// All faces of a capture lie on the board.
pub open spec fn spec_capture_coords_ok(
    tris: Seq<(TriangleTile, u64)>,
    imms: Seq<TileCoord>,
    runes: Seq<RuneTile>,
) -> bool {
    &&& forall|i: int|
        0 <= i < tris.len() ==> in_board_range((#[trigger] tris[i]).0.position.vertex@)
    &&& forall|i: int| 0 <= i < imms.len() ==> in_board_range((#[trigger] imms[i]).vertex@)
    &&& forall|i: int| 0 <= i < runes.len() ==> in_board_range((#[trigger] runes[i]).position.vertex@)
}

/// The clump id recorded for `key`, if any.
fn lookup_assoc(assoc: &Vec<(u64, u64)>, key: u64) -> (r: Option<u64>)
    ensures
        r matches Some(v) ==> exists|k: int|
            0 <= k < assoc@.len() && #[trigger] assoc@[k] == (key, v),
        r is None ==> forall|k: int| 0 <= k < assoc@.len() ==> (#[trigger] assoc@[k]).0 != key,
{
    let mut i: usize = 0;
    while i < assoc.len()
        invariant
            i <= assoc@.len(),
            forall|k: int| 0 <= k < i ==> (#[trigger] assoc@[k]).0 != key,
        decreases assoc@.len() - i,
    {
        let p = assoc[i];
        if p.0 == key {
            return Some(p.1);
        }
        i += 1;
    }
    None
}

/// Replace the level with a capture.  The capture is validated first --
/// every face must lie on the board, and there must be room for the new
/// entity and clump ids -- and an invalid capture changes nothing.  A
/// valid one clears the level (border excepted) and rebuilds it: one
/// triangle per record, grouped into fresh clumps exactly as the recorded
/// clump ids group the records; then the obstacles; then the runes, unlit.
pub fn spawn_level(state: &mut SimState, save: &SaveGame) -> (r: bool)
    requires
        old(state).wf(),
    ensures
        final(state).wf(),
        r == ({
            &&& old(state).next_entity_id + 4 * save.triangles@.len() + save.immovables@.len()
                <= u64::MAX
            &&& old(state).next_clump_id + save.triangles@.len() <= u64::MAX
            &&& spec_capture_coords_ok(save.triangles@, save.immovables@, save.runes@)
        }),
        !r ==> *final(state) == *old(state),
        r ==> ({
            let border = spec_border_tiles(old(state).tiles@);
            let survivors = spec_surviving_sels(old(state).tiles@, old(state).selectables@);
            let bl = border.len() as int;
            let sl = survivors.len() as int;
            let tl = save.triangles@.len() as int;
            let ml = save.immovables@.len() as int;
            let n0 = old(state).next_entity_id as int;
            let ct0 = old(state).changed_tiles@;
            let cs0 = old(state).changed_selectables@;
            &&& *final(state) == (SimState {
                tiles: final(state).tiles,
                selectables: final(state).selectables,
                runes: final(state).runes,
                changed_tiles: final(state).changed_tiles,
                changed_selectables: final(state).changed_selectables,
                next_entity_id: final(state).next_entity_id,
                next_clump_id: final(state).next_clump_id,
                runes_added: final(state).runes_added,
                ..*old(state)
            })
            &&& final(state).next_entity_id == n0 + 4 * tl + ml
            &&& old(state).next_clump_id <= final(state).next_clump_id <= old(
                state,
            ).next_clump_id + tl
            &&& final(state).runes_added == (old(state).runes_added || save.runes@.len() > 0)
            &&& final(state).tiles@.len() == bl + tl + ml
            &&& (forall|b: int|
                #![trigger final(state).tiles@[b]]
                0 <= b < bl ==> final(state).tiles@[b] == border[b])
            &&& (forall|q: int|
                #![trigger final(state).tiles@[bl + q]]
                0 <= q < tl ==> ({
                    let e = final(state).tiles@[bl + q];
                    &&& e.id == n0 + 4 * q
                    &&& e.tile == save.triangles@[q].0
                    &&& !e.immovable
                    &&& e.clump is Some
                    &&& old(state).next_clump_id <= e.clump->Some_0 < final(state).next_clump_id
                }))
            &&& (forall|q1: int, q2: int|
                #![trigger final(state).tiles@[bl + q1], final(state).tiles@[bl + q2]]
                0 <= q1 < tl && 0 <= q2 < tl ==> ({
                    let e1 = final(state).tiles@[bl + q1];
                    let e2 = final(state).tiles@[bl + q2];
                    (e1.clump == e2.clump) <==> (save.triangles@[q1].1 == save.triangles@[q2].1)
                }))
            &&& (forall|m: int|
                #![trigger final(state).tiles@[bl + tl + m]]
                0 <= m < ml ==> final(state).tiles@[bl + tl + m] == (PlacedTile {
                    id: (n0 + 4 * tl + m) as u64,
                    tile: TriangleTile { position: save.immovables@[m] },
                    clump: None,
                    immovable: true,
                }))
            &&& final(state).selectables@.len() == sl + 3 * tl
            &&& (forall|b: int|
                #![trigger final(state).selectables@[b]]
                0 <= b < sl ==> final(state).selectables@[b] == survivors[b])
            &&& (forall|q: int, c: int|
                #![trigger final(state).selectables@[sl + 3 * q + c]]
                0 <= q < tl && 0 <= c < 3 ==> final(state).selectables@[sl + 3 * q + c] == (
                PlacedSelectable {
                    id: (n0 + 4 * q + 1 + c) as u64,
                    tile_id: (n0 + 4 * q) as u64,
                    corner: c as u8,
                    selectable: crate::selection::Selectable {
                        selection_radius: crate::level_editor::SELECTABLE_RADIUS,
                        is_selected: false,
                    },
                }))
            &&& final(state).runes@.len() == save.runes@.len()
            &&& (forall|i: int|
                #![trigger final(state).runes@[i]]
                0 <= i < save.runes@.len() ==> final(state).runes@[i] == (PlacedRune {
                    rune: save.runes@[i],
                    lit: false,
                }))
            &&& final(state).changed_tiles@.len() == ct0.len() + tl + ml
            &&& (forall|b: int|
                #![trigger final(state).changed_tiles@[b]]
                0 <= b < ct0.len() ==> final(state).changed_tiles@[b] == ct0[b])
            &&& (forall|q: int|
                #![trigger final(state).changed_tiles@[ct0.len() + q]]
                0 <= q < tl ==> final(state).changed_tiles@[ct0.len() + q] == (n0 + 4 * q) as u64)
            &&& (forall|m: int|
                #![trigger final(state).changed_tiles@[ct0.len() + tl + m]]
                0 <= m < ml ==> final(state).changed_tiles@[ct0.len() + tl + m] == (n0 + 4 * tl
                    + m) as u64)
            &&& final(state).changed_selectables@.len() == cs0.len() + 3 * tl
            &&& (forall|b: int|
                #![trigger final(state).changed_selectables@[b]]
                0 <= b < cs0.len() ==> final(state).changed_selectables@[b] == cs0[b])
            &&& (forall|q: int, c: int|
                #![trigger final(state).changed_selectables@[cs0.len() + 3 * q + c]]
                0 <= q < tl && 0 <= c < 3 ==> final(state).changed_selectables@[cs0.len() + 3 * q
                    + c] == (n0 + 4 * q + 1 + c) as u64)
        }),
{
    // Validate the capture before touching anything.
    let t_len = save.triangles.len();
    let m_len = save.immovables.len();
    let ids_left: u128 = (u64::MAX - state.next_entity_id) as u128;
    if 4u128 * (t_len as u128) + (m_len as u128) > ids_left {
        return false;
    }
    let clumps_left: u128 = (u64::MAX - state.next_clump_id) as u128;
    if (t_len as u128) > clumps_left {
        return false;
    }
    let mut v: usize = 0;
    while v < save.triangles.len()
        invariant
            v <= save.triangles@.len(),
            *state == *old(state),
            old(state).wf(),
            forall|i: int|
                0 <= i < v ==> in_board_range((#[trigger] save.triangles@[i]).0.position.vertex@),
        decreases save.triangles@.len() - v,
    {
        if !coord_on_board(save.triangles[v].0.position) {
            return false;
        }
        v += 1;
    }
    let mut v: usize = 0;
    while v < save.immovables.len()
        invariant
            v <= save.immovables@.len(),
            *state == *old(state),
            old(state).wf(),
            forall|i: int| 0 <= i < v ==> in_board_range((#[trigger] save.immovables@[i]).vertex@),
        decreases save.immovables@.len() - v,
    {
        if !coord_on_board(save.immovables[v]) {
            return false;
        }
        v += 1;
    }
    let mut v: usize = 0;
    while v < save.runes.len()
        invariant
            v <= save.runes@.len(),
            *state == *old(state),
            old(state).wf(),
            forall|i: int|
                0 <= i < v ==> in_board_range((#[trigger] save.runes@[i]).position.vertex@),
        decreases save.runes@.len() - v,
    {
        if !coord_on_board(save.runes[v].position) {
            return false;
        }
        v += 1;
    }

    clear_world(state);
    let ghost base = *state;

    // Spawn the triangles, mapping each recorded clump id to a fresh one.
    let mut assoc: Vec<(u64, u64)> = Vec::new();
    let mut t: usize = 0;
    while t < save.triangles.len()
        invariant
            state.wf(),
            t <= save.triangles@.len(),
            base.wf(),
            base.next_entity_id + 4 * save.triangles@.len() + save.immovables@.len() <= u64::MAX,
            base.next_clump_id + save.triangles@.len() <= u64::MAX,
            spec_capture_coords_ok(save.triangles@, save.immovables@, save.runes@),
            state.next_entity_id == base.next_entity_id + 4 * t,
            state.next_clump_id == base.next_clump_id + assoc@.len(),
            assoc@.len() <= t,
            forall|k1: int, k2: int|
                #![trigger assoc@[k1], assoc@[k2]]
                0 <= k1 < k2 < assoc@.len() ==> assoc@[k1].0 != assoc@[k2].0 && assoc@[k1].1
                    != assoc@[k2].1,
            forall|k: int|
                0 <= k < assoc@.len() ==> base.next_clump_id <= (#[trigger] assoc@[k]).1
                    < state.next_clump_id,
            state.tiles@.len() == base.tiles@.len() + t,
            forall|b: int|
                #![trigger state.tiles@[b]]
                0 <= b < base.tiles@.len() ==> state.tiles@[b] == base.tiles@[b],
            forall|q: int|
                #![trigger state.tiles@[base.tiles@.len() + q]]
                0 <= q < t ==> ({
                    let e = state.tiles@[base.tiles@.len() + q];
                    &&& e.id == base.next_entity_id + 4 * q
                    &&& e.tile == save.triangles@[q].0
                    &&& !e.immovable
                    &&& e.clump is Some
                    &&& exists|k: int|
                        0 <= k < assoc@.len() && (#[trigger] assoc@[k]).0 == save.triangles@[q].1
                            && e.clump == Some(assoc@[k].1)
                }),
            state.selectables@.len() == base.selectables@.len() + 3 * t,
            forall|b: int|
                #![trigger state.selectables@[b]]
                0 <= b < base.selectables@.len() ==> state.selectables@[b]
                    == base.selectables@[b],
            forall|q: int, c: int|
                #![trigger state.selectables@[base.selectables@.len() + 3 * q + c]]
                0 <= q < t && 0 <= c < 3 ==> state.selectables@[base.selectables@.len() + 3 * q
                    + c] == (PlacedSelectable {
                    id: (base.next_entity_id + 4 * q + 1 + c) as u64,
                    tile_id: (base.next_entity_id + 4 * q) as u64,
                    corner: c as u8,
                    selectable: crate::selection::Selectable {
                        selection_radius: crate::level_editor::SELECTABLE_RADIUS,
                        is_selected: false,
                    },
                }),
            state.changed_tiles@.len() == base.changed_tiles@.len() + t,
            forall|b: int|
                #![trigger state.changed_tiles@[b]]
                0 <= b < base.changed_tiles@.len() ==> state.changed_tiles@[b]
                    == base.changed_tiles@[b],
            forall|q: int|
                #![trigger state.changed_tiles@[base.changed_tiles@.len() + q]]
                0 <= q < t ==> state.changed_tiles@[base.changed_tiles@.len() + q] == (
                base.next_entity_id + 4 * q) as u64,
            state.changed_selectables@.len() == base.changed_selectables@.len() + 3 * t,
            forall|b: int|
                #![trigger state.changed_selectables@[b]]
                0 <= b < base.changed_selectables@.len() ==> state.changed_selectables@[b]
                    == base.changed_selectables@[b],
            forall|q: int, c: int|
                #![trigger state.changed_selectables@[base.changed_selectables@.len() + 3 * q + c]]
                0 <= q < t && 0 <= c < 3 ==> state.changed_selectables@[base.changed_selectables@.len()
                    + 3 * q + c] == (base.next_entity_id + 4 * q + 1 + c) as u64,
            *state == (SimState {
                tiles: state.tiles,
                selectables: state.selectables,
                changed_tiles: state.changed_tiles,
                changed_selectables: state.changed_selectables,
                next_entity_id: state.next_entity_id,
                next_clump_id: state.next_clump_id,
                ..base
            }),
        decreases save.triangles@.len() - t,
    {
        let rec = save.triangles[t];
        let ghost before = *state;
        let ghost assoc0 = assoc@;
        let id = spawn_solo_triangle(state, rec.0.position);
        let c = match lookup_assoc(&assoc, rec.1) {
            Some(c) => {
                proof {
                    let k = choose|k: int|
                        0 <= k < assoc@.len() && #[trigger] assoc@[k] == (rec.1, c);
                    assert(assoc@[k].0 == rec.1 && assoc@[k].1 == c);
                }
                c
            },
            None => {
                let c = new_clump(state);
                assoc.push((rec.1, c));
                proof {
                    assert(assoc@[assoc@.len() - 1] == (rec.1, c));
                }
                c
            },
        };
        let ghost mid2 = *state;
        set_tile_clump(state, id, c);
        proof {
            let fresh = PlacedTile {
                id: id,
                tile: TriangleTile { position: rec.0.position },
                clump: None,
                immovable: false,
            };
            assert(mid2.tiles@ == before.tiles@.push(fresh));
            assert forall|i: int| 0 <= i < before.tiles@.len() implies (
            #[trigger] before.tiles@[i]).id != id by {
                assert(before.tiles@[i].id < before.next_entity_id);
            }
            crate::sim::lemma_fresh_tile_index(before.tiles@, fresh);
            assert(state.tiles@ =~= before.tiles@.push(
                PlacedTile {
                    id: id,
                    tile: TriangleTile { position: rec.0.position },
                    clump: Some(c),
                    immovable: false,
                },
            ));
            assert(rec == save.triangles@[t as int]);
            assert(rec.0 == (TriangleTile { position: rec.0.position }));
            assert(exists|k: int|
                0 <= k < assoc@.len() && (#[trigger] assoc@[k]).0 == rec.1 && assoc@[k].1 == c);
            assert forall|q: int|
                #![trigger state.tiles@[base.tiles@.len() + q]]
                0 <= q < t + 1 implies ({
                let e = state.tiles@[base.tiles@.len() + q];
                &&& e.id == base.next_entity_id + 4 * q
                &&& e.tile == save.triangles@[q].0
                &&& !e.immovable
                &&& e.clump is Some
                &&& exists|k: int|
                    0 <= k < assoc@.len() && (#[trigger] assoc@[k]).0 == save.triangles@[q].1
                        && e.clump == Some(assoc@[k].1)
            }) by {
                if q < t {
                    let e = state.tiles@[base.tiles@.len() + q];
                    assert(e == before.tiles@[base.tiles@.len() + q]);
                    let k = choose|k: int|
                        0 <= k < assoc0.len() && (#[trigger] assoc0[k]).0 == save.triangles@[q].1
                            && e.clump == Some(assoc0[k].1);
                    assert(assoc@[k] == assoc0[k]);
                } else {
                    let kk = choose|k: int|
                        0 <= k < assoc@.len() && (#[trigger] assoc@[k]).0 == rec.1 && assoc@[k].1
                            == c;
                    let e = state.tiles@[base.tiles@.len() + q];
                    assert(e.clump == Some(assoc@[kk].1));
                }
            }
        }
        t += 1;
    }
    let ghost after_tris = *state;

    // Spawn the obstacles.
    let mut m: usize = 0;
    while m < save.immovables.len()
        invariant
            state.wf(),
            m <= save.immovables@.len(),
            after_tris.wf(),
            after_tris.next_entity_id + save.immovables@.len() <= u64::MAX,
            spec_capture_coords_ok(save.triangles@, save.immovables@, save.runes@),
            state.next_entity_id == after_tris.next_entity_id + m,
            state.tiles@.len() == after_tris.tiles@.len() + m,
            forall|b: int|
                #![trigger state.tiles@[b]]
                0 <= b < after_tris.tiles@.len() ==> state.tiles@[b] == after_tris.tiles@[b],
            forall|q: int|
                #![trigger state.tiles@[after_tris.tiles@.len() + q]]
                0 <= q < m ==> state.tiles@[after_tris.tiles@.len() + q] == (PlacedTile {
                    id: (after_tris.next_entity_id + q) as u64,
                    tile: TriangleTile { position: save.immovables@[q] },
                    clump: None,
                    immovable: true,
                }),
            state.changed_tiles@.len() == after_tris.changed_tiles@.len() + m,
            forall|b: int|
                #![trigger state.changed_tiles@[b]]
                0 <= b < after_tris.changed_tiles@.len() ==> state.changed_tiles@[b]
                    == after_tris.changed_tiles@[b],
            forall|q: int|
                #![trigger state.changed_tiles@[after_tris.changed_tiles@.len() + q]]
                0 <= q < m ==> state.changed_tiles@[after_tris.changed_tiles@.len() + q] == (
                after_tris.next_entity_id + q) as u64,
            *state == (SimState {
                tiles: state.tiles,
                changed_tiles: state.changed_tiles,
                next_entity_id: state.next_entity_id,
                ..after_tris
            }),
        decreases save.immovables@.len() - m,
    {
        spawn_immovable(state, save.immovables[m]);
        m += 1;
    }
    let ghost after_imms = *state;

    // Spawn the runes, unlit.
    let mut ri: usize = 0;
    while ri < save.runes.len()
        invariant
            state.wf(),
            ri <= save.runes@.len(),
            spec_capture_coords_ok(save.triangles@, save.immovables@, save.runes@),
            state.runes@.len() == ri,
            forall|q: int|
                #![trigger state.runes@[q]]
                0 <= q < ri ==> state.runes@[q] == (PlacedRune {
                    rune: save.runes@[q],
                    lit: false,
                }),
            state.runes_added == (after_imms.runes_added || ri > 0),
            *state == (SimState {
                runes: state.runes,
                runes_added: state.runes_added,
                ..after_imms
            }),
            after_imms.runes@.len() == 0,
        decreases save.runes@.len() - ri,
    {
        spawn_rune(state, save.runes[ri].position);
        proof {
            assert(save.runes@[ri as int] == (RuneTile { position: save.runes@[ri as int].position }));
        }
        ri += 1;
    }

    // The recorded grouping carries over to the fresh clump ids.
    proof {
        let bl = base.tiles@.len() as int;
        let tl = save.triangles@.len() as int;
        assert forall|q1: int, q2: int|
            #![trigger state.tiles@[bl + q1], state.tiles@[bl + q2]]
            0 <= q1 < tl && 0 <= q2 < tl implies ((state.tiles@[bl + q1].clump == state.tiles@[bl
            + q2].clump) <==> (save.triangles@[q1].1 == save.triangles@[q2].1)) by {
            let e1 = after_tris.tiles@[bl + q1];
            let e2 = after_tris.tiles@[bl + q2];
            assert(state.tiles@[bl + q1] == e1);
            assert(state.tiles@[bl + q2] == e2);
            let k1 = choose|k: int|
                0 <= k < assoc@.len() && (#[trigger] assoc@[k]).0 == save.triangles@[q1].1
                    && e1.clump == Some(assoc@[k].1);
            let k2 = choose|k: int|
                0 <= k < assoc@.len() && (#[trigger] assoc@[k]).0 == save.triangles@[q2].1
                    && e2.clump == Some(assoc@[k].1);
            if save.triangles@[q1].1 == save.triangles@[q2].1 {
                if k1 != k2 {
                    assert(assoc@[k1].0 != assoc@[k2].0);
                }
                assert(e1.clump == e2.clump);
            }
            if e1.clump == e2.clump {
                if k1 != k2 {
                    assert(assoc@[k1].1 != assoc@[k2].1);
                }
                assert(save.triangles@[q1].1 == save.triangles@[q2].1);
            }
        }
    }
    true
}

/// Whether both components of a face's vertex lie on the board.
fn coord_on_board(coord: TileCoord) -> (r: bool)
    ensures
        r == in_board_range(coord.vertex@),
{
    coord.vertex.x >= -crate::sim::COORD_LIMIT && coord.vertex.x <= crate::sim::COORD_LIMIT
        && coord.vertex.y >= -crate::sim::COORD_LIMIT && coord.vertex.y <= crate::sim::COORD_LIMIT
}

/// Decide what this tick's load keys mean.  With the modifier held nothing
/// loads (that is the save chord).  A number key jumps to that level; else
/// a pending reload or the reload key reloads the current one, clearing
/// the pending flag, and a manual reload dismisses the reload hint.  The
/// returned level number is the one whose capture should be fetched and
/// handed to [`spawn_level`].
pub fn load_request(
    state: &mut SimState,
    ctrl_down: bool,
    num_key: Option<usize>,
    reload_key: bool,
) -> (r: Option<usize>)
    ensures
        ctrl_down ==> r is None && *final(state) == *old(state),
        !ctrl_down ==> match num_key {
            Some(k) => r == Some(k) && *final(state) == (SimState {
                level: LevelInfo { current: k, ..old(state).level },
                ..*old(state)
            }),
            None => {
                if old(state).level.should_reload || reload_key {
                    &&& r == Some(old(state).level.current)
                    &&& *final(state) == (SimState {
                        level: LevelInfo { should_reload: false, ..old(state).level },
                        reload_hint_visible: old(state).reload_hint_visible && !reload_key,
                        ..*old(state)
                    })
                } else {
                    r is None && *final(state) == *old(state)
                }
            },
        },
{
    if ctrl_down {
        return None;
    }
    match num_key {
        Some(k) => {
            state.level.current = k;
            Some(k)
        },
        None => {
            if state.level.should_reload || reload_key {
                let curr = state.level.current;
                state.level.should_reload = false;
                if reload_key {
                    state.reload_hint_visible = false;
                }
                Some(curr)
            } else {
                None
            }
        },
    }
}

/// Decide what this tick's save keys mean: with the modifier held, a
/// number key names the slot to capture the level into.
pub fn save_request(ctrl_down: bool, num_key: Option<usize>) -> (r: Option<usize>)
    ensures
        r == (if ctrl_down {
            num_key
        } else {
            None::<usize>
        }),
{
    if ctrl_down {
        num_key
    } else {
        None
    }
}

} // verus!
