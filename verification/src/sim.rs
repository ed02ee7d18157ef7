//! The explicit simulation state that the per-tick passes operate on.
//!
//! Tiles, their selectable corners and the rune goals live in plain vectors;
//! entities are named by numeric ids drawn from a single counter.  Clump
//! membership is an explicit optional clump id on each tile: tiles sharing a
//! clump id move as one rigid body, tiles without one never move (immovable
//! obstacles and the level border).  Change propagation between passes is
//! explicit: mutating passes append to change lists or raise dirty flags,
//! and the passes that react to them consume them.

use vstd::prelude::*;

use crate::level::LevelInfo;
use crate::level_editor::BuilderState;
use crate::rotation::SelectedTrianglesState;
use crate::selection::{RADIUS_LIMIT, Selectable, SelectionIndicator};
use crate::tilemap::{
    spec_corner_vertex, spec_vertex_to_world, RuneTile, TriangleTile, VertexCoord, WorldPos,
    WORLD_SCALE,
};

verus! {

/// Magnitude bound on the vertex components of a placed tile.  Keeps every
/// corner's world position within the hit-test range and every rotation
/// result representable.
pub const COORD_LIMIT: i64 = 600_000;

/// Both components of a lattice vertex lie within [`COORD_LIMIT`].
pub open spec fn in_board_range(v: (int, int)) -> bool {
    -COORD_LIMIT <= v.0 <= COORD_LIMIT && -COORD_LIMIT <= v.1 <= COORD_LIMIT
}

/// Both components of a lattice vertex lie within [`COORD_LIMIT`] `+ 1`, the
/// range of a corner of a placed tile (and hence of a rotation anchor).
pub open spec fn in_anchor_range(v: (int, int)) -> bool {
    -COORD_LIMIT - 1 <= v.0 <= COORD_LIMIT + 1 && -COORD_LIMIT - 1 <= v.1 <= COORD_LIMIT + 1
}

/// A triangle tile placed on the board.
#[derive(Clone, Copy, Debug)]
pub struct PlacedTile {
    /// Entity id, unique among all entities of one state.
    pub id: u64,
    /// The face this tile occupies.
    pub tile: TriangleTile,
    /// The clump this tile moves with; `None` for tiles that never move.
    pub clump: Option<u64>,
    /// Whether this tile is a fixed obstacle (saved with the level, unlike
    /// the border tiles, which also have no clump but are not marked).
    pub immovable: bool,
}

/// A selectable corner of a placed tile.  Its world position is derived
/// from the owning tile, so it follows the tile when the tile moves.
#[derive(Clone, Copy, Debug)]
pub struct PlacedSelectable {
    /// Entity id, unique among all entities of one state.
    pub id: u64,
    /// Id of the owning tile.
    pub tile_id: u64,
    /// Which corner of the owning tile's face this is (0, 1 or 2).
    pub corner: u8,
    /// The hit-test target itself.
    pub selectable: Selectable,
}

/// A rune goal placed on the board, lit while a triangle covers its face.
#[derive(Clone, Copy, Debug)]
pub struct PlacedRune {
    /// The rune and the face it occupies.
    pub rune: RuneTile,
    /// Whether a triangle currently covers the rune's face.
    pub lit: bool,
}

/// No two tiles share an id.
pub open spec fn tile_ids_unique(tiles: Seq<PlacedTile>) -> bool {
    forall|i: int, j: int|
        #![trigger tiles[i].id, tiles[j].id]
        0 <= i < j < tiles.len() ==> tiles[i].id != tiles[j].id
}

/// Some tile has the id.
pub open spec fn has_tile(tiles: Seq<PlacedTile>, id: u64) -> bool {
    exists|i: int| 0 <= i < tiles.len() && #[trigger] tiles[i].id == id
}

/// The index of the tile with the id (meaningful when ids are unique and
/// the tile exists).
pub open spec fn tile_index(tiles: Seq<PlacedTile>, id: u64) -> int {
    choose|i: int| 0 <= i < tiles.len() && #[trigger] tiles[i].id == id
}

/// The tile with the id (meaningful when ids are unique and it exists).
pub open spec fn tile_at(tiles: Seq<PlacedTile>, id: u64) -> PlacedTile {
    tiles[tile_index(tiles, id)]
}

/// No two selectables share an id.
pub open spec fn sel_ids_unique(sels: Seq<PlacedSelectable>) -> bool {
    forall|i: int, j: int|
        #![trigger sels[i].id, sels[j].id]
        0 <= i < j < sels.len() ==> sels[i].id != sels[j].id
}

/// Some selectable has the id.
pub open spec fn has_sel(sels: Seq<PlacedSelectable>, id: u64) -> bool {
    exists|i: int| 0 <= i < sels.len() && #[trigger] sels[i].id == id
}

/// The index of the selectable with the id (meaningful when ids are unique
/// and it exists).
pub open spec fn sel_index(sels: Seq<PlacedSelectable>, id: u64) -> int {
    choose|i: int| 0 <= i < sels.len() && #[trigger] sels[i].id == id
}

/// The selectable with the id (meaningful when ids are unique and it
/// exists).
pub open spec fn sel_at(sels: Seq<PlacedSelectable>, id: u64) -> PlacedSelectable {
    sels[sel_index(sels, id)]
}

/// The world position of a selectable: the corner of its owning tile, or
/// `None` when the owning tile is gone.
pub open spec fn spec_sel_world(tiles: Seq<PlacedTile>, s: PlacedSelectable) -> Option<(int, int)> {
    if has_tile(tiles, s.tile_id) {
        Some(
            spec_vertex_to_world(
                spec_corner_vertex(tile_at(tiles, s.tile_id).tile.position@, s.corner as int),
            ),
        )
    } else {
        None
    }
}

/// The whole simulation state: the board, the selection pipeline's
/// aggregates, per-level bookkeeping, and the explicit change tracking that
/// replaces an engine's change detection.
pub struct SimState {
    /// All placed triangle tiles, movable or not.
    pub tiles: Vec<PlacedTile>,
    /// The selectable corners of all movable tiles.
    pub selectables: Vec<PlacedSelectable>,
    /// All placed rune goals.
    pub runes: Vec<PlacedRune>,
    /// Aggregate of the currently hit corners.
    pub indicator: SelectionIndicator,
    /// The derived rotation selection: anchor vertex plus the tile ids of
    /// every clump touching it.
    pub selected: SelectedTrianglesState,
    /// Current level number and win bookkeeping.
    pub level: LevelInfo,
    /// What a builder click places.
    pub builder: BuilderState,
    /// Source of fresh entity ids; never reused.
    pub next_entity_id: u64,
    /// Source of fresh clump ids; never reused, not even after a merge.
    pub next_clump_id: u64,
    /// Ids of tiles spawned or moved since the embedding last cleared this;
    /// read by the selection-derivation, merge and rune passes.
    pub changed_tiles: Vec<u64>,
    /// Ids of selectables whose hit state flipped (or that were spawned)
    /// since the indicator pass last consumed this.
    pub changed_selectables: Vec<u64>,
    /// Whether the indicator changed since the selection-derivation pass
    /// last consumed this.
    pub selection_changed: bool,
    /// Whether a rune was added since the rune pass last consumed this.
    pub runes_added: bool,
    /// Whether the one-shot rotation hint is still shown; dismissed by the
    /// first committed rotation.
    pub rotation_hint_visible: bool,
    /// Whether the reload hint is shown; raised by the first merge,
    /// dismissed by a manual reload.
    pub reload_hint_visible: bool,
}

impl SimState {
    /// Well-formedness of the tile store: unique ids below the id counter,
    /// coordinates on the board, and clump ids below the clump counter on
    /// movable tiles only.
    pub open spec fn tiles_wf(self) -> bool {
        &&& tile_ids_unique(self.tiles@)
        &&& forall|i: int|
            0 <= i < self.tiles@.len() ==> (#[trigger] self.tiles@[i]).id < self.next_entity_id
        &&& forall|i: int|
            0 <= i < self.tiles@.len() ==> in_board_range(
                (#[trigger] self.tiles@[i]).tile.position.vertex@,
            )
        &&& forall|i: int|
            0 <= i < self.tiles@.len() ==> ((#[trigger] self.tiles@[i]).clump matches Some(c)
                ==> c < self.next_clump_id && !self.tiles@[i].immovable)
    }

    /// Well-formedness of the selectable store: unique ids below the id
    /// counter, corners in range, radii bounded.
    pub open spec fn sels_wf(self) -> bool {
        &&& sel_ids_unique(self.selectables@)
        &&& forall|i: int|
            0 <= i < self.selectables@.len() ==> (#[trigger] self.selectables@[i]).id
                < self.next_entity_id
        &&& forall|i: int|
            0 <= i < self.selectables@.len() ==> (#[trigger] self.selectables@[i]).corner < 3
        &&& forall|i: int|
            0 <= i < self.selectables@.len() ==> 0 <= (
            #[trigger] self.selectables@[i]).selectable.selection_radius <= RADIUS_LIMIT
    }

    /// Well-formedness of the rune store: faces on the board.
    pub open spec fn runes_wf(self) -> bool {
        forall|i: int|
            0 <= i < self.runes@.len() ==> in_board_range(
                (#[trigger] self.runes@[i]).rune.position.vertex@,
            )
    }

    /// Well-formedness of the whole state.
    pub open spec fn wf(self) -> bool {
        &&& self.tiles_wf()
        &&& self.sels_wf()
        &&& self.runes_wf()
        &&& in_anchor_range(self.selected.anchor@)
        &&& self.level.wf()
    }

    /// An empty board with default bookkeeping: level 1 pending, builder
    /// placing triangles, both tutorial hints shown.
    pub fn new() -> (r: SimState)
        ensures
            r.wf(),
            r.tiles@ == Seq::<PlacedTile>::empty(),
            r.selectables@ == Seq::<PlacedSelectable>::empty(),
            r.runes@ == Seq::<PlacedRune>::empty(),
            r.indicator.selected_triggers@ == Seq::<u64>::empty(),
            !r.indicator.visible,
            r.selected.selected_set@ == Seq::<u64>::empty(),
            r.selected.anchor@ == (0int, 0int),
            r.level == LevelInfo::spec_default(),
            r.builder == BuilderState::Triangles,
            r.next_entity_id == 0,
            r.next_clump_id == 0,
            r.changed_tiles@ == Seq::<u64>::empty(),
            r.changed_selectables@ == Seq::<u64>::empty(),
            !r.selection_changed,
            !r.runes_added,
            r.rotation_hint_visible,
            r.reload_hint_visible,
    {
        SimState {
            tiles: Vec::new(),
            selectables: Vec::new(),
            runes: Vec::new(),
            indicator: SelectionIndicator::new(),
            selected: SelectedTrianglesState::new(),
            level: LevelInfo::default(),
            builder: BuilderState::Triangles,
            next_entity_id: 0,
            next_clump_id: 0,
            changed_tiles: Vec::new(),
            changed_selectables: Vec::new(),
            selection_changed: false,
            runes_added: false,
            rotation_hint_visible: true,
            reload_hint_visible: true,
        }
    }

    /// Forget which tiles changed this tick.  The embedding calls this at
    /// the end of a tick, after every pass that reacts to moved or spawned
    /// tiles has run.
    pub fn clear_tick_changes(&mut self)
        ensures
            *final(self) == (SimState { changed_tiles: final(self).changed_tiles, ..*old(self) }),
            final(self).changed_tiles@ == Seq::<u64>::empty(),
    {
        self.changed_tiles = Vec::new();
    }
}

/// A tile pushed with an id no existing tile carries is found at the end
/// of the store.
pub proof fn lemma_fresh_tile_index(tiles: Seq<PlacedTile>, t: PlacedTile)
    requires
        forall|i: int| 0 <= i < tiles.len() ==> (#[trigger] tiles[i]).id != t.id,
    ensures
        has_tile(tiles.push(t), t.id),
        tile_index(tiles.push(t), t.id) == tiles.len(),
        tile_at(tiles.push(t), t.id) == t,
{
    let whole = tiles.push(t);
    assert(whole[tiles.len() as int].id == t.id);
    assert(has_tile(whole, t.id));
    let j = tile_index(whole, t.id);
    assert(0 <= j < whole.len() && whole[j].id == t.id);
    if j < tiles.len() {
        assert(whole[j] == tiles[j]);
    }
}

/// Stepping a prefix: taking one more element appends exactly `s[k]`.
pub proof fn lemma_take_step<T>(s: Seq<T>, k: int)
    requires
        0 <= k < s.len(),
    ensures
        s.take(k + 1).drop_last() =~= s.take(k),
        s.take(k + 1).last() == s[k],
{
}

/// Whether `v` contains `x`.
pub fn contains_id(v: &Vec<u64>, x: u64) -> (r: bool)
    ensures
        r == v@.contains(x),
{
    let mut i: usize = 0;
    while i < v.len()
        invariant
            0 <= i <= v@.len(),
            forall|k: int| 0 <= k < i ==> v@[k] != x,
        decreases v@.len() - i,
    {
        if v[i] == x {
            return true;
        }
        i += 1;
    }
    false
}

/// The index of the tile with the given id, if it is placed.
pub fn find_tile(tiles: &Vec<PlacedTile>, id: u64) -> (r: Option<usize>)
    requires
        tile_ids_unique(tiles@),
    ensures
        r matches Some(i) ==> i < tiles@.len() && tiles@[i as int].id == id && tiles@[i as int]
            == tile_at(tiles@, id) && i == tile_index(tiles@, id),
        r is Some <==> has_tile(tiles@, id),
{
    let mut i: usize = 0;
    while i < tiles.len()
        invariant
            0 <= i <= tiles@.len(),
            forall|k: int| 0 <= k < i ==> (#[trigger] tiles@[k]).id != id,
            tile_ids_unique(tiles@),
        decreases tiles@.len() - i,
    {
        if tiles[i].id == id {
            proof {
                let j = tile_index(tiles@, id);
                assert(tiles@[i as int].id == id);
                assert(0 <= j < tiles@.len() && tiles@[j].id == id);
            }
            return Some(i);
        }
        i += 1;
    }
    None
}

/// The index of the selectable with the given id, if it is placed.
pub fn find_sel(sels: &Vec<PlacedSelectable>, id: u64) -> (r: Option<usize>)
    requires
        sel_ids_unique(sels@),
    ensures
        r matches Some(i) ==> i < sels@.len() && sels@[i as int].id == id && sels@[i as int]
            == sel_at(sels@, id) && i == sel_index(sels@, id),
        r is Some <==> has_sel(sels@, id),
{
    let mut i: usize = 0;
    while i < sels.len()
        invariant
            0 <= i <= sels@.len(),
            forall|k: int| 0 <= k < i ==> (#[trigger] sels@[k]).id != id,
            sel_ids_unique(sels@),
        decreases sels@.len() - i,
    {
        if sels[i].id == id {
            proof {
                let j = sel_index(sels@, id);
                assert(sels@[i as int].id == id);
                assert(0 <= j < sels@.len() && sels@[j].id == id);
            }
            return Some(i);
        }
        i += 1;
    }
    None
}

/// The world position of a selectable's corner, or `None` when its owning
/// tile is gone.
pub fn sel_world_pos(tiles: &Vec<PlacedTile>, s: &PlacedSelectable) -> (r: Option<WorldPos>)
    requires
        tile_ids_unique(tiles@),
        forall|i: int|
            0 <= i < tiles@.len() ==> in_board_range((#[trigger] tiles@[i]).tile.position.vertex@),
        s.corner < 3,
    ensures
        match r {
            Some(w) => spec_sel_world(tiles@, *s) == Some(w@),
            None => spec_sel_world(tiles@, *s) is None,
        },
{
    match find_tile(tiles, s.tile_id) {
        Some(i) => {
            let t = &tiles[i];
            let corner = t.tile.position.corner_vertex(s.corner);
            Some(WorldPos { x: corner.x * WORLD_SCALE, y: corner.y * WORLD_SCALE })
        },
        None => None,
    }
}

} // verus!
