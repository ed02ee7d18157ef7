//! Point-based hit-testing of selectable tile corners.
//!
//! Every movable triangle exposes its three corners as selectable targets: a
//! world position (derived from the owning tile) plus a radius.  A pass over
//! the pointer position flips each target's `is_selected` flag exactly when
//! the hit result changes -- steady-state hits are never re-reported -- and a
//! second pass folds those transitions into the [`SelectionIndicator`].

use vstd::prelude::*;

use crate::sim::{
    contains_id, find_sel, has_sel, has_tile, in_board_range, lemma_take_step, sel_at,
    sel_ids_unique, sel_world_pos, spec_sel_world, tile_ids_unique, PlacedSelectable, PlacedTile,
    SimState,
};
use crate::tilemap::{spec_dist_sq, WorldPos};

verus! {

/// Magnitude bound on world coordinates fed to the hit test; keeps the
/// squared-distance arithmetic inside `i64`.
pub const HIT_POS_LIMIT: i64 = 800_000_000;

/// Upper bound on a selection radius; keeps its square inside `i64`.
pub const RADIUS_LIMIT: i64 = 3_000_000_000;

/// Both components of a world position lie within [`HIT_POS_LIMIT`].
pub open spec fn in_hit_range(p: (int, int)) -> bool {
    -HIT_POS_LIMIT <= p.0 <= HIT_POS_LIMIT && -HIT_POS_LIMIT <= p.1 <= HIT_POS_LIMIT
}

/// A hit-test target: a radius around a world position owned by some tile
/// corner, plus the current hit state.
#[derive(Clone, Copy, Debug, PartialEq, Eq, Structural)]
pub struct Selectable {
    /// Radius around the target's world position, in fixed-point world units.
    pub selection_radius: i64,
    /// Whether the pointer currently overlaps the target.
    pub is_selected: bool,
}

impl Selectable {
    /// A fresh, unselected target with the given radius.
    pub fn new(radius: i64) -> (r: Selectable)
        requires
            0 <= radius <= RADIUS_LIMIT,
        ensures
            r.selection_radius == radius,
            !r.is_selected,
    {
        Selectable { selection_radius: radius, is_selected: false }
    }
}

/// The aggregate of all currently hit targets: their ids, a display position
/// (that of some recently hit target), and whether anything is hit at all.
#[derive(Debug)]
pub struct SelectionIndicator {
    /// Ids of all currently selected [`Selectable`] targets, in the order
    /// they were first hit.
    pub selected_triggers: Vec<u64>,
    /// World position of a recently hit target; stale when nothing is hit.
    pub position: WorldPos,
    /// Whether the indicator should be shown: some target is hit.
    pub visible: bool,
}

impl SelectionIndicator {
    /// An empty, hidden indicator.
    pub fn new() -> (r: SelectionIndicator)
        ensures
            r.selected_triggers@ == Seq::<u64>::empty(),
            r.position@ == (0int, 0int),
            !r.visible,
    {
        SelectionIndicator {
            selected_triggers: Vec::new(),
            position: WorldPos { x: 0, y: 0 },
            visible: false,
        }
    }
}

/// Whether the pointer at `p` hits a target of radius `radius` at `w`.
pub open spec fn spec_hit(w: (int, int), p: (int, int), radius: i64) -> bool {
    spec_dist_sq(w, p) <= radius * radius
}

/// The hit state a target takes after testing against the pointer at `p`:
/// the hit result where the owning tile exists, the old state otherwise.
pub open spec fn spec_new_selected(
    tiles: Seq<PlacedTile>,
    s: PlacedSelectable,
    p: (int, int),
) -> bool {
    match spec_sel_world(tiles, s) {
        Some(w) => spec_hit(w, p, s.selectable.selection_radius),
        None => s.selectable.is_selected,
    }
}

/// Whether the pointer at `p` hits a target of radius `radius` at `w`.
pub fn hit_test(w: WorldPos, p: WorldPos, radius: i64) -> (r: bool)
    requires
        in_hit_range(w@),
        in_hit_range(p@),
        0 <= radius <= RADIUS_LIMIT,
    ensures
        r == spec_hit(w@, p@, radius),
{
    let dx = w.x - p.x;
    let dy = w.y - p.y;
    proof {
        let dxi = dx as int;
        let dyi = dy as int;
        assert(0 <= dxi * dxi <= 2_560_000_000_000_000_000 && -2_560_000_000_000_000_000 <= dxi
            * dyi <= 2_560_000_000_000_000_000 && 0 <= dyi * dyi
            <= 2_560_000_000_000_000_000) by (nonlinear_arith)
            requires
                -1_600_000_000 <= dxi <= 1_600_000_000,
                -1_600_000_000 <= dyi <= 1_600_000_000,
        ;
        assert(0 <= (radius as int) * (radius as int)
            <= 9_000_000_000_000_000_000) by (nonlinear_arith)
            requires
                0 <= radius as int <= 3_000_000_000,
        ;
    }
    dx * dx + dx * dy + dy * dy <= radius * radius
}

/// Ids of the targets whose hit state flips when tested against the
/// pointer at `p`, in store order.
pub open spec fn spec_flipped_ids(
    tiles: Seq<PlacedTile>,
    sels: Seq<PlacedSelectable>,
    p: (int, int),
) -> Seq<u64>
    decreases sels.len(),
{
    if sels.len() == 0 {
        Seq::empty()
    } else {
        let rest = spec_flipped_ids(tiles, sels.drop_last(), p);
        let s = sels.last();
        if spec_new_selected(tiles, s, p) != s.selectable.is_selected {
            rest.push(s.id)
        } else {
            rest
        }
    }
}

/// The whole target store after one pass over the pointer at `p`: every
/// hit state matches the hit test, everything else is untouched.
pub open spec fn spec_after_pass(
    tiles: Seq<PlacedTile>,
    sels: Seq<PlacedSelectable>,
    p: (int, int),
) -> Seq<PlacedSelectable> {
    Seq::new(
        sels.len(),
        |i: int|
            PlacedSelectable {
                selectable: Selectable {
                    is_selected: spec_new_selected(tiles, sels[i], p),
                    ..sels[i].selectable
                },
                ..sels[i]
            },
    )
}

/// Hit-testing is edge-triggered: when every target's hit state already
/// matches the hit test against `p` -- as it does right after one pass over
/// the same pointer -- another pass reports no transition at all.
pub proof fn lemma_hit_testing_edge_triggered(
    tiles: Seq<PlacedTile>,
    sels: Seq<PlacedSelectable>,
    p: (int, int),
)
    requires
        forall|i: int|
            0 <= i < sels.len() ==> (#[trigger] sels[i]).selectable.is_selected
                == spec_new_selected(tiles, sels[i], p),
    ensures
        spec_flipped_ids(tiles, sels, p) == Seq::<u64>::empty(),
    decreases sels.len(),
{
    if sels.len() > 0 {
        assert(sels.last() == sels[sels.len() - 1]);
        lemma_hit_testing_edge_triggered(tiles, sels.drop_last(), p);
    }
}

/// Holding the pointer still across ticks selects at most once: the store
/// one pass leaves behind is exactly one the next pass reports no
/// transition on.
pub proof fn lemma_second_pass_reports_nothing(
    tiles: Seq<PlacedTile>,
    sels: Seq<PlacedSelectable>,
    p: (int, int),
)
    ensures
        spec_flipped_ids(tiles, spec_after_pass(tiles, sels, p), p) == Seq::<u64>::empty(),
{
    let sels1 = spec_after_pass(tiles, sels, p);
    assert forall|i: int|
        0 <= i < sels1.len() implies (#[trigger] sels1[i]).selectable.is_selected
        == spec_new_selected(tiles, sels1[i], p) by {
        // neither the owner nor the radius depends on the hit state
        assert(spec_sel_world(tiles, sels1[i]) == spec_sel_world(tiles, sels[i]));
    }
    lemma_hit_testing_edge_triggered(tiles, sels1, p);
}

/// Test every selectable corner against the pointer at `pointer`.  A
/// target's hit state flips exactly when the hit result differs from the
/// stored state; each flip appends the target's id to the transition list.
/// Targets whose owning tile is gone are left untouched.
pub fn selection_system(state: &mut SimState, pointer: WorldPos)
    requires
        old(state).wf(),
        in_hit_range(pointer@),
    ensures
        final(state).wf(),
        *final(state) == (SimState {
            selectables: final(state).selectables,
            changed_selectables: final(state).changed_selectables,
            ..*old(state)
        }),
        final(state).selectables@ == spec_after_pass(
            old(state).tiles@,
            old(state).selectables@,
            pointer@,
        ),
        final(state).changed_selectables@ == old(state).changed_selectables@ + spec_flipped_ids(
            old(state).tiles@,
            old(state).selectables@,
            pointer@,
        ),
{
    let ghost st0 = *state;
    let ghost tiles0 = state.tiles@;
    let ghost sels0 = state.selectables@;
    let ghost changed0 = state.changed_selectables@;
    let mut i: usize = 0;
    while i < state.selectables.len()
        invariant
            state.wf(),
            in_hit_range(pointer@),
            i <= sels0.len(),
            state.tiles@ == tiles0,
            state.selectables@.len() == sels0.len(),
            forall|k: int|
                #![trigger state.selectables@[k]]
                i <= k < sels0.len() ==> state.selectables@[k] == sels0[k],
            forall|k: int|
                #![trigger state.selectables@[k]]
                0 <= k < i ==> state.selectables@[k] == (PlacedSelectable {
                    selectable: Selectable {
                        is_selected: spec_new_selected(tiles0, sels0[k], pointer@),
                        ..sels0[k].selectable
                    },
                    ..sels0[k]
                }),
            state.changed_selectables@ == changed0 + spec_flipped_ids(
                tiles0,
                sels0.take(i as int),
                pointer@,
            ),
            *state == (SimState {
                selectables: state.selectables,
                changed_selectables: state.changed_selectables,
                ..st0
            }),
        decreases sels0.len() - i,
    {
        let s = state.selectables[i];
        let w = sel_world_pos(&state.tiles, &s);
        let newly: bool = match w {
            Some(wp) => hit_test(wp, pointer, s.selectable.selection_radius),
            None => s.selectable.is_selected,
        };
        proof {
            assert(newly == spec_new_selected(tiles0, sels0[i as int], pointer@));
        }
        if newly != s.selectable.is_selected {
            state.selectables[i].selectable.is_selected = newly;
            state.changed_selectables.push(s.id);
        }
        proof {
            lemma_take_step(sels0, i as int);
        }
        i += 1;
    }
    proof {
        assert(sels0.take(sels0.len() as int) =~= sels0);
        assert(state.selectables@ =~= spec_after_pass(tiles0, sels0, pointer@));
    }
}

/// `s` with every occurrence of `id` removed, order kept.
pub open spec fn spec_without_id(s: Seq<u64>, id: u64) -> Seq<u64>
    decreases s.len(),
{
    if s.len() == 0 {
        s
    } else {
        let rest = spec_without_id(s.drop_last(), id);
        if s.last() == id {
            rest
        } else {
            rest.push(s.last())
        }
    }
}

/// The trigger set after folding in one batch of transition events: a
/// newly selected target's id is inserted (once), a newly deselected
/// target's id is removed, ids of vanished targets are ignored.
pub open spec fn spec_events_triggers(
    sels: Seq<PlacedSelectable>,
    trig: Seq<u64>,
    events: Seq<u64>,
) -> Seq<u64>
    decreases events.len(),
{
    if events.len() == 0 {
        trig
    } else {
        let prev = spec_events_triggers(sels, trig, events.drop_last());
        let id = events.last();
        if has_sel(sels, id) {
            if sel_at(sels, id).selectable.is_selected {
                if prev.contains(id) {
                    prev
                } else {
                    prev.push(id)
                }
            } else {
                spec_without_id(prev, id)
            }
        } else {
            prev
        }
    }
}

/// The indicator position after a batch of events: that of the last newly
/// selected target whose owning tile exists, else the previous position.
pub open spec fn spec_events_position(
    tiles: Seq<PlacedTile>,
    sels: Seq<PlacedSelectable>,
    pos0: (int, int),
    events: Seq<u64>,
) -> (int, int)
    decreases events.len(),
{
    if events.len() == 0 {
        pos0
    } else {
        let prev = spec_events_position(tiles, sels, pos0, events.drop_last());
        let id = events.last();
        if has_sel(sels, id) && sel_at(sels, id).selectable.is_selected {
            match spec_sel_world(tiles, sel_at(sels, id)) {
                Some(w) => w,
                None => prev,
            }
        } else {
            prev
        }
    }
}

/// The trigger set with the ids of vanished targets pruned, order kept.
pub open spec fn spec_prune_triggers(sels: Seq<PlacedSelectable>, trig: Seq<u64>) -> Seq<u64>
    decreases trig.len(),
{
    if trig.len() == 0 {
        trig
    } else {
        let rest = spec_prune_triggers(sels, trig.drop_last());
        if has_sel(sels, trig.last()) {
            rest.push(trig.last())
        } else {
            rest
        }
    }
}

/// The first trigger among the first `n` that names a target whose owning
/// tile exists -- the first-encountered still-hit candidate with a world
/// position.
pub open spec fn spec_first_live_trigger(
    tiles: Seq<PlacedTile>,
    sels: Seq<PlacedSelectable>,
    trig: Seq<u64>,
    n: int,
) -> Option<int>
    decreases n,
{
    if n <= 0 {
        None
    } else {
        match spec_first_live_trigger(tiles, sels, trig, n - 1) {
            Some(i) => Some(i),
            None => {
                let id = trig[n - 1];
                if has_sel(sels, id) && has_tile(tiles, sel_at(sels, id).tile_id) {
                    Some(n - 1)
                } else {
                    None
                }
            },
        }
    }
}

/// A live trigger found among the first `n` stays the first live trigger
/// of any longer prefix.
proof fn lemma_first_live_trigger_extends(
    tiles: Seq<PlacedTile>,
    sels: Seq<PlacedSelectable>,
    trig: Seq<u64>,
    n: int,
    m: int,
)
    requires
        0 <= n <= m,
        spec_first_live_trigger(tiles, sels, trig, n) is Some,
    ensures
        spec_first_live_trigger(tiles, sels, trig, m) == spec_first_live_trigger(
            tiles,
            sels,
            trig,
            n,
        ),
    decreases m,
{
    if m > n {
        lemma_first_live_trigger_extends(tiles, sels, trig, n, m - 1);
    }
}

/// The world position of the first trigger whose owning tile exists.
fn first_live_position(
    tiles: &Vec<PlacedTile>,
    sels: &Vec<PlacedSelectable>,
    trig: &Vec<u64>,
) -> (r: Option<WorldPos>)
    requires
        tile_ids_unique(tiles@),
        sel_ids_unique(sels@),
        forall|i: int|
            0 <= i < tiles@.len() ==> in_board_range((#[trigger] tiles@[i]).tile.position.vertex@),
        forall|i: int| 0 <= i < sels@.len() ==> (#[trigger] sels@[i]).corner < 3,
    ensures
        r is Some <==> spec_first_live_trigger(tiles@, sels@, trig@, trig@.len() as int) is Some,
        r matches Some(w) ==> Some(w@) == spec_sel_world(
            tiles@,
            sel_at(
                sels@,
                trig@[spec_first_live_trigger(tiles@, sels@, trig@, trig@.len() as int)->Some_0],
            ),
        ),
{
    let mut j: usize = 0;
    while j < trig.len()
        invariant
            j <= trig@.len(),
            tile_ids_unique(tiles@),
            sel_ids_unique(sels@),
            forall|i: int|
                0 <= i < tiles@.len() ==> in_board_range(
                    (#[trigger] tiles@[i]).tile.position.vertex@,
                ),
            forall|i: int| 0 <= i < sels@.len() ==> (#[trigger] sels@[i]).corner < 3,
            spec_first_live_trigger(tiles@, sels@, trig@, j as int) is None,
        decreases trig@.len() - j,
    {
        let id = trig[j];
        match find_sel(sels, id) {
            Some(si) => {
                let s = sels[si];
                match sel_world_pos(tiles, &s) {
                    Some(w) => {
                        proof {
                            assert(spec_first_live_trigger(tiles@, sels@, trig@, j + 1 as int)
                                == Some(j as int));
                            lemma_first_live_trigger_extends(
                                tiles@,
                                sels@,
                                trig@,
                                j + 1 as int,
                                trig@.len() as int,
                            );
                        }
                        return Some(w);
                    },
                    None => {},
                }
            },
            None => {},
        }
        j += 1;
    }
    None
}

/// Remove every occurrence of `id` from `v`, keeping the order.
fn remove_id(v: &mut Vec<u64>, id: u64)
    ensures
        final(v)@ == spec_without_id(old(v)@, id),
{
    let ghost v0 = v@;
    let mut out: Vec<u64> = Vec::new();
    let mut i: usize = 0;
    while i < v.len()
        invariant
            i <= v0.len(),
            v@ == v0,
            out@ == spec_without_id(v0.take(i as int), id),
        decreases v0.len() - i,
    {
        let x = v[i];
        if x != id {
            out.push(x);
        }
        proof {
            lemma_take_step(v0, i as int);
        }
        i += 1;
    }
    proof {
        assert(v0.take(v0.len() as int) =~= v0);
    }
    *v = out;
}

/// Fold the pending hit transitions into the indicator: insert newly
/// selected ids, remove newly deselected ones, prune ids whose target has
/// vanished, and show the indicator exactly when some id remains.  The
/// display position lands on the first still-hit target whose owning tile
/// exists, so it never sticks to a target that was just deselected and it
/// follows a tile that moved; with no such target the last transition's
/// position is kept, which only matters while nothing is hit.  Consumes
/// the transition list and records whether the indicator changed.
pub fn update_selector(state: &mut SimState)
    requires
        old(state).wf(),
    ensures
        final(state).wf(),
        *final(state) == (SimState {
            indicator: final(state).indicator,
            changed_selectables: final(state).changed_selectables,
            selection_changed: final(state).selection_changed,
            ..*old(state)
        }),
        final(state).changed_selectables@ == Seq::<u64>::empty(),
        ({
            let t1 = spec_events_triggers(
                old(state).selectables@,
                old(state).indicator.selected_triggers@,
                old(state).changed_selectables@,
            );
            let t2 = spec_prune_triggers(old(state).selectables@, t1);
            &&& final(state).indicator.selected_triggers@ == t2
            &&& (match spec_first_live_trigger(
                old(state).tiles@,
                old(state).selectables@,
                t2,
                t2.len() as int,
            ) {
                Some(i) => Some(final(state).indicator.position@) == spec_sel_world(
                    old(state).tiles@,
                    sel_at(old(state).selectables@, t2[i]),
                ),
                None => final(state).indicator.position@ == spec_events_position(
                    old(state).tiles@,
                    old(state).selectables@,
                    old(state).indicator.position@,
                    old(state).changed_selectables@,
                ),
            })
            &&& final(state).indicator.visible == (t2.len() > 0)
            &&& final(state).selection_changed == (old(state).selection_changed || old(
                state,
            ).changed_selectables@.len() > 0 || t2.len() < t1.len())
        }),
{
    let ghost st0 = *state;
    let ghost tiles0 = state.tiles@;
    let ghost sels0 = state.selectables@;
    let ghost events0 = state.changed_selectables@;
    let ghost trig0 = state.indicator.selected_triggers@;
    let ghost pos0 = state.indicator.position@;
    let mut k: usize = 0;
    while k < state.changed_selectables.len()
        invariant
            state.wf(),
            k <= events0.len(),
            state.tiles@ == tiles0,
            state.selectables@ == sels0,
            state.changed_selectables@ == events0,
            state.indicator.selected_triggers@ == spec_events_triggers(
                sels0,
                trig0,
                events0.take(k as int),
            ),
            state.indicator.position@ == spec_events_position(
                tiles0,
                sels0,
                pos0,
                events0.take(k as int),
            ),
            state.indicator.visible == st0.indicator.visible,
            *state == (SimState { indicator: state.indicator, ..st0 }),
        decreases events0.len() - k,
    {
        let id = state.changed_selectables[k];
        match find_sel(&state.selectables, id) {
            Some(si) => {
                let s = state.selectables[si];
                if s.selectable.is_selected {
                    if !contains_id(&state.indicator.selected_triggers, id) {
                        state.indicator.selected_triggers.push(id);
                    }
                    match sel_world_pos(&state.tiles, &s) {
                        Some(w) => {
                            state.indicator.position = w;
                        },
                        None => {},
                    }
                } else {
                    remove_id(&mut state.indicator.selected_triggers, id);
                }
            },
            None => {},
        }
        proof {
            lemma_take_step(events0, k as int);
        }
        k += 1;
    }
    proof {
        assert(events0.take(events0.len() as int) =~= events0);
    }
    let ghost t1 = state.indicator.selected_triggers@;
    let mut pruned: Vec<u64> = Vec::new();
    let mut j: usize = 0;
    while j < state.indicator.selected_triggers.len()
        invariant
            state.wf(),
            j <= t1.len(),
            state.selectables@ == sels0,
            state.indicator.selected_triggers@ == t1,
            pruned@ == spec_prune_triggers(sels0, t1.take(j as int)),
        decreases t1.len() - j,
    {
        let id = state.indicator.selected_triggers[j];
        match find_sel(&state.selectables, id) {
            Some(_) => {
                pruned.push(id);
            },
            None => {},
        }
        proof {
            lemma_take_step(t1, j as int);
        }
        j += 1;
    }
    proof {
        assert(t1.take(t1.len() as int) =~= t1);
    }
    let t1_len = state.indicator.selected_triggers.len();
    let pruned_len = pruned.len();
    let had_events = state.changed_selectables.len() > 0;
    state.indicator.selected_triggers = pruned;
    // re-anchor the display position on a surviving target, if any has a
    // world position
    match first_live_position(
        &state.tiles,
        &state.selectables,
        &state.indicator.selected_triggers,
    ) {
        Some(w) => {
            state.indicator.position = w;
        },
        None => {},
    }
    state.indicator.visible = pruned_len > 0;
    state.selection_changed = state.selection_changed || had_events || pruned_len < t1_len;
    state.changed_selectables = Vec::new();
}

} // verus!
