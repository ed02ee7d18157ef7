//! Per-level bookkeeping and the rune pass that detects a solved level.

use vstd::prelude::*;

use crate::sim::{PlacedRune, PlacedTile, SimState};

verus! {

/// Milliseconds of win animation after which the next level is loaded.
pub const WIN_ANIM_DONE_MS: u64 = 600;

/// Current level number and win bookkeeping.
#[derive(Clone, Copy, Debug)]
pub struct LevelInfo {
    /// The level currently played; the game starts at level 1.
    pub current: usize,
    /// Milliseconds of win animation elapsed, while one is running.
    pub win_animation_progress: Option<u64>,
    /// Whether the next tick should reload the current level.
    pub should_reload: bool,
}

impl LevelInfo {
    /// The state of a fresh game: level 1, no win animation, no reload.
    pub open spec fn spec_default() -> LevelInfo {
        LevelInfo { current: 1, win_animation_progress: None, should_reload: false }
    }

    /// The win-animation progress, when one is running, stays within one
    /// tick's reach of [`WIN_ANIM_DONE_MS`].
    pub open spec fn wf(self) -> bool {
        self.win_animation_progress matches Some(p) ==> p < WIN_ANIM_DONE_MS + 0x1_0000_0000
    }
}

impl Default for LevelInfo {
    /// The state of a fresh game.
    fn default() -> (r: LevelInfo)
        ensures
            r == LevelInfo::spec_default(),
    {
        LevelInfo { current: 1, win_animation_progress: None, should_reload: false }
    }
}

/// Whether some placed triangle covers the face `pos`.
pub open spec fn spec_face_covered(tiles: Seq<PlacedTile>, pos: crate::tilemap::TileCoord) -> bool {
    exists|i: int| 0 <= i < tiles.len() && (#[trigger] tiles[i]).tile.position == pos
}

/// The rune with its lit state recomputed against the placed triangles.
pub open spec fn spec_relit(tiles: Seq<PlacedTile>, r: PlacedRune) -> PlacedRune {
    PlacedRune { lit: spec_face_covered(tiles, r.rune.position), ..r }
}

/// Whether the board is solved: there is at least one rune and every rune's
/// face is covered by a triangle.
pub open spec fn spec_all_runes_covered(tiles: Seq<PlacedTile>, runes: Seq<PlacedRune>) -> bool {
    runes.len() > 0 && forall|i: int|
        0 <= i < runes.len() ==> spec_face_covered(tiles, (#[trigger] runes[i]).rune.position)
}

/// Whether some placed triangle covers the face `pos`.
fn face_covered(tiles: &Vec<PlacedTile>, pos: crate::tilemap::TileCoord) -> (r: bool)
    ensures
        r == spec_face_covered(tiles@, pos),
{
    let mut i: usize = 0;
    while i < tiles.len()
        invariant
            i <= tiles@.len(),
            forall|k: int| 0 <= k < i ==> (#[trigger] tiles@[k]).tile.position != pos,
        decreases tiles@.len() - i,
    {
        if tiles[i].tile.position == pos {
            return true;
        }
        i += 1;
    }
    false
}

/// Drive the win detection.  While a win animation runs, advance it by
/// `delta_ms`; once it has run [`WIN_ANIM_DONE_MS`] long, move on to the
/// next level and ask for a reload.  Otherwise, when tiles moved or a rune
/// was added, recompute which runes are covered, and if all of at least one
/// rune are, start the win animation.
pub fn rune_system(state: &mut SimState, delta_ms: u32)
    requires
        old(state).wf(),
        old(state).level.current < usize::MAX,
    ensures
        final(state).wf(),
        ({
            let lvl = old(state).level;
            match lvl.win_animation_progress {
                Some(p) => {
                    if p >= WIN_ANIM_DONE_MS {
                        *final(state) == (SimState {
                            level: LevelInfo {
                                current: (lvl.current + 1) as usize,
                                win_animation_progress: None,
                                should_reload: true,
                            },
                            ..*old(state)
                        })
                    } else {
                        *final(state) == (SimState {
                            level: LevelInfo {
                                win_animation_progress: Some((p + delta_ms) as u64),
                                ..lvl
                            },
                            ..*old(state)
                        })
                    }
                },
                None => {
                    if old(state).changed_tiles@.len() == 0 && !old(state).runes_added {
                        *final(state) == *old(state)
                    } else {
                        &&& *final(state) == (SimState {
                            runes: final(state).runes,
                            runes_added: false,
                            level: final(state).level,
                            ..*old(state)
                        })
                        &&& final(state).runes@.len() == old(state).runes@.len()
                        &&& (forall|i: int|
                            0 <= i < old(state).runes@.len() ==> #[trigger] final(state).runes@[i]
                                == spec_relit(old(state).tiles@, old(state).runes@[i]))
                        &&& final(state).level == (if spec_all_runes_covered(
                            old(state).tiles@,
                            old(state).runes@,
                        ) {
                            LevelInfo { win_animation_progress: Some(0), ..lvl }
                        } else {
                            lvl
                        })
                    }
                },
            }
        }),
{
    match state.level.win_animation_progress {
        Some(p) => {
            if p >= WIN_ANIM_DONE_MS {
                state.level.current = state.level.current + 1;
                state.level.should_reload = true;
                state.level.win_animation_progress = None;
            } else {
                state.level.win_animation_progress = Some(p + delta_ms as u64);
            }
            return ;
        },
        None => {},
    }
    if state.changed_tiles.len() == 0 && !state.runes_added {
        return ;
    }
    let ghost st0 = *state;
    let ghost tiles0 = state.tiles@;
    let ghost runes0 = state.runes@;
    let mut all_covered: bool = true;
    let mut i: usize = 0;
    while i < state.runes.len()
        invariant
            state.wf(),
            i <= runes0.len(),
            st0 == *old(state),
            tiles0 == old(state).tiles@,
            runes0 == old(state).runes@,
            state.tiles@ == tiles0,
            state.runes@.len() == runes0.len(),
            forall|k: int|
                #![trigger state.runes@[k]]
                0 <= k < i ==> state.runes@[k] == spec_relit(tiles0, runes0[k]),
            forall|k: int| #![trigger state.runes@[k]] i <= k < runes0.len() ==> state.runes@[k] == runes0[k],
            all_covered == forall|k: int|
                0 <= k < i ==> spec_face_covered(tiles0, (#[trigger] runes0[k]).rune.position),
            *state == (SimState { runes: state.runes, ..st0 }),
        decreases runes0.len() - i,
    {
        let covered = face_covered(&state.tiles, state.runes[i].rune.position);
        state.runes[i].lit = covered;
        if !covered {
            all_covered = false;
        }
        i += 1;
    }
    state.runes_added = false;
    let total = state.runes.len();
    if total > 0 && all_covered {
        state.level.win_animation_progress = Some(0);
    }
}

} // verus!
