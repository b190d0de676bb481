//! The integer quantities that the evaluation of a state combines.
use vstd::prelude::*;

use crate::state::{
    alive, count_alive, loc_of, in_board, GameState, GameView, PlayerId, BOARD_CELLS, BOARD_H, PLAYER_COUNT,
};
use crate::utils::{manhattan, manhattan_distance, Location};

verus! {

/// Hostile tiles nearer than this to the local general weigh on the score.
pub const THREAT_RADIUS: u64 = 10;

/// Cells in sight at least this far from the local general count double.
pub const FAR_SIGHT: u64 = 15;

#[derive(Clone, Copy, PartialEq, Eq, Debug, Structural)]
pub enum Outcome {
    Won,
    Lost,
    Undecided,
}

/// What the score of a state is computed from, for one player's
/// perspective.
#[derive(Clone, Copy, PartialEq, Eq, Debug, Structural)]
pub struct ScoreParts {
    pub outcome: Outcome,
    /// The perspective is the local player's: only then do the finer
    /// signals count.
    pub local_view: bool,
    pub own_army: u64,
    pub total_army: u64,
    pub own_land: u64,
    pub total_land: u64,
    /// Players that have seen the perspective player's general.
    pub revealed_to: u64,
    /// One plus, over hostile occupiable tiles within `THREAT_RADIUS` of the
    /// local general, (radius - distance) x (population + 1).
    pub hostile_mass: u64,
    /// Cells in sight nearer than `FAR_SIGHT` to the local general.
    pub sighted_near: u64,
    /// Cells in sight at least `FAR_SIGHT` from the local general.
    pub sighted_far: u64,
}

pub open spec fn hostile_weight(v: GameView, perspective: PlayerId, i: int) -> int {
    let t = v.tiles[i];
    let d = manhattan(loc_of(i), v.own_general());
    if t.owner != Some(perspective) && t.owner is Some && d < THREAT_RADIUS
        && t.tile_type.spec_occupiable() {
        (THREAT_RADIUS - d) * (t.population + 1)
    } else {
        0
    }
}

pub open spec fn hostile_upto(v: GameView, perspective: PlayerId, n: int) -> int
    decreases n,
{
    if n <= 0 {
        0
    } else {
        hostile_upto(v, perspective, n - 1) + hostile_weight(v, perspective, n - 1)
    }
}

pub open spec fn sighted_upto(v: GameView, n: int, far: bool) -> int
    decreases n,
{
    if n <= 0 {
        0
    } else {
        sighted_upto(v, n - 1, far) + if v.fog_mask[n - 1] > 0 && (manhattan(
            loc_of(n - 1),
            v.own_general(),
        ) >= FAR_SIGHT) == far {
            1int
        } else {
            0
        }
    }
}

pub open spec fn parts_of(v: GameView, perspective: PlayerId, outcome: Outcome) -> ScoreParts {
    ScoreParts {
        outcome,
        local_view: perspective == v.player_id,
        own_army: v.armies[perspective as int] as u64,
        total_army: (v.armies[0] + v.armies[1]) as u64,
        own_land: v.lands[perspective as int] as u64,
        total_land: (v.lands[0] + v.lands[1]) as u64,
        revealed_to: ((if v.general_revealed_to[0] { 1int } else { 0 }) + (if v.general_revealed_to[1] { 1int } else { 0 })) as u64,
        hostile_mass: (1 + hostile_upto(v, perspective, BOARD_CELLS as int)) as u64,
        sighted_near: sighted_upto(v, BOARD_CELLS as int, false) as u64,
        sighted_far: sighted_upto(v, BOARD_CELLS as int, true) as u64,
    }
}

proof fn lemma_hostile_bound(v: GameView, perspective: PlayerId, n: int)
    requires
        v.wf(),
        0 <= n <= BOARD_CELLS,
    ensures
        0 <= hostile_upto(v, perspective, n) <= n * 655370,
    decreases n,
{
    if n > 0 {
        lemma_hostile_bound(v, perspective, n - 1);
        let t = v.tiles[n - 1];
        let d = manhattan(loc_of(n - 1), v.own_general());
        if hostile_weight(v, perspective, n - 1) != 0 {
            assert((THREAT_RADIUS - d) * (t.population + 1) <= 10 * 65536) by (nonlinear_arith)
                requires
                    0 <= d < THREAT_RADIUS,
                    THREAT_RADIUS == 10,
                    0 <= t.population <= 65535,
            ;
            assert(0 <= (THREAT_RADIUS - d) * (t.population + 1)) by (nonlinear_arith)
                requires
                    0 <= d < THREAT_RADIUS,
                    THREAT_RADIUS == 10,
                    0 <= t.population,
            ;
        }
    }
}

impl GameState {
    /// The quantities the evaluation of this state combines, from the
    /// perspective of player `perspective`.
    pub fn score_parts(&self, perspective: PlayerId) -> (r: ScoreParts)
        requires
            self.wf(),
            perspective < PLAYER_COUNT,
        ensures
            r == parts_of(self@, perspective, r.outcome),
            r.outcome == (if count_alive(self@.generals) != 1 {
                Outcome::Undecided
            } else if alive(self@.generals[perspective as int]) {
                Outcome::Won
            } else {
                Outcome::Lost
            }),
    {
        let winner = self.get_winner();
        proof {
            crate::state::lemma_count_alive_pair(self@.generals);
        }
        let outcome = match winner {
            Some(w) => if w == perspective {
                Outcome::Won
            } else {
                Outcome::Lost
            },
            None => Outcome::Undecided,
        };
        let g = self.get_own_general();
        let mut hostile: u64 = 1;
        let mut near: u64 = 0;
        let mut far: u64 = 0;
        let mut i: usize = 0;
        while i < BOARD_CELLS
            invariant
                self.wf(),
                in_board(g),
                g == self@.own_general(),
                i <= BOARD_CELLS,
                hostile == 1 + hostile_upto(self@, perspective, i as int),
                near == sighted_upto(self@, i as int, false),
                far == sighted_upto(self@, i as int, true),
                hostile_upto(self@, perspective, i as int) <= i * 655370,
                near <= i,
                far <= i,
            decreases BOARD_CELLS - i,
        {
            let here: Location = (i / BOARD_H, i % BOARD_H);
            assert(here == loc_of(i as int));
            assert(in_board(here));
            let t = self.tiles[i];
            let d = manhattan_distance(here, g);
            proof {
                lemma_hostile_bound(self@, perspective, i + 1);
            }
            let held_by_other = match t.owner {
                Some(o) => o != perspective,
                None => false,
            };
            if held_by_other && d < THREAT_RADIUS && t.tile_type.occupiable() {
                hostile = hostile + (THREAT_RADIUS - d) * (t.population as u64 + 1);
            }
            if self.fog_mask[i] > 0 {
                if d >= FAR_SIGHT {
                    far = far + 1;
                } else {
                    near = near + 1;
                }
            }
            i = i + 1;
        }
        let own_army = self.armies[perspective as usize] as u64;
        let total_army = self.armies[0] as u64 + self.armies[1] as u64;
        let own_land = self.lands[perspective as usize] as u64;
        let total_land = self.lands[0] as u64 + self.lands[1] as u64;
        let revealed_to: u64 = (if self.general_revealed_to[0] { 1 } else { 0 }) + (if self.general_revealed_to[1] { 1 } else { 0 });
        ScoreParts {
            outcome,
            local_view: perspective == self.player_id,
            own_army,
            total_army,
            own_land,
            total_land,
            revealed_to,
            hostile_mass: hostile,
            sighted_near: near,
            sighted_far: far,
        }
    }
}

} // verus!
