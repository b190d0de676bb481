//! A coarse model of what an unseen opponent may do next.
use vstd::prelude::*;

use crate::state::{
    cell, in_board, loc_of, lemma_neighbors_in_board, result_view, GameState, GameView, MoveCommand, PlayerId, StateError, Tile,
    BOARD_CELLS, BOARD_H, BOARD_W, PLAYER_COUNT,
};
use crate::utils::{get_neighbors, manhattan, manhattan_distance, neighbor_seq, Location};

verus! {

/// Opponents are assumed unable to invade before this turn.
pub const INVASION_TURN: u64 = 50;

/// Smallest assumed hidden army worth an invasion.
pub const PHANTOM_THRESHOLD: u16 = 10;

#[derive(Clone, Copy, PartialEq, Eq, Debug, Hash)]
pub enum EnemyMove {
    Noop,
    /// Passive growth: one more tile of land, with no move on the board.
    ExpandLand,
    Invasion { from: Location, to: Location },
}

impl EnemyMove {
    pub open spec fn result(self, v: GameView, p: PlayerId) -> Result<GameView, StateError> {
        match self {
            EnemyMove::Noop => Ok(v),
            EnemyMove::ExpandLand => v.land_added(p),
            EnemyMove::Invasion { from, to } => v.command_result(
                MoveCommand { from, to, half: false },
                p,
                true,
            ),
        }
    }

    pub open spec fn on_board(self) -> bool {
        self matches EnemyMove::Invasion { from, to } ==> in_board(from) && in_board(to)
    }

    /// The state after opponent `player_id` makes this move.
    pub fn apply_on_state(&self, state: &GameState, player_id: PlayerId) -> (r: Result<GameState, StateError>)
        requires
            state.wf(),
            player_id < PLAYER_COUNT,
            self.on_board(),
        ensures
            result_view(r) == self.result(state@, player_id),
            r matches Ok(s) ==> s.wf(),
    {
        match self {
            EnemyMove::Noop => Ok(state.clone_state()),
            EnemyMove::ExpandLand => state.add_land(player_id),
            EnemyMove::Invasion { from, to } => state.process_command(
                &MoveCommand { from: *from, to: *to, half: false },
                player_id,
                true,
            ),
        }
    }
}

pub open spec fn is_known_attacker(t: Tile) -> bool {
    t.tile_type.spec_is_enemy() && t.population >= 3
}

/// A fogged, occupiable cell held by no side that the local player sees:
/// where an unseen attacker may stand.
pub open spec fn is_staging_spot(v: GameView, i: int) -> bool {
    let t = v.tiles[i];
    !t.tile_type.spec_is_enemy() && !t.tile_type.spec_is_owned() && t.tile_type.spec_occupiable()
        && v.fog_mask[i] == 0
}

/// Among the first `n` cells, the known attacker with most units; of
/// equals, the last.
pub open spec fn strongest_upto(v: GameView, n: int) -> Option<int>
    decreases n,
{
    if n <= 0 {
        None
    } else {
        let prev = strongest_upto(v, n - 1);
        if is_known_attacker(v.tiles[n - 1]) && (prev is None || v.tiles[prev->0].population
            <= v.tiles[n - 1].population) {
            Some(n - 1)
        } else {
            prev
        }
    }
}

/// The staging spots among the first `n` cells, in board order.
pub open spec fn staging_upto(v: GameView, n: int) -> Seq<int>
    decreases n,
{
    if n <= 0 {
        seq![]
    } else if is_staging_spot(v, n - 1) {
        staging_upto(v, n - 1).push(n - 1)
    } else {
        staging_upto(v, n - 1)
    }
}

/// The army an opponent may hide: 0.8 x its army surplus over land,
/// rounded, when the surplus exceeds one and the result exceeds
/// `PHANTOM_THRESHOLD`.
pub open spec fn phantom_force(v: GameView, p: PlayerId) -> Option<int> {
    let a = v.armies[p as int];
    let l = v.lands[p as int];
    if a > l + 1 {
        let f = ((a - l) * 4 + 2) / 5;
        if f > PHANTOM_THRESHOLD {
            Some(f)
        } else {
            None
        }
    } else {
        None
    }
}

/// Where the single invasion force stands: a hidden army on the
/// `pick`-th staging spot (modulo their number) when the strongest known
/// attacker has under half of it, else that attacker.
pub open spec fn invasion_source(v: GameView, p: PlayerId, pick: usize) -> Option<Location> {
    let best = strongest_upto(v, BOARD_CELLS as int);
    let spots = staging_upto(v, BOARD_CELLS as int);
    if phantom_force(v, p) is Some && (best is None || v.tiles[best->0].population < phantom_force(
        v,
        p,
    )->0 / 2) && spots.len() > 0 {
        Some(loc_of(spots[(pick as int) % (spots.len() as int)]))
    } else {
        match best {
            Some(i) => Some(loc_of(i)),
            None => None,
        }
    }
}

/// The occupiable cells of `ns`, in order.
pub open spec fn open_cells(v: GameView, ns: Seq<Location>) -> Seq<Location>
    decreases ns.len(),
{
    if ns.len() == 0 {
        seq![]
    } else if v.tile(ns.last()).tile_type.spec_occupiable() {
        open_cells(v, ns.drop_last()).push(ns.last())
    } else {
        open_cells(v, ns.drop_last())
    }
}

/// Index among the first `n` cells of `occ` of the first one farthest from
/// `g`, with that distance; (0, 0) for none.
pub open spec fn farthest_upto(occ: Seq<Location>, g: Location, n: int) -> (int, int)
    decreases n,
{
    if n <= 0 {
        (0, 0)
    } else {
        let prev = farthest_upto(occ, g, n - 1);
        if manhattan(occ[n - 1], g) > prev.1 {
            (n - 1, manhattan(occ[n - 1], g))
        } else {
            prev
        }
    }
}

/// Invasions from `src` to each occupiable neighbour but the one farthest
/// from the local general.
pub open spec fn invasions(v: GameView, src: Location) -> Seq<EnemyMove> {
    let occ = open_cells(v, neighbor_seq(src, BOARD_W, BOARD_H));
    let far = farthest_upto(occ, v.own_general(), occ.len() as int).0;
    if occ.len() == 0 {
        seq![]
    } else {
        occ.remove(far).map_values(|l: Location| EnemyMove::Invasion { from: src, to: l })
    }
}

pub open spec fn enemy_moves(v: GameView, p: PlayerId, pick: usize) -> Seq<EnemyMove> {
    let base = if v.armies[p as int] > v.lands[p as int] {
        seq![EnemyMove::Noop, EnemyMove::ExpandLand]
    } else {
        seq![EnemyMove::Noop]
    };
    if v.turn < INVASION_TURN {
        base
    } else {
        match invasion_source(v, p, pick) {
            Some(src) => base + invasions(v, src),
            None => base,
        }
    }
}

/// What opponent `player_id` may do next, with the staging spot of a hidden
/// army chosen by a random number.
pub fn possible_enemy_moves(state: &GameState, player_id: PlayerId) -> (r: Vec<EnemyMove>)
    requires
        state.wf(),
        player_id < PLAYER_COUNT,
    ensures
        exists|pick: usize| r@ == enemy_moves(state@, player_id, pick),
        forall|i: int| 0 <= i < r@.len() ==> (#[trigger] r@[i]).on_board(),
{
    let pick: usize = rand::random::<usize>();
    possible_enemy_moves_with(state, player_id, pick)
}

/// There is always at least the move that does nothing.
pub proof fn lemma_enemy_moves_nonempty(v: GameView, p: PlayerId, pick: usize)
    ensures
        enemy_moves(v, p, pick).len() > 0,
        enemy_moves(v, p, pick)[0] == EnemyMove::Noop,
{
}

/// Opponent moves leave the turn counters and the local player as they are.
pub proof fn lemma_enemy_turn(v: GameView, p: PlayerId, e: EnemyMove)
    ensures
        e.result(v, p) matches Ok(w) ==> w.turn == v.turn && w.max_turn == v.max_turn
            && w.player_id == v.player_id,
{
    match e {
        EnemyMove::Invasion { from, to } => {
            crate::state::lemma_command_keeps_turn(v, MoveCommand { from, to, half: false }, p, true);
        },
        _ => {},
    }
}

proof fn lemma_loc_of(i: int)
    requires
        0 <= i < BOARD_CELLS,
    ensures
        in_board(loc_of(i)),
        cell(loc_of(i)) == i,
{
}

/// What opponent `player_id` may do next; `pick` chooses the staging spot
/// of a hidden army.
pub fn possible_enemy_moves_with(state: &GameState, player_id: PlayerId, pick: usize) -> (r: Vec<EnemyMove>)
    requires
        state.wf(),
        player_id < PLAYER_COUNT,
    ensures
        r@ == enemy_moves(state@, player_id, pick),
        forall|i: int| 0 <= i < r@.len() ==> (#[trigger] r@[i]).on_board(),
{
    let v = Ghost(state@);
    let mut moves: Vec<EnemyMove> = Vec::new();
    moves.push(EnemyMove::Noop);
    let a = state.armies[player_id as usize];
    let l = state.lands[player_id as usize];
    if a > l {
        moves.push(EnemyMove::ExpandLand);
    }
    let ghost base = moves@;
    assert(base =~= if v@.armies[player_id as int] > v@.lands[player_id as int] {
        seq![EnemyMove::Noop, EnemyMove::ExpandLand]
    } else {
        seq![EnemyMove::Noop]
    });
    if state.turn < INVASION_TURN {
        return moves;
    }
    let mut best: Option<usize> = None;
    let mut spots: Vec<usize> = Vec::new();
    let mut i: usize = 0;
    while i < BOARD_CELLS
        invariant
            v@ == state@,
            state.wf(),
            i <= BOARD_CELLS,
            best == match strongest_upto(v@, i as int) { Some(b) => Some(b as usize), None => None::<usize> },
            strongest_upto(v@, i as int) matches Some(b) ==> 0 <= b < i,
            spots@.len() == staging_upto(v@, i as int).len(),
            forall|j: int| 0 <= j < spots@.len() ==> spots@[j] as int == #[trigger] staging_upto(v@, i as int)[j] && spots@[j] < i,
        decreases BOARD_CELLS - i,
    {
        let t = state.tiles[i];
        let better = match best {
            Some(b) => state.tiles[b].population <= t.population,
            None => true,
        };
        if t.tile_type.is_enemy() && t.population >= 3 && better {
            best = Some(i);
        }
        let ghost old_spots = spots@;
        if !t.tile_type.is_enemy() && !t.tile_type.is_owned() && t.tile_type.occupiable() && state.fog_mask[i] == 0 {
            spots.push(i);
        }
        proof {
            let next = staging_upto(v@, i + 1);
            assert(next == if is_staging_spot(v@, i as int) {
                staging_upto(v@, i as int).push(i as int)
            } else {
                staging_upto(v@, i as int)
            });
            assert forall|j: int| 0 <= j < spots@.len() implies spots@[j] as int == #[trigger] staging_upto(v@, i + 1)[j] && spots@[j] < i + 1 by {
                if j < old_spots.len() {
                    assert(old_spots[j] as int == staging_upto(v@, i as int)[j]);
                }
            }
        }
        i = i + 1;
    }
    let mut phantom: Option<u32> = None;
    if a as u32 > l as u32 + 1 {
        let f: u32 = ((a - l) as u32 * 4 + 2) / 5;
        if f > PHANTOM_THRESHOLD as u32 {
            phantom = Some(f);
        }
    }
    let src: Location;
    let use_phantom = match phantom {
        Some(f) => spots.len() > 0 && match best {
            Some(b) => (state.tiles[b].population as u32) < f / 2,
            None => true,
        },
        None => false,
    };
    if use_phantom {
        let s = spots[pick % spots.len()];
        src = (s / BOARD_H, s % BOARD_H);
    } else {
        match best {
            Some(b) => {
                src = (b / BOARD_H, b % BOARD_H);
            },
            None => {
                assert(invasion_source(v@, player_id, pick) is None);
                return moves;
            },
        }
    }
    proof {
        let s = invasion_source(v@, player_id, pick)->0;
        assert(src == s);
        lemma_loc_of(cell(src));
    }
    assert(in_board(src));
    let nbrs = get_neighbors(src, BOARD_W, BOARD_H);
    let mut occ: Vec<Location> = Vec::new();
    let mut k: usize = 0;
    while k < nbrs.len()
        invariant
            v@ == state@,
            state.wf(),
            nbrs@ == neighbor_seq(src, BOARD_W, BOARD_H),
            in_board(src),
            k <= nbrs@.len(),
            occ@ == open_cells(v@, nbrs@.subrange(0, k as int)),
            forall|j: int| 0 <= j < occ@.len() ==> in_board(#[trigger] occ@[j]),
        decreases nbrs@.len() - k,
    {
        assert(nbrs@.subrange(0, k + 1).drop_last() =~= nbrs@.subrange(0, k as int));
        let n = nbrs[k];
        proof {
            lemma_neighbors_in_board(src);
        }
        if state.get_tile(n).tile_type.occupiable() {
            occ.push(n);
        }
        k = k + 1;
    }
    assert(nbrs@.subrange(0, nbrs@.len() as int) =~= nbrs@);
    if occ.len() == 0 {
        assert(moves@ =~= base + invasions(v@, src));
        return moves;
    }
    let g = state.get_own_general();
    let mut far: usize = 0;
    let mut far_d: u64 = 0;
    let mut j: usize = 0;
    while j < occ.len()
        invariant
            v@ == state@,
            state.wf(),
            g == v@.own_general(),
            in_board(g),
            j <= occ@.len(),
            forall|jj: int| 0 <= jj < occ@.len() ==> in_board(#[trigger] occ@[jj]),
            (far as int, far_d as int) == farthest_upto(occ@, g, j as int),
            far < occ@.len(),
        decreases occ@.len() - j,
    {
        let d = manhattan_distance(occ[j], g);
        if d > far_d {
            far = j;
            far_d = d;
        }
        j = j + 1;
    }
    let ghost before = moves@;
    occ.remove(far);
    push_invasions(&mut moves, src, &occ);
    assert(moves@ =~= base + invasions(v@, src));
    moves
}

fn push_invasions(moves: &mut Vec<EnemyMove>, src: Location, targets: &Vec<Location>)
    requires
        in_board(src),
        forall|j: int| 0 <= j < targets@.len() ==> in_board(#[trigger] targets@[j]),
        forall|q: int| 0 <= q < old(moves)@.len() ==> (#[trigger] old(moves)@[q]).on_board(),
    ensures
        final(moves)@ == old(moves)@ + targets@.map_values(|l: Location| EnemyMove::Invasion { from: src, to: l }),
        forall|q: int| 0 <= q < final(moves)@.len() ==> (#[trigger] final(moves)@[q]).on_board(),
{
    let ghost base = moves@;
    let mut j: usize = 0;
    while j < targets.len()
        invariant
            in_board(src),
            j <= targets@.len(),
            forall|jj: int| 0 <= jj < targets@.len() ==> in_board(#[trigger] targets@[jj]),
            moves@ == base + targets@.subrange(0, j as int).map_values(|l: Location| EnemyMove::Invasion { from: src, to: l }),
            forall|q: int| 0 <= q < moves@.len() ==> (#[trigger] moves@[q]).on_board(),
        decreases targets@.len() - j,
    {
        assert(in_board(targets@[j as int]));
        moves.push(EnemyMove::Invasion { from: src, to: targets[j] });
        j = j + 1;
        assert(moves@ =~= base + targets@.subrange(0, j as int).map_values(|l: Location| EnemyMove::Invasion { from: src, to: l }));
    }
    assert(targets@.subrange(0, targets@.len() as int) =~= targets@);
}

} // verus!
