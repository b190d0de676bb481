//! Properties that hold across the state model's operations.
use vstd::prelude::*;

use crate::state::{
    cell, in_board, in_window, is_command_list, valid_owner, GameView, MoveCommand, PlayerId, Tile,
    TileType,
    BOARD_CELLS, PLAYER_COUNT,
};
use crate::utils::Location;

verus! {

/// Number of tiles held by `p`.
pub open spec fn count_owned(tiles: Seq<Tile>, p: PlayerId) -> nat
    decreases tiles.len(),
{
    if tiles.len() == 0 {
        0
    } else {
        count_owned(tiles.drop_last(), p) + if tiles.last().owner == Some(p) {
            1nat
        } else {
            0
        }
    }
}

/// Number of tiles held by anybody.
pub open spec fn count_held(tiles: Seq<Tile>) -> nat
    decreases tiles.len(),
{
    if tiles.len() == 0 {
        0
    } else {
        count_held(tiles.drop_last()) + if tiles.last().owner is Some {
            1nat
        } else {
            0
        }
    }
}

/// Each player's land count is the number of tiles it holds.
pub open spec fn lands_match(v: GameView) -> bool {
    forall|p: int| 0 <= p < PLAYER_COUNT ==> #[trigger] v.lands[p] == count_owned(v.tiles, p as PlayerId)
}

pub open spec fn same_owners(a: Seq<Tile>, b: Seq<Tile>) -> bool {
    a.len() == b.len() && forall|i: int| 0 <= i < a.len() ==> (#[trigger] a[i]).owner == b[i].owner
}

proof fn lemma_count_same_owners(a: Seq<Tile>, b: Seq<Tile>, p: PlayerId)
    requires
        same_owners(a, b),
    ensures
        count_owned(a, p) == count_owned(b, p),
        count_held(a) == count_held(b),
    decreases a.len(),
{
    if a.len() > 0 {
        assert(same_owners(a.drop_last(), b.drop_last())) by {
            assert forall|i: int| 0 <= i < a.drop_last().len() implies (#[trigger] a.drop_last()[i]).owner == b.drop_last()[i].owner by {
                assert(a.drop_last()[i] == a[i]);
                assert(b.drop_last()[i] == b[i]);
            }
        }
        lemma_count_same_owners(a.drop_last(), b.drop_last(), p);
        assert(a.last().owner == b.last().owner) by {
            assert(a[a.len() - 1].owner == b[a.len() - 1].owner);
        }
    }
}

proof fn lemma_count_update(s: Seq<Tile>, i: int, t: Tile, p: PlayerId)
    requires
        0 <= i < s.len(),
    ensures
        count_owned(s.update(i, t), p) + (if s[i].owner == Some(p) {
            1int
        } else {
            0
        }) == count_owned(s, p) + (if t.owner == Some(p) {
            1int
        } else {
            0
        }),
    decreases s.len(),
{
    if i == s.len() - 1 {
        assert(s.update(i, t).drop_last() =~= s.drop_last());
    } else {
        assert(s.update(i, t).drop_last() =~= s.drop_last().update(i, t));
        lemma_count_update(s.drop_last(), i, t, p);
    }
}

/// Two players' tile counts add up to the number of held tiles.
proof fn lemma_count_split(s: Seq<Tile>)
    requires
        forall|i: int| 0 <= i < s.len() ==> valid_owner(#[trigger] s[i]),
    ensures
        count_owned(s, 0) + count_owned(s, 1) == count_held(s),
    decreases s.len(),
{
    if s.len() > 0 {
        assert forall|i: int| 0 <= i < s.drop_last().len() implies valid_owner(#[trigger] s.drop_last()[i]) by {
            assert(s.drop_last()[i] == s[i]);
        }
        lemma_count_split(s.drop_last());
        assert(valid_owner(s[s.len() - 1]));
    }
}

/// Where land counts match the board, they add up to the number of held
/// tiles.
pub proof fn lemma_lands_total(v: GameView)
    requires
        v.wf(),
        lands_match(v),
    ensures
        v.lands[0] + v.lands[1] == count_held(v.tiles),
{
    lemma_count_split(v.tiles);
    assert(v.lands[0] == count_owned(v.tiles, 0));
    assert(v.lands[1] == count_owned(v.tiles, 1));
}

/// A new game's land counts match its board.
pub proof fn lemma_initial_lands(player_id: PlayerId, own_general: Location)
    requires
        player_id < PLAYER_COUNT,
        in_board(own_general),
    ensures
        lands_match(GameView::initial(player_id, own_general)),
{
    let b = GameView::blank(player_id, own_general);
    assert forall|q: int| 0 <= q < PLAYER_COUNT implies #[trigger] count_owned(b.tiles, q as PlayerId) == 0 by {
        lemma_count_none(b.tiles, q as PlayerId);
    }
    assert forall|q: int| 0 <= q < PLAYER_COUNT implies 0 <= #[trigger] b.new_lands(own_general, player_id, q) <= u16::MAX by {}
    assert forall|i: int| 0 <= i < BOARD_CELLS implies 0 <= #[trigger] b.new_fog(own_general, player_id, i) <= u8::MAX by {}
    lemma_ownership_keeps_lands(b, own_general, player_id, 1);
    let w = b.ownership_changed(own_general, player_id, 1);
    let t = Tile { tile_type: crate::state::TileType::OwnedGeneral, population: 1, owner: Some(player_id) };
    assert forall|q: int| 0 <= q < PLAYER_COUNT implies #[trigger] w.with_tile(own_general, t).lands[q]
        == count_owned(w.with_tile(own_general, t).tiles, q as PlayerId) by {
        assert(same_owners(w.tiles, w.with_tile(own_general, t).tiles));
        lemma_count_same_owners(w.tiles, w.with_tile(own_general, t).tiles, q as PlayerId);
    }
}

proof fn lemma_count_none(s: Seq<Tile>, p: PlayerId)
    requires
        forall|i: int| 0 <= i < s.len() ==> (#[trigger] s[i]).owner is None,
    ensures
        count_owned(s, p) == 0,
    decreases s.len(),
{
    if s.len() > 0 {
        assert forall|i: int| 0 <= i < s.drop_last().len() implies (#[trigger] s.drop_last()[i]).owner is None by {
            assert(s.drop_last()[i] == s[i]);
        }
        lemma_count_none(s.drop_last(), p);
        assert(s[s.len() - 1].owner is None);
    }
}

/// A change of hands keeps land counts matching the board.
pub proof fn lemma_ownership_keeps_lands(v: GameView, l: Location, new_owner: PlayerId, population: u16)
    requires
        v.wf(),
        in_board(l),
        new_owner < PLAYER_COUNT,
        v.ownership_error(l, new_owner) is None,
        lands_match(v),
    ensures
        lands_match(v.ownership_changed(l, new_owner, population)),
{
    let w = v.ownership_changed(l, new_owner, population);
    let placed = v.placed_tiles(l, new_owner, population);
    assert(same_owners(placed, w.tiles));
    assert forall|q: int| 0 <= q < PLAYER_COUNT implies #[trigger] w.lands[q] == count_owned(w.tiles, q as PlayerId) by {
        lemma_count_same_owners(placed, w.tiles, q as PlayerId);
        lemma_count_update(v.tiles, cell(l), placed[cell(l)], q as PlayerId);
        assert(v.lands[q] == count_owned(v.tiles, q as PlayerId));
        assert(0 <= v.new_lands(l, new_owner, q) <= u16::MAX);
    }
}

/// Changing a population keeps land counts matching the board.
pub proof fn lemma_population_keeps_lands(v: GameView, l: Location, delta: int)
    requires
        v.wf(),
        in_board(l),
        lands_match(v),
    ensures
        v.population_change(l, delta) matches Ok(w) ==> lands_match(w),
{
    if let Ok(w) = v.population_change(l, delta) {
        assert(same_owners(v.tiles, w.tiles));
        assert forall|q: int| 0 <= q < PLAYER_COUNT implies #[trigger] w.lands[q] == count_owned(w.tiles, q as PlayerId) by {
            lemma_count_same_owners(v.tiles, w.tiles, q as PlayerId);
        }
    }
}

/// A command that is not inferred keeps land counts matching the board.
pub proof fn lemma_command_keeps_lands(v: GameView, cmd: MoveCommand, p: PlayerId)
    requires
        v.wf(),
        in_board(cmd.from),
        in_board(cmd.to),
        p < PLAYER_COUNT,
        lands_match(v),
    ensures
        v.command_result(cmd, p, false) matches Ok(w) ==> lands_match(w),
{
    let tt = v.tile(cmd.to);
    let m = v.moving(cmd, p, false);
    if !v.command_is_noop(cmd, p, false) && v.tile(cmd.from).population != 0 {
        lemma_population_keeps_lands(v, cmd.from, -m);
        if let Ok(v2) = v.population_change(cmd.from, -m) {
            crate::state::lemma_population_change_wf(v, cmd.from, -m);
            if tt.owner == Some(p) {
                lemma_population_keeps_lands(v2, cmd.to, m);
            } else if m > tt.population {
                if v2.ownership_error(cmd.to, p) is None {
                    lemma_ownership_keeps_lands(v2, cmd.to, p, (m - tt.population) as u16);
                }
            } else {
                lemma_population_keeps_lands(v2, cmd.to, -m);
            }
        }
    }
}

/// A turn keeps land counts matching the board.
pub proof fn lemma_tick_keeps_lands(v: GameView, cmd: MoveCommand)
    requires
        v.wf(),
        in_board(cmd.from),
        in_board(cmd.to),
        lands_match(v),
    ensures
        v.tick_result(cmd) matches Ok(w) ==> lands_match(w),
{
    if v.turn < u64::MAX {
        let v1 = GameView { turn: (v.turn + 1) as u64, ..v };
        lemma_command_keeps_lands(v1, cmd, v.player_id);
        if let Ok(v2) = v1.command_result(cmd, v.player_id, false) {
            if let Ok(w) = v2.growth() {
                assert(same_owners(v2.tiles, w.tiles));
                assert forall|q: int| 0 <= q < PLAYER_COUNT implies #[trigger] w.lands[q] == count_owned(w.tiles, q as PlayerId) by {
                    lemma_count_same_owners(v2.tiles, w.tiles, q as PlayerId);
                }
            }
        }
    }
}

/// Handing a held tile to another player and back restores every
/// visibility counter and land count, and the tile's holder.
pub proof fn lemma_ownership_round_trip(v: GameView, l: Location, other: PlayerId, population: u16, back_population: u16)
    requires
        v.wf(),
        in_board(l),
        other < PLAYER_COUNT,
        v.tile(l).owner matches Some(a) && a != other,
        v.ownership_change(l, other, population) is Ok,
        v.ownership_change(l, other, population)->Ok_0.ownership_change(l, v.tile(l).owner->0, back_population) is Ok,
    ensures
        ({
            let u = v.ownership_change(l, other, population)->Ok_0.ownership_change(l, v.tile(l).owner->0, back_population)->Ok_0;
            &&& u.fog_mask == v.fog_mask
            &&& u.lands == v.lands
            &&& u.tile(l).owner == v.tile(l).owner
            &&& u.tile(l).population == back_population
        }),
{
    let a = v.tile(l).owner->0;
    let w = v.ownership_change(l, other, population)->Ok_0;
    let u = w.ownership_change(l, a, back_population)->Ok_0;
    crate::state::lemma_cell_coords(l);
    assert(w.tile(l).owner == Some(other));
    assert forall|i: int| 0 <= i < BOARD_CELLS implies u.fog_mask[i] == v.fog_mask[i] by {
        assert(0 <= v.new_fog(l, other, i) <= u8::MAX);
        assert(0 <= w.new_fog(l, a, i) <= u8::MAX);
    }
    assert(u.fog_mask =~= v.fog_mask);
    assert forall|q: int| 0 <= q < PLAYER_COUNT implies u.lands[q] == v.lands[q] by {
        assert(0 <= v.new_lands(l, other, q) <= u16::MAX);
        assert(0 <= w.new_lands(l, a, q) <= u16::MAX);
    }
    assert(u.lands =~= v.lands);
}

/// A tile type agrees with its visibility counter: the hidden variants sit
/// at zero, the visible ones above it.
pub open spec fn sight_agrees(t: TileType, fog: u8) -> bool {
    match t {
        TileType::AssumedEmpty | TileType::HiddenNeutralCity | TileType::HiddenObstacle => fog == 0,
        TileType::VisibleEmpty | TileType::VisibleNeutralCity | TileType::VisibleMountain => fog > 0,
        _ => true,
    }
}

/// The local player taking an opponent's tile or city and losing it back
/// to that opponent, with its old population, restores every tile, where
/// the types of the cells around it agree with their visibility counters.
pub proof fn lemma_capture_and_loss_restore_tiles(v: GameView, l: Location, population: u16)
    requires
        v.wf(),
        in_board(l),
        v.tile(l).owner matches Some(q) && q != v.player_id,
        v.tile(l).tile_type is Enemy || v.tile(l).tile_type is EnemyCity,
        forall|i: int| 0 <= i < BOARD_CELLS && in_window(l, i) ==> sight_agrees((#[trigger] v.tiles[i]).tile_type, v.fog_mask[i]),
        v.ownership_change(l, v.player_id, population) is Ok,
        v.ownership_change(l, v.player_id, population)->Ok_0.ownership_change(l, v.tile(l).owner->0, v.tile(l).population) is Ok,
    ensures
        v.ownership_change(l, v.player_id, population)->Ok_0.ownership_change(l, v.tile(l).owner->0, v.tile(l).population)->Ok_0.tiles == v.tiles,
{
    let q = v.tile(l).owner->0;
    let me = v.player_id;
    let w = v.ownership_change(l, me, population)->Ok_0;
    let u = w.ownership_change(l, q, v.tile(l).population)->Ok_0;
    crate::state::lemma_cell_coords(l);
    assert(w.tile(l).owner == Some(me));
    assert(w.player_id == me);
    assert forall|i: int| 0 <= i < BOARD_CELLS implies u.tiles[i] == v.tiles[i] by {
        assert(0 <= v.new_fog(l, me, i) <= u8::MAX);
        assert(0 <= w.new_fog(l, q, i) <= u8::MAX);
        if in_window(l, i) {
            assert(sight_agrees(v.tiles[i].tile_type, v.fog_mask[i]));
            assert(w.fog_mask[i] == v.fog_mask[i] + 1);
            assert(w.new_fog(l, q, i) == v.fog_mask[i]);
        }
    }
    assert(u.tiles =~= v.tiles);
}

/// What a command does to the two tiles it names: the units that left the
/// source arrive unchanged on a tile of the mover's own, and in an attack
/// each side loses the evaporated amount, so the two tiles hold twice that
/// amount less; the army totals of the mover (and of the defender) drop by
/// it once.
pub proof fn lemma_command_population_loss(v: GameView, cmd: MoveCommand, p: PlayerId, is_inferred: bool)
    requires
        v.wf(),
        in_board(cmd.from),
        in_board(cmd.to),
        p < PLAYER_COUNT,
        !v.command_is_noop(cmd, p, is_inferred),
        v.command_result(cmd, p, is_inferred) is Ok,
    ensures
        ({
            let before = v.with_phantom(cmd, p, is_inferred);
            let w = v.command_result(cmd, p, is_inferred)->Ok_0;
            let e = v.evaporated(cmd, p, is_inferred);
            &&& before.tile(cmd.from).population + before.tile(cmd.to).population
                - w.tile(cmd.from).population - w.tile(cmd.to).population == 2 * e
            &&& w.armies[p as int] == before.armies[p as int] - e
            &&& forall|o: PlayerId| before.tile(cmd.to).owner == Some(o) && o != p ==> w.armies[o as int] == before.armies[o as int] - e
        }),
{
    crate::state::lemma_cell_coords(cmd.from);
    crate::state::lemma_cell_coords(cmd.to);
    let before = v.with_phantom(cmd, p, is_inferred);
    assert(cmd.from != cmd.to);
    assert(cell(cmd.from) != cell(cmd.to));
}

/// Where nothing evaporates (a reinforcement, or a capture of an empty
/// cell), a command moves units without losing any: the two tiles hold
/// together what they held before.
pub proof fn lemma_command_population_conserved(v: GameView, cmd: MoveCommand, p: PlayerId, is_inferred: bool)
    requires
        v.wf(),
        in_board(cmd.from),
        in_board(cmd.to),
        p < PLAYER_COUNT,
        !v.command_is_noop(cmd, p, is_inferred),
        v.command_result(cmd, p, is_inferred) is Ok,
        v.evaporated(cmd, p, is_inferred) == 0,
    ensures
        ({
            let before = v.with_phantom(cmd, p, is_inferred);
            let w = v.command_result(cmd, p, is_inferred)->Ok_0;
            before.tile(cmd.from).population + before.tile(cmd.to).population
                - w.tile(cmd.from).population - w.tile(cmd.to).population == v.evaporated(cmd, p, is_inferred)
        }),
{
    lemma_command_population_loss(v, cmd, p, is_inferred);
}

/// Every move of a non-empty candidate list leads onto an occupiable cell.
pub proof fn lemma_legal_moves_occupiable(v: GameView, r: Seq<MoveCommand>)
    requires
        v.wf(),
        is_command_list(v, r),
        exists|m: MoveCommand| v.is_candidate(m),
    ensures
        forall|i: int| 0 <= i < r.len() ==> (#[trigger] v.tile(r[i].to)).tile_type.spec_occupiable(),
{
    assert forall|i: int| 0 <= i < r.len() implies (#[trigger] v.tile(r[i].to)).tile_type.spec_occupiable() by {
        assert(v.is_candidate(r[i]));
    }
}

} // verus!
