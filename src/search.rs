//! The state that the tree search runs on: a game state and the side to
//! move, which alternates after every move, friendly or inferred.
use vstd::prelude::*;

use crate::enemy::{enemy_moves, lemma_enemy_turn, possible_enemy_moves, EnemyMove};
use crate::state::{
    alive, count_alive, in_board, is_command_list, lemma_tick_turn, result_view, GameState, GameView, MoveCommand,
    PlayerId, StateError, PLAYER_COUNT,
};

verus! {

/// Share of playout steps, in tenths, that pick among the strongest moves.
pub const STRONG_PICK_TENTHS: u64 = 4;

#[derive(Clone, Copy, PartialEq, Eq, Debug, Hash)]
pub enum CombinedMoveCommand {
    Friendly(MoveCommand),
    Enemy(EnemyMove),
}

impl CombinedMoveCommand {
    pub open spec fn on_board(self) -> bool {
        match self {
            CombinedMoveCommand::Friendly(m) => in_board(m.from) && in_board(m.to),
            CombinedMoveCommand::Enemy(e) => e.on_board(),
        }
    }
}

/// Scores the nodes of the search tree.
pub struct GeneralsUctEvaluator;

/// A node's state in the search: the game and the side to move.
pub struct SearchState {
    pub state: GameState,
    pub turn: PlayerId,
}

pub open spec fn other_side(p: PlayerId) -> PlayerId {
    ((p + 1) % 2) as PlayerId
}

impl SearchState {
    pub open spec fn wf(&self) -> bool {
        self.state.wf() && self.turn < PLAYER_COUNT
    }

    /// Whether the local player is to move.
    pub open spec fn friendly_turn(&self) -> bool {
        self.turn == self.state@.player_id
    }

    pub open spec fn spec_is_final(&self) -> bool {
        count_alive(self.state@.generals) == 1 || self.state@.turn >= self.state@.max_turn
    }

    /// Moves left until a playout is sure to end: every friendly move
    /// advances the game turn.
    pub open spec fn remaining(&self) -> nat {
        if self.state@.turn >= self.state@.max_turn {
            0
        } else {
            (2 * (self.state@.max_turn - self.state@.turn) + if self.friendly_turn() {
                1int
            } else {
                2
            }) as nat
        }
    }

    /// The root of a search from `state`, with the local player to move.
    pub fn new(state: &GameState) -> (r: Self)
        requires
            state.wf(),
        ensures
            r.wf(),
            r.state@ == state@,
            r.friendly_turn(),
    {
        SearchState { state: state.clone_state(), turn: state.player_id() }
    }

    pub fn clone_search(&self) -> (r: Self)
        ensures
            r.state@ == self.state@,
            r.turn == self.turn,
    {
        SearchState { state: self.state.clone_state(), turn: self.turn }
    }

    pub fn player_turn(&self) -> (r: PlayerId)
        ensures
            r == self.turn,
    {
        self.turn
    }

    /// The game is won or out of turns.
    pub fn is_final(&self) -> (r: bool)
        requires
            self.wf(),
        ensures
            r == self.spec_is_final(),
    {
        self.state.get_winner().is_some() || self.state.reached_max_turns()
    }

    /// The moves of the side to move: the local player's candidate moves,
    /// or what the opponent model allows.
    pub fn legals_moves(&self) -> (r: Vec<CombinedMoveCommand>)
        requires
            self.wf(),
        ensures
            r@.len() > 0,
            forall|i: int| 0 <= i < r@.len() ==> (#[trigger] r@[i]).on_board(),
            self.friendly_turn() ==> exists|cmds: Seq<MoveCommand>|
                is_command_list(self.state@, cmds) && r@ == cmds.map_values(
                    |m: MoveCommand| CombinedMoveCommand::Friendly(m),
                ),
            !self.friendly_turn() ==> exists|pick: usize|
                r@ == enemy_moves(self.state@, self.turn, pick).map_values(
                    |e: EnemyMove| CombinedMoveCommand::Enemy(e),
                ),
    {
        let mut r: Vec<CombinedMoveCommand> = Vec::new();
        if self.turn == self.state.player_id() {
            let cmds = self.state.get_possible_commands();
            proof {
                crate::state::lemma_command_list_on_board(self.state@, cmds@);
            }
            let mut i: usize = 0;
            while i < cmds.len()
                invariant
                    i <= cmds@.len(),
                    forall|j: int| 0 <= j < cmds@.len() ==> in_board(#[trigger] cmds@[j].from) && in_board(cmds@[j].to),
                    r@ == cmds@.subrange(0, i as int).map_values(|m: MoveCommand| CombinedMoveCommand::Friendly(m)),
                decreases cmds@.len() - i,
            {
                r.push(CombinedMoveCommand::Friendly(cmds[i]));
                i = i + 1;
                assert(r@ =~= cmds@.subrange(0, i as int).map_values(|m: MoveCommand| CombinedMoveCommand::Friendly(m)));
            }
            assert(cmds@.subrange(0, cmds@.len() as int) =~= cmds@);
            assert(cmds@.len() > 0);
            assert(forall|i: int| 0 <= i < r@.len() ==> (#[trigger] r@[i]).on_board());
        } else {
            let moves = possible_enemy_moves(&self.state, self.turn);
            let ghost pick = choose|pick: usize| moves@ == enemy_moves(self.state@, self.turn, pick);
            let mut i: usize = 0;
            while i < moves.len()
                invariant
                    i <= moves@.len(),
                    forall|j: int| 0 <= j < moves@.len() ==> (#[trigger] moves@[j]).on_board(),
                    r@ == moves@.subrange(0, i as int).map_values(|e: EnemyMove| CombinedMoveCommand::Enemy(e)),
                decreases moves@.len() - i,
            {
                r.push(CombinedMoveCommand::Enemy(moves[i]));
                i = i + 1;
                assert(r@ =~= moves@.subrange(0, i as int).map_values(|e: EnemyMove| CombinedMoveCommand::Enemy(e)));
            }
            assert(moves@.subrange(0, moves@.len() as int) =~= moves@);
            assert(moves@.len() > 0) by {
                crate::enemy::lemma_enemy_moves_nonempty(self.state@, self.turn, pick);
            }
            assert(forall|i: int| 0 <= i < r@.len() ==> (#[trigger] r@[i]).on_board());
        }
        r
    }

    pub open spec fn move_result(&self, m: CombinedMoveCommand) -> Result<GameView, StateError> {
        move_result(self.state@, self.turn, m)
    }

    /// Applies `m` and hands the move to the other side.
    pub fn do_move(&mut self, m: &CombinedMoveCommand) -> (r: Result<(), StateError>)
        requires
            old(self).wf(),
            m.on_board(),
        ensures
            match r {
                Ok(()) => old(self).move_result(*m) == Ok::<GameView, StateError>(final(self).state@)
                    && final(self).turn == other_side(old(self).turn) && final(self).wf(),
                Err(e) => old(self).move_result(*m) == Err::<GameView, StateError>(e)
                    && final(self).state@ == old(self).state@ && final(self).turn == old(self).turn,
            },
    {
        let next = match m {
            CombinedMoveCommand::Friendly(c) => self.state.tick(c),
            CombinedMoveCommand::Enemy(e) => e.apply_on_state(&self.state, self.turn),
        };
        match next {
            Ok(s) => {
                self.state = s;
                self.turn = (self.turn + 1) % 2;
                Ok(())
            },
            Err(e) => Err(e),
        }
    }

    /// The winner of a finished game, if one general alone stands.
    pub fn get_winner(&self) -> (r: Option<PlayerId>)
        requires
            self.wf(),
        ensures
            r is Some <==> count_alive(self.state@.generals) == 1,
            r matches Some(w) ==> w < PLAYER_COUNT && alive(self.state@.generals[w as int]),
    {
        self.state.get_winner()
    }
}

/// What a move does to the game: the local player's move is a full turn,
/// an opponent's move is applied as that player's.
pub open spec fn move_result(v: GameView, turn: PlayerId, m: CombinedMoveCommand) -> Result<GameView, StateError> {
    match m {
        CombinedMoveCommand::Friendly(c) => v.tick_result(c),
        CombinedMoveCommand::Enemy(e) => e.result(v, turn),
    }
}

/// The state at the end of a move history, replayed from the root.
pub open spec fn replayed(root: (GameView, PlayerId), history: Seq<CombinedMoveCommand>) -> Option<(GameView, PlayerId)>
    decreases history.len(),
{
    if history.len() == 0 {
        Some(root)
    } else {
        match replayed(root, history.drop_last()) {
            None => None,
            Some((v, t)) => match move_result(v, t, history.last()) {
                Ok(v2) => Some((v2, other_side(t))),
                Err(_) => None,
            },
        }
    }
}

/// The state of the node that `history` leads to from `root`; an error
/// where a move of it cannot be applied.
pub fn update_state(root: &SearchState, history: &Vec<CombinedMoveCommand>) -> (r: Result<SearchState, StateError>)
    requires
        root.wf(),
        forall|i: int| 0 <= i < history@.len() ==> (#[trigger] history@[i]).on_board(),
    ensures
        match r {
            Ok(s) => s.wf() && replayed((root.state@, root.turn), history@) == Some((s.state@, s.turn)),
            Err(_) => replayed((root.state@, root.turn), history@) is None,
        },
{
    let mut s = root.clone_search();
    let mut i: usize = 0;
    assert(history@.subrange(0, 0) =~= Seq::<CombinedMoveCommand>::empty());
    while i < history.len()
        invariant
            s.wf(),
            i <= history@.len(),
            forall|j: int| 0 <= j < history@.len() ==> (#[trigger] history@[j]).on_board(),
            replayed((root.state@, root.turn), history@.subrange(0, i as int)) == Some((s.state@, s.turn)),
        decreases history@.len() - i,
    {
        assert(history@.subrange(0, i + 1).drop_last() =~= history@.subrange(0, i as int));
        assert(history@.subrange(0, i + 1).last() == history@[i as int]);
        match s.do_move(&history[i]) {
            Ok(()) => {},
            Err(e) => {
                proof {
                    lemma_replay_stuck(
                        (root.state@, root.turn),
                        history@,
                        i as int + 1,
                    );
                }
                return Err(e);
            },
        }
        i = i + 1;
    }
    assert(history@.subrange(0, history@.len() as int) =~= history@);
    Ok(s)
}

/// Once a prefix of a history cannot be replayed, neither can the whole.
proof fn lemma_replay_stuck(root: (GameView, PlayerId), history: Seq<CombinedMoveCommand>, n: int)
    requires
        0 <= n <= history.len(),
        replayed(root, history.subrange(0, n)) is None,
    ensures
        replayed(root, history) is None,
    decreases history.len() - n,
{
    if n < history.len() {
        assert(history.subrange(0, n + 1).drop_last() =~= history.subrange(0, n));
        lemma_replay_stuck(root, history, n + 1);
    } else {
        assert(history.subrange(0, n) =~= history);
    }
}

/// The index of a playout move among `len` moves sorted strongest first:
/// `STRONG_PICK_TENTHS` times in ten (by `roll`) among the first tenth,
/// else among all (by `pick`).
pub open spec fn playout_index(len: usize, roll: u64, pick: u64) -> int {
    if roll % 10 < STRONG_PICK_TENTHS {
        (pick as int) % (len as int / 10 + 1)
    } else {
        (pick as int) % (len as int)
    }
}

pub fn choose_playout_move(len: usize, roll: u64, pick: u64) -> (r: usize)
    requires
        len > 0,
    ensures
        r == playout_index(len, roll, pick),
        r < len,
{
    if roll % 10 < STRONG_PICK_TENTHS {
        (pick % ((len / 10 + 1) as u64)) as usize
    } else {
        (pick % (len as u64)) as usize
    }
}

/// Plays random moves from `start` until the game is final: a finished
/// start comes back as it is, and any other result is reached from `start`
/// by a history of moves.
pub fn playout(start: SearchState) -> (r: Result<SearchState, StateError>)
    requires
        start.wf(),
    ensures
        r matches Ok(s) ==> s.wf() && s.spec_is_final(),
        start.spec_is_final() ==> (r matches Ok(s) && s.state@ == start.state@ && s.turn == start.turn),
        r matches Ok(s) ==> exists|h: Seq<CombinedMoveCommand>|
            replayed((start.state@, start.turn), h) == Some((s.state@, s.turn)),
{
    let ghost root = (start.state@, start.turn);
    let ghost start_final = start.spec_is_final();
    let ghost mut h: Seq<CombinedMoveCommand> = Seq::empty();
    let mut state = start;
    assert(replayed(root, h) == Some((state.state@, state.turn)));
    while !state.is_final()
        invariant
            state.wf(),
            replayed(root, h) == Some((state.state@, state.turn)),
            h.len() == 0 ==> state.state@ == root.0 && state.turn == root.1,
            start_final == (count_alive(root.0.generals) == 1 || root.0.turn >= root.0.max_turn),
            h.len() > 0 ==> !start_final,
            start_final == start.spec_is_final(),
        decreases state.remaining(),
    {
        assert(!start_final);
        let moves = state.legals_moves();
        let roll: u64 = rand::random::<u64>();
        let pick: u64 = rand::random::<u64>();
        let k = choose_playout_move(moves.len(), roll, pick);
        let ghost before = state;
        proof {
            if state.friendly_turn() {
                let cmds = choose|cmds: Seq<MoveCommand>|
                    is_command_list(state.state@, cmds) && moves@ == cmds.map_values(
                        |m: MoveCommand| CombinedMoveCommand::Friendly(m),
                    );
                assert(moves@[k as int] == CombinedMoveCommand::Friendly(cmds[k as int]));
            }
        }
        match state.do_move(&moves[k]) {
            Ok(()) => {},
            Err(e) => return Err(e),
        }
        proof {
            lemma_move_advances(before, moves@[k as int], state);
            lemma_replay_push(root, h, moves@[k as int], before.state@, before.turn, state.state@, state.turn);
            h = h.push(moves@[k as int]);
        }
    }
    Ok(state)
}

/// A history extended by one applicable move replays to that move's result.
proof fn lemma_replay_push(root: (GameView, PlayerId), h: Seq<CombinedMoveCommand>, m: CombinedMoveCommand, v: GameView, t: PlayerId, w: GameView, t2: PlayerId)
    requires
        replayed(root, h) == Some((v, t)),
        move_result(v, t, m) == Ok::<GameView, StateError>(w),
        t2 == other_side(t),
    ensures
        replayed(root, h.push(m)) == Some((w, t2)),
{
    assert(h.push(m).drop_last() =~= h);
    assert(h.push(m).last() == m);
}

/// A friendly move advances the game turn by one; an opponent's keeps it.
/// With the side switching, a game that is not over comes nearer its end.
proof fn lemma_move_advances(before: SearchState, m: CombinedMoveCommand, after: SearchState)
    requires
        before.wf(),
        !before.spec_is_final(),
        before.move_result(m) == Ok::<GameView, StateError>(after.state@),
        m is Enemy ==> !before.friendly_turn(),
        after.turn == other_side(before.turn),
        after.wf(),
    ensures
        after.remaining() < before.remaining(),
{
    match m {
        CombinedMoveCommand::Friendly(c) => {
            lemma_tick_turn(before.state@, c);
        },
        CombinedMoveCommand::Enemy(e) => {
            lemma_enemy_turn(before.state@, before.turn, e);
        },
    }
}

} // verus!
