//! Folding the server's game-start event and per-turn updates into the
//! state.
use vstd::prelude::*;

use crate::state::{
    cell, in_board, loc_of, valid_owner, GameState, GameView, MoveCommand, PlayerId,
    SerializedMoveCommand, StateError, Tile, TileType,
    BOARD_CELLS, BOARD_H, BOARD_W, PLAYER_COUNT, POPULATION_CAP,
};
use crate::utils::{folded_index, int_to_location, location_to_int, Location};

verus! {

/// The game-start event: which player this side is.
pub struct GameStart {
    pub player_index: u8,
    pub replay_id: String,
}

/// One player's totals, as the server reports them.
#[derive(Clone, Copy, PartialEq, Eq, Debug, Structural)]
pub struct PlayerScore {
    pub player_index: u8,
    pub army_count: u16,
    pub tile_count: u16,
}

/// A per-turn update: run-length patches of the map and of the city list,
/// the turn, each player's general (or -1), and the score snapshot.
pub struct StateUpdate {
    pub map_diff: Vec<i16>,
    pub cities_diff: Vec<i16>,
    pub turn: u64,
    pub generals: Vec<i64>,
    pub scores: Vec<PlayerScore>,
}

pub enum LobbyType {
    Private(String),
    OneVOne,
}

/// What an update can fail with.
#[derive(Clone, Copy, PartialEq, Eq, Debug, Structural)]
pub enum UpdateError {
    /// The update does not have the shape the protocol gives it.
    Malformed,
    /// Folding it in broke a rule of the state.
    State(StateError),
}

/// Where the server's playfield sits on the padded board.
#[derive(Clone, Copy, PartialEq, Eq, Debug, Structural)]
pub struct Playfield {
    pub width: u64,
    pub height: u64,
    pub pad_left: u64,
    pub pad_top: u64,
}

impl Playfield {
    pub open spec fn wf(self) -> bool {
        &&& 1 <= self.width
        &&& 1 <= self.height
        &&& self.pad_left + self.width <= BOARD_W
        &&& self.pad_top + self.height <= BOARD_H
    }

    pub open spec fn area(self) -> int {
        self.width * self.height
    }

    /// The board cell of playfield index `i`, folded into the playfield.
    pub open spec fn cell_of(self, i: int) -> Location {
        let j = i % self.area();
        ((j % self.width as int + self.pad_left) as usize, (j / self.width as int + self.pad_top) as usize)
    }

    pub open spec fn inside(self, l: Location) -> bool {
        self.pad_left <= l.0 < self.pad_left + self.width && self.pad_top <= l.1 < self.pad_top
            + self.height
    }
}

proof fn lemma_area_bounds(f: Playfield)
    requires
        f.wf(),
    ensures
        1 <= f.area() <= BOARD_CELLS,
{
    assert(1 <= f.width * f.height <= 625) by (nonlinear_arith)
        requires
            1 <= f.width <= 25,
            1 <= f.height <= 25,
    ;
}

proof fn lemma_cell_of_in_board(f: Playfield, i: int)
    requires
        f.wf(),
        0 <= i,
    ensures
        in_board(f.cell_of(i)),
        f.inside(f.cell_of(i)),
{
    lemma_area_bounds(f);
    let j = i % f.area();
    assert(0 <= j < f.area());
    let w = f.width as int;
    let h = f.height as int;
    assert(j / w < h) by (nonlinear_arith)
        requires
            0 <= j < w * h,
            w >= 1,
    ;
    assert(0 <= j / w) by (nonlinear_arith)
        requires
            0 <= j,
            w >= 1,
    ;
}

/// The playfield that a first map patch announces: its third and fourth
/// entries are the width and height, which must fit on the board.
pub fn playfield_of(first_map_diff: &Vec<i16>) -> (r: Option<Playfield>)
    ensures
        match r {
            Some(f) => f.wf() && first_map_diff@.len() >= 4 && f.width == first_map_diff@[2]
                && f.height == first_map_diff@[3] && f.pad_left == (BOARD_W - f.width) / 2
                && f.pad_top == (BOARD_H - f.height) / 2,
            None => first_map_diff@.len() < 4 || !(1 <= first_map_diff@[2] <= BOARD_W) || !(1
                <= first_map_diff@[3] <= BOARD_H),
        },
{
    if first_map_diff.len() < 4 {
        return None;
    }
    let w = first_map_diff[2];
    let h = first_map_diff[3];
    if w < 1 || w > BOARD_W as i16 || h < 1 || h > BOARD_H as i16 {
        return None;
    }
    let width = w as u64;
    let height = h as u64;
    Some(Playfield { width, height, pad_left: (BOARD_W as u64 - width) / 2, pad_top: (BOARD_H as u64 - height) / 2 })
}

/// The board cell of a playfield index.
pub fn field_cell(field: Playfield, i: u64) -> (r: Location)
    requires
        field.wf(),
    ensures
        r == field.cell_of(i as int),
        in_board(r),
        field.inside(r),
{
    proof {
        lemma_area_bounds(field);
        lemma_cell_of_in_board(field, i as int);
    }
    let j = i % (field.width * field.height);
    let l = int_to_location(j, field.width, field.height, field.pad_left, field.pad_top);
    assert(folded_index(j as int, field.width as int, field.height as int) == j as int);
    l
}

impl Playfield {
    /// A move as the server names it.
    pub fn serialize(&self, cmd: &MoveCommand) -> (r: SerializedMoveCommand)
        requires
            self.wf(),
            self.inside(cmd.from),
            self.inside(cmd.to),
        ensures
            r.from == (cmd.from.0 - self.pad_left) + (cmd.from.1 - self.pad_top) * self.width,
            r.to == (cmd.to.0 - self.pad_left) + (cmd.to.1 - self.pad_top) * self.width,
            r.half == cmd.half,
    {
        proof {
            assert((cmd.from.1 - self.pad_top) * self.width <= 625) by (nonlinear_arith)
                requires
                    0 <= cmd.from.1 - self.pad_top < self.height,
                    self.width <= 25,
                    self.height <= 25,
            ;
            assert((cmd.to.1 - self.pad_top) * self.width <= 625) by (nonlinear_arith)
                requires
                    0 <= cmd.to.1 - self.pad_top < self.height,
                    self.width <= 25,
                    self.height <= 25,
            ;
        }
        SerializedMoveCommand {
            from: location_to_int(cmd.from, self.width, self.height, self.pad_left, self.pad_top),
            to: location_to_int(cmd.to, self.width, self.height, self.pad_left, self.pad_top),
            half: cmd.half,
        }
    }
}

/// The state with every cell outside the playfield turned to padding, which
/// is always in sight.
pub open spec fn padded(v: GameView, field: Playfield) -> GameView {
    GameView {
        tiles: Seq::new(
            v.tiles.len(),
            |i: int|
                if field.inside(loc_of(i)) {
                    v.tiles[i]
                } else {
                    Tile { tile_type: TileType::Padding, population: 0, owner: None }
                },
        ),
        fog_mask: Seq::new(v.fog_mask.len(), |i: int| if field.inside(loc_of(i)) { v.fog_mask[i] } else { 1u8 }),
        ..v
    }
}

/// What one terrain entry of a map patch does to cell `l`: -1 empty and
/// -2 mountain in sight, -3 fogged, -4 an unseen obstacle, a player's index
/// held by that player.
pub open spec fn terrain_result(v: GameView, l: Location, value: i16) -> Result<GameView, UpdateError> {
    let t = v.tile(l);
    if value == -1 {
        Ok(v.with_tile(l, Tile { tile_type: TileType::VisibleEmpty, ..t }))
    } else if value == -2 {
        Ok(v.with_tile(l, Tile { tile_type: TileType::VisibleMountain, ..t }))
    } else if value == -3 {
        Ok(v.with_tile(l, Tile { tile_type: t.tile_type.spec_hide(), ..t }))
    } else if value == -4 {
        Ok(v.with_tile(l, Tile { tile_type: TileType::HiddenObstacle, ..t }))
    } else if value < 0 || value >= PLAYER_COUNT {
        Err(UpdateError::Malformed)
    } else {
        let o = value as PlayerId;
        let base = if t.owner == Some(o) {
            Ok(v)
        } else {
            match v.ownership_change(l, o, t.population) {
                Ok(w) => Ok(w),
                Err(e) => Err(UpdateError::State(e)),
            }
        };
        match base {
            Err(e) => Err(e),
            Ok(w) => Ok(
                w.with_tile(
                    l,
                    Tile {
                        tile_type: if o == v.player_id {
                            t.tile_type.spec_own()
                        } else {
                            t.tile_type.spec_lose()
                        },
                        population: t.population,
                        owner: Some(o),
                    },
                ),
            ),
        }
    }
}

/// One entry of a map patch: the first `area` indices carry populations,
/// the rest terrain, both folded into the playfield.
pub open spec fn entry_result(v: GameView, field: Playfield, idx: int, value: i16) -> Result<GameView, UpdateError> {
    let l = field.cell_of(idx);
    if idx < field.area() {
        if value < 0 || value > POPULATION_CAP {
            Err(UpdateError::State(StateError::PopulationOverflow))
        } else {
            Ok(v.with_tile(l, Tile { population: value as u16, ..v.tile(l) }))
        }
    } else {
        terrain_result(v, l, value)
    }
}

/// Entries `k..len` of a run starting at patch position `start`, which
/// stand for indices `first + k` on.
pub open spec fn run_result(v: GameView, field: Playfield, diff: Seq<i16>, start: int, first: int, len: int, k: int) -> Result<GameView, UpdateError>
    decreases len - k,
{
    if k >= len {
        Ok(v)
    } else {
        match entry_result(v, field, first + k, diff[start + k]) {
            Err(e) => Err(e),
            Ok(w) => run_result(w, field, diff, start, first, len, k + 1),
        }
    }
}

/// The runs of a map patch from position `off`, with `cache` indices
/// passed so far: each run is a count to skip, a length, and that many
/// values.
pub open spec fn map_runs(v: GameView, field: Playfield, diff: Seq<i16>, off: int, cache: int) -> Result<GameView, UpdateError>
    decreases diff.len() - off,
{
    if off < 0 || off + 1 >= diff.len() {
        Ok(v)
    } else {
        let c = cache + diff[off];
        let len = diff[off + 1] as int;
        if c < 0 || len < 0 || off + 2 + len > diff.len() {
            Err(UpdateError::Malformed)
        } else {
            match run_result(v, field, diff, off + 2, c, len, 0) {
                Err(e) => Err(e),
                Ok(w) => map_runs(w, field, diff, off + 2 + len, c + len),
            }
        }
    }
}

/// Entries `k..len` of a city run: each names a cell that is a city, held
/// by an opponent if anybody holds it, neutral otherwise.
pub open spec fn city_run(v: GameView, field: Playfield, diff: Seq<i16>, start: int, len: int, k: int) -> Result<GameView, UpdateError>
    decreases len - k,
{
    if k >= len {
        Ok(v)
    } else {
        let x = diff[start + k];
        if x < 0 {
            Err(UpdateError::Malformed)
        } else {
            let l = field.cell_of(x as int);
            let t = v.tile(l);
            let city = if t.owner is Some {
                TileType::EnemyCity
            } else {
                TileType::VisibleNeutralCity
            };
            city_run(v.with_tile(l, Tile { tile_type: city, ..t }), field, diff, start, len, k + 1)
        }
    }
}

pub open spec fn city_runs(v: GameView, field: Playfield, diff: Seq<i16>, off: int) -> Result<GameView, UpdateError>
    decreases diff.len() - off,
{
    if off < 0 || off + 1 >= diff.len() {
        Ok(v)
    } else {
        let len = diff[off + 1] as int;
        if len < 0 || off + 2 + len > diff.len() {
            Err(UpdateError::Malformed)
        } else {
            match city_run(v, field, diff, off + 2, len, 0) {
                Err(e) => Err(e),
                Ok(w) => city_runs(w, field, diff, off + 2 + len),
            }
        }
    }
}

/// A player's reported totals replace the tracked ones; off the 50-turn
/// cycle, an army gain of one more than its city count reveals one more
/// city.
pub open spec fn score_step(v: GameView, sc: PlayerScore) -> Result<GameView, UpdateError> {
    if sc.player_index >= PLAYER_COUNT {
        Err(UpdateError::Malformed)
    } else {
        let p = sc.player_index as int;
        let gain = sc.army_count - v.armies[p];
        let cities = if v.turn % 50 != 0 && gain == v.city_count[p] + 1 && v.city_count[p] < u16::MAX {
            v.city_count.update(p, gain as u16)
        } else {
            v.city_count
        };
        Ok(GameView {
            city_count: cities,
            armies: v.armies.update(p, sc.army_count),
            lands: v.lands.update(p, sc.tile_count),
            ..v
        })
    }
}

pub open spec fn scores_from(v: GameView, scores: Seq<PlayerScore>, k: int) -> Result<GameView, UpdateError>
    decreases scores.len() - k,
{
    if k < 0 || k >= scores.len() {
        Ok(v)
    } else {
        match score_step(v, scores[k]) {
            Err(e) => Err(e),
            Ok(w) => scores_from(w, scores, k + 1),
        }
    }
}

/// A map patch made relative to the playfield: a first one loses the two
/// size entries (and its first run the two values they took), a later one
/// skips the two header entries of the server's map.
pub open spec fn normalized(diff: Seq<i16>, first: bool) -> Option<Seq<i16>> {
    if first {
        if diff.len() < 4 || diff[1] - 2 < i16::MIN {
            None
        } else {
            Some(seq![diff[0], (diff[1] - 2) as i16] + diff.subrange(4, diff.len() as int))
        }
    } else if diff.len() == 0 {
        Some(diff)
    } else if diff[0] - 2 < i16::MIN {
        None
    } else {
        Some(diff.update(0, (diff[0] - 2) as i16))
    }
}

pub open spec fn update_result(v: GameView, field: Playfield, u_map: Seq<i16>, u_cities: Seq<i16>, turn: u64, scores: Seq<PlayerScore>, first: bool) -> Result<GameView, UpdateError> {
    match normalized(u_map, first) {
        None => Err(UpdateError::Malformed),
        Some(d) => if d.len() > u32::MAX {
            Err(UpdateError::Malformed)
        } else {
            match map_runs(v, field, d, 0, 0) {
                Err(e) => Err(e),
                Ok(w) => match city_runs(w, field, u_cities, 0) {
                    Err(e) => Err(e),
                    Ok(w2) => scores_from(GameView { turn, ..w2 }, scores, 0),
                },
            }
        },
    }
}

pub open spec fn update_result_view(r: Result<GameState, UpdateError>) -> Result<GameView, UpdateError> {
    match r {
        Ok(s) => Ok(s@),
        Err(e) => Err(e),
    }
}

impl GameState {
    /// Turns every cell outside the playfield into padding in sight.
    pub fn pad_outside(&self, field: Playfield) -> (r: Self)
        requires
            self.wf(),
            field.wf(),
        ensures
            r@ == padded(self@, field),
            r.wf(),
    {
        let mut s = self.clone_state();
        let mut i: usize = 0;
        while i < BOARD_CELLS
            invariant
                self.wf(),
                field.wf(),
                i <= BOARD_CELLS,
                s.tiles@.len() == BOARD_CELLS,
                s.fog_mask@.len() == BOARD_CELLS,
                s@ == (GameView { tiles: s@.tiles, fog_mask: s@.fog_mask, ..self@ }),
                forall|j: int| #![trigger s.tiles@[j]] #![trigger s.fog_mask@[j]] 0 <= j < BOARD_CELLS ==> if j < i {
                    s.tiles@[j] == padded(self@, field).tiles[j] && s.fog_mask@[j] == padded(self@, field).fog_mask[j]
                } else {
                    s.tiles@[j] == self@.tiles[j] && s.fog_mask@[j] == self@.fog_mask[j]
                },
            decreases BOARD_CELLS - i,
        {
            let x: u64 = (i / BOARD_H) as u64;
            let y: u64 = (i % BOARD_H) as u64;
            assert(loc_of(i as int) == (x as usize, y as usize));
            let inside = field.pad_left <= x && x < field.pad_left + field.width && field.pad_top <= y
                && y < field.pad_top + field.height;
            if !inside {
                s.tiles.set(i, Tile { tile_type: TileType::Padding, population: 0, owner: None });
                s.fog_mask.set(i, 1);
            }
            i = i + 1;
        }
        assert(s.tiles@ =~= padded(self@, field).tiles);
        assert(s.fog_mask@ =~= padded(self@, field).fog_mask);
        assert forall|j: int| 0 <= j < BOARD_CELLS implies valid_owner(#[trigger] s.tiles@[j]) by {
            assert(valid_owner(self@.tiles[j]));
        }
        s
    }

    fn apply_terrain(&self, l: Location, value: i16) -> (r: Result<Self, UpdateError>)
        requires
            self.wf(),
            in_board(l),
        ensures
            update_result_view(r) == terrain_result(self@, l, value),
            r matches Ok(s) ==> s.wf(),
    {
        let t = *self.get_tile(l);
        if value == -1 {
            Ok(self.update_tile(l, Tile { tile_type: TileType::VisibleEmpty, ..t }))
        } else if value == -2 {
            Ok(self.update_tile(l, Tile { tile_type: TileType::VisibleMountain, ..t }))
        } else if value == -3 {
            Ok(self.update_tile(l, Tile { tile_type: t.tile_type.hidden(), ..t }))
        } else if value == -4 {
            Ok(self.update_tile(l, Tile { tile_type: TileType::HiddenObstacle, ..t }))
        } else if value < 0 || value >= PLAYER_COUNT as i16 {
            Err(UpdateError::Malformed)
        } else {
            let o = value as PlayerId;
            let held = match t.owner {
                Some(p) => p == o,
                None => false,
            };
            let base = if held {
                self.clone_state()
            } else {
                match self.change_tile_ownership(l, o, t.population) {
                    Ok(w) => w,
                    Err(e) => return Err(UpdateError::State(e)),
                }
            };
            let tt = if o == self.player_id {
                t.tile_type.own()
            } else {
                t.tile_type.lose()
            };
            Ok(base.update_tile(l, Tile { tile_type: tt, population: t.population, owner: Some(o) }))
        }
    }

    fn apply_entry(&self, field: Playfield, idx: u64, value: i16) -> (r: Result<Self, UpdateError>)
        requires
            self.wf(),
            field.wf(),
        ensures
            update_result_view(r) == entry_result(self@, field, idx as int, value),
            r matches Ok(s) ==> s.wf(),
    {
        let l = field_cell(field, idx);
        proof {
            lemma_area_bounds(field);
        }
        if idx < field.width * field.height {
            if value < 0 || value as i32 > POPULATION_CAP as i32 {
                return Err(UpdateError::State(StateError::PopulationOverflow));
            }
            let t = *self.get_tile(l);
            Ok(self.update_tile(l, Tile { population: value as u16, ..t }))
        } else {
            self.apply_terrain(l, value)
        }
    }

    /// Folds a map patch in. The patch is the one the server sends, with the
    /// playfield's size taken out of a first one.
    pub fn apply_map_diff(&self, field: Playfield, diff: &Vec<i16>) -> (r: Result<Self, UpdateError>)
        requires
            self.wf(),
            field.wf(),
            diff@.len() <= u32::MAX,
        ensures
            update_result_view(r) == map_runs(self@, field, diff@, 0, 0),
            r matches Ok(s) ==> s.wf(),
    {
        let mut s = self.clone_state();
        let mut off: usize = 0;
        let mut cache: i64 = 0;
        while off < diff.len() && diff.len() - off > 1
            invariant
                s.wf(),
                field.wf(),
                diff@.len() <= u32::MAX,
                off <= diff@.len(),
                0 <= cache <= off * 32768,
                map_runs(self@, field, diff@, 0, 0) == map_runs(s@, field, diff@, off as int, cache as int),
            decreases diff@.len() - off,
        {
            let c: i64 = cache + diff[off] as i64;
            let len: i64 = diff[off + 1] as i64;
            if c < 0 || len < 0 || off as i64 + 2 + len > diff.len() as i64 {
                return Err(UpdateError::Malformed);
            }
            let start: usize = off + 2;
            let n: usize = len as usize;
            let ghost run_start = s@;
            let mut k: usize = 0;
            while k < n
                invariant
                    s.wf(),
                    field.wf(),
                    start == off + 2,
                    start + n <= diff@.len(),
                    diff@.len() <= u32::MAX,
                    0 <= c,
                    c <= (off + 1) * 32768,
                    k <= n,
                    c == cache + diff@[off as int],
                    n == diff@[off + 1],
                    0 <= cache <= off * 32768,
                    off + 1 < diff@.len(),
                    map_runs(self@, field, diff@, 0, 0) == map_runs(run_start, field, diff@, off as int, cache as int),
                    run_result(run_start, field, diff@, start as int, c as int, n as int, 0) == run_result(s@, field, diff@, start as int, c as int, n as int, k as int),
                decreases n - k,
            {
                match s.apply_entry(field, (c as u64) + (k as u64), diff[start + k]) {
                    Ok(w) => {
                        s = w;
                    },
                    Err(e) => {
                        return Err(e);
                    },
                }
                k = k + 1;
            }
            off = start + n;
            cache = c + len;
        }
        Ok(s)
    }

    /// Folds a city patch in.
    pub fn apply_cities_diff(&self, field: Playfield, diff: &Vec<i16>) -> (r: Result<Self, UpdateError>)
        requires
            self.wf(),
            field.wf(),
        ensures
            update_result_view(r) == city_runs(self@, field, diff@, 0),
            r matches Ok(s) ==> s.wf(),
    {
        let mut s = self.clone_state();
        let mut off: usize = 0;
        while off < diff.len() && diff.len() - off > 1
            invariant
                s.wf(),
                field.wf(),
                off <= diff@.len(),
                city_runs(self@, field, diff@, 0) == city_runs(s@, field, diff@, off as int),
            decreases diff@.len() - off,
        {
            let len: i16 = diff[off + 1];
            if len < 0 || (len as usize) > diff.len() - off - 2 {
                assert(len < 0 || off + 2 + len > diff@.len());
                return Err(UpdateError::Malformed);
            }
            let start: usize = off + 2;
            let n: usize = len as usize;
            let total: usize = diff.len();
            let ghost run_start = s@;
            let mut k: usize = 0;
            while k < n
                invariant
                    s.wf(),
                    field.wf(),
                    start == off + 2,
                    total == diff@.len(),
                    start + n <= total,
                    k <= n,
                    n == diff@[off + 1],
                    off + 1 < diff@.len(),
                    city_runs(self@, field, diff@, 0) == city_runs(run_start, field, diff@, off as int),
                    city_run(run_start, field, diff@, start as int, n as int, 0) == city_run(s@, field, diff@, start as int, n as int, k as int),
                decreases n - k,
            {
                let x = diff[start + k];
                if x < 0 {
                    return Err(UpdateError::Malformed);
                }
                let l = field_cell(field, x as u64);
                let t = *s.get_tile(l);
                let city = if t.owner.is_some() {
                    TileType::EnemyCity
                } else {
                    TileType::VisibleNeutralCity
                };
                s = s.update_tile(l, Tile { tile_type: city, ..t });
                k = k + 1;
            }
            off = start + n;
        }
        Ok(s)
    }

    /// Sets the turn and takes the reported totals in.
    pub fn apply_scores(&self, turn: u64, scores: &Vec<PlayerScore>) -> (r: Result<Self, UpdateError>)
        requires
            self.wf(),
        ensures
            update_result_view(r) == scores_from(GameView { turn, ..self@ }, scores@, 0),
            r matches Ok(s) ==> s.wf(),
    {
        let mut s = self.clone_state();
        s.turn = turn;
        let mut k: usize = 0;
        while k < scores.len()
            invariant
                s.wf(),
                k <= scores@.len(),
                scores_from(GameView { turn, ..self@ }, scores@, 0) == scores_from(s@, scores@, k as int),
            decreases scores@.len() - k,
        {
            let sc = scores[k];
            if sc.player_index as usize >= PLAYER_COUNT {
                return Err(UpdateError::Malformed);
            }
            let p = sc.player_index as usize;
            if s.turn % 50 != 0 && (sc.army_count as i32 - s.armies[p] as i32) == s.city_count[p] as i32 + 1 && s.city_count[p] < u16::MAX {
                let c = s.city_count[p] + 1;
                s.city_count.set(p, c);
            }
            s.armies.set(p, sc.army_count);
            s.lands.set(p, sc.tile_count);
            k = k + 1;
        }
        Ok(s)
    }

    /// Folds a whole per-turn update in: map patch, city patch, turn and
    /// scores.
    pub fn apply_update(&self, field: Playfield, update: &StateUpdate, first: bool) -> (r: Result<Self, UpdateError>)
        requires
            self.wf(),
            field.wf(),
        ensures
            update_result_view(r) == update_result(self@, field, update.map_diff@, update.cities_diff@, update.turn, update.scores@, first),
            r matches Ok(s) ==> s.wf(),
    {
        let diff = match normalize_map_diff(&update.map_diff, first) {
            Some(d) => d,
            None => return Err(UpdateError::Malformed),
        };
        if diff.len() > u32::MAX as usize {
            return Err(UpdateError::Malformed);
        }
        let s1 = match self.apply_map_diff(field, &diff) {
            Ok(x) => x,
            Err(e) => return Err(e),
        };
        let s2 = match s1.apply_cities_diff(field, &update.cities_diff) {
            Ok(x) => x,
            Err(e) => return Err(e),
        };
        s2.apply_scores(update.turn, &update.scores)
    }
}

/// The map patch made relative to the playfield; `None` where a first
/// patch is too short to hold the playfield's size, or an adjusted entry
/// would leave `i16`.
pub fn normalize_map_diff(diff: &Vec<i16>, first: bool) -> (r: Option<Vec<i16>>)
    ensures
        match r {
            Some(d) => normalized(diff@, first) == Some(d@),
            None => normalized(diff@, first) is None,
        },
{
    if first {
        if diff.len() < 4 {
            return None;
        }
        if diff[1] < i16::MIN + 2 {
            return None;
        }
        let mut d: Vec<i16> = Vec::new();
        d.push(diff[0]);
        d.push(diff[1] - 2);
        let mut i: usize = 4;
        while i < diff.len()
            invariant
                4 <= i <= diff@.len(),
                d@ == seq![diff@[0], (diff@[1] - 2) as i16] + diff@.subrange(4, i as int),
            decreases diff@.len() - i,
        {
            d.push(diff[i]);
            i = i + 1;
            assert(d@ =~= seq![diff@[0], (diff@[1] - 2) as i16] + diff@.subrange(4, i as int));
        }
        Some(d)
    } else {
        let mut d = diff.clone();
        assert(d@ =~= diff@);
        if d.len() > 0 {
            if d[0] < i16::MIN + 2 {
                return None;
            }
            let h = d[0] - 2;
            d.set(0, h);
        }
        Some(d)
    }
}

/// The state a game starts from: the local general where the update puts
/// it, the board outside the playfield padded. `None` where the update
/// names no cell for this player's general.
pub fn start_state(player_index: u8, generals: &Vec<i64>, field: Playfield) -> (r: Option<GameState>)
    requires
        field.wf(),
    ensures
        match r {
            Some(s) => s.wf() && player_index < PLAYER_COUNT && player_index < generals@.len() && generals@[player_index as int] >= 0
                && s@ == padded(GameView::initial(player_index, field.cell_of(generals@[player_index as int] as int)), field),
            None => player_index >= PLAYER_COUNT || player_index >= generals@.len() || generals@[player_index as int] < 0,
        },
{
    if player_index as usize >= PLAYER_COUNT || player_index as usize >= generals.len() {
        return None;
    }
    let g = generals[player_index as usize];
    if g < 0 {
        return None;
    }
    let l = field_cell(field, g as u64);
    let s = GameState::new(player_index, l);
    Some(s.pad_outside(field))
}

} // verus!
