use vstd::prelude::*;

use crate::utils::{abs_diff, get_neighbors, manhattan, manhattan_distance, neighbor_seq, Location};

verus! {

pub type PlayerId = u8;

/// Columns of the (padded) board.
pub const BOARD_W: usize = 25;

/// Rows of the (padded) board.
pub const BOARD_H: usize = 25;

/// Cells of the board.
pub const BOARD_CELLS: usize = 625;

/// Players of a game.
pub const PLAYER_COUNT: usize = 2;

/// Turn at which a game is treated as over.
pub const MAX_TURNS: u64 = 125;

/// Largest population a tile may hold: kept well below what `u16` can
/// represent.
pub const POPULATION_CAP: u16 = 65520;

/// What a state update can fail with; no partial state is ever returned.
#[derive(Clone, Copy, PartialEq, Eq, Debug, Structural)]
pub enum StateError {
    /// A tile was to change hands to the player that already holds it.
    InvalidTransition,
    /// A tile population would leave `0..=POPULATION_CAP`.
    PopulationOverflow,
    /// A per-player total, a visibility counter or the turn counter would
    /// leave the range of its type.
    CounterOutOfRange,
}

#[derive(Clone, Copy, PartialEq, Eq, Debug, Hash, Structural)]
pub enum TileType {
    VisibleEmpty,
    AssumedEmpty,
    OwnedTile,
    OwnedGeneral,
    OwnedCity,
    Enemy,
    EnemyCity,
    EnemyGeneral,
    VisibleNeutralCity,
    HiddenNeutralCity,
    VisibleMountain,
    HiddenObstacle,
    Padding,
}

impl TileType {
    pub open spec fn spec_is_visible(self) -> bool {
        match self {
            TileType::VisibleEmpty | TileType::OwnedTile | TileType::OwnedGeneral
            | TileType::OwnedCity | TileType::Enemy | TileType::EnemyCity
            | TileType::EnemyGeneral | TileType::VisibleNeutralCity
            | TileType::VisibleMountain => true,
            _ => false,
        }
    }

    /// The type once the cell comes into sight.
    pub open spec fn spec_reveal(self) -> TileType {
        match self {
            TileType::AssumedEmpty => TileType::VisibleEmpty,
            TileType::HiddenNeutralCity => TileType::VisibleNeutralCity,
            TileType::HiddenObstacle => TileType::VisibleMountain,
            _ => self,
        }
    }

    /// The type once the cell falls into fog.
    pub open spec fn spec_hide(self) -> TileType {
        match self {
            TileType::VisibleEmpty => TileType::AssumedEmpty,
            TileType::VisibleNeutralCity => TileType::HiddenNeutralCity,
            TileType::VisibleMountain => TileType::HiddenObstacle,
            _ => self,
        }
    }

    /// The type once the local player takes the cell.
    pub open spec fn spec_own(self) -> TileType {
        match self {
            TileType::VisibleEmpty | TileType::AssumedEmpty | TileType::Enemy
            | TileType::VisibleMountain | TileType::HiddenObstacle => TileType::OwnedTile,
            TileType::EnemyCity | TileType::EnemyGeneral | TileType::VisibleNeutralCity
            | TileType::HiddenNeutralCity => TileType::OwnedCity,
            _ => self,
        }
    }

    /// The type once another player takes the cell.
    pub open spec fn spec_lose(self) -> TileType {
        match self {
            TileType::OwnedTile | TileType::VisibleEmpty | TileType::AssumedEmpty => TileType::Enemy,
            TileType::OwnedCity | TileType::OwnedGeneral | TileType::VisibleNeutralCity
            | TileType::HiddenNeutralCity => TileType::EnemyCity,
            _ => self,
        }
    }

    /// Everything but mountains, obstacles and padding.
    pub open spec fn spec_occupiable(self) -> bool {
        match self {
            TileType::VisibleMountain | TileType::HiddenObstacle | TileType::Padding => false,
            _ => true,
        }
    }

    pub open spec fn spec_is_owned(self) -> bool {
        match self {
            TileType::OwnedTile | TileType::OwnedGeneral | TileType::OwnedCity => true,
            _ => false,
        }
    }

    pub open spec fn spec_is_enemy(self) -> bool {
        match self {
            TileType::Enemy | TileType::EnemyCity | TileType::EnemyGeneral => true,
            _ => false,
        }
    }

    /// Cities and generals, which grow every second turn.
    pub open spec fn spec_is_stronghold(self) -> bool {
        match self {
            TileType::OwnedCity | TileType::OwnedGeneral | TileType::EnemyCity
            | TileType::EnemyGeneral => true,
            _ => false,
        }
    }

    pub fn is_visible(&self) -> (r: bool)
        ensures
            r == self.spec_is_visible(),
    {
        match self {
            TileType::VisibleEmpty | TileType::OwnedTile | TileType::OwnedGeneral
            | TileType::OwnedCity | TileType::Enemy | TileType::EnemyCity
            | TileType::EnemyGeneral | TileType::VisibleNeutralCity
            | TileType::VisibleMountain => true,
            _ => false,
        }
    }

    pub fn revealed(&self) -> (r: Self)
        ensures
            r == self.spec_reveal(),
    {
        match self {
            TileType::AssumedEmpty => TileType::VisibleEmpty,
            TileType::HiddenNeutralCity => TileType::VisibleNeutralCity,
            TileType::HiddenObstacle => TileType::VisibleMountain,
            _ => *self,
        }
    }

    pub fn hidden(&self) -> (r: Self)
        ensures
            r == self.spec_hide(),
    {
        match self {
            TileType::VisibleEmpty => TileType::AssumedEmpty,
            TileType::VisibleNeutralCity => TileType::HiddenNeutralCity,
            TileType::VisibleMountain => TileType::HiddenObstacle,
            _ => *self,
        }
    }

    pub fn own(&self) -> (r: Self)
        ensures
            r == self.spec_own(),
    {
        match self {
            TileType::VisibleEmpty | TileType::AssumedEmpty | TileType::Enemy
            | TileType::VisibleMountain | TileType::HiddenObstacle => TileType::OwnedTile,
            TileType::EnemyCity | TileType::EnemyGeneral | TileType::VisibleNeutralCity
            | TileType::HiddenNeutralCity => TileType::OwnedCity,
            _ => *self,
        }
    }

    pub fn lose(&self) -> (r: Self)
        ensures
            r == self.spec_lose(),
    {
        match self {
            TileType::OwnedTile | TileType::VisibleEmpty | TileType::AssumedEmpty => TileType::Enemy,
            TileType::OwnedCity | TileType::OwnedGeneral | TileType::VisibleNeutralCity
            | TileType::HiddenNeutralCity => TileType::EnemyCity,
            _ => *self,
        }
    }

    pub fn occupiable(&self) -> (r: bool)
        ensures
            r == self.spec_occupiable(),
    {
        match self {
            TileType::VisibleMountain | TileType::HiddenObstacle | TileType::Padding => false,
            _ => true,
        }
    }

    pub fn is_owned(&self) -> (r: bool)
        ensures
            r == self.spec_is_owned(),
    {
        match self {
            TileType::OwnedTile | TileType::OwnedGeneral | TileType::OwnedCity => true,
            _ => false,
        }
    }

    pub fn is_enemy(&self) -> (r: bool)
        ensures
            r == self.spec_is_enemy(),
    {
        match self {
            TileType::Enemy | TileType::EnemyCity | TileType::EnemyGeneral => true,
            _ => false,
        }
    }

    pub fn is_stronghold(&self) -> (r: bool)
        ensures
            r == self.spec_is_stronghold(),
    {
        match self {
            TileType::OwnedCity | TileType::OwnedGeneral | TileType::EnemyCity
            | TileType::EnemyGeneral => true,
            _ => false,
        }
    }
}

#[derive(Clone, Copy, PartialEq, Eq, Debug, Hash, Structural)]
pub struct Tile {
    pub tile_type: TileType,
    pub population: u16,
    pub owner: Option<PlayerId>,
}

impl Tile {
    pub fn new(tile_type: TileType, population: u16, owner: Option<PlayerId>) -> (r: Self)
        ensures
            r == (Tile { tile_type, population, owner }),
    {
        Tile { tile_type, population, owner }
    }
}

#[derive(Clone, Copy, PartialEq, Eq, Debug, Hash)]
pub struct MoveCommand {
    pub from: Location,
    pub to: Location,
    /// Move half of the movable units instead of all of them.
    pub half: bool,
}

/// A move as the server names cells: row-major indices of the playfield.
#[derive(Clone, Copy, PartialEq, Eq, Debug, Hash, Structural)]
pub struct SerializedMoveCommand {
    pub from: u64,
    pub to: u64,
    pub half: bool,
}

#[derive(Clone, Copy, PartialEq, Eq, Debug, Hash)]
pub enum GeneralLocation {
    Known(Location),
    Dead(Location),
    Unknown,
}

impl GeneralLocation {
    pub open spec fn spec_location(self) -> Location {
        match self {
            GeneralLocation::Known(l) => l,
            GeneralLocation::Dead(l) => l,
            GeneralLocation::Unknown => (0, 0),
        }
    }

    pub fn unwrap_location(&self) -> (r: Location)
        requires
            !(self is Unknown),
        ensures
            r == self.spec_location(),
    {
        match self {
            GeneralLocation::Known(location) => *location,
            GeneralLocation::Dead(location) => *location,
            GeneralLocation::Unknown => (0, 0),
        }
    }
}

/// A tile is held by nobody or by one of the players.
pub open spec fn valid_owner(t: Tile) -> bool {
    t.owner matches Some(o) ==> o < PLAYER_COUNT
}

/// A tile whose type follows its visibility counter: hidden at zero,
/// revealed otherwise.
pub open spec fn sighted(t: Tile, fog: int) -> Tile {
    Tile {
        tile_type: if fog == 0 {
            t.tile_type.spec_hide()
        } else {
            t.tile_type.spec_reveal()
        },
        ..t
    }
}

pub open spec fn in_board(l: Location) -> bool {
    l.0 < BOARD_W && l.1 < BOARD_H
}

/// Position of a cell in the row-major tile sequence.
pub open spec fn cell(l: Location) -> int {
    l.0 as int * BOARD_H as int + l.1 as int
}

pub open spec fn col_of(i: int) -> int {
    i / BOARD_H as int
}

pub open spec fn row_of(i: int) -> int {
    i % BOARD_H as int
}

/// The cell at position `i` of the tile sequence.
pub open spec fn loc_of(i: int) -> Location {
    ((i / BOARD_H as int) as usize, (i % BOARD_H as int) as usize)
}

/// Whether cell index `i` lies in the 3x3 window centred on `l`.
pub open spec fn in_window(l: Location, i: int) -> bool {
    abs_diff(col_of(i), l.0 as int) <= 1 && abs_diff(row_of(i), l.1 as int) <= 1
}

/// The mathematical content of a game state.
pub struct GameView {
    pub turn: u64,
    pub max_turn: u64,
    pub player_id: PlayerId,
    pub tiles: Seq<Tile>,
    pub fog_mask: Seq<u8>,
    pub lands: Seq<u16>,
    pub armies: Seq<u16>,
    pub city_count: Seq<u16>,
    pub general_revealed_to: Seq<bool>,
    pub generals: Seq<GeneralLocation>,
}

impl GameView {
    pub open spec fn wf(self) -> bool {
        &&& self.tiles.len() == BOARD_CELLS
        &&& self.fog_mask.len() == BOARD_CELLS
        &&& self.lands.len() == PLAYER_COUNT
        &&& self.armies.len() == PLAYER_COUNT
        &&& self.city_count.len() == PLAYER_COUNT
        &&& self.general_revealed_to.len() == PLAYER_COUNT
        &&& self.generals.len() == PLAYER_COUNT
        &&& self.player_id < PLAYER_COUNT
        &&& !(self.generals[self.player_id as int] is Unknown)
        &&& in_board(self.generals[self.player_id as int].spec_location())
        &&& forall|i: int|
            0 <= i < BOARD_CELLS ==> valid_owner(#[trigger] self.tiles[i])
    }

    pub open spec fn tile(self, l: Location) -> Tile {
        self.tiles[cell(l)]
    }

    pub open spec fn own_general(self) -> Location {
        self.generals[self.player_id as int].spec_location()
    }

    /// The state with one tile replaced.
    pub open spec fn with_tile(self, l: Location, t: Tile) -> GameView {
        GameView { tiles: self.tiles.update(cell(l), t), ..self }
    }

    /// Adding `delta` to the population of `l`.
    pub open spec fn population_change(self, l: Location, delta: int) -> Result<
        GameView,
        StateError,
    > {
        let t = self.tile(l);
        let p = t.population + delta;
        if p < 0 || p > POPULATION_CAP {
            Err(StateError::PopulationOverflow)
        } else {
            Ok(self.with_tile(l, Tile { population: p as u16, ..t }))
        }
    }

    /// Whether the local player gains or loses sight through `l` changing
    /// hands to `new_owner`.
    pub open spec fn sight_changes(self, l: Location, new_owner: PlayerId) -> bool {
        self.tile(l).owner == Some(self.player_id) || new_owner == self.player_id
    }

    /// +1 to every counter of the window when the local player takes a
    /// cell, -1 when it loses one.
    pub open spec fn sight_delta(self, l: Location) -> int {
        if self.tile(l).owner == Some(self.player_id) {
            -1
        } else {
            1
        }
    }

    pub open spec fn new_fog(self, l: Location, new_owner: PlayerId, i: int) -> int {
        if self.sight_changes(l, new_owner) && in_window(l, i) {
            self.fog_mask[i] + self.sight_delta(l)
        } else {
            self.fog_mask[i] as int
        }
    }

    pub open spec fn new_lands(self, l: Location, new_owner: PlayerId, p: int) -> int {
        self.lands[p] - (if self.tile(l).owner == Some(p as PlayerId) {
            1int
        } else {
            0
        }) + (if p == new_owner {
            1int
        } else {
            0
        })
    }

    /// Why `l` cannot change hands to `new_owner`, if it cannot.
    pub open spec fn ownership_error(self, l: Location, new_owner: PlayerId) -> Option<StateError> {
        if self.tile(l).owner == Some(new_owner) {
            Some(StateError::InvalidTransition)
        } else if exists|p: int|
            0 <= p < PLAYER_COUNT && !(0 <= #[trigger] self.new_lands(l, new_owner, p)
                <= u16::MAX) {
            Some(StateError::CounterOutOfRange)
        } else if exists|i: int|
            0 <= i < BOARD_CELLS && !(0 <= #[trigger] self.new_fog(l, new_owner, i) <= u8::MAX) {
            Some(StateError::CounterOutOfRange)
        } else {
            None
        }
    }

    /// `l` passes to `new_owner` with `population` units: land counts move,
    /// the type turns to the local player's side or away from it, and the
    /// visibility counters of the 3x3 window follow, each cell hidden where
    /// its counter is zero and revealed elsewhere.
    pub open spec fn ownership_changed(self, l: Location, new_owner: PlayerId, population: u16) -> GameView {
        let placed = self.placed_tiles(l, new_owner, population);
        GameView {
            lands: Seq::new(self.lands.len(), |p: int| self.new_lands(l, new_owner, p) as u16),
            fog_mask: Seq::new(self.fog_mask.len(), |i: int| self.new_fog(l, new_owner, i) as u8),
            tiles: Seq::new(
                self.tiles.len(),
                |i: int|
                    if self.sight_changes(l, new_owner) && in_window(l, i) {
                        sighted(placed[i], self.new_fog(l, new_owner, i))
                    } else {
                        placed[i]
                    },
            ),
            ..self
        }
    }

    /// The tiles with `l` handed to `new_owner`, before visibility follows.
    pub open spec fn placed_tiles(self, l: Location, new_owner: PlayerId, population: u16) -> Seq<Tile> {
        let t = self.tile(l);
        let base_type = if new_owner == self.player_id {
            t.tile_type.spec_own()
        } else {
            t.tile_type.spec_lose()
        };
        self.tiles.update(cell(l), Tile { tile_type: base_type, population, owner: Some(new_owner) })
    }

    pub open spec fn ownership_change(self, l: Location, new_owner: PlayerId, population: u16) -> Result<
        GameView,
        StateError,
    > {
        match self.ownership_error(l, new_owner) {
            Some(e) => Err(e),
            None => Ok(self.ownership_changed(l, new_owner, population)),
        }
    }

    /// Size of the army assumed on an unseen cell an opponent moves from:
    /// 0.8 x its army surplus over land (zero when there is none), rounded
    /// to the nearest integer.
    pub open spec fn phantom_size(self, p: PlayerId) -> int {
        let surplus = if self.armies[p as int] > self.lands[p as int] {
            self.armies[p as int] - self.lands[p as int]
        } else {
            0
        };
        (surplus * 4 + 2) / 5
    }

    pub open spec fn with_phantom(self, cmd: MoveCommand, p: PlayerId, is_inferred: bool) -> GameView {
        if is_inferred && self.tile(cmd.from).owner is None {
            self.with_tile(
                cmd.from,
                Tile { tile_type: TileType::Enemy, population: self.phantom_size(p) as u16, owner: Some(p) },
            )
        } else {
            self
        }
    }

    /// After a capture of `to` by `p`, whose tile was `captured` before: a
    /// general there is dead, and an opponent that lands next to the local
    /// general has seen it.
    pub open spec fn after_capture(self, to: Location, p: PlayerId, captured: Tile) -> GameView {
        let v1 = if captured.tile_type is EnemyGeneral || captured.tile_type is OwnedGeneral {
            match captured.owner {
                Some(o) => GameView {
                    generals: self.generals.update(o as int, GeneralLocation::Dead(to)),
                    ..self
                },
                None => self,
            }
        } else {
            self
        };
        if p != v1.player_id && manhattan(to, v1.own_general()) <= 1 {
            GameView { general_revealed_to: v1.general_revealed_to.update(p as int, true), ..v1 }
        } else {
            v1
        }
    }

    /// Both sides of a fight lose what evaporated from their army totals.
    pub open spec fn settle_armies(self, p: PlayerId, defender: Option<PlayerId>, evaporated: int) -> Result<GameView, StateError> {
        if self.armies[p as int] < evaporated || (defender matches Some(o) && self.armies[o as int] < evaporated) {
            Err(StateError::CounterOutOfRange)
        } else {
            Ok(GameView {
                armies: Seq::new(
                    self.armies.len(),
                    |q: int|
                        if q == p || defender == Some(q as PlayerId) {
                            (self.armies[q] - evaporated) as u16
                        } else {
                            self.armies[q]
                        },
                ),
                ..self
            })
        }
    }

    /// Whether `cmd` leaves the state as it is: its two tiles are equal,
    /// or the game is over.
    pub open spec fn command_is_noop(self, cmd: MoveCommand, p: PlayerId, is_inferred: bool) -> bool {
        let v1 = self.with_phantom(cmd, p, is_inferred);
        v1.tile(cmd.from) == v1.tile(cmd.to) || self.turn >= self.max_turn
    }

    /// Units that leave the source tile.
    pub open spec fn moving(self, cmd: MoveCommand, p: PlayerId, is_inferred: bool) -> int {
        let pop = self.with_phantom(cmd, p, is_inferred).tile(cmd.from).population - 1;
        if cmd.half {
            pop / 2
        } else {
            pop
        }
    }

    /// Units lost by both sides when `cmd` attacks; zero for a
    /// reinforcement.
    pub open spec fn evaporated(self, cmd: MoveCommand, p: PlayerId, is_inferred: bool) -> int {
        let target = self.with_phantom(cmd, p, is_inferred).tile(cmd.to);
        let m = self.moving(cmd, p, is_inferred);
        if target.owner == Some(p) {
            0
        } else if m > target.population {
            target.population as int
        } else {
            m
        }
    }

    /// The combat rule: `p` moves units from `cmd.from` to `cmd.to`,
    /// reinforcing its own tile or attacking another one.
    pub open spec fn command_result(self, cmd: MoveCommand, p: PlayerId, is_inferred: bool) -> Result<GameView, StateError> {
        let v1 = self.with_phantom(cmd, p, is_inferred);
        let ft = v1.tile(cmd.from);
        let tt = v1.tile(cmd.to);
        let m = self.moving(cmd, p, is_inferred);
        if self.command_is_noop(cmd, p, is_inferred) {
            Ok(v1)
        } else if ft.population == 0 {
            Err(StateError::PopulationOverflow)
        } else {
            match v1.population_change(cmd.from, -m) {
                Err(e) => Err(e),
                Ok(v2) => if tt.owner == Some(p) {
                    v2.population_change(cmd.to, m)
                } else if m > tt.population {
                    match v2.ownership_change(cmd.to, p, (m - tt.population) as u16) {
                        Err(e) => Err(e),
                        Ok(v3) => v3.after_capture(cmd.to, p, tt).settle_armies(p, tt.owner, tt.population as int),
                    }
                } else {
                    match v2.population_change(cmd.to, -m) {
                        Err(e) => Err(e),
                        Ok(v3) => v3.settle_armies(p, tt.owner, m),
                    }
                },
            }
        }
    }

    /// Tiles that gain a unit this turn: held cities and generals on even
    /// turns, every held tile on each 50th turn.
    pub open spec fn grows(self, t: Tile) -> bool {
        t.owner is Some && ((t.tile_type.spec_is_stronghold() && self.turn % 2 == 0) || self.turn % 50 == 0)
    }

    /// What each player's army total gains this turn: its cities on
    /// ordinary even turns, its land on each 50th turn.
    pub open spec fn army_bonus(self, q: int) -> int {
        if self.turn % 50 == 0 {
            self.lands[q] as int
        } else if self.turn % 2 == 0 {
            self.city_count[q] as int
        } else {
            0
        }
    }

    pub open spec fn growth(self) -> Result<GameView, StateError> {
        if exists|i: int| 0 <= i < BOARD_CELLS && self.grows(#[trigger] self.tiles[i]) && self.tiles[i].population + 1 > POPULATION_CAP {
            Err(StateError::PopulationOverflow)
        } else if exists|q: int| 0 <= q < PLAYER_COUNT && #[trigger] self.armies[q] + self.army_bonus(q) > u16::MAX {
            Err(StateError::CounterOutOfRange)
        } else {
            Ok(GameView {
                tiles: Seq::new(
                    self.tiles.len(),
                    |i: int|
                        if self.grows(self.tiles[i]) {
                            Tile { population: (self.tiles[i].population + 1) as u16, ..self.tiles[i] }
                        } else {
                            self.tiles[i]
                        },
                ),
                armies: Seq::new(self.armies.len(), |q: int| (self.armies[q] + self.army_bonus(q)) as u16),
                ..self
            })
        }
    }

    /// One more tile of land for `p`, with no change on the board.
    pub open spec fn land_added(self, p: PlayerId) -> Result<GameView, StateError> {
        if self.lands[p as int] == u16::MAX {
            Err(StateError::CounterOutOfRange)
        } else {
            Ok(GameView { lands: self.lands.update(p as int, (self.lands[p as int] + 1) as u16), ..self })
        }
    }

    /// One authoritative turn: the turn counter advances, the local player's
    /// command is applied, then the economy grows.
    pub open spec fn tick_result(self, cmd: MoveCommand) -> Result<GameView, StateError> {
        if self.turn == u64::MAX {
            Err(StateError::CounterOutOfRange)
        } else {
            match (GameView { turn: (self.turn + 1) as u64, ..self }).command_result(cmd, self.player_id, false) {
                Err(e) => Err(e),
                Ok(v) => v.growth(),
            }
        }
    }

    /// A move of the local player that is worth searching: from a held tile
    /// with more than one unit to an occupiable neighbour that it would
    /// beat, or that it already holds, or with more than five units.
    pub open spec fn productive(self, from: Location, to: Location) -> bool {
        let a = self.tile(from);
        let b = self.tile(to);
        &&& a.owner == Some(self.player_id)
        &&& a.population > 1
        &&& b.tile_type.spec_occupiable()
        &&& (a.population > b.population + 1 || b.owner == a.owner || a.population > 5)
    }

    pub open spec fn is_candidate(self, m: MoveCommand) -> bool {
        &&& in_board(m.from)
        &&& in_board(m.to)
        &&& neighbor_seq(m.from, BOARD_W, BOARD_H).contains(m.to)
        &&& !m.half
        &&& self.productive(m.from, m.to)
    }

    /// Order in which candidate moves are searched: stronger first.
    pub open spec fn priority(self, m: MoveCommand) -> int {
        self.tile(m.from).population + self.tile(m.to).population
    }

    /// Staying on the own general: the move made when nothing else is.
    pub open spec fn noop_move(self) -> MoveCommand {
        MoveCommand { from: self.own_general(), to: self.own_general(), half: false }
    }

    /// The state a new game starts from, before its general is placed.
    pub open spec fn blank(player_id: PlayerId, own_general: Location) -> GameView {
        GameView {
            turn: 0,
            max_turn: MAX_TURNS,
            player_id,
            tiles: Seq::new(BOARD_CELLS as nat, |i: int| Tile { tile_type: TileType::AssumedEmpty, population: 0, owner: None }),
            fog_mask: Seq::new(BOARD_CELLS as nat, |i: int| 0u8),
            lands: Seq::new(PLAYER_COUNT as nat, |i: int| 0u16),
            armies: Seq::new(PLAYER_COUNT as nat, |i: int| 1u16),
            city_count: Seq::new(PLAYER_COUNT as nat, |i: int| 1u16),
            general_revealed_to: Seq::new(PLAYER_COUNT as nat, |i: int| i == player_id),
            generals: Seq::new(PLAYER_COUNT as nat, |i: int| if i == player_id { GeneralLocation::Known(own_general) } else { GeneralLocation::Unknown }),
        }
    }

    /// A new game: the local general holds one unit and is the only tile
    /// taken; its 3x3 window is in sight.
    pub open spec fn initial(player_id: PlayerId, own_general: Location) -> GameView {
        GameView::blank(player_id, own_general).ownership_changed(own_general, player_id, 1).with_tile(
            own_general,
            Tile { tile_type: TileType::OwnedGeneral, population: 1, owner: Some(player_id) },
        )
    }
}

/// What `get_possible_commands` promises of its result for state `v`.
pub open spec fn is_command_list(v: GameView, r: Seq<MoveCommand>) -> bool {
    &&& (exists|m: MoveCommand| v.is_candidate(m)) ==> (forall|i: int| 0 <= i < r.len() ==> v.is_candidate(#[trigger] r[i]))
    &&& (exists|m: MoveCommand| v.is_candidate(m)) ==> (forall|m: MoveCommand| v.is_candidate(m) ==> r.contains(m))
    &&& !(exists|m: MoveCommand| v.is_candidate(m)) ==> r == seq![v.noop_move()]
    &&& forall|i: int, j: int| 0 <= i < j < r.len() ==> v.priority(r[i]) >= v.priority(r[j])
    &&& r.no_duplicates()
}

pub open spec fn alive(g: GeneralLocation) -> bool {
    !(g is Dead)
}

/// Number of generals not yet captured.
pub open spec fn count_alive(gs: Seq<GeneralLocation>) -> nat
    decreases gs.len(),
{
    if gs.len() == 0 {
        0
    } else {
        count_alive(gs.drop_last()) + if alive(gs.last()) {
            1nat
        } else {
            0
        }
    }
}

/// With two players, the count of standing generals is taken one by one.
pub proof fn lemma_count_alive_pair(gs: Seq<GeneralLocation>)
    requires
        gs.len() == 2,
    ensures
        count_alive(gs) == (if alive(gs[0]) { 1nat } else { 0 }) + (if alive(gs[1]) { 1nat } else { 0 }),
{
    let d = gs.drop_last();
    assert(d.drop_last() =~= Seq::<GeneralLocation>::empty());
    assert(count_alive(d.drop_last()) == 0);
    assert(d.last() == gs[0]);
    assert(count_alive(d) == (if alive(gs[0]) { 1nat } else { 0 }));
    assert(gs.last() == gs[1]);
}

pub open spec fn sorted_desc(s: Seq<u32>) -> bool {
    forall|i: int, j: int| 0 <= i < j < s.len() ==> s[i] >= s[j]
}

fn insert_sorted(r: &mut Vec<MoveCommand>, keys: &mut Vec<u32>, m: MoveCommand, k: u32) -> (pos: usize)
    requires
        old(keys)@.len() == old(r)@.len(),
        sorted_desc(old(keys)@),
    ensures
        pos <= old(r)@.len(),
        final(r)@ == old(r)@.insert(pos as int, m),
        final(keys)@ == old(keys)@.insert(pos as int, k),
        sorted_desc(final(keys)@),
{
    let mut pos: usize = 0;
    while pos < keys.len() && keys[pos] >= k
        invariant
            pos <= keys@.len(),
            forall|j: int| 0 <= j < pos ==> keys@[j] >= k,
        decreases keys@.len() - pos,
    {
        pos = pos + 1;
    }
    let ghost old_keys = keys@;
    r.insert(pos, m);
    keys.insert(pos, k);
    proof {
        old_keys.insert_ensures(pos as int, k);
        assert forall|i: int, j: int| 0 <= i < j < keys@.len() implies keys@[i] >= keys@[j] by {
            if j < pos {
            } else if j == pos {
            } else if i < pos {
                assert(keys@[j] == old_keys[j - 1]);
            } else if i == pos {
                assert(keys@[j] == old_keys[j - 1]);
                assert(old_keys[pos as int] < k);
            } else {
                assert(keys@[i] == old_keys[i - 1]);
                assert(keys@[j] == old_keys[j - 1]);
            }
        }
    }
    pos
}

fn same_owner(a: Option<PlayerId>, b: Option<PlayerId>) -> (r: bool)
    ensures
        r == (a == b),
{
    match (a, b) {
        (Some(x), Some(y)) => x == y,
        (None, None) => true,
        _ => false,
    }
}

/// What std's `DefaultHasher` makes of the hashed part of a state.
pub uninterp spec fn hash_of_state(turn: u64, tiles: Seq<Tile>, lands: Seq<u16>, armies: Seq<u16>, generals: Seq<GeneralLocation>, revealed: Seq<bool>) -> u64;

/// Relies on `std::hash::BuildHasher::hash_one` with `DefaultHasher`
/// (fixed keys): the hash depends on the hashed values alone.
#[verifier::external_body]
fn hash_parts(turn: u64, tiles: &Vec<Tile>, lands: &Vec<u16>, armies: &Vec<u16>, generals: &Vec<GeneralLocation>, revealed: &Vec<bool>) -> (r: u64)
    ensures
        r == hash_of_state(turn, tiles@, lands@, armies@, generals@, revealed@),
{
    let b = std::hash::BuildHasherDefault::<std::collections::hash_map::DefaultHasher>::default();
    std::hash::BuildHasher::hash_one(&b, (turn, tiles, lands, armies, generals, revealed))
}

pub open spec fn result_view(r: Result<GameState, StateError>) -> Result<GameView, StateError> {
    match r {
        Ok(s) => Ok(s@),
        Err(e) => Err(e),
    }
}

/// The whole game as the local player knows it.
#[derive(Clone, Debug)]
pub struct GameState {
    pub turn: u64,
    pub max_turn: u64,
    pub player_id: PlayerId,
    pub tiles: Vec<Tile>,
    pub fog_mask: Vec<u8>,
    pub lands: Vec<u16>,
    pub armies: Vec<u16>,
    pub city_count: Vec<u16>,
    pub general_revealed_to: Vec<bool>,
    pub generals: Vec<GeneralLocation>,
}

impl View for GameState {
    type V = GameView;

    open spec fn view(&self) -> GameView {
        GameView {
            turn: self.turn,
            max_turn: self.max_turn,
            player_id: self.player_id,
            tiles: self.tiles@,
            fog_mask: self.fog_mask@,
            lands: self.lands@,
            armies: self.armies@,
            city_count: self.city_count@,
            general_revealed_to: self.general_revealed_to@,
            generals: self.generals@,
        }
    }
}

/// A cell of the board sits at its own position of the tile sequence.
pub proof fn lemma_cell_coords(l: Location)
    requires
        in_board(l),
    ensures
        0 <= cell(l) < BOARD_CELLS,
        col_of(cell(l)) == l.0,
        row_of(cell(l)) == l.1,
{
}

/// The neighbours of a cell of the board lie on the board.
pub proof fn lemma_neighbors_in_board(l: Location)
    requires
        in_board(l),
    ensures
        forall|j: int| 0 <= j < neighbor_seq(l, BOARD_W, BOARD_H).len() ==> in_board(#[trigger] neighbor_seq(l, BOARD_W, BOARD_H)[j]),
{
}

/// The neighbours of a cell are distinct.
pub proof fn lemma_neighbors_distinct(l: Location)
    requires
        in_board(l),
    ensures
        neighbor_seq(l, BOARD_W, BOARD_H).no_duplicates(),
{
}

/// Moves leave the turn counters and the acting player as they are.
pub proof fn lemma_command_keeps_turn(v: GameView, cmd: MoveCommand, p: PlayerId, is_inferred: bool)
    ensures
        v.command_result(cmd, p, is_inferred) matches Ok(w) ==> w.turn == v.turn && w.max_turn
            == v.max_turn && w.player_id == v.player_id,
{
}

/// A turn advances the turn counter by one and keeps the rest of the
/// bookkeeping identity.
pub proof fn lemma_tick_turn(v: GameView, cmd: MoveCommand)
    ensures
        v.tick_result(cmd) matches Ok(w) ==> w.turn == v.turn + 1 && w.max_turn == v.max_turn
            && w.player_id == v.player_id,
{
    lemma_command_keeps_turn(GameView { turn: (v.turn + 1) as u64, ..v }, cmd, v.player_id, false);
}

/// Every move of a command list lies on the board, and there is one.
pub proof fn lemma_command_list_on_board(v: GameView, r: Seq<MoveCommand>)
    requires
        v.wf(),
        is_command_list(v, r),
    ensures
        r.len() > 0,
        forall|j: int| 0 <= j < r.len() ==> in_board(#[trigger] r[j].from) && in_board(r[j].to),
{
    if exists|m: MoveCommand| v.is_candidate(m) {
        let m = choose|m: MoveCommand| v.is_candidate(m);
        assert(r.contains(m));
        assert forall|j: int| 0 <= j < r.len() implies in_board(#[trigger] r[j].from) && in_board(r[j].to) by {
            assert(v.is_candidate(r[j]));
        }
    } else {
        assert(r == seq![v.noop_move()]);
        assert(r[0] == v.noop_move());
    }
}

/// A population change keeps a state well formed.
pub proof fn lemma_population_change_wf(v: GameView, l: Location, delta: int)
    requires
        v.wf(),
        in_board(l),
    ensures
        v.population_change(l, delta) matches Ok(w) ==> w.wf(),
{
    if let Ok(w) = v.population_change(l, delta) {
        assert forall|i: int| 0 <= i < BOARD_CELLS implies valid_owner(#[trigger] w.tiles[i]) by {
            assert(valid_owner(v.tiles[i]));
        }
    }
}

proof fn lemma_index_coords(i: int)
    requires
        0 <= i < BOARD_CELLS,
    ensures
        0 <= col_of(i) < BOARD_W,
        0 <= row_of(i) < BOARD_H,
        i == cell((col_of(i) as usize, row_of(i) as usize)),
{
}

fn cell_index(l: Location) -> (r: usize)
    requires
        in_board(l),
    ensures
        r == cell(l),
        r < BOARD_CELLS,
        col_of(r as int) == l.0,
        row_of(r as int) == l.1,
{
    proof {
        lemma_cell_coords(l);
    }
    l.0 * BOARD_H + l.1
}

impl GameState {
    pub open spec fn wf(&self) -> bool {
        self@.wf()
    }

    /// A copy whose content is known to equal this one's.
    pub fn clone_state(&self) -> (r: Self)
        ensures
            r@ == self@,
    {
        let r = GameState {
            turn: self.turn,
            max_turn: self.max_turn,
            player_id: self.player_id,
            tiles: self.tiles.clone(),
            fog_mask: self.fog_mask.clone(),
            lands: self.lands.clone(),
            armies: self.armies.clone(),
            city_count: self.city_count.clone(),
            general_revealed_to: self.general_revealed_to.clone(),
            generals: self.generals.clone(),
        };
        assert(r.tiles@ =~= self.tiles@);
        assert(r.fog_mask@ =~= self.fog_mask@);
        assert(r.lands@ =~= self.lands@);
        assert(r.armies@ =~= self.armies@);
        assert(r.city_count@ =~= self.city_count@);
        assert(r.general_revealed_to@ =~= self.general_revealed_to@);
        assert(r.generals@ =~= self.generals@);
        r
    }

    pub fn player_id(&self) -> (r: PlayerId)
        ensures
            r == self@.player_id,
    {
        self.player_id
    }

    pub fn get_own_general(&self) -> (r: Location)
        requires
            self.wf(),
        ensures
            r == self@.own_general(),
            in_board(r),
    {
        self.generals[self.player_id as usize].unwrap_location()
    }

    pub fn get_tile(&self, location: Location) -> (r: &Tile)
        requires
            self.wf(),
            in_board(location),
        ensures
            *r == self@.tile(location),
    {
        &self.tiles[cell_index(location)]
    }

    /// The visibility counter of a cell: zero means hidden.
    pub fn fog_at(&self, location: Location) -> (r: u8)
        requires
            self.wf(),
            in_board(location),
        ensures
            r == self@.fog_mask[cell(location)],
    {
        self.fog_mask[cell_index(location)]
    }

    /// The state with the tile at `location` replaced.
    pub fn update_tile(&self, location: Location, tile: Tile) -> (r: Self)
        requires
            self.wf(),
            in_board(location),
            valid_owner(tile),
        ensures
            r@ == self@.with_tile(location, tile),
            r.wf(),
    {
        let mut s = self.clone_state();
        let i = cell_index(location);
        s.tiles.set(i, tile);
        s
    }

    /// Adds `pop_delta` to the population of `location`.
    pub fn change_tile_population(&self, location: Location, pop_delta: i32) -> (r: Result<
        Self,
        StateError,
    >)
        requires
            self.wf(),
            in_board(location),
        ensures
            result_view(r) == self@.population_change(location, pop_delta as int),
            r matches Ok(s) ==> s.wf(),
    {
        let t = *self.get_tile(location);
        let p: i64 = t.population as i64 + pop_delta as i64;
        if p < 0 || p > POPULATION_CAP as i64 {
            return Err(StateError::PopulationOverflow);
        }
        Ok(self.update_tile(location, Tile { population: p as u16, ..t }))
    }

    /// Hands `location` to `new_owner` with `new_population` units.
    pub fn change_tile_ownership(&self, location: Location, new_owner: PlayerId, new_population: u16) -> (r: Result<Self, StateError>)
        requires
            self.wf(),
            in_board(location),
            new_owner < PLAYER_COUNT,
        ensures
            result_view(r) == self@.ownership_change(location, new_owner, new_population),
            r matches Ok(s) ==> s.wf(),
    {
        let v = Ghost(self@);
        let t = *self.get_tile(location);
        let same = match t.owner {
            Some(o) => o == new_owner,
            None => false,
        };
        if same {
            return Err(StateError::InvalidTransition);
        }
        let mut s = self.clone_state();
        let mut p: usize = 0;
        while p < PLAYER_COUNT
            invariant
                v@ == self@,
                s@ == (GameView { lands: s@.lands, ..v@ }),
                self.wf(),
                p <= PLAYER_COUNT,
                new_owner < PLAYER_COUNT,
                s.lands@.len() == PLAYER_COUNT,
                t == v@.tile(location),
                t.owner != Some(new_owner),
                forall|q: int| 0 <= q < p ==> 0 <= #[trigger] v@.new_lands(location, new_owner, q) <= u16::MAX,
                forall|q: int| 0 <= q < PLAYER_COUNT ==> #[trigger] s.lands@[q] == if q < p {
                    v@.new_lands(location, new_owner, q) as u16
                } else {
                    v@.lands[q]
                },
            decreases PLAYER_COUNT - p,
        {
            let mut n: i32 = self.lands[p] as i32;
            let held = match t.owner {
                Some(o) => o as usize == p,
                None => false,
            };
            if held {
                n = n - 1;
            }
            if p == new_owner as usize {
                n = n + 1;
            }
            if n < 0 || n > u16::MAX as i32 {
                assert(!(0 <= v@.new_lands(location, new_owner, p as int) <= u16::MAX));
                return Err(StateError::CounterOutOfRange);
            }
            s.lands.set(p, n as u16);
            p = p + 1;
        }
        let won = new_owner == self.player_id;
        let lost = match t.owner {
            Some(o) => o == self.player_id,
            None => false,
        };
        let base_type = if won {
            t.tile_type.own()
        } else {
            t.tile_type.lose()
        };
        let c = cell_index(location);
        s.tiles.set(c, Tile { tile_type: base_type, population: new_population, owner: Some(new_owner) });
        let placed = Ghost(s.tiles@);
        assert(placed@ == v@.placed_tiles(location, new_owner, new_population));
        assert(s.lands@ =~= v@.ownership_changed(location, new_owner, new_population).lands);
        let s1 = Ghost(s@);
        if lost || won {
            let xlo: usize = if location.0 > 0 { location.0 - 1 } else { 0 };
            let xhi: usize = if location.0 + 1 < BOARD_W { location.0 + 1 } else { BOARD_W - 1 };
            let ylo: usize = if location.1 > 0 { location.1 - 1 } else { 0 };
            let yhi: usize = if location.1 + 1 < BOARD_H { location.1 + 1 } else { BOARD_H - 1 };
            let mut x: usize = xlo;
            while x <= xhi
                invariant
                    v@ == self@,
                    self.wf(),
                    in_board(location),
                    v@.sight_changes(location, new_owner),
                    xlo <= x <= xhi + 1,
                    xhi < BOARD_W,
                    ylo <= yhi < BOARD_H,
                    xlo == if location.0 > 0 { location.0 - 1 } else { 0 },
                    xhi == if location.0 + 1 < BOARD_W { location.0 + 1 } else { BOARD_W - 1 },
                    ylo == if location.1 > 0 { location.1 - 1 } else { 0 },
                    yhi == if location.1 + 1 < BOARD_H { location.1 + 1 } else { BOARD_H - 1 },
                    s.tiles@.len() == BOARD_CELLS,
                    s.fog_mask@.len() == BOARD_CELLS,
                    forall|i: int| #![trigger s.tiles@[i]] #![trigger s.fog_mask@[i]] 0 <= i < BOARD_CELLS ==> if in_window(location, i) && col_of(i) < x {
                        &&& 0 <= v@.new_fog(location, new_owner, i) <= u8::MAX
                        &&& s.fog_mask@[i] == v@.new_fog(location, new_owner, i) as u8
                        &&& s.tiles@[i] == sighted(placed@[i], v@.new_fog(location, new_owner, i))
                    } else {
                        &&& s.fog_mask@[i] == v@.fog_mask[i]
                        &&& s.tiles@[i] == placed@[i]
                    },
                    s@ == (GameView { tiles: s@.tiles, fog_mask: s@.fog_mask, ..s1@ }),
                    placed@.len() == BOARD_CELLS,
                    lost == (v@.tile(location).owner == Some(v@.player_id)),
                    t == v@.tile(location),
                    t.owner != Some(new_owner),
                    forall|q: int| 0 <= q < PLAYER_COUNT ==> 0 <= #[trigger] v@.new_lands(location, new_owner, q) <= u16::MAX,
                decreases xhi + 1 - x,
            {
                let mut y: usize = ylo;
                while y <= yhi
                    invariant
                        v@ == self@,
                        self.wf(),
                        in_board(location),
                        v@.sight_changes(location, new_owner),
                        xlo <= x <= xhi,
                        ylo <= y <= yhi + 1,
                        xhi < BOARD_W,
                        yhi < BOARD_H,
                        xlo == if location.0 > 0 { location.0 - 1 } else { 0 },
                        xhi == if location.0 + 1 < BOARD_W { location.0 + 1 } else { BOARD_W - 1 },
                        ylo == if location.1 > 0 { location.1 - 1 } else { 0 },
                        yhi == if location.1 + 1 < BOARD_H { location.1 + 1 } else { BOARD_H - 1 },
                        s.tiles@.len() == BOARD_CELLS,
                        s.fog_mask@.len() == BOARD_CELLS,
                        forall|i: int| #![trigger s.tiles@[i]] #![trigger s.fog_mask@[i]] 0 <= i < BOARD_CELLS ==> if in_window(location, i) && (col_of(i) < x || (col_of(i) == x && row_of(i) < y)) {
                            &&& 0 <= v@.new_fog(location, new_owner, i) <= u8::MAX
                            &&& s.fog_mask@[i] == v@.new_fog(location, new_owner, i) as u8
                            &&& s.tiles@[i] == sighted(placed@[i], v@.new_fog(location, new_owner, i))
                        } else {
                            &&& s.fog_mask@[i] == v@.fog_mask[i]
                            &&& s.tiles@[i] == placed@[i]
                        },
                        s@ == (GameView { tiles: s@.tiles, fog_mask: s@.fog_mask, ..s1@ }),
                    placed@.len() == BOARD_CELLS,
                    lost == (v@.tile(location).owner == Some(v@.player_id)),
                    t == v@.tile(location),
                    t.owner != Some(new_owner),
                    forall|q: int| 0 <= q < PLAYER_COUNT ==> 0 <= #[trigger] v@.new_lands(location, new_owner, q) <= u16::MAX,
                    decreases yhi + 1 - y,
                {
                    let k = cell_index((x, y));
                    assert(in_window(location, k as int));
                    let f: i32 = if lost {
                        self.fog_mask[k] as i32 - 1
                    } else {
                        self.fog_mask[k] as i32 + 1
                    };
                    assert(f == v@.new_fog(location, new_owner, k as int));
                    if f < 0 || f > u8::MAX as i32 {
                        assert(!(0 <= v@.new_fog(location, new_owner, k as int) <= u8::MAX));
                        return Err(StateError::CounterOutOfRange);
                    }
                    let old_tile = s.tiles[k];
                    let tt = if f == 0 {
                        old_tile.tile_type.hidden()
                    } else {
                        old_tile.tile_type.revealed()
                    };
                    s.fog_mask.set(k, f as u8);
                    s.tiles.set(k, Tile { tile_type: tt, ..old_tile });
                    y = y + 1;
                }
                x = x + 1;
            }
            assert forall|i: int| 0 <= i < BOARD_CELLS implies 0 <= #[trigger] v@.new_fog(location, new_owner, i) <= u8::MAX by {
                if in_window(location, i) {
                    lemma_index_coords(i);
                    assert(x == xhi + 1);
                    assert(col_of(i) <= location.0 + 1);
                    assert(col_of(i) < x);
                    assert(s.fog_mask@[i] == v@.new_fog(location, new_owner, i) as u8);
                }
            }
        } else {
            assert forall|i: int| 0 <= i < BOARD_CELLS implies 0 <= #[trigger] v@.new_fog(location, new_owner, i) <= u8::MAX by {}
        }
        assert(v@.ownership_error(location, new_owner) is None);
        let ghost w = v@.ownership_changed(location, new_owner, new_population);
        assert(s.lands@ =~= w.lands);
        assert(s.fog_mask@ =~= w.fog_mask);
        assert(s.tiles@ =~= w.tiles);
        assert forall|i: int| 0 <= i < BOARD_CELLS implies valid_owner(#[trigger] s.tiles@[i]) by {
            assert(valid_owner(placed@[i]));
        }
        Ok(s)
    }

    pub fn add_land(&self, p: PlayerId) -> (r: Result<Self, StateError>)
        requires
            self.wf(),
            p < PLAYER_COUNT,
        ensures
            result_view(r) == self@.land_added(p),
            r matches Ok(s) ==> s.wf(),
    {
        if self.lands[p as usize] == u16::MAX {
            return Err(StateError::CounterOutOfRange);
        }
        let mut s = self.clone_state();
        s.lands.set(p as usize, self.lands[p as usize] + 1);
        Ok(s)
    }

    fn phantom_army(&self, p: PlayerId) -> (r: u16)
        requires
            self.wf(),
            p < PLAYER_COUNT,
        ensures
            r == self@.phantom_size(p),
    {
        let a: u32 = self.armies[p as usize] as u32;
        let l: u32 = self.lands[p as usize] as u32;
        let surplus: u32 = if a > l { a - l } else { 0 };
        ((surplus * 4 + 2) / 5) as u16
    }

    fn mark_capture(&mut self, to: Location, p: PlayerId, captured: Tile)
        requires
            old(self).wf(),
            in_board(to),
            p < PLAYER_COUNT,
            valid_owner(captured),
        ensures
            final(self)@ == old(self)@.after_capture(to, p, captured),
            final(self).wf(),
    {
        let is_general = match captured.tile_type {
            TileType::EnemyGeneral | TileType::OwnedGeneral => true,
            _ => false,
        };
        if is_general {
            match captured.owner {
                Some(o) => {
                    self.generals.set(o as usize, GeneralLocation::Dead(to));
                },
                None => {},
            }
        }
        let own = self.get_own_general();
        if p != self.player_id && manhattan_distance(to, own) <= 1 {
            self.general_revealed_to.set(p as usize, true);
        }
    }

    fn settle_armies(&self, p: PlayerId, defender: Option<PlayerId>, evaporated: u16) -> (r: Result<Self, StateError>)
        requires
            self.wf(),
            p < PLAYER_COUNT,
            defender matches Some(o) ==> o < PLAYER_COUNT && o != p,
        ensures
            result_view(r) == self@.settle_armies(p, defender, evaporated as int),
            r matches Ok(s) ==> s.wf(),
    {
        if self.armies[p as usize] < evaporated {
            return Err(StateError::CounterOutOfRange);
        }
        let mut s = self.clone_state();
        s.armies.set(p as usize, self.armies[p as usize] - evaporated);
        match defender {
            Some(o) => {
                if self.armies[o as usize] < evaporated {
                    return Err(StateError::CounterOutOfRange);
                }
                s.armies.set(o as usize, self.armies[o as usize] - evaporated);
            },
            None => {},
        }
        assert(s.armies@ =~= self@.settle_armies(p, defender, evaporated as int)->Ok_0.armies);
        Ok(s)
    }

    /// The combat rule, for `player_id` moving along `cmd`. With
    /// `is_inferred`, a move of an unseen opponent: an unheld source cell
    /// gets an assumed army first.
    pub fn process_command(&self, cmd: &MoveCommand, player_id: PlayerId, is_inferred: bool) -> (r: Result<Self, StateError>)
        requires
            self.wf(),
            in_board(cmd.from),
            in_board(cmd.to),
            player_id < PLAYER_COUNT,
        ensures
            result_view(r) == self@.command_result(*cmd, player_id, is_inferred),
            r matches Ok(s) ==> s.wf(),
    {
        let mut s = self.clone_state();
        if is_inferred && self.get_tile(cmd.from).owner.is_none() {
            let size = self.phantom_army(player_id);
            s = s.update_tile(cmd.from, Tile { tile_type: TileType::Enemy, population: size, owner: Some(player_id) });
        }
        let ft = *s.get_tile(cmd.from);
        let tt = *s.get_tile(cmd.to);
        if ft == tt || self.turn >= self.max_turn {
            return Ok(s);
        }
        if ft.population == 0 {
            return Err(StateError::PopulationOverflow);
        }
        let mut m: u16 = ft.population - 1;
        if cmd.half {
            m = m / 2;
        }
        let s2 = match s.change_tile_population(cmd.from, -(m as i32)) {
            Ok(x) => x,
            Err(e) => return Err(e),
        };
        let reinforce = match tt.owner {
            Some(o) => o == player_id,
            None => false,
        };
        if reinforce {
            return s2.change_tile_population(cmd.to, m as i32);
        }
        assert(valid_owner(tt)) by {
            assert(valid_owner(s@.tiles[cell(cmd.to)]));
        }
        if m > tt.population {
            let mut s3 = match s2.change_tile_ownership(cmd.to, player_id, m - tt.population) {
                Ok(x) => x,
                Err(e) => return Err(e),
            };
            s3.mark_capture(cmd.to, player_id, tt);
            s3.settle_armies(player_id, tt.owner, tt.population)
        } else {
            let s3 = match s2.change_tile_population(cmd.to, -(m as i32)) {
                Ok(x) => x,
                Err(e) => return Err(e),
            };
            s3.settle_armies(player_id, tt.owner, m)
        }
    }

    /// Advances the authoritative state by one turn with the local player's
    /// command.
    pub fn tick(&self, command: &MoveCommand) -> (r: Result<Self, StateError>)
        requires
            self.wf(),
            in_board(command.from),
            in_board(command.to),
        ensures
            result_view(r) == self@.tick_result(*command),
            r matches Ok(s) ==> s.wf(),
    {
        if self.turn == u64::MAX {
            return Err(StateError::CounterOutOfRange);
        }
        let mut s0 = self.clone_state();
        s0.turn = self.turn + 1;
        let s = match s0.process_command(command, self.player_id, false) {
            Ok(x) => x,
            Err(e) => return Err(e),
        };
        s.grow()
    }

    fn grow(&self) -> (r: Result<Self, StateError>)
        requires
            self.wf(),
        ensures
            result_view(r) == self@.growth(),
            r matches Ok(s) ==> s.wf(),
    {
        let v = Ghost(self@);
        let mut g = self.clone_state();
        let every_tile = self.turn % 50 == 0;
        let strongholds = self.turn % 2 == 0;
        let mut i: usize = 0;
        while i < BOARD_CELLS
            invariant
                v@ == self@,
                self.wf(),
                i <= BOARD_CELLS,
                every_tile == (self.turn % 50 == 0),
                strongholds == (self.turn % 2 == 0),
                g.tiles@.len() == BOARD_CELLS,
                g@ == (GameView { tiles: g@.tiles, ..v@ }),
                forall|j: int| 0 <= j < i ==> !(v@.grows(#[trigger] v@.tiles[j]) && v@.tiles[j].population + 1 > POPULATION_CAP),
                forall|j: int| 0 <= j < BOARD_CELLS ==> #[trigger] g.tiles@[j] == if j < i && v@.grows(v@.tiles[j]) {
                    Tile { population: (v@.tiles[j].population + 1) as u16, ..v@.tiles[j] }
                } else {
                    v@.tiles[j]
                },
            decreases BOARD_CELLS - i,
        {
            let t = self.tiles[i];
            if t.owner.is_some() && ((t.tile_type.is_stronghold() && strongholds) || every_tile) {
                if t.population >= POPULATION_CAP {
                    assert(v@.grows(v@.tiles[i as int]));
                    return Err(StateError::PopulationOverflow);
                }
                g.tiles.set(i, Tile { population: t.population + 1, ..t });
            }
            i = i + 1;
        }
        let mut q: usize = 0;
        while q < PLAYER_COUNT
            invariant
                v@ == self@,
                self.wf(),
                q <= PLAYER_COUNT,
                every_tile == (self.turn % 50 == 0),
                strongholds == (self.turn % 2 == 0),
                g.armies@.len() == PLAYER_COUNT,
                g.tiles@.len() == BOARD_CELLS,
                g@ == (GameView { tiles: g@.tiles, armies: g@.armies, ..v@ }),
                forall|j: int| 0 <= j < BOARD_CELLS ==> !(v@.grows(#[trigger] v@.tiles[j]) && v@.tiles[j].population + 1 > POPULATION_CAP),
                forall|j: int| 0 <= j < BOARD_CELLS ==> #[trigger] g.tiles@[j] == if v@.grows(v@.tiles[j]) {
                    Tile { population: (v@.tiles[j].population + 1) as u16, ..v@.tiles[j] }
                } else {
                    v@.tiles[j]
                },
                forall|j: int| 0 <= j < q ==> #[trigger] v@.armies[j] + v@.army_bonus(j) <= u16::MAX,
                forall|j: int| 0 <= j < PLAYER_COUNT ==> #[trigger] g.armies@[j] == if j < q {
                    (v@.armies[j] + v@.army_bonus(j)) as u16
                } else {
                    v@.armies[j]
                },
            decreases PLAYER_COUNT - q,
        {
            let bonus: u16 = if every_tile {
                self.lands[q]
            } else if strongholds {
                self.city_count[q]
            } else {
                0
            };
            assert(bonus == v@.army_bonus(q as int));
            if self.armies[q] as u32 + bonus as u32 > u16::MAX as u32 {
                return Err(StateError::CounterOutOfRange);
            }
            g.armies.set(q, self.armies[q] + bonus);
            q = q + 1;
        }
        let ghost w = v@.growth()->Ok_0;
        assert(g.tiles@ =~= w.tiles);
        assert(g.armies@ =~= w.armies);
        assert forall|j: int| 0 <= j < BOARD_CELLS implies valid_owner(#[trigger] g.tiles@[j]) by {
            assert(valid_owner(v@.tiles[j]));
        }
        Ok(g)
    }

    /// A new game for `player_id`, whose general stands on `own_general`.
    pub fn new(player_id: PlayerId, own_general: Location) -> (r: Self)
        requires
            player_id < PLAYER_COUNT,
            in_board(own_general),
        ensures
            r@ == GameView::initial(player_id, own_general),
            r.wf(),
    {
        let blank_tile = Tile { tile_type: TileType::AssumedEmpty, population: 0, owner: None };
        let mut revealed: Vec<bool> = vec![false; PLAYER_COUNT];
        revealed.set(player_id as usize, true);
        let mut generals: Vec<GeneralLocation> = vec![GeneralLocation::Unknown; PLAYER_COUNT];
        generals.set(player_id as usize, GeneralLocation::Known(own_general));
        let state = GameState {
            turn: 0,
            max_turn: MAX_TURNS,
            player_id,
            tiles: vec![blank_tile; BOARD_CELLS],
            fog_mask: vec![0u8; BOARD_CELLS],
            lands: vec![0u16; PLAYER_COUNT],
            armies: vec![1u16; PLAYER_COUNT],
            city_count: vec![1u16; PLAYER_COUNT],
            general_revealed_to: revealed,
            generals,
        };
        let ghost b = GameView::blank(player_id, own_general);
        assert(state.tiles@ =~= b.tiles);
        assert(state.fog_mask@ =~= b.fog_mask);
        assert(state.lands@ =~= b.lands);
        assert(state.armies@ =~= b.armies);
        assert(state.city_count@ =~= b.city_count);
        assert(state.general_revealed_to@ =~= b.general_revealed_to);
        assert(state.generals@ =~= b.generals);
        assert(state@ == b);
        assert forall|q: int| 0 <= q < PLAYER_COUNT implies 0 <= #[trigger] b.new_lands(own_general, player_id, q) <= u16::MAX by {}
        assert forall|i: int| 0 <= i < BOARD_CELLS implies 0 <= #[trigger] b.new_fog(own_general, player_id, i) <= u8::MAX by {}
        assert(b.ownership_error(own_general, player_id) is None);
        match state.change_tile_ownership(own_general, player_id, 1) {
            Ok(s) => s.update_tile(
                own_general,
                Tile { tile_type: TileType::OwnedGeneral, population: 1, owner: Some(player_id) },
            ),
            Err(_) => unreached(),
        }
    }

    /// A fingerprint of the turn, the board, the tracked totals and the
    /// generals, to tell a predicted state from the real one.
    pub fn get_hash(&self) -> (r: u64)
        ensures
            r == hash_of_state(self@.turn, self@.tiles, self@.lands, self@.armies, self@.generals, self@.general_revealed_to),
    {
        hash_parts(self.turn, &self.tiles, &self.lands, &self.armies, &self.generals, &self.general_revealed_to)
    }

    pub fn tiles(&self) -> (r: &Vec<Tile>)
        ensures
            r@ == self@.tiles,
    {
        &self.tiles
    }

    pub fn generals(&self) -> (r: &Vec<GeneralLocation>)
        ensures
            r@ == self@.generals,
    {
        &self.generals
    }

    pub fn reached_max_turns(&self) -> (r: bool)
        ensures
            r == (self@.turn >= self@.max_turn),
    {
        self.turn >= self.max_turn
    }

    /// The player whose general alone is still standing, if exactly one is.
    pub fn get_winner(&self) -> (r: Option<PlayerId>)
        requires
            self.wf(),
        ensures
            r is Some <==> count_alive(self@.generals) == 1,
            r matches Some(w) ==> w < PLAYER_COUNT && alive(self@.generals[w as int]),
    {
        let ghost gs = self@.generals;
        let mut count: usize = 0;
        let mut last: usize = 0;
        let mut i: usize = 0;
        assert(gs.subrange(0, 0) =~= Seq::<GeneralLocation>::empty());
        while i < self.generals.len()
            invariant
                gs == self@.generals,
                gs.len() == PLAYER_COUNT,
                i <= gs.len(),
                count == count_alive(gs.subrange(0, i as int)),
                count <= i,
                count > 0 ==> last < i && alive(gs[last as int]),
            decreases gs.len() - i,
        {
            assert(gs.subrange(0, i + 1).drop_last() =~= gs.subrange(0, i as int));
            let dead = match self.generals[i] {
                GeneralLocation::Dead(_) => true,
                _ => false,
            };
            if !dead {
                count = count + 1;
                last = i;
            }
            i = i + 1;
        }
        assert(gs.subrange(0, gs.len() as int) =~= gs);
        if count == 1 {
            Some(last as PlayerId)
        } else {
            None
        }
    }

    /// The local player's candidate moves, stronger first; the move that
    /// stays on the own general when there is none.
    pub fn get_possible_commands(&self) -> (r: Vec<MoveCommand>)
        requires
            self.wf(),
        ensures
            is_command_list(self@, r@),
    {
        let v = Ghost(self@);
        let mut r: Vec<MoveCommand> = Vec::new();
        let mut keys: Vec<u32> = Vec::new();
        let mut i: usize = 0;
        while i < BOARD_CELLS
            invariant
                v@ == self@,
                self.wf(),
                i <= BOARD_CELLS,
                keys@.len() == r@.len(),
                sorted_desc(keys@),
                forall|j: int| 0 <= j < r@.len() ==> keys@[j] == v@.priority(#[trigger] r@[j]) && v@.is_candidate(r@[j]),
                forall|m: MoveCommand| v@.is_candidate(m) && cell(m.from) < i ==> #[trigger] r@.contains(m),
                r@.no_duplicates(),
                forall|j: int| 0 <= j < r@.len() ==> cell((#[trigger] r@[j]).from) < i,
            decreases BOARD_CELLS - i,
        {
            let x: usize = i / BOARD_H;
            let y: usize = i % BOARD_H;
            let here: Location = (x, y);
            assert(cell(here) == i);
            let t = self.tiles[i];
            let mine = match t.owner {
                Some(o) => o == self.player_id,
                None => false,
            };
            if mine && t.population > 1 {
                let nbrs = get_neighbors(here, BOARD_W, BOARD_H);
                let mut k: usize = 0;
                while k < nbrs.len()
                    invariant
                        v@ == self@,
                        self.wf(),
                        i < BOARD_CELLS,
                        cell(here) == i,
                        in_board(here),
                        t == v@.tile(here),
                        t.owner == Some(v@.player_id),
                        t.population > 1,
                        nbrs@ == neighbor_seq(here, BOARD_W, BOARD_H),
                        k <= nbrs@.len(),
                        keys@.len() == r@.len(),
                        sorted_desc(keys@),
                        forall|j: int| 0 <= j < r@.len() ==> keys@[j] == v@.priority(#[trigger] r@[j]) && v@.is_candidate(r@[j]),
                        forall|m: MoveCommand| v@.is_candidate(m) && cell(m.from) < i ==> #[trigger] r@.contains(m),
                        r@.no_duplicates(),
                        forall|j: int| 0 <= j < r@.len() ==> cell((#[trigger] r@[j]).from) < i || ((r@[j]).from == here && exists|kk: int| 0 <= kk < k && nbrs@[kk] == r@[j].to),
                        forall|m: MoveCommand, kk: int| 0 <= kk < k && v@.is_candidate(m) && cell(m.from) == i && m.to == #[trigger] nbrs@[kk] ==> #[trigger] r@.contains(m),
                    decreases nbrs@.len() - k,
                {
                    let n = nbrs[k];
                    assert(nbrs@.contains(n));
                    assert(in_board(n));
                    let t2 = *self.get_tile(n);
                    if t2.tile_type.occupiable() && (t.population as u32 > t2.population as u32 + 1 || same_owner(t2.owner, t.owner) || t.population > 5) {
                        let m = MoveCommand { from: here, to: n, half: false };
                        let key: u32 = t.population as u32 + t2.population as u32;
                        assert(v@.is_candidate(m));
                        let ghost old_r = r@;
                        let ghost old_keys = keys@;
                        proof {
                            lemma_neighbors_distinct(here);
                            assert(!old_r.contains(m)) by {
                                if old_r.contains(m) {
                                    let j = choose|j: int| 0 <= j < old_r.len() && old_r[j] == m;
                                    assert(cell(old_r[j].from) == i);
                                    let kk = choose|kk: int| 0 <= kk < k && nbrs@[kk] == old_r[j].to;
                                    assert(nbrs@[kk] == nbrs@[k as int]);
                                }
                            }
                        }
                        let pos = insert_sorted(&mut r, &mut keys, m, key);
                        proof {
                            assert forall|a: int, b: int| 0 <= a < r@.len() && 0 <= b < r@.len() && a != b implies r@[a] != r@[b] by {
                                if a != pos && b != pos {
                                    let oa = if a < pos { a } else { a - 1 };
                                    let ob = if b < pos { b } else { b - 1 };
                                    assert(r@[a] == old_r[oa]);
                                    assert(r@[b] == old_r[ob]);
                                } else if a == pos {
                                    let ob = if b < pos { b } else { b - 1 };
                                    assert(r@[b] == old_r[ob]);
                                } else {
                                    let oa = if a < pos { a } else { a - 1 };
                                    assert(r@[a] == old_r[oa]);
                                }
                            }
                            assert forall|j: int| 0 <= j < r@.len() implies cell((#[trigger] r@[j]).from) < i || ((r@[j]).from == here && exists|kk: int| 0 <= kk < k + 1 && nbrs@[kk] == r@[j].to) by {
                                if j == pos {
                                    assert(nbrs@[k as int] == r@[j].to);
                                } else {
                                    let oj = if j < pos { j } else { j - 1 };
                                    assert(r@[j] == old_r[oj]);
                                }
                            }
                            old_r.insert_ensures(pos as int, m);
                            old_keys.insert_ensures(pos as int, key);
                            assert forall|j: int| 0 <= j < r@.len() implies keys@[j] == v@.priority(#[trigger] r@[j]) && v@.is_candidate(r@[j]) by {
                                if j < pos {
                                } else if j > pos {
                                    assert(r@[j] == old_r[j - 1]);
                                    assert(keys@[j] == old_keys[j - 1]);
                                }
                            }
                            assert forall|mm: MoveCommand| old_r.contains(mm) implies #[trigger] r@.contains(mm) by {
                                let j = choose|j: int| 0 <= j < old_r.len() && old_r[j] == mm;
                                if j < pos {
                                    assert(r@[j] == mm);
                                } else {
                                    assert(r@[j + 1] == mm);
                                }
                            }
                            assert(r@[pos as int] == m);
                            assert(r@.contains(m));
                        }
                    }
                    k = k + 1;
                }
                assert forall|j: int| 0 <= j < r@.len() implies cell((#[trigger] r@[j]).from) < i + 1 by {
                    if !(cell(r@[j].from) < i) {
                        assert(r@[j].from == here);
                    }
                }
                assert forall|m: MoveCommand| v@.is_candidate(m) && cell(m.from) < i + 1 implies #[trigger] r@.contains(m) by {
                    if cell(m.from) == i {
                        let kk = choose|kk: int| 0 <= kk < nbrs@.len() && nbrs@[kk] == m.to;
                        assert(m.to == nbrs@[kk]);
                    }
                }
            } else {
                assert forall|m: MoveCommand| v@.is_candidate(m) && cell(m.from) < i + 1 implies #[trigger] r@.contains(m) by {
                    if cell(m.from) == i {
                        lemma_cell_coords(m.from);
                        assert(m.from == here);
                    }
                }
            }
            i = i + 1;
        }
        if r.len() == 0 {
            proof {
                assert forall|m: MoveCommand| !v@.is_candidate(m) by {
                    if v@.is_candidate(m) {
                        lemma_cell_coords(m.from);
                        assert(r@.contains(m));
                    }
                }
            }
            let g = self.get_own_general();
            r.push(MoveCommand { from: g, to: g, half: false });
            assert(r@ =~= seq![v@.noop_move()]);
        } else {
            assert(v@.is_candidate(r@[0]));
        }
        r
    }
}

} // verus!
