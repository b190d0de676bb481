use generals_bot::state::{
    GameState, GeneralLocation, MoveCommand, StateError, Tile, TileType, BOARD_CELLS, BOARD_H,
};

fn start() -> GameState {
    GameState::new(0, (12, 12))
}

fn held_tiles(s: &GameState) -> usize {
    s.tiles().iter().filter(|t| t.owner.is_some()).count()
}

fn stay(s: &GameState) -> MoveCommand {
    let g = s.get_own_general();
    MoveCommand { from: g, to: g, half: false }
}

#[test]
fn new_game_places_the_general() {
    let s = start();
    assert_eq!(*s.get_tile((12, 12)), Tile::new(TileType::OwnedGeneral, 1, Some(0)));
    assert_eq!(*s.get_tile((11, 13)), Tile::new(TileType::VisibleEmpty, 0, None));
    assert_eq!(*s.get_tile((12, 14)), Tile::new(TileType::AssumedEmpty, 0, None));
    assert_eq!(s.fog_at((13, 11)), 1);
    assert_eq!(s.fog_at((14, 12)), 0);
    assert_eq!(s.lands, vec![1, 0]);
    assert_eq!(s.armies, vec![1, 1]);
    assert_eq!(s.city_count, vec![1, 1]);
    assert_eq!(s.general_revealed_to, vec![true, false]);
    assert_eq!(s.generals()[0], GeneralLocation::Known((12, 12)));
    assert_eq!(s.generals()[1], GeneralLocation::Unknown);
    assert_eq!(s.player_id(), 0);
    assert_eq!(s.turn, 0);
}

#[test]
fn start_offers_only_the_stay_move() {
    let s = start();
    let moves = s.get_possible_commands();
    assert_eq!(moves, vec![MoveCommand { from: (12, 12), to: (12, 12), half: false }]);
}

#[test]
fn odd_turn_tick_grows_nothing() {
    let s = start();
    let next = s.tick(&stay(&s)).unwrap();
    assert_eq!(next.turn, 1);
    assert_eq!(next.armies[0], 1);
    assert_eq!(next.armies, s.armies);
    assert_eq!(next.get_tile((12, 12)).population, 1);
}

#[test]
fn even_turn_tick_grows_strongholds_and_cities_count() {
    let mut s = start();
    s.turn = 1;
    s.city_count = vec![3, 2];
    let next = s.tick(&stay(&s)).unwrap();
    assert_eq!(next.turn, 2);
    assert_eq!(next.get_tile((12, 12)).population, 2);
    assert_eq!(next.armies, vec![4, 3]);
}

#[test]
fn fiftieth_turn_tick_grows_every_held_tile_and_adds_land() {
    let mut s = start();
    s = s.update_tile((12, 13), Tile::new(TileType::Enemy, 4, Some(1)));
    s.lands[1] = 1;
    s = s.update_tile((12, 11), Tile::new(TileType::OwnedTile, 2, Some(0)));
    s.lands[0] = 2;
    s.turn = 49;
    let next = s.tick(&stay(&s)).unwrap();
    assert_eq!(next.turn, 50);
    assert_eq!(next.armies, vec![1 + 2, 1 + 1]);
    assert_eq!(next.get_tile((12, 12)).population, 2);
    assert_eq!(next.get_tile((12, 11)).population, 3);
    assert_eq!(next.get_tile((12, 13)).population, 5);
    assert_eq!(next.get_tile((0, 0)).population, 0);
}

fn city_attack_state() -> GameState {
    let mut s = start();
    s = s.update_tile((12, 13), Tile::new(TileType::VisibleNeutralCity, 40, None));
    s = s.update_tile((12, 12), Tile::new(TileType::OwnedGeneral, 51, Some(0)));
    s.armies[0] = 60;
    s
}

#[test]
fn capturing_a_neutral_city() {
    let s = city_attack_state();
    let cmd = MoveCommand { from: (12, 12), to: (12, 13), half: false };
    let next = s.process_command(&cmd, 0, false).unwrap();
    let city = next.get_tile((12, 13));
    assert_eq!(city.population, 10);
    assert_eq!(city.tile_type, TileType::OwnedCity);
    assert_eq!(city.owner, Some(0));
    assert_eq!(next.get_tile((12, 12)).population, 1);
    assert_eq!(next.armies[0], 20);
    assert_eq!(next.lands[0], 2);
    assert_eq!(next.fog_at((12, 14)), 1);
    assert_eq!(next.fog_at((12, 13)), 2);
    assert_eq!(next.get_tile((13, 14)).tile_type, TileType::VisibleEmpty);
}

#[test]
fn lands_add_up_to_held_tiles_along_a_game() {
    let s = city_attack_state();
    let cmd = MoveCommand { from: (12, 12), to: (12, 13), half: false };
    let a = s.process_command(&cmd, 0, false).unwrap();
    let b = a.tick(&MoveCommand { from: (12, 13), to: (12, 14), half: false }).unwrap();
    for st in [&s, &a, &b] {
        assert_eq!(st.lands[0] as usize + st.lands[1] as usize, held_tiles(st));
    }
    assert_eq!(b.lands[0], 3);
}

#[test]
fn handing_a_tile_over_and_back_restores_the_fog() {
    let s = start();
    let mine = s.change_tile_ownership((12, 13), 0, 3).unwrap();
    let theirs = mine.change_tile_ownership((12, 13), 1, 3).unwrap();
    assert_eq!(theirs.fog_at((12, 14)), 0);
    assert_eq!(theirs.get_tile((12, 14)).tile_type, TileType::AssumedEmpty);
    let back = theirs.change_tile_ownership((12, 13), 0, 7).unwrap();
    for i in 0..BOARD_CELLS {
        let l = (i / BOARD_H, i % BOARD_H);
        assert_eq!(back.fog_at(l), mine.fog_at(l));
    }
    assert_eq!(back.lands, mine.lands);
    assert_eq!(back.get_tile((12, 13)).owner, Some(0));
    assert_eq!(back.get_tile((12, 13)).population, 7);
}

#[test]
fn attack_costs_both_sides_the_evaporated_amount() {
    let s = city_attack_state();
    let cmd = MoveCommand { from: (12, 12), to: (12, 13), half: false };
    let next = s.process_command(&cmd, 0, false).unwrap();
    let before = 51 + 40;
    let after = next.get_tile((12, 12)).population as i32 + next.get_tile((12, 13)).population as i32;
    assert_eq!(before - after, 2 * 40);
    assert_eq!(s.armies[0] - next.armies[0], 40);
}

#[test]
fn failed_attack_and_reinforcement() {
    let mut s = start();
    s = s.update_tile((12, 12), Tile::new(TileType::OwnedGeneral, 11, Some(0)));
    s = s.update_tile((12, 13), Tile::new(TileType::Enemy, 30, Some(1)));
    s = s.update_tile((12, 11), Tile::new(TileType::OwnedTile, 2, Some(0)));
    s.armies = vec![40, 40];
    let hit = s.process_command(&MoveCommand { from: (12, 12), to: (12, 13), half: true }, 0, false).unwrap();
    assert_eq!(hit.get_tile((12, 12)).population, 6);
    assert_eq!(hit.get_tile((12, 13)).population, 25);
    assert_eq!(hit.get_tile((12, 13)).owner, Some(1));
    assert_eq!(hit.armies, vec![35, 35]);
    let help = s.process_command(&MoveCommand { from: (12, 12), to: (12, 11), half: false }, 0, false).unwrap();
    assert_eq!(help.get_tile((12, 12)).population, 1);
    assert_eq!(help.get_tile((12, 11)).population, 12);
    assert_eq!(help.armies, s.armies);
}

#[test]
fn winner_only_when_one_general_stands() {
    let mut s = start();
    assert_eq!(s.get_winner(), None);
    s = s.update_tile((12, 13), Tile::new(TileType::EnemyGeneral, 2, Some(1)));
    s.lands[1] = 1;
    s.generals[1] = GeneralLocation::Known((12, 13));
    s = s.update_tile((12, 12), Tile::new(TileType::OwnedGeneral, 10, Some(0)));
    s.armies = vec![10, 10];
    let cmd = MoveCommand { from: (12, 12), to: (12, 13), half: false };
    let next = s.process_command(&cmd, 0, false).unwrap();
    assert_eq!(next.generals()[1], GeneralLocation::Dead((12, 13)));
    assert_eq!(next.get_winner(), Some(0));
    let mut both = next.clone_state();
    both.generals[0] = GeneralLocation::Dead((12, 12));
    assert_eq!(both.get_winner(), None);
}

#[test]
fn legal_moves_skip_mountains_and_sort_by_strength() {
    let mut s = start();
    s = s.update_tile((12, 12), Tile::new(TileType::OwnedGeneral, 10, Some(0)));
    s = s.update_tile((12, 13), Tile::new(TileType::VisibleMountain, 0, None));
    s = s.update_tile((11, 12), Tile::new(TileType::Enemy, 6, Some(1)));
    let moves = s.get_possible_commands();
    assert_eq!(moves.len(), 3);
    assert_eq!(moves[0], MoveCommand { from: (12, 12), to: (11, 12), half: false });
    for m in &moves {
        assert!(s.get_tile(m.to).tile_type.occupiable());
        assert_ne!(m.to, (12, 13));
    }
}

#[test]
fn invalid_transition_is_refused() {
    let s = start();
    assert_eq!(s.change_tile_ownership((12, 12), 0, 5).err(), Some(StateError::InvalidTransition));
}

#[test]
fn population_overflow_is_refused() {
    let s = start();
    assert_eq!(s.change_tile_population((12, 12), 70000).err(), Some(StateError::PopulationOverflow));
    assert_eq!(s.change_tile_population((12, 12), -2).err(), Some(StateError::PopulationOverflow));
    assert_eq!(s.change_tile_population((12, 12), 65519).unwrap().get_tile((12, 12)).population, 65520);
}

#[test]
fn exhausted_counters_are_refused() {
    let mut s = start();
    s.turn = u64::MAX;
    assert_eq!(s.tick(&stay(&s)).err(), Some(StateError::CounterOutOfRange));
    let mut t = start();
    t.lands[1] = u16::MAX;
    assert_eq!(t.add_land(1).err(), Some(StateError::CounterOutOfRange));
}

#[test]
fn game_over_turns_commands_into_no_ops() {
    let mut s = city_attack_state();
    s.turn = s.max_turn;
    let cmd = MoveCommand { from: (12, 12), to: (12, 13), half: false };
    let next = s.process_command(&cmd, 0, false).unwrap();
    assert_eq!(next.get_tile((12, 13)).population, 40);
    assert!(next.reached_max_turns());
}

#[test]
fn inferred_move_from_unseen_cell_brings_an_army() {
    let mut s = start();
    s.armies[1] = 31;
    s.lands[1] = 1;
    let cmd = MoveCommand { from: (12, 15), to: (12, 14), half: false };
    let next = s.process_command(&cmd, 1, true).unwrap();
    assert_eq!(next.get_tile((12, 15)).population, 1);
    assert_eq!(next.get_tile((12, 14)).population, 23);
    assert_eq!(next.get_tile((12, 14)).owner, Some(1));
    assert_eq!(next.get_tile((12, 14)).tile_type, TileType::Enemy);
}

#[test]
fn opponent_next_to_general_sees_it() {
    let mut s = start();
    s = s.update_tile((12, 14), Tile::new(TileType::Enemy, 9, Some(1)));
    s.armies[1] = 9;
    let cmd = MoveCommand { from: (12, 14), to: (12, 13), half: false };
    let next = s.process_command(&cmd, 1, false).unwrap();
    assert!(next.general_revealed_to[1]);
    assert_eq!(next.get_tile((12, 13)).tile_type, TileType::Enemy);
}

#[test]
fn tile_type_transitions() {
    assert_eq!(TileType::AssumedEmpty.revealed(), TileType::VisibleEmpty);
    assert_eq!(TileType::HiddenNeutralCity.revealed(), TileType::VisibleNeutralCity);
    assert_eq!(TileType::VisibleMountain.hidden(), TileType::HiddenObstacle);
    assert_eq!(TileType::OwnedTile.hidden(), TileType::OwnedTile);
    assert_eq!(TileType::EnemyGeneral.own(), TileType::OwnedCity);
    assert_eq!(TileType::Padding.own(), TileType::Padding);
    assert_eq!(TileType::OwnedGeneral.lose(), TileType::EnemyCity);
    assert_eq!(TileType::VisibleEmpty.lose(), TileType::Enemy);
    assert!(!TileType::HiddenObstacle.occupiable());
    assert!(TileType::EnemyCity.occupiable());
    assert!(TileType::OwnedCity.is_owned());
    assert!(TileType::EnemyGeneral.is_enemy());
    assert!(TileType::VisibleMountain.is_visible());
    assert!(!TileType::AssumedEmpty.is_visible());
    assert!(TileType::EnemyCity.is_stronghold());
}

#[test]
fn general_location_unwraps() {
    assert_eq!(GeneralLocation::Known((1, 2)).unwrap_location(), (1, 2));
    assert_eq!(GeneralLocation::Dead((3, 4)).unwrap_location(), (3, 4));
}

#[test]
fn hash_tells_states_apart() {
    let s = start();
    assert_eq!(s.get_hash(), s.clone_state().get_hash());
    let next = s.tick(&stay(&s)).unwrap();
    assert_ne!(s.get_hash(), next.get_hash());
}
