use generals_bot::enemy::{possible_enemy_moves, possible_enemy_moves_with, EnemyMove};
use generals_bot::score::{Outcome, ScoreParts};
use generals_bot::search::{
    choose_playout_move, playout, update_state, CombinedMoveCommand, SearchState,
};
use generals_bot::state::{GameState, MoveCommand, Tile, TileType};
use generals_bot::update::{
    normalize_map_diff, playfield_of, start_state, Playfield, PlayerScore, StateUpdate,
    UpdateError,
};
use generals_bot::utils::{
    fuck_socketio, get_neighbors, int_to_location, location_to_int, manhattan_distance,
};

#[test]
fn socket_prefix_is_stripped() {
    assert_eq!(fuck_socketio("42[\"game_start\"]".to_string()), Some("[\"game_start\"]".to_string()));
    assert_eq!(fuck_socketio("0{\"sid\":\"a\"}".to_string()), Some("{\"sid\":\"a\"}".to_string()));
    assert_eq!(fuck_socketio("40".to_string()), None);
    assert_eq!(fuck_socketio("x1".to_string()), Some("x1".to_string()));
}

#[test]
fn linear_indices_map_to_cells_and_back() {
    assert_eq!(int_to_location(30, 20, 10, 2, 7), (12, 8));
    assert_eq!(location_to_int((12, 8), 20, 10, 2, 7), 30);
    assert_eq!(int_to_location(201, 20, 10, 2, 7), (3, 7));
    assert_eq!(int_to_location(0, 20, 10, 2, 7), (2, 7));
}

#[test]
fn neighbours_stay_on_the_board() {
    assert_eq!(get_neighbors((0, 0), 25, 25), vec![(1, 0), (0, 1)]);
    assert_eq!(get_neighbors((5, 5), 25, 25), vec![(4, 5), (6, 5), (5, 4), (5, 6)]);
    assert_eq!(get_neighbors((24, 24), 25, 25), vec![(23, 24), (24, 23)]);
    assert_eq!(manhattan_distance((1, 2), (4, 0)), 5);
    assert_eq!(manhattan_distance((4, 0), (4, 0)), 0);
}

fn start() -> GameState {
    GameState::new(0, (12, 12))
}

#[test]
fn early_opponent_only_waits_or_grows() {
    let s = start();
    assert_eq!(possible_enemy_moves_with(&s, 1, 0), vec![EnemyMove::Noop, EnemyMove::ExpandLand]);
    let mut t = start();
    t.lands[1] = 1;
    assert_eq!(possible_enemy_moves(&t, 1), vec![EnemyMove::Noop]);
    let grown = EnemyMove::ExpandLand.apply_on_state(&s, 1).unwrap();
    assert_eq!(grown.lands[1], 1);
}

#[test]
fn known_attacker_invades_towards_the_general() {
    let mut s = start();
    s.turn = 60;
    s = s.update_tile((12, 15), Tile::new(TileType::Enemy, 8, Some(1)));
    let moves = possible_enemy_moves_with(&s, 1, 0);
    assert_eq!(
        moves,
        vec![
            EnemyMove::Noop,
            EnemyMove::ExpandLand,
            EnemyMove::Invasion { from: (12, 15), to: (13, 15) },
            EnemyMove::Invasion { from: (12, 15), to: (12, 14) },
            EnemyMove::Invasion { from: (12, 15), to: (12, 16) },
        ]
    );
    let after = moves[3].apply_on_state(&s, 1).unwrap();
    assert_eq!(after.get_tile((12, 14)).population, 7);
    assert_eq!(after.get_tile((12, 14)).owner, Some(1));
}

#[test]
fn hidden_army_invades_from_a_fogged_cell() {
    let mut s = start();
    s.turn = 60;
    s.armies[1] = 40;
    s.lands[1] = 2;
    let moves = possible_enemy_moves_with(&s, 1, 0);
    assert_eq!(moves[0], EnemyMove::Noop);
    assert_eq!(moves[1], EnemyMove::ExpandLand);
    assert!(moves.len() > 2);
    for m in &moves[2..] {
        match m {
            EnemyMove::Invasion { from, .. } => assert_eq!(*from, (0, 0)),
            _ => panic!("expected an invasion"),
        }
    }
    assert_eq!(moves.len(), 3);
}

#[test]
fn playout_choice_prefers_the_strongest_tenth() {
    assert_eq!(choose_playout_move(25, 3, 7), 1);
    assert_eq!(choose_playout_move(25, 5, 30), 5);
    assert_eq!(choose_playout_move(1, 0, 99), 0);
}

#[test]
fn search_sides_alternate() {
    let s = start();
    let mut node = SearchState::new(&s);
    assert_eq!(node.player_turn(), 0);
    let moves = node.legals_moves();
    assert_eq!(moves, vec![CombinedMoveCommand::Friendly(MoveCommand { from: (12, 12), to: (12, 12), half: false })]);
    node.do_move(&moves[0]).unwrap();
    assert_eq!(node.player_turn(), 1);
    assert_eq!(node.state.turn, 1);
    let enemy = node.legals_moves();
    assert_eq!(enemy, vec![CombinedMoveCommand::Enemy(EnemyMove::Noop), CombinedMoveCommand::Enemy(EnemyMove::ExpandLand)]);
    assert!(!node.is_final());
    assert_eq!(node.get_winner(), None);
}

#[test]
fn replaying_a_history_rebuilds_the_node() {
    let s = start();
    let root = SearchState::new(&s);
    let stay = CombinedMoveCommand::Friendly(MoveCommand { from: (12, 12), to: (12, 12), half: false });
    let history = vec![stay, CombinedMoveCommand::Enemy(EnemyMove::ExpandLand), stay];
    let node = update_state(&root, &history).unwrap();
    assert_eq!(node.state.turn, 2);
    assert_eq!(node.player_turn(), 1);
    assert_eq!(node.state.lands[1], 1);
    let bad = vec![CombinedMoveCommand::Friendly(MoveCommand { from: (12, 13), to: (12, 14), half: false })];
    assert!(update_state(&root, &bad).is_err());
}

#[test]
fn playout_runs_to_the_end() {
    let mut s = start();
    s.max_turn = 4;
    let end = playout(SearchState::new(&s)).unwrap();
    assert!(end.is_final());
    assert_eq!(end.state.turn, 4);
}

#[test]
fn score_parts_of_a_new_game() {
    let s = start();
    let parts = s.score_parts(0);
    assert_eq!(
        parts,
        ScoreParts {
            outcome: Outcome::Undecided,
            local_view: true,
            own_army: 1,
            total_army: 2,
            own_land: 1,
            total_land: 1,
            revealed_to: 1,
            hostile_mass: 1,
            sighted_near: 9,
            sighted_far: 0,
        }
    );
    let mut t = start();
    t = t.update_tile((12, 14), Tile::new(TileType::Enemy, 4, Some(1)));
    let p = t.score_parts(0);
    assert_eq!(p.hostile_mass, 1 + (10 - 2) * 5);
    assert!(!t.score_parts(1).local_view);
}

#[test]
fn first_update_sets_up_the_playfield() {
    let first = vec![0, 10, 2, 2, 1, 0, 0, 0, 0, -1, -1, -3];
    let field = playfield_of(&first).unwrap();
    assert_eq!(field, Playfield { width: 2, height: 2, pad_left: 11, pad_top: 11 });
    let s = start_state(0, &vec![0, -1], field).unwrap();
    assert_eq!(s.get_own_general(), (11, 11));
    assert_eq!(s.get_tile((0, 0)).tile_type, TileType::Padding);
    assert_eq!(s.fog_at((0, 0)), 1);
    let update = StateUpdate {
        map_diff: first,
        cities_diff: vec![0, 1, 3],
        turn: 1,
        generals: vec![0, -1],
        scores: vec![
            PlayerScore { player_index: 0, army_count: 1, tile_count: 1 },
            PlayerScore { player_index: 1, army_count: 1, tile_count: 1 },
        ],
    };
    let next = s.apply_update(field, &update, true).unwrap();
    assert_eq!(next.turn, 1);
    assert_eq!(next.get_tile((12, 11)).tile_type, TileType::VisibleEmpty);
    assert_eq!(next.get_tile((12, 12)).tile_type, TileType::VisibleNeutralCity);
    assert_eq!(next.get_tile((11, 11)).tile_type, TileType::OwnedGeneral);
    assert_eq!(next.lands, vec![1, 1]);
    let later = StateUpdate {
        map_diff: vec![2, 1, 5],
        cities_diff: vec![],
        turn: 2,
        generals: vec![0, -1],
        scores: vec![],
    };
    let after = next.apply_update(field, &later, false).unwrap();
    assert_eq!(after.get_tile((11, 11)).population, 5);
    assert_eq!(after.turn, 2);
}

#[test]
fn malformed_updates_are_refused() {
    assert_eq!(normalize_map_diff(&vec![1, 2], true), None);
    assert_eq!(normalize_map_diff(&vec![4, 1, 9], false), Some(vec![2, 1, 9]));
    assert_eq!(playfield_of(&vec![0, 1, 30, 2]), None);
    let field = Playfield { width: 2, height: 2, pad_left: 11, pad_top: 11 };
    let s = start_state(0, &vec![0, 3], field).unwrap();
    let update = StateUpdate {
        map_diff: vec![2, 0],
        cities_diff: vec![],
        turn: 1,
        generals: vec![0, 3],
        scores: vec![PlayerScore { player_index: 5, army_count: 1, tile_count: 1 }],
    };
    assert_eq!(s.apply_update(field, &update, false).err(), Some(UpdateError::Malformed));
    let broken = StateUpdate {
        map_diff: vec![2, 9, 1],
        cities_diff: vec![],
        turn: 1,
        generals: vec![0, 3],
        scores: vec![],
    };
    assert_eq!(s.apply_update(field, &broken, false).err(), Some(UpdateError::Malformed));
    assert!(start_state(0, &vec![-1, 3], field).is_none());
}

#[test]
fn moves_are_serialized_as_playfield_indices() {
    let field = Playfield { width: 2, height: 2, pad_left: 11, pad_top: 11 };
    let cmd = MoveCommand { from: (11, 11), to: (11, 12), half: true };
    let ser = field.serialize(&cmd);
    assert_eq!((ser.from, ser.to, ser.half), (0, 2, true));
}

#[test]
fn equal_priorities_keep_board_order() {
    let mut s = start();
    s = s.update_tile((12, 12), Tile::new(TileType::OwnedGeneral, 10, Some(0)));
    let moves = s.get_possible_commands();
    let targets: Vec<(usize, usize)> = moves.iter().map(|m| m.to).collect();
    assert_eq!(targets, vec![(11, 12), (13, 12), (12, 11), (12, 13)]);
}

#[test]
fn empty_and_negative_patches() {
    assert_eq!(normalize_map_diff(&vec![], false), Some(vec![]));
    let field = Playfield { width: 2, height: 2, pad_left: 11, pad_top: 11 };
    let s = start_state(0, &vec![0, 3], field).unwrap();
    let empty = StateUpdate { map_diff: vec![], cities_diff: vec![], turn: 3, generals: vec![0, 3], scores: vec![] };
    let same = s.apply_update(field, &empty, false).unwrap();
    assert_eq!(same.turn, 3);
    assert_eq!(same.get_tile((11, 11)), s.get_tile((11, 11)));
    let negative = StateUpdate { map_diff: vec![2, 1, -5], cities_diff: vec![], turn: 3, generals: vec![0, 3], scores: vec![] };
    assert_eq!(
        s.apply_update(field, &negative, false).err(),
        Some(UpdateError::State(generals_bot::state::StateError::PopulationOverflow))
    );
}

#[test]
fn score_sync_spots_a_new_city() {
    let field = Playfield { width: 2, height: 2, pad_left: 11, pad_top: 11 };
    let s = start_state(0, &vec![0, 3], field).unwrap();
    let update = StateUpdate {
        map_diff: vec![],
        cities_diff: vec![],
        turn: 7,
        generals: vec![0, 3],
        scores: vec![PlayerScore { player_index: 0, army_count: 3, tile_count: 2 }],
    };
    let next = s.apply_update(field, &update, false).unwrap();
    assert_eq!(next.city_count[0], 2);
    assert_eq!(next.armies[0], 3);
    assert_eq!(next.lands[0], 2);
}

#[test]
fn playout_from_a_finished_state_returns_it() {
    let mut s = start();
    s.turn = s.max_turn;
    let end = playout(SearchState::new(&s)).unwrap();
    assert_eq!(end.state.turn, s.turn);
    assert_eq!(end.player_turn(), 0);
    assert_eq!(end.state.get_hash(), s.get_hash());
}

#[test]
fn failed_move_leaves_the_node_alone() {
    let s = start();
    let mut node = SearchState::new(&s);
    let bad = CombinedMoveCommand::Friendly(MoveCommand { from: (12, 13), to: (12, 14), half: false });
    assert!(node.do_move(&bad).is_err());
    assert_eq!(node.player_turn(), 0);
    assert_eq!(node.state.get_hash(), s.get_hash());
}

#[test]
fn candidate_moves_are_distinct() {
    let mut s = start();
    s = s.update_tile((12, 12), Tile::new(TileType::OwnedGeneral, 10, Some(0)));
    s = s.update_tile((12, 13), Tile::new(TileType::OwnedTile, 7, Some(0)));
    s.lands[0] = 2;
    let moves = s.get_possible_commands();
    for (a, m) in moves.iter().enumerate() {
        for n in moves.iter().skip(a + 1) {
            assert_ne!(m, n);
        }
    }
    assert_eq!(moves.len(), 8);
}

#[test]
fn capture_and_loss_restore_the_tiles() {
    let mut s = start();
    s = s.update_tile((12, 13), Tile::new(TileType::Enemy, 6, Some(1)));
    s.lands[1] = 1;
    let taken = s.change_tile_ownership((12, 13), 0, 2).unwrap();
    assert_eq!(taken.get_tile((12, 14)).tile_type, TileType::VisibleEmpty);
    let lost = taken.change_tile_ownership((12, 13), 1, 6).unwrap();
    assert_eq!(lost.tiles(), s.tiles());
}
