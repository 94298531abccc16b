use azul::game::FACTORY_COUNT;
use azul::{BoardSnapshot, Game, GameError, Phase, PlayerColor, Snapshot, Tile};

fn colors() -> Vec<Tile> {
    (0..5).map(|k| Tile::from_index(k).unwrap()).collect()
}

fn total(game: &Game, color: Tile) -> usize {
    let mut n = game.bag().count(color) + game.bag().lid_count(color) + game.center().count(color);
    for i in 0..game.factory_count() {
        n += game.factory(i).unwrap().count(color);
    }
    for seat in 0..game.player_count() {
        n += game.board_view(seat).unwrap().count(color);
    }
    n
}

fn assert_conserved(game: &Game) {
    for color in colors() {
        assert_eq!(total(game, color), 20);
    }
    assert_ne!(game.center().has_marker(), game.bag().lid_has_marker());
}

fn empty_board(seat: usize) -> BoardSnapshot {
    BoardSnapshot {
        color: PlayerColor::from_seat(seat).unwrap(),
        points: 0,
        wall: [[None; 5]; 5],
        lines: vec![vec![]; 5],
        floor: vec![],
    }
}

/// A snapshot of a game of drafting players with the given displays and
/// boards; the bag holds every tile that is nowhere else.
fn drafting(
    boards: Vec<BoardSnapshot>,
    factories: Vec<Vec<Tile>>,
    center: Vec<Tile>,
    center_marker: bool,
) -> Snapshot {
    let mut bag = Vec::new();
    for color in colors() {
        let mut used = center.iter().filter(|t| **t == color).count();
        for factory in &factories {
            used += factory.iter().filter(|t| **t == color).count();
        }
        for board in &boards {
            used += board.floor.iter().filter(|t| **t == color).count();
            for line in &board.lines {
                used += line.iter().filter(|t| **t == color).count();
            }
            for row in &board.wall {
                used += row.iter().filter(|c| **c == Some(color)).count();
            }
        }
        for _ in used..20 {
            bag.push(color);
        }
    }
    Snapshot {
        bag,
        lid: vec![],
        lid_marker: !center_marker,
        seed: 17,
        boards,
        factories,
        center,
        center_marker,
        phase: Phase::Drafting,
        current: 0,
        first_player: 0,
        round: 1,
    }
}

fn two_players(factories: Vec<Vec<Tile>>, center: Vec<Tile>, center_marker: bool) -> Snapshot {
    let mut all = factories;
    while all.len() < 5 {
        all.push(vec![]);
    }
    drafting(vec![empty_board(0), empty_board(1)], all, center, center_marker)
}

#[test]
fn game_is_for_one_to_four_players() {
    assert_eq!(Game::new(0, 1).err(), Some(GameError::InvalidPlayerCount));
    assert_eq!(Game::new(5, 1).err(), Some(GameError::InvalidPlayerCount));
    assert_eq!(
        Game::new(u32::MAX, 1).err(),
        Some(GameError::InvalidPlayerCount)
    );
    for players in 1..=4 {
        assert!(Game::new(players, 1).is_ok());
    }
}

#[test]
fn factory_count_follows_the_table() {
    assert_eq!(FACTORY_COUNT, [3, 5, 7, 9]);
    for players in 1..=4u32 {
        let game = Game::new(players, 3).unwrap();
        assert_eq!(game.player_count(), players as usize);
        assert_eq!(
            game.factory_count(),
            FACTORY_COUNT[players as usize - 1] as usize
        );
        assert_eq!(game.available_displays().len(), game.factory_count() + 1);
    }
}

#[test]
fn new_game_is_laid_out_but_not_dealt() {
    let game = Game::new(3, 5).unwrap();
    assert_eq!(game.phase(), Phase::Setup);
    assert_eq!(game.round(), 0);
    assert_eq!(game.current_player(), 0);
    assert_eq!(game.first_player(), 0);
    assert_eq!(game.bag().len(), 100);
    assert!(game.center().has_marker());
    assert!(!game.bag().lid_has_marker());
    for i in 0..game.factory_count() {
        assert!(game.factory(i).unwrap().is_empty());
    }
    let seats = [PlayerColor::White, PlayerColor::Black, PlayerColor::Gray];
    for seat in 0..3 {
        let board = game.board_view(seat).unwrap();
        assert_eq!(board.color(), seats[seat]);
        assert_eq!(board.points(), 0);
    }
    assert!(game.board_view(3).is_none());
    assert!(game.factory(7).is_none());
    assert!(!game.is_round_over());
    assert!(!game.is_game_over());
    assert_conserved(&game);
}

#[test]
fn deal_fills_every_factory_with_four_tiles() {
    let mut game = Game::new(2, 5).unwrap();
    assert_eq!(game.deal(), Ok(()));
    assert_eq!(game.phase(), Phase::Drafting);
    assert_eq!(game.round(), 1);
    for i in 0..5 {
        assert_eq!(game.factory(i).unwrap().len(), 4);
    }
    assert_eq!(game.bag().len(), 80);
    assert_eq!(game.center().len(), 0);
    assert!(game.center().has_marker());
    assert_conserved(&game);
    let shown = game.available_displays();
    for (i, (id, tiles)) in shown.iter().enumerate() {
        assert_eq!(*id, i);
        if i < 5 {
            assert_eq!(*tiles, game.factory(i).unwrap().tiles());
        } else {
            assert_eq!(*tiles, vec![Tile::FirstPlayer]);
        }
    }
}

#[test]
fn deal_during_a_round_is_out_of_turn() {
    let mut game = Game::new(2, 5).unwrap();
    game.deal().unwrap();
    let before = Snapshot::of(&game);
    assert_eq!(game.deal(), Err(GameError::OutOfTurn));
    assert_eq!(Snapshot::of(&game), before);
}

#[test]
fn draft_from_a_factory_moves_the_rest_to_the_center() {
    let mut game = two_players(
        vec![vec![Tile::Red, Tile::Blue, Tile::Red, Tile::Teal]],
        vec![Tile::Black],
        true,
    )
    .restore()
    .unwrap();
    assert_eq!(game.draft(0, 0, Tile::Red, Some(1)), Ok(()));
    assert!(game.factory(0).unwrap().is_empty());
    assert_eq!(
        game.center().tiles(),
        vec![Tile::Black, Tile::Blue, Tile::Teal]
    );
    assert!(game.center().has_marker());
    let board = game.board_view(0).unwrap();
    assert_eq!(board.pattern_lines().line(1), vec![Tile::Red, Tile::Red]);
    assert_eq!(board.floor_line().len(), 0);
    assert_eq!(game.current_player(), 1);
    assert_eq!(game.first_player(), 0);
    assert_conserved(&game);
}

#[test]
fn draft_to_the_floor_takes_no_row() {
    let mut game = two_players(
        vec![vec![Tile::Red, Tile::Red, Tile::Red, Tile::Teal]],
        vec![],
        true,
    )
    .restore()
    .unwrap();
    assert_eq!(game.draft(0, 0, Tile::Red, None), Ok(()));
    let board = game.board_view(0).unwrap();
    assert_eq!(board.floor_line().tiles(), vec![Tile::Red; 3]);
    for row in 0..5 {
        assert_eq!(board.pattern_lines().line_len(row), 0);
    }
    assert_eq!(game.center().tiles(), vec![Tile::Teal]);
    assert_conserved(&game);
}

#[test]
fn last_color_from_the_center_with_the_marker() {
    let mut start = two_players(vec![], vec![Tile::Red, Tile::Red], true);
    start.current = 1;
    let mut game = start.restore().unwrap();
    assert!(!game.is_round_over());
    assert_eq!(game.draft(1, 5, Tile::Red, Some(0)), Ok(()));
    assert_eq!(game.center().count(Tile::Red), 0);
    assert_eq!(game.center().len(), 0);
    assert!(!game.center().has_marker());
    assert!(game.bag().lid_has_marker());
    let board = game.board_view(1).unwrap();
    assert_eq!(board.pattern_lines().line(0), vec![Tile::Red]);
    assert_eq!(
        board.floor_line().tiles(),
        vec![Tile::FirstPlayer, Tile::Red]
    );
    assert_eq!(game.first_player(), 1);
    assert_eq!(game.current_player(), 0);
    assert!(game.is_round_over());
    assert_conserved(&game);
}

#[test]
fn marker_adds_one_floor_slot_beyond_the_drafted_tiles() {
    let mut game = two_players(vec![], vec![Tile::Blue, Tile::Blue, Tile::Teal], true)
        .restore()
        .unwrap();
    assert_eq!(game.draft(0, 5, Tile::Blue, None), Ok(()));
    let board = game.board_view(0).unwrap();
    assert_eq!(board.floor_line().len(), 2 + 1);
    assert_eq!(board.floor_line().points(), -4);
    assert_eq!(game.center().tiles(), vec![Tile::Teal]);
    assert!(!game.is_round_over());
    assert_eq!(game.draft(1, 5, Tile::Teal, Some(2)), Ok(()));
    assert_eq!(game.board_view(1).unwrap().floor_line().len(), 0);
    assert_eq!(game.first_player(), 0);
    assert!(game.is_round_over());
    assert_conserved(&game);
}

#[test]
fn marker_on_a_full_floor_still_rests_in_the_lid() {
    let mut boards = vec![empty_board(0), empty_board(1)];
    boards[0].floor = vec![Tile::Black; 7];
    let mut game = drafting(boards, vec![vec![]; 5], vec![Tile::Blue], true)
        .restore()
        .unwrap();
    assert_eq!(game.draft(0, 5, Tile::Blue, None), Ok(()));
    assert_eq!(
        game.board_view(0).unwrap().floor_line().tiles(),
        vec![Tile::Black; 7]
    );
    assert!(game.bag().lid_has_marker());
    assert_eq!(game.bag().lid(), vec![Tile::Blue]);
    assert_eq!(game.first_player(), 0);
    assert_conserved(&game);
}

#[test]
fn draft_by_another_player_is_out_of_turn() {
    let mut game = two_players(vec![vec![Tile::Red; 4]], vec![], true)
        .restore()
        .unwrap();
    let before = Snapshot::of(&game);
    assert_eq!(game.draft(1, 0, Tile::Red, Some(0)), Err(GameError::OutOfTurn));
    assert_eq!(game.draft(7, 0, Tile::Red, Some(0)), Err(GameError::OutOfTurn));
    assert_eq!(Snapshot::of(&game), before);
}

#[test]
fn draft_outside_the_drafting_phase_is_out_of_turn() {
    let mut game = Game::new(2, 1).unwrap();
    assert_eq!(game.draft(0, 0, Tile::Red, None), Err(GameError::OutOfTurn));
    assert_eq!(game.phase(), Phase::Setup);
}

#[test]
fn absent_color_or_display_is_an_invalid_selection() {
    let mut game = two_players(vec![vec![Tile::Red; 4]], vec![], true)
        .restore()
        .unwrap();
    let before = Snapshot::of(&game);
    assert_eq!(
        game.draft(0, 0, Tile::Blue, Some(0)),
        Err(GameError::InvalidSelection)
    );
    assert_eq!(
        game.draft(0, 1, Tile::Red, Some(0)),
        Err(GameError::InvalidSelection)
    );
    assert_eq!(
        game.draft(0, 5, Tile::FirstPlayer, None),
        Err(GameError::InvalidSelection)
    );
    assert_eq!(
        game.draft(0, 6, Tile::Red, None),
        Err(GameError::InvalidSelection)
    );
    assert_eq!(Snapshot::of(&game), before);
}

#[test]
fn row_that_cannot_take_the_color_is_an_illegal_placement() {
    let mut boards = vec![empty_board(0), empty_board(1)];
    boards[0].lines[1] = vec![Tile::Blue];
    boards[0].lines[0] = vec![Tile::Teal];
    boards[0].wall[2][4] = Some(Tile::Red);
    boards[0].points = 1;
    let mut factories = vec![vec![]; 5];
    factories[3] = vec![Tile::Red; 4];
    let mut game = drafting(boards, factories, vec![], true).restore().unwrap();
    let before = Snapshot::of(&game);
    assert_eq!(
        game.draft(0, 3, Tile::Red, Some(1)),
        Err(GameError::IllegalPlacement)
    );
    assert_eq!(
        game.draft(0, 3, Tile::Red, Some(0)),
        Err(GameError::IllegalPlacement)
    );
    assert_eq!(
        game.draft(0, 3, Tile::Red, Some(2)),
        Err(GameError::IllegalPlacement)
    );
    assert_eq!(
        game.draft(0, 3, Tile::Red, Some(5)),
        Err(GameError::IllegalPlacement)
    );
    assert_eq!(Snapshot::of(&game), before);
    assert_eq!(game.draft(0, 3, Tile::Red, Some(3)), Ok(()));
}

#[test]
fn errors_come_in_a_fixed_order() {
    let mut game = two_players(vec![vec![Tile::Red; 4]], vec![], true)
        .restore()
        .unwrap();
    assert_eq!(game.draft(1, 9, Tile::Blue, Some(9)), Err(GameError::OutOfTurn));
    assert_eq!(
        game.draft(0, 9, Tile::Blue, Some(9)),
        Err(GameError::InvalidSelection)
    );
    assert_eq!(
        game.draft(0, 0, Tile::Red, Some(9)),
        Err(GameError::IllegalPlacement)
    );
}

#[test]
fn turn_passes_around_the_table() {
    let mut boards = Vec::new();
    for seat in 0..3 {
        boards.push(empty_board(seat));
    }
    let mut factories = vec![vec![]; 7];
    for i in 0..4 {
        factories[i] = vec![Tile::Red; 4];
    }
    let mut game = drafting(boards, factories, vec![], true).restore().unwrap();
    for (turn, seat) in [0usize, 1, 2, 0].iter().enumerate() {
        assert_eq!(game.current_player(), *seat);
        assert_eq!(game.draft(*seat, turn, Tile::Red, None), Ok(()));
    }
    assert_eq!(game.current_player(), 1);
}

#[test]
fn round_is_over_only_when_every_display_is_empty() {
    let mut game = two_players(vec![vec![Tile::Red; 4], vec![Tile::Blue; 4]], vec![], true)
        .restore()
        .unwrap();
    assert!(!game.is_round_over());
    assert_eq!(game.advance_to_tiling(), Err(GameError::OutOfTurn));
    game.draft(0, 0, Tile::Red, Some(3)).unwrap();
    assert!(!game.is_round_over());
    assert_eq!(game.advance_to_tiling(), Err(GameError::OutOfTurn));
    game.draft(1, 1, Tile::Blue, Some(3)).unwrap();
    assert!(game.is_round_over());
    assert!(game.center().has_marker());
    for (_, tiles) in game.available_displays() {
        assert!(tiles.iter().all(|t| !t.is_playable()));
    }
}

#[test]
fn unclaimed_marker_leaves_the_first_player_unchanged() {
    let mut start = two_players(vec![vec![Tile::Red; 4]], vec![], true);
    start.current = 1;
    start.first_player = 1;
    let mut game = start.restore().unwrap();
    game.draft(1, 0, Tile::Red, Some(3)).unwrap();
    assert!(game.is_round_over());
    game.advance_to_tiling().unwrap();
    assert_eq!(game.phase(), Phase::RoundEnd);
    assert_eq!(game.first_player(), 1);
    game.deal().unwrap();
    assert_eq!(game.current_player(), 1);
    assert!(game.center().has_marker());
    assert_conserved(&game);
}

#[test]
fn tiling_scores_every_board_and_fills_the_lid() {
    let mut boards = vec![empty_board(0), empty_board(1)];
    boards[0].lines[1] = vec![Tile::Blue, Tile::Blue];
    boards[0].floor = vec![Tile::FirstPlayer, Tile::Red];
    boards[1].lines[2] = vec![Tile::Teal; 3];
    boards[1].lines[4] = vec![Tile::Black; 4];
    boards[1].floor = vec![Tile::Yellow; 3];
    let mut start = drafting(boards, vec![vec![]; 5], vec![], false);
    start.first_player = 0;
    let mut game = start.restore().unwrap();
    assert!(game.is_round_over());
    assert_eq!(game.advance_to_tiling(), Ok(()));
    assert_eq!(game.phase(), Phase::RoundEnd);
    assert!(!game.is_game_over());
    let first = game.board_view(0).unwrap();
    assert_eq!(first.wall().get(1, 1), Some(Tile::Blue));
    assert_eq!(first.points(), 0);
    assert_eq!(first.floor_line().len(), 0);
    let second = game.board_view(1).unwrap();
    assert_eq!(second.wall().get(2, 1), Some(Tile::Teal));
    assert_eq!(second.points(), 0);
    assert_eq!(second.pattern_lines().line(4), vec![Tile::Black; 4]);
    assert_eq!(
        game.bag().lid(),
        vec![
            Tile::Blue,
            Tile::Red,
            Tile::Teal,
            Tile::Teal,
            Tile::Yellow,
            Tile::Yellow,
            Tile::Yellow
        ]
    );
    assert!(game.bag().lid_has_marker());
    assert_conserved(&game);
    assert_eq!(game.draft(0, 0, Tile::Red, None), Err(GameError::OutOfTurn));
    assert_eq!(game.advance_to_tiling(), Err(GameError::OutOfTurn));
}

#[test]
fn full_row_ends_the_game_after_every_board_is_tiled() {
    let mut boards = vec![empty_board(0), empty_board(1)];
    for col in 0..4 {
        boards[0].wall[0][col] = Some(Tile::from_index(col).unwrap());
    }
    boards[0].points = 10;
    boards[0].lines[0] = vec![Tile::Teal];
    boards[1].lines[0] = vec![Tile::Red];
    let mut game = drafting(boards, vec![vec![]; 5], vec![], false)
        .restore()
        .unwrap();
    assert_eq!(game.advance_to_tiling(), Ok(()));
    assert!(game.is_game_over());
    assert_eq!(game.phase(), Phase::GameEnd);
    assert_eq!(game.board_view(0).unwrap().points(), 15);
    assert_eq!(game.board_view(1).unwrap().points(), 1);
    assert_eq!(game.final_scores(), vec![17, 1]);
    assert_eq!(game.winner(), Some(0));
    assert_eq!(game.deal(), Err(GameError::OutOfTurn));
    assert_eq!(game.draft(0, 0, Tile::Red, None), Err(GameError::OutOfTurn));
    assert_conserved(&game);
}

#[test]
fn equal_scores_are_settled_by_full_rows() {
    let mut boards = vec![empty_board(0), empty_board(1)];
    for col in 0..5 {
        boards[1].wall[0][col] = Some(Tile::from_index(col).unwrap());
    }
    boards[1].points = 10;
    for row in 0..4 {
        boards[0].wall[row][0] = Some(azul::Wall::color_at(row, 0));
    }
    boards[0].points = 12;
    let mut start = drafting(boards, vec![vec![]; 5], vec![], false);
    start.phase = Phase::GameEnd;
    let game = start.restore().unwrap();
    assert_eq!(game.final_scores(), vec![12, 12]);
    assert_eq!(game.winner(), Some(1));
}

#[test]
fn equal_scores_and_rows_are_a_draw() {
    let mut boards = vec![empty_board(0), empty_board(1), empty_board(2)];
    boards[0].wall[0][0] = Some(Tile::Blue);
    boards[0].points = 7;
    boards[1].wall[3][3] = Some(Tile::Blue);
    boards[1].points = 7;
    boards[2].wall[3][3] = Some(Tile::Blue);
    boards[2].points = 2;
    let mut start = drafting(boards, vec![vec![]; 7], vec![], false);
    start.phase = Phase::GameEnd;
    let game = start.restore().unwrap();
    assert_eq!(game.final_scores(), vec![7, 7, 2]);
    assert_eq!(game.winner(), None);
}

#[test]
fn single_player_wins_alone() {
    let game = Game::new(1, 4).unwrap();
    assert_eq!(game.final_scores(), vec![0]);
    assert_eq!(game.winner(), Some(0));
}

#[test]
fn snapshot_round_trip_gives_the_same_game() {
    let mut game = Game::new(4, 99).unwrap();
    game.deal().unwrap();
    let color = game.factory(2).unwrap().tiles()[0];
    game.draft(0, 2, color, Some(4)).unwrap();
    let written = Snapshot::of(&game);
    let copy = written.clone().restore().unwrap();
    assert_eq!(Snapshot::of(&copy), written);
    let again = game.round_trip().unwrap();
    assert_eq!(Snapshot::of(&again), written);
}

#[test]
fn restored_game_acts_like_the_first() {
    let mut game = Game::new(2, 1234).unwrap();
    game.deal().unwrap();
    let mut copy = Snapshot::of(&game).restore().unwrap();
    for turn in 0..5 {
        let seat = game.current_player();
        let color = game.factory(turn).unwrap().tiles()[0];
        let line = Some(turn % 5);
        assert_eq!(
            game.draft(seat, turn, color, line),
            copy.draft(seat, turn, color, line)
        );
        assert_eq!(Snapshot::of(&game), Snapshot::of(&copy));
    }
    assert_eq!(game.draft(0, 9, Tile::Red, None), copy.draft(0, 9, Tile::Red, None));
    while !game.is_round_over() {
        let seat = game.current_player();
        let color = game.center().tiles()[0];
        assert_eq!(game.draft(seat, 5, color, None), Ok(()));
        assert_eq!(copy.draft(seat, 5, color, None), Ok(()));
    }
    assert_eq!(game.advance_to_tiling(), copy.advance_to_tiling());
    assert_eq!(Snapshot::of(&game), Snapshot::of(&copy));
    assert_eq!(game.deal(), copy.deal());
    assert_eq!(Snapshot::of(&game), Snapshot::of(&copy));
}

#[test]
fn snapshot_with_a_lost_tile_is_an_internal_inconsistency() {
    let mut start = two_players(vec![vec![Tile::Red; 4]], vec![], true);
    start.bag.pop();
    assert_eq!(start.restore().err(), Some(GameError::InternalInconsistency));
}

#[test]
fn snapshot_with_an_extra_tile_is_an_internal_inconsistency() {
    let mut start = two_players(vec![vec![Tile::Red; 4]], vec![], true);
    start.lid.push(Tile::Teal);
    assert_eq!(start.restore().err(), Some(GameError::InternalInconsistency));
}

#[test]
fn snapshot_with_a_tile_on_the_wrong_cell_is_an_internal_inconsistency() {
    let mut start = two_players(vec![vec![Tile::Red; 4]], vec![], true);
    start.boards[1].wall[0][1] = Some(Tile::Blue);
    start.boards[1].points = 1;
    let at = start.bag.iter().position(|t| *t == Tile::Blue).unwrap();
    start.bag.remove(at);
    assert_eq!(start.restore().err(), Some(GameError::InternalInconsistency));
}

#[test]
fn snapshot_with_the_marker_in_two_places_or_none_is_refused() {
    let mut twice = two_players(vec![vec![Tile::Red; 4]], vec![], true);
    twice.lid_marker = true;
    assert_eq!(twice.restore().err(), Some(GameError::InternalInconsistency));
    let mut none = two_players(vec![vec![Tile::Red; 4]], vec![], true);
    none.center_marker = false;
    none.lid_marker = false;
    assert_eq!(none.restore().err(), Some(GameError::InternalInconsistency));
}

#[test]
fn snapshot_with_a_wrong_table_is_refused() {
    let mut seats = two_players(vec![], vec![], true);
    seats.boards[1].color = PlayerColor::Gray;
    assert_eq!(seats.restore().err(), Some(GameError::InternalInconsistency));
    let mut factories = two_players(vec![], vec![], true);
    factories.factories.push(vec![]);
    assert_eq!(
        factories.restore().err(),
        Some(GameError::InternalInconsistency)
    );
    let mut turn = two_players(vec![], vec![], true);
    turn.current = 2;
    assert_eq!(turn.restore().err(), Some(GameError::InternalInconsistency));
    let mut tiles_after_round = two_players(vec![vec![Tile::Red; 4]], vec![], true);
    tiles_after_round.phase = Phase::RoundEnd;
    assert_eq!(
        tiles_after_round.restore().err(),
        Some(GameError::InternalInconsistency)
    );
}

fn play_a_game(players: u32, seed: u64) -> Game {
    let mut game = Game::new(players, seed).unwrap();
    assert_conserved(&game);
    let mut rounds = 0;
    while !game.is_game_over() {
        assert_eq!(game.deal(), Ok(()));
        rounds += 1;
        assert!(rounds < 200);
        assert_eq!(game.round(), rounds);
        assert_conserved(&game);
        while !game.is_round_over() {
            let seat = game.current_player();
            let displays = game.available_displays();
            let (display, color) = displays
                .iter()
                .find_map(|(id, tiles)| {
                    tiles.iter().find(|t| t.is_playable()).map(|t| (*id, *t))
                })
                .unwrap();
            let board = game.board_view(seat).unwrap();
            let line = (0..5).rev().find(|row| board.takes(*row, color));
            assert_eq!(game.draft(seat, display, color, line), Ok(()));
            assert_conserved(&game);
        }
        let starter = game.first_player();
        assert_eq!(game.advance_to_tiling(), Ok(()));
        assert_conserved(&game);
        assert_eq!(game.first_player(), starter);
        for seat in 0..game.player_count() {
            let board = game.board_view(seat).unwrap();
            assert_eq!(board.floor_line().len(), 0);
            for row in 0..5 {
                assert!(board.pattern_lines().line_len(row) <= row);
            }
        }
    }
    game
}

#[test]
fn whole_games_keep_every_tile() {
    for players in 1..=4 {
        for seed in 0..3 {
            let game = play_a_game(players, seed);
            assert!(game.is_game_over());
            let full = (0..game.player_count())
                .any(|seat| game.board_view(seat).unwrap().wall().has_full_row());
            assert!(full);
            let scores = game.final_scores();
            for seat in 0..game.player_count() {
                let board = game.board_view(seat).unwrap();
                assert_eq!(scores[seat], board.points() + board.wall().bonus());
            }
            if let Some(winner) = game.winner() {
                for seat in 0..game.player_count() {
                    assert!(scores[winner] >= scores[seat]);
                }
            }
        }
    }
}

#[test]
fn games_made_by_the_engine_are_consistent() {
    let mut game = Game::new(3, 31).unwrap();
    assert!(game.is_consistent());
    game.deal().unwrap();
    assert!(game.is_consistent());
    let color = game.factory(0).unwrap().tiles()[0];
    game.draft(0, 0, color, None).unwrap();
    assert!(game.is_consistent());
}

#[test]
fn new_game_is_dealt_and_ready_to_draft() {
    assert_eq!(
        azul::new_game(0, 1).err(),
        Some(GameError::InvalidPlayerCount)
    );
    assert_eq!(
        azul::new_game(5, 1).err(),
        Some(GameError::InvalidPlayerCount)
    );
    let game = azul::new_game(4, 8).unwrap();
    assert_eq!(game.phase(), Phase::Drafting);
    assert_eq!(game.round(), 1);
    assert_eq!(game.player_count(), 4);
    assert_eq!(game.factory_count(), 9);
    for i in 0..9 {
        assert_eq!(game.factory(i).unwrap().len(), 4);
    }
    assert_eq!(game.bag().len(), 64);
    assert_conserved(&game);
}

#[test]
fn deal_draws_the_factories_from_the_end_of_the_bag() {
    let mut game = Game::new(1, 77).unwrap();
    let bag = game.bag().tiles();
    game.deal().unwrap();
    for i in 0..3 {
        let mut expected = bag[100 - 4 * i - 4..100 - 4 * i].to_vec();
        expected.reverse();
        assert_eq!(game.factory(i).unwrap().tiles(), expected);
    }
    assert_eq!(game.bag().tiles(), bag[..88].to_vec());
}

#[test]
fn cloned_game_is_the_same_game() {
    let mut game = Game::new(3, 5).unwrap();
    game.deal().unwrap();
    let mut copy = game.clone();
    assert_eq!(Snapshot::of(&copy), Snapshot::of(&game));
    let color = game.factory(1).unwrap().tiles()[0];
    assert_eq!(game.draft(0, 1, color, Some(2)), copy.draft(0, 1, color, Some(2)));
    assert_eq!(Snapshot::of(&copy), Snapshot::of(&game));
}
