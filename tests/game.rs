use othlib::game::TurnState;
use othlib::player::Player;
use othlib::{ActivePlayer, Direction, Othello};
use std::cell::RefCell;
use std::collections::VecDeque;

/// Plays the moves it was given, in order, and fails when they run out.
struct ScriptedPlayer {
    symbol: char,
    moves: RefCell<VecDeque<(usize, usize)>>,
}

impl ScriptedPlayer {
    fn new(symbol: char, moves: &[(usize, usize)]) -> Self {
        Self { symbol, moves: RefCell::new(moves.iter().cloned().collect()) }
    }
}

impl Player for ScriptedPlayer {
    fn get_symbol(&self) -> char {
        self.symbol
    }

    fn get_move(&self, _: &Othello) -> (usize, usize) {
        self.moves.borrow_mut().pop_front().expect("the script ran out of moves")
    }
}

/// Runs turns until the game is over, asking each player again while its
/// proposal is rejected, and returns the winner's number.
fn play_out(game: &mut Othello, one: &dyn Player, two: &dyn Player) -> usize {
    while game.has_more_moves() {
        loop {
            let player = match game.active_player() {
                ActivePlayer::PlayerOne => one,
                ActivePlayer::PlayerTwo => two,
            };
            let proposal = player.get_move(game);
            if game.next_turn(Some(proposal)) != TurnState::AwaitingMove {
                break;
            }
        }
    }
    game.get_winner_number()
}

fn cells(game: &Othello) -> Vec<Vec<Option<char>>> {
    let board = game.board();
    (0..board.rows())
        .map(|r| (0..board.cols()).map(|c| board.get_cell(r, c)).collect())
        .collect()
}

fn occupied(game: &Othello) -> usize {
    let counts = game.board().char_counts();
    counts.get('X').unwrap_or(0) + counts.get('O').unwrap_or(0)
}

fn row(s: &str) -> Vec<Option<char>> {
    s.chars().map(|c| if c == '.' { None } else { Some(c) }).collect()
}

#[test]
fn opening_position() {
    let game = Othello::with_players('X', 'O', 4, 4);
    assert_eq!(Some('X'), game.board().get_cell(2, 2));
    assert_eq!(Some('X'), game.board().get_cell(1, 1));
    assert_eq!(Some('O'), game.board().get_cell(2, 1));
    assert_eq!(Some('O'), game.board().get_cell(1, 2));
    assert_eq!(4, occupied(&game));
    assert_eq!(ActivePlayer::PlayerOne, game.active_player());
    assert_eq!(1, game.active_as_num());
    assert_eq!('X', game.get_active_symbol());
}

#[test]
fn opening_offers_four_moves_to_each_player() {
    let game = Othello::with_players('X', 'O', 4, 4);
    assert_eq!(vec![(0, 2), (1, 3), (2, 0), (3, 1)], game.successors('X'));
    assert_eq!(vec![(0, 1), (1, 0), (2, 3), (3, 2)], game.successors('O'));
    for (row, col) in game.successors('X') {
        assert!(game.is_legal_move(row, col, 'X'));
    }
    assert!(game.successors('Z').is_empty());
}

#[test]
fn off_board_and_occupied_cells_are_never_legal() {
    let game = Othello::with_players('X', 'O', 4, 4);
    for symbol in ['X', 'O', 'Z'] {
        assert!(!game.is_legal_move(4, 0, symbol));
        assert!(!game.is_legal_move(0, 4, symbol));
        assert!(!game.is_legal_move(usize::MAX, usize::MAX, symbol));
        assert!(!game.is_legal_move(1, 1, symbol));
        assert!(!game.is_legal_move(2, 1, symbol));
    }
    assert!(!game.is_legal_move(0, 0, 'X'));
    assert!(!game.is_legal_move(3, 3, 'O'));
}

#[test]
fn check_endpoint_walks_to_the_closing_piece() {
    let game = Othello::with_players('X', 'O', 4, 4);
    assert!(game.check_endpoint(2, 1, 'X', Direction::S, false));
    assert!(!game.check_endpoint(1, 1, 'X', Direction::S, false));
    assert!(game.check_endpoint(1, 1, 'X', Direction::S, true));
    assert!(!game.check_endpoint(0, 0, 'X', Direction::N, true));
    assert!(!game.check_endpoint(2, 1, 'X', Direction::N, false));
    assert!(!game.check_endpoint(4, 1, 'X', Direction::S, true));
}

#[test]
fn playing_flips_and_passes_the_turn() {
    let mut game = Othello::with_players('X', 'O', 4, 4);
    game.play_move(3, 1, 'X');
    assert_eq!(
        vec![row("...."), row(".XO."), row(".XX."), row(".X..")],
        cells(&game)
    );
    assert_eq!(ActivePlayer::PlayerTwo, game.active_player());
    assert_eq!(Some(4), game.board().char_counts().get('X'));
    assert_eq!(Some(1), game.board().char_counts().get('O'));
    assert_eq!(1, game.get_winner_number());
    game.play_move(3, 0, 'O');
    assert_eq!(
        vec![row("...."), row(".XO."), row(".OX."), row("OX..")],
        cells(&game)
    );
    assert_eq!(Some(3), game.board().char_counts().get('X'));
    assert_eq!(Some(3), game.board().char_counts().get('O'));
    assert_eq!(0, game.get_winner_number());
    assert_eq!(ActivePlayer::PlayerOne, game.active_player());
}

#[test]
fn flip_pieces_counts_the_cells_turned() {
    let mut game = Othello::with_players('X', 'O', 4, 4);
    let mut placed = game.clone();
    game.play_move(3, 1, 'X');
    placed.flip_pieces(3, 1, 'X');
    assert_eq!(Some('X'), placed.board().get_cell(2, 1));
    assert_eq!(None, placed.board().get_cell(3, 1));
    let mut fresh = Othello::with_players('X', 'O', 4, 4);
    assert_eq!(1, fresh.flip_pieces(3, 1, 'X'));
    assert_eq!(0, fresh.flip_pieces(0, 0, 'O'));
}

#[test]
fn a_move_can_flip_in_several_directions() {
    let mut game = Othello::with_players('X', 'O', 5, 5);
    game.play_move(2, 0, 'X');
    game.play_move(1, 0, 'O');
    game.play_move(0, 1, 'X');
    game.play_move(3, 2, 'O');
    assert_eq!(
        vec![row(".X..."), row("OXO.."), row("XOO.."), row("..O.."), row(".....")],
        cells(&game)
    );
    let mut probe = game.clone();
    assert_eq!(3, probe.flip_pieces(2, 3, 'X'));
    game.play_move(2, 3, 'X');
    assert_eq!(
        vec![row(".X..."), row("OXX.."), row("XXXX."), row("..O.."), row(".....")],
        cells(&game)
    );
}

#[test]
fn every_legal_move_flips_and_adds_one_piece() {
    let game = Othello::with_players('X', 'O', 4, 4);
    for symbol in ['X', 'O'] {
        for (row, col) in game.successors(symbol) {
            let mut played = game.clone();
            played.play_move(row, col, symbol);
            assert_eq!(occupied(&game) + 1, occupied(&played));
            let mut probe = game.clone();
            assert!(probe.flip_pieces(row, col, symbol) >= 1);
        }
    }
}

#[test]
fn players_and_symbols_correspond() {
    let mut game = Othello::with_players('X', 'O', 4, 6);
    assert_eq!('X', game.symbol_from_player(ActivePlayer::PlayerOne));
    assert_eq!('O', game.symbol_from_player(ActivePlayer::PlayerTwo));
    assert_eq!(Some(ActivePlayer::PlayerOne), game.player_from_symbol('X'));
    assert_eq!(Some(ActivePlayer::PlayerTwo), game.player_from_symbol('O'));
    assert_eq!(None, game.player_from_symbol('Z'));
    assert_eq!(ActivePlayer::PlayerTwo, ActivePlayer::PlayerOne.not());
    game.change_active_player();
    assert_eq!(2, game.active_as_num());
    assert_eq!('O', game.get_active_symbol());
    assert_eq!(Some('X'), game.board().get_cell(1, 2));
    assert_eq!(Some('X'), game.board().get_cell(2, 3));
    assert_eq!(Some('O'), game.board().get_cell(2, 2));
    assert_eq!(Some('O'), game.board().get_cell(1, 3));
}

#[test]
fn more_moves_while_both_players_can_move() {
    let game = Othello::with_players('X', 'O', 4, 4);
    assert!(game.has_more_moves());
    assert!(game.player_has_more_moves(ActivePlayer::PlayerOne));
    assert!(game.player_has_more_moves(ActivePlayer::PlayerTwo));
    assert!(game.symbol_has_more_moves('X'));
    assert!(!game.symbol_has_more_moves('Z'));
}

#[test]
fn turn_steps() {
    let mut game = Othello::with_players('X', 'O', 4, 4);
    assert_eq!(TurnState::AwaitingMove, game.next_turn(None));
    assert_eq!(TurnState::AwaitingMove, game.next_turn(Some((0, 0))));
    assert_eq!(TurnState::AwaitingMove, game.next_turn(Some((9, 9))));
    assert_eq!(TurnState::AwaitingMove, game.next_turn(Some((0, 1))));
    assert_eq!(ActivePlayer::PlayerOne, game.active_player());
    assert_eq!(4, occupied(&game));
    assert_eq!(TurnState::MoveApplied, game.next_turn(Some((0, 2))));
    assert_eq!(ActivePlayer::PlayerTwo, game.active_player());
    assert_eq!(Some('X'), game.board().get_cell(1, 2));
}

#[test]
fn scripted_game_reaches_a_fixed_end() {
    let mut game = Othello::with_players('X', 'O', 4, 4);
    let one = ScriptedPlayer::new('X', &[(0, 0), (0, 2), (2, 0), (1, 3), (3, 1), (3, 2), (0, 1)]);
    let two = ScriptedPlayer::new('O', &[(0, 3), (3, 0), (3, 3), (2, 3), (1, 0), (3, 3)]);
    assert_eq!(2, play_out(&mut game, &one, &two));
    assert_eq!(
        vec![row(".XXO"), row("OXXO"), row("OXOO"), row("OOOO")],
        cells(&game)
    );
    assert_eq!(Some(5), game.board().char_counts().get('X'));
    assert_eq!(Some(10), game.board().char_counts().get('O'));
    assert!(!game.has_more_moves());
    assert!(!game.player_has_more_moves(ActivePlayer::PlayerOne));
    assert!(game.player_has_more_moves(ActivePlayer::PlayerTwo));
    assert_eq!(ActivePlayer::PlayerTwo, game.active_player());
}

#[test]
fn mover_with_a_move_plays_even_when_the_game_is_over() {
    let mut game = Othello::with_players('X', 'O', 4, 4);
    let one = ScriptedPlayer::new('X', &[(0, 2), (2, 0), (1, 3), (3, 1), (3, 2), (0, 1)]);
    let two = ScriptedPlayer::new('O', &[(0, 3), (3, 0), (2, 3), (1, 0), (3, 3)]);
    play_out(&mut game, &one, &two);
    assert!(!game.has_more_moves());
    assert_eq!(ActivePlayer::PlayerTwo, game.active_player());
    assert_eq!(TurnState::AwaitingMove, game.next_turn(Some((3, 3))));
    assert_eq!(TurnState::MoveApplied, game.next_turn(Some((0, 0))));
    assert_eq!(Some('O'), game.board().get_cell(0, 0));
    assert!(game.board().is_full());
    assert_eq!(ActivePlayer::PlayerOne, game.active_player());
    assert_eq!(TurnState::NoLegalMove, game.next_turn(Some((0, 0))));
    assert_eq!(ActivePlayer::PlayerTwo, game.active_player());
}

#[test]
fn full_board_ends_the_game() {
    let mut game = Othello::with_players('X', 'O', 2, 2);
    assert!(game.board().is_full());
    assert!(!game.has_more_moves());
    assert!(!game.symbol_has_more_moves('X'));
    assert!(!game.symbol_has_more_moves('O'));
    assert!(game.successors('X').is_empty());
    assert_eq!(0, game.get_winner_number());
    let before = game.active_player();
    assert_eq!(TurnState::NoLegalMove, game.next_turn(None));
    assert_eq!(before.not(), game.active_player());
}

#[test]
fn duplicates_are_independent() {
    let game = Othello::with_players('X', 'O', 4, 4);
    let mut copy = game.duplicate();
    copy.play_move(3, 1, 'X');
    assert_eq!(None, game.board().get_cell(3, 1));
    assert_eq!(Some('O'), game.board().get_cell(2, 1));
    assert_eq!(ActivePlayer::PlayerOne, game.active_player());
    assert_eq!(Some('X'), copy.board().get_cell(3, 1));
    let board = game.board().duplicate();
    let mut other = board.clone();
    other.set_cell(0, 0, 'O');
    assert_eq!(None, board.get_cell(0, 0));
    assert_eq!(Some('X'), board.get_cell(1, 1));
}

#[test]
fn scripted_run_reaches_a_fixed_end() {
    let one = vec![(0, 0), (0, 2), (2, 0), (1, 3), (3, 1), (3, 2), (0, 1)];
    let two = vec![(0, 3), (3, 0), (3, 3), (2, 3), (1, 0), (3, 3)];
    let mut game = Othello::with_players('X', 'O', 4, 4);
    assert_eq!(2, game.run_script(&one, &two));
    assert_eq!(
        vec![row(".XXO"), row("OXXO"), row("OXOO"), row("OOOO")],
        cells(&game)
    );
    assert!(!game.has_more_moves());
    let mut again = Othello::with_players('X', 'O', 4, 4);
    assert_eq!(2, again.run_script(&one, &two));
    assert_eq!(cells(&game), cells(&again));
    assert_eq!(game.active_player(), again.active_player());
}

#[test]
fn scripted_run_stops_when_a_script_runs_out() {
    let mut game = Othello::with_players('X', 'O', 4, 4);
    assert_eq!(1, game.run_script(&vec![(3, 1), (0, 0)], &vec![]));
    assert!(game.has_more_moves());
    assert_eq!(ActivePlayer::PlayerTwo, game.active_player());
    assert_eq!(5, occupied(&game));
    assert_eq!(None, game.board().get_cell(0, 0));
}

#[test]
fn winner_announcements() {
    let mut game = Othello::with_players('X', 'O', 4, 4);
    assert_eq!(None, game.get_winner());
    game.run_script(&vec![(1, 3), (3, 1)], &vec![(2, 3), (0, 3)]);
    assert!(!game.has_more_moves());
    assert_eq!(Some("Player 1 wins with 5 points!".to_string()), game.get_winner());
    let mut game = Othello::with_players('X', 'O', 4, 4);
    let one = vec![(0, 2), (2, 0), (1, 3), (3, 1), (3, 2), (0, 1)];
    let two = vec![(0, 3), (3, 0), (2, 3), (1, 0), (3, 3)];
    game.run_script(&one, &two);
    assert_eq!(Some("Player 2 wins with 10 points!".to_string()), game.get_winner());
    let tie = Othello::with_players('X', 'O', 2, 2);
    assert_eq!(Some("It's a tie!".to_string()), tie.get_winner());
}
