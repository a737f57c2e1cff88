use othlib::game::TurnState;
use othlib::player::minimax::MinimaxPlayer;
use othlib::player::random::RandomPlayer;
use othlib::player::Player;
use othlib::{ActivePlayer, Othello};

/// Runs turns until the game is over and returns the winner's number.
fn run(game: &mut Othello, one: &dyn Player, two: &dyn Player) -> usize {
    while game.has_more_moves() {
        loop {
            let player = match game.active_player() {
                ActivePlayer::PlayerOne => one,
                ActivePlayer::PlayerTwo => two,
            };
            let proposal = player.get_move(game);
            if game.next_turn(Some(proposal)) != TurnState::AwaitingMove {
                break;
            }
        }
    }
    game.get_winner_number()
}

#[test]
fn try_minimax() {
    let mut game = Othello::with_players('X', 'O', 4, 4);
    run(&mut game, &MinimaxPlayer('X'), &MinimaxPlayer('O'));
    assert_ne!(1, game.get_winner_number());
}

#[test]
fn minimax_self_play_on_four_by_four() {
    let mut game = Othello::with_players('X', 'O', 4, 4);
    assert_eq!(2, run(&mut game, &MinimaxPlayer('X'), &MinimaxPlayer('O')));
    assert_eq!(Some(5), game.board().char_counts().get('X'));
    assert_eq!(Some(10), game.board().char_counts().get('O'));
}

#[test]
fn opening_search_value_and_move() {
    let game = Othello::with_players('X', 'O', 4, 4);
    let player = MinimaxPlayer('X');
    let mut search = game.clone();
    assert_eq!(((0, 2), -5), player.minimax(&mut search, isize::MIN, isize::MAX, true));
    assert_eq!((0, 2), player.get_move(&game));
    let mut search = game.clone();
    assert_eq!(((0, 2), 5), MinimaxPlayer('O').minimax(&mut search, isize::MIN, isize::MAX, false));
}

#[test]
fn pruning_keeps_the_value() {
    let mut game = Othello::with_players('X', 'O', 4, 4);
    game.play_move(0, 2, 'X');
    game.play_move(0, 3, 'O');
    for symbol in ['X', 'O'] {
        for maximize in [true, false] {
            let player = MinimaxPlayer(symbol);
            let mut a = game.clone();
            let mut b = game.clone();
            let pruned = player.minimax(&mut a, isize::MIN, isize::MAX, maximize);
            let plain = player.minimax_exhaustive(&mut b, maximize);
            assert_eq!(plain, pruned);
        }
    }
}

#[test]
fn narrow_window_bounds_the_value() {
    let game = Othello::with_players('X', 'O', 4, 4);
    let player = MinimaxPlayer('X');
    let exact = player.minimax_exhaustive(&mut game.clone(), true).1;
    assert_eq!(-5, exact);
    let high = player.minimax(&mut game.clone(), 0, 10, true).1;
    assert!(high <= 0 && exact <= high);
    let low = player.minimax(&mut game.clone(), -20, -10, true).1;
    assert!(low >= -10 && exact >= low);
    let inside = player.minimax(&mut game.clone(), -6, -4, true).1;
    assert_eq!(exact, inside);
}

#[test]
fn utility_is_antisymmetric() {
    let mut game = Othello::with_players('X', 'O', 4, 4);
    game.play_move(3, 1, 'X');
    assert_eq!(3, MinimaxPlayer('X').utility(&game));
    assert_eq!(-3, MinimaxPlayer('O').utility(&game));
    let full = Othello::with_players('X', 'O', 2, 2);
    assert_eq!(0, MinimaxPlayer('X').utility(&full));
    let result = MinimaxPlayer('X').minimax(&mut full.clone(), isize::MIN, isize::MAX, true);
    assert_eq!(((0, 0), 0), result);
}

#[test]
fn finished_game_has_no_move_to_choose() {
    let mut game = Othello::with_players('X', 'O', 4, 4);
    run(&mut game, &MinimaxPlayer('X'), &MinimaxPlayer('O'));
    let player = MinimaxPlayer('O');
    assert_eq!(((0, 0), 5), player.minimax_exhaustive(&mut game.clone(), true));
    assert_eq!(((0, 0), 5), player.minimax(&mut game.clone(), 0, 3, true));
    assert_eq!(((0, 0), 5), player.minimax(&mut game.clone(), 7, 9, false));
    let mut search = game.clone();
    let result = MinimaxPlayer('X').minimax(&mut search, isize::MIN, isize::MAX, false);
    assert_eq!(((0, 0), -5), result);
}

#[test]
fn unknown_symbol_gets_the_default_move() {
    let game = Othello::with_players('X', 'O', 4, 4);
    assert_eq!((0, 0), MinimaxPlayer('Z').get_move(&game));
    assert_eq!('Z', MinimaxPlayer('Z').get_symbol());
}

#[test]
fn random_player_picks_by_draw() {
    let game = Othello::with_players('X', 'O', 4, 4);
    let player = RandomPlayer('X');
    assert_eq!((0, 2), player.pick_move(&game, 0));
    assert_eq!((1, 3), player.pick_move(&game, 5));
    assert_eq!((3, 1), player.pick_move(&game, 7));
    assert_eq!((0, 0), RandomPlayer('Z').pick_move(&game, 3));
    assert_eq!('X', player.get_symbol());
}

#[test]
fn random_player_moves_are_legal() {
    let game = Othello::with_players('X', 'O', 4, 4);
    let player = RandomPlayer('O');
    for _ in 0..20 {
        let (row, col) = player.get_move(&game);
        assert!(game.is_legal_move(row, col, 'O'));
    }
    let mut game = Othello::with_players('X', 'O', 4, 4);
    let winner = run(&mut game, &RandomPlayer('X'), &MinimaxPlayer('O'));
    assert!(winner <= 2);
    assert!(!game.has_more_moves());
}
