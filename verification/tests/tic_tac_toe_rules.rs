use boardgames::agents::Game;
use boardgames::tic_tac_toe::{Action, Player, TicTacToe};
use boardgames::utils::Pos;

fn at(x: i32, y: i32) -> Pos {
    Pos { x, y }
}

fn actions_of(game: &TicTacToe) -> Vec<Action> {
    let mut actions = Vec::new();
    game.possible_actions(&mut actions);
    actions
}

fn mark(game: &mut TicTacToe, x: i32, y: i32) {
    let action = game.action_at(at(x, y)).unwrap();
    game.apply_action(&action);
}

#[test]
fn empty_board_offers_every_tile_row_by_row() {
    let game = TicTacToe::new(3, 3);
    assert_eq!(game.size(), 3);
    assert_eq!(game.length_to_win(), 3);
    assert_eq!(game.active_player(), 0);
    assert_eq!(game.winner(), None);
    let actions = actions_of(&game);
    assert_eq!(actions.len(), 9);
    for (i, a) in actions.iter().enumerate() {
        assert_eq!(*a, Action { pos: at(i as i32 % 3, i as i32 / 3), player: Player::WhitePlayer });
    }
}

#[test]
fn mark_takes_the_tile_and_passes_the_turn_on() {
    let mut game = TicTacToe::new(3, 3);
    mark(&mut game, 1, 1);
    assert_eq!(game.mark_at(at(1, 1)), Some(Player::WhitePlayer));
    assert_eq!(game.mark_at(at(0, 0)), None);
    assert_eq!(game.active_player(), 1);
    let actions = actions_of(&game);
    assert_eq!(actions.len(), 8);
    assert!(actions.iter().all(|a| a.player == Player::BlackPlayer && a.pos != at(1, 1)));
    assert_eq!(actions[4], Action { pos: at(2, 1), player: Player::BlackPlayer });
    assert_eq!(game.action_at(at(1, 1)), None);
    assert_eq!(game.action_at(at(3, 0)), None);
    assert_eq!(game.action_at(at(0, -1)), None);
    assert_eq!(
        game.action_at(at(2, 2)),
        Some(Action { pos: at(2, 2), player: Player::BlackPlayer })
    );
}

#[test]
fn row_of_three_wins() {
    let mut game = TicTacToe::new(3, 3);
    mark(&mut game, 0, 0);
    mark(&mut game, 0, 1);
    mark(&mut game, 1, 0);
    mark(&mut game, 1, 1);
    assert_eq!(game.winner(), None);
    assert_eq!(game.player_score(0), 0);
    assert_eq!(game.player_score(1), 0);
    mark(&mut game, 2, 0);
    assert_eq!(game.winner(), Some(0));
    assert_eq!(game.player_score(0), 0);
    assert_eq!(game.player_score(1), -1);
    assert_eq!(actions_of(&game), vec![]);
    assert_eq!(game.action_at(at(2, 2)), None);
    assert_eq!(game.active_player(), 1);
}

#[test]
fn column_of_three_wins_for_the_second_player() {
    let mut game = TicTacToe::new(3, 3);
    mark(&mut game, 0, 0);
    mark(&mut game, 1, 0);
    mark(&mut game, 2, 0);
    mark(&mut game, 1, 1);
    mark(&mut game, 0, 1);
    mark(&mut game, 1, 2);
    assert_eq!(game.winner(), Some(1));
    assert_eq!(game.player_score(0), -1);
    assert_eq!(game.player_score(1), 0);
}

#[test]
fn both_diagonals_win() {
    let mut game = TicTacToe::new(3, 3);
    mark(&mut game, 0, 0);
    mark(&mut game, 1, 0);
    mark(&mut game, 2, 2);
    mark(&mut game, 2, 0);
    mark(&mut game, 1, 1);
    assert_eq!(game.winner(), Some(0));

    let mut game = TicTacToe::new(3, 3);
    mark(&mut game, 2, 0);
    mark(&mut game, 1, 0);
    mark(&mut game, 0, 2);
    mark(&mut game, 0, 0);
    mark(&mut game, 1, 1);
    assert_eq!(game.winner(), Some(0));
}

#[test]
fn line_is_counted_on_both_sides_of_the_mark() {
    let mut game = TicTacToe::new(5, 4);
    mark(&mut game, 0, 2);
    mark(&mut game, 0, 0);
    mark(&mut game, 1, 2);
    mark(&mut game, 1, 0);
    mark(&mut game, 3, 2);
    mark(&mut game, 2, 0);
    assert_eq!(game.winner(), None);
    mark(&mut game, 2, 2);
    assert_eq!(game.winner(), Some(0));
}

#[test]
fn gap_breaks_a_line() {
    let mut game = TicTacToe::new(5, 3);
    mark(&mut game, 0, 0);
    mark(&mut game, 0, 4);
    mark(&mut game, 1, 0);
    mark(&mut game, 1, 4);
    mark(&mut game, 3, 0);
    assert_eq!(game.winner(), None);
    mark(&mut game, 3, 4);
    assert_eq!(game.winner(), None);
    mark(&mut game, 4, 0);
    assert_eq!(game.winner(), None);
    mark(&mut game, 2, 4);
    assert_eq!(game.winner(), Some(1));
}

#[test]
fn full_board_without_a_line_has_no_winner_and_no_action() {
    let mut game = TicTacToe::new(3, 3);
    for (x, y) in [(0, 0), (1, 1), (2, 2), (1, 0), (1, 2), (0, 2), (2, 0), (2, 1), (0, 1)] {
        assert_eq!(game.winner(), None);
        mark(&mut game, x, y);
    }
    assert_eq!(game.winner(), None);
    assert_eq!(actions_of(&game), vec![]);
    assert_eq!(game.player_score(0), 0);
    assert_eq!(game.player_score(1), 0);
}

#[test]
fn single_mark_wins_where_one_is_enough() {
    let mut game = TicTacToe::new(2, 1);
    mark(&mut game, 1, 1);
    assert_eq!(game.winner(), Some(0));
}

#[test]
fn board_without_tiles_offers_nothing() {
    let game = TicTacToe::new(0, 3);
    assert_eq!(actions_of(&game), vec![]);
    assert_eq!(game.winner(), None);
    assert_eq!(game.mark_at(at(0, 0)), None);
    assert_eq!(game.action_at(at(0, 0)), None);
}

#[test]
fn clone_is_independent_of_its_source() {
    let mut game = TicTacToe::new(3, 3);
    mark(&mut game, 1, 1);
    let mut copy = game.clone();
    mark(&mut copy, 0, 0);
    assert_eq!(game.mark_at(at(0, 0)), None);
    assert_eq!(copy.mark_at(at(0, 0)), Some(Player::BlackPlayer));
    assert_eq!(copy.mark_at(at(1, 1)), Some(Player::WhitePlayer));
    assert_eq!(game.active_player(), 1);
    assert_eq!(copy.active_player(), 0);
}

#[test]
fn every_state_of_a_game_is_consistent() {
    let mut game = TicTacToe::new(4, 3);
    assert!(game.is_consistent());
    for (x, y) in [(0, 0), (3, 3), (1, 1), (2, 3), (2, 2)] {
        mark(&mut game, x, y);
        assert!(game.is_consistent());
    }
    assert_eq!(game.winner(), Some(0));
    assert!(TicTacToe::new(0, 0).is_consistent());
}
