use boardgames::agents::{
    agent_action, apply_choice, first_best, Game, GameAgent, RandomAgent, RolloutAgent,
};
use boardgames::checkers::{Action, Checkers, Mode, Piece, Player, Tile};
use boardgames::tic_tac_toe::TicTacToe;
use boardgames::utils::Pos;
use rand::rngs::StdRng;
use rand::SeedableRng;

fn at(x: i32, y: i32) -> Pos {
    Pos { x, y }
}

fn draughts(pieces: &[(i32, i32, Player, Piece)], active_player: Player) -> Checkers {
    let mut tiles = [Tile::Empty; 64];
    for &(x, y, player, piece) in pieces {
        tiles[(y * 8 + x) as usize] = Tile::Occupied(player, piece);
    }
    Checkers { tiles, active_player, mode: Mode::StartOfTurn }
}

fn legal(game: &Checkers) -> Vec<Action> {
    let mut actions = Vec::new();
    game.possible_actions(&mut actions);
    actions
}

#[test]
fn first_best_takes_the_first_of_equal_totals() {
    assert_eq!(first_best(&vec![]), None);
    assert_eq!(first_best(&vec![5]), Some(0));
    assert_eq!(first_best(&vec![1, 3, 3]), Some(1));
    assert_eq!(first_best(&vec![3, 3, 3]), Some(0));
    assert_eq!(first_best(&vec![-5, -7]), Some(0));
    assert_eq!(first_best(&vec![-7, -5, -6]), Some(1));
    assert_eq!(first_best(&vec![0, 1, 2, 9, 2, 9]), Some(3));
    assert_eq!(first_best(&vec![i128::MIN, i128::MIN]), Some(0));
    assert_eq!(first_best(&vec![-99999999999999i128 * 2, -99999999999999i128 * 3]), Some(0));
}

#[test]
fn random_agent_picks_a_legal_action() {
    let game = Checkers::new();
    let actions = legal(&game);
    let mut agent = RandomAgent {};
    let mut seen = vec![false; actions.len()];
    for seed in 0..200 {
        let mut rng = StdRng::seed_from_u64(seed);
        let choice = agent.choose_action(&game, &mut rng).unwrap();
        let index = actions.iter().position(|a| *a == choice).unwrap();
        seen[index] = true;
    }
    assert!(seen.iter().all(|s| *s));
}

#[test]
fn random_agent_has_no_action_in_a_finished_game() {
    let mut game = draughts(
        &[(2, 2, Player::White, Piece::Pawn), (3, 3, Player::Black, Piece::Pawn)],
        Player::White,
    );
    game.apply_action(&Action::Jump { from: at(2, 2), capture: at(3, 3), to: at(4, 4) });
    let mut rng = StdRng::seed_from_u64(1);
    let mut agent = RandomAgent {};
    assert_eq!(agent.choose_action(&game, &mut rng), None);
    let mut rollout = RolloutAgent { iterations: 3, depth: 3 };
    assert_eq!(rollout.choose_action(&game, &mut rng), None);
}

#[test]
fn random_agent_is_determined_by_the_seed() {
    let game = Checkers::new();
    let mut agent = RandomAgent {};
    for seed in 0..20 {
        let first = agent.choose_action(&game, &mut StdRng::seed_from_u64(seed));
        let second = agent.choose_action(&game, &mut StdRng::seed_from_u64(seed));
        assert_eq!(first, second);
    }
}

#[test]
fn rollout_agent_is_determined_by_state_configuration_and_seed() {
    let game = Checkers::new();
    for seed in 0..5 {
        let mut agent = RolloutAgent { iterations: 8, depth: 6 };
        let first = agent.choose_action(&game, &mut StdRng::seed_from_u64(seed));
        let second = agent.choose_action(&game.clone(), &mut StdRng::seed_from_u64(seed));
        assert!(first.is_some());
        assert_eq!(first, second);
        assert!(legal(&game).contains(&first.unwrap()));
        assert_eq!(agent.iterations, 8);
        assert_eq!(agent.depth, 6);
    }
}

#[test]
fn rollout_agent_leaves_the_game_as_it_was() {
    let game = Checkers::new();
    let mut agent = RolloutAgent { iterations: 4, depth: 10 };
    let mut rng = StdRng::seed_from_u64(11);
    agent.choose_action(&game, &mut rng);
    let fresh = Checkers::new();
    assert_eq!(game.tiles, fresh.tiles);
    assert_eq!(game.active_player, fresh.active_player);
    assert_eq!(game.mode, fresh.mode);
}

#[test]
fn rollout_agent_takes_the_capture_that_scores_best() {
    let game = draughts(
        &[
            (3, 3, Player::White, Piece::King),
            (2, 4, Player::Black, Piece::Pawn),
            (4, 2, Player::Black, Piece::King),
        ],
        Player::White,
    );
    assert_eq!(
        legal(&game),
        vec![
            Action::Jump { from: at(3, 3), capture: at(2, 4), to: at(1, 5) },
            Action::Jump { from: at(3, 3), capture: at(4, 2), to: at(5, 1) },
        ]
    );
    for seed in 0..10 {
        let mut agent = RolloutAgent { iterations: 1, depth: 0 };
        let choice = agent.choose_action(&game, &mut StdRng::seed_from_u64(seed));
        assert_eq!(choice, Some(Action::Jump { from: at(3, 3), capture: at(4, 2), to: at(5, 1) }));
    }
}

#[test]
fn rollout_agent_takes_the_first_of_equal_actions() {
    let game = Checkers::new();
    for seed in 0..10 {
        let mut agent = RolloutAgent { iterations: 3, depth: 0 };
        let choice = agent.choose_action(&game, &mut StdRng::seed_from_u64(seed));
        assert_eq!(choice, Some(Action::Step { from: at(0, 2), to: at(1, 3) }));
        let mut idle = RolloutAgent { iterations: 0, depth: 5 };
        let choice = idle.choose_action(&game, &mut StdRng::seed_from_u64(seed));
        assert_eq!(choice, Some(Action::Step { from: at(0, 2), to: at(1, 3) }));
        let mut backwards = RolloutAgent { iterations: -4, depth: -5 };
        let choice = backwards.choose_action(&game, &mut StdRng::seed_from_u64(seed));
        assert_eq!(choice, Some(Action::Step { from: at(0, 2), to: at(1, 3) }));
    }
}

#[test]
fn rollout_agent_sees_a_capture_one_ply_ahead() {
    let game = draughts(
        &[
            (2, 2, Player::White, Piece::Pawn),
            (1, 5, Player::Black, Piece::Pawn),
            (7, 7, Player::Black, Piece::Pawn),
        ],
        Player::White,
    );
    assert_eq!(
        legal(&game),
        vec![
            Action::Step { from: at(2, 2), to: at(1, 3) },
            Action::Step { from: at(2, 2), to: at(3, 3) },
        ]
    );
    for seed in 0..10 {
        let mut agent = RolloutAgent { iterations: 40, depth: 1 };
        let choice = agent.choose_action(&game, &mut StdRng::seed_from_u64(seed));
        assert_eq!(choice, Some(Action::Step { from: at(2, 2), to: at(1, 3) }));
    }
}

#[test]
fn agent_action_moves_for_the_player_to_move() {
    let mut game = Checkers::new();
    let mut white = RandomAgent {};
    let mut black = RolloutAgent { iterations: 2, depth: 2 };
    let mut rng = StdRng::seed_from_u64(3);
    assert!(agent_action(&mut white, &mut black, &mut game, &mut rng));
    assert_eq!(game.active_player, Player::Black);
    assert_eq!(game.tiles.iter().filter(|t| **t != Tile::Empty).count(), 24);
    assert!(agent_action(&mut white, &mut black, &mut game, &mut rng));
    assert_eq!(game.active_player, Player::White);
}

#[test]
fn agent_action_halts_on_a_finished_game() {
    let mut game = draughts(
        &[(2, 2, Player::White, Piece::Pawn), (3, 3, Player::Black, Piece::Pawn)],
        Player::White,
    );
    let mut white = RandomAgent {};
    let mut black = RandomAgent {};
    let mut rng = StdRng::seed_from_u64(3);
    assert!(agent_action(&mut white, &mut black, &mut game, &mut rng));
    assert_eq!(game.winner(), Some(0));
    let tiles = game.tiles;
    assert!(!agent_action(&mut white, &mut black, &mut game, &mut rng));
    assert_eq!(game.tiles, tiles);
    assert_eq!(game.mode, Mode::Victory(Player::White));
}

#[test]
fn apply_choice_applies_what_was_chosen() {
    let mut game = Checkers::new();
    assert!(!apply_choice(&mut game, None));
    assert_eq!(game.tiles, Checkers::new().tiles);
    assert_eq!(game.active_player, Player::White);
    assert!(apply_choice(&mut game, Some(Action::Step { from: at(2, 2), to: at(3, 3) })));
    assert_eq!(game.active_player, Player::Black);
    assert_eq!(game.get_tile(at(3, 3)), Tile::Occupied(Player::White, Piece::Pawn));
    assert_eq!(game.get_tile(at(2, 2)), Tile::Empty);
}

#[test]
fn agents_play_noughts_and_crosses_through_the_same_contract() {
    let mut game = TicTacToe::new(3, 3);
    let mut first = RolloutAgent { iterations: 5, depth: 9 };
    let mut second = RandomAgent {};
    let mut rng = StdRng::seed_from_u64(5);
    let mut plies = 0;
    while agent_action(&mut first, &mut second, &mut game, &mut rng) {
        plies += 1;
        assert!(plies <= 9);
    }
    assert!(plies >= 5);
    let mut left = Vec::new();
    game.possible_actions(&mut left);
    assert!(left.is_empty());
    assert!(game.winner().is_some() || plies == 9);
}
