use boardgames::agents::{Game, RandomAgent, RolloutAgent};
use boardgames::checkers::{Checkers, Mode, Piece, Player, Tile};
use boardgames::contest::{play_out, tally};
use boardgames::tic_tac_toe::TicTacToe;
use rand::rngs::StdRng;
use rand::SeedableRng;

#[test]
fn tally_counts_wins_and_draws() {
    assert_eq!(tally(&vec![]), (0, 0, 0));
    assert_eq!(tally(&vec![Some(0), Some(1), None, Some(0), None, None]), (2, 1, 3));
    assert_eq!(tally(&vec![Some(1), Some(1)]), (0, 2, 0));
    assert_eq!(tally(&vec![Some(2), Some(-1), None]), (0, 0, 3));
}

#[test]
fn play_out_stops_at_the_cap() {
    let mut game = Checkers::new();
    let mut a = RandomAgent {};
    let mut b = RandomAgent {};
    let mut rng = StdRng::seed_from_u64(9);
    assert_eq!(play_out(&mut a, &mut b, &mut game, &mut rng, 0), None);
    assert_eq!(game.tiles, Checkers::new().tiles);
    assert_eq!(play_out(&mut a, &mut b, &mut game, &mut rng, 1), None);
    assert_eq!(game.active_player, Player::Black);
    assert_eq!(play_out(&mut a, &mut b, &mut game, &mut rng, 2), None);
    assert_eq!(game.tiles.iter().filter(|t| **t != Tile::Empty).count(), 24);
}

#[test]
fn play_out_returns_the_winner_of_the_state_reached() {
    for seed in 0..20 {
        let mut game = Checkers::new();
        let mut a = RandomAgent {};
        let mut b = RandomAgent {};
        let mut rng = StdRng::seed_from_u64(seed);
        let winner = play_out(&mut a, &mut b, &mut game, &mut rng, 400);
        assert_eq!(winner, game.winner());
        assert!(game.is_consistent());
        let white = game.tiles.iter().filter(|t| matches!(t, Tile::Occupied(Player::White, _))).count();
        let black = game.tiles.iter().filter(|t| matches!(t, Tile::Occupied(Player::Black, _))).count();
        match winner {
            Some(0) => {
                assert_eq!(black, 0);
                assert_eq!(game.mode, Mode::Victory(Player::White));
            }
            Some(1) => {
                assert_eq!(white, 0);
                assert_eq!(game.mode, Mode::Victory(Player::Black));
            }
            Some(_) => panic!("a third player won"),
            None => assert!(white > 0 && black > 0),
        }
        let kings = game.tiles.iter().filter(|t| matches!(t, Tile::Occupied(_, Piece::King))).count();
        assert!(kings <= white + black);
    }
}

#[test]
fn rollout_agent_beats_idle_play_at_noughts_and_crosses() {
    let mut results = Vec::new();
    for seed in 0..30 {
        let mut game = TicTacToe::new(3, 3);
        let mut a = RandomAgent {};
        let mut b = RandomAgent {};
        let mut rng = StdRng::seed_from_u64(seed);
        let winner = play_out(&mut a, &mut b, &mut game, &mut rng, 400);
        assert_eq!(winner, game.winner());
        results.push(winner);
    }
    let (first, second, draws) = tally(&results);
    assert_eq!(first + second + draws, 30);
    assert!(first > 0);
}

#[test]
fn play_out_with_rollout_agents_keeps_to_the_rules() {
    let mut game = Checkers::new();
    let mut a = RolloutAgent { iterations: 2, depth: 3 };
    let mut b = RolloutAgent { iterations: 1, depth: 1 };
    let mut rng = StdRng::seed_from_u64(2);
    let winner = play_out(&mut a, &mut b, &mut game, &mut rng, 60);
    assert_eq!(winner, game.winner());
    assert!(game.is_consistent());
}
