//! The decisions of an interactive game of draughts: what a click on a tile
//! selects, and how the agents answer a move.

use crate::agents::{agent_action, offer_of, Game, GameAgent};
use crate::checkers::{
    cell, lemma_material_bounds, lemma_material_update, material, on_board, opponent, origin,
    owner, target, Action, Checkers, GameState, Mode, Player, Tile,
};
use crate::contest::{all_legal, state_after};
use crate::utils::Pos;
use rand::rngs::StdRng;
use vstd::prelude::*;

verus! {

/// The actions of `actions` that move a piece from `pos`, in order.
pub open spec fn starting_at(actions: Seq<Action>, pos: Pos) -> Seq<Action>
    decreases actions.len(),
{
    if actions.len() == 0 {
        Seq::empty()
    } else {
        let before = starting_at(actions.drop_last(), pos);
        if origin(actions.last()) == pos {
            before.push(actions.last())
        } else {
            before
        }
    }
}

/// Whether `chosen` is the first of `actions` that moves a piece to `pos`,
/// or `None` where none of them does.
pub open spec fn is_first_to(actions: Seq<Action>, pos: Pos, chosen: Option<Action>) -> bool {
    match chosen {
        Some(a) => exists|i: int|
            0 <= i < actions.len() && #[trigger] actions[i] == a && target(a) == pos
                && forall|j: int| 0 <= j < i ==> target(#[trigger] actions[j]) != pos,
        None => forall|j: int| 0 <= j < actions.len() ==> target(#[trigger] actions[j]) != pos,
    }
}

/// A legal jump takes material from the opponent of the player who jumps.
pub proof fn lemma_jump_takes_material(s: GameState, a: Action)
    requires
        s.inv(),
        s.legal().contains(a),
        a is Jump,
    ensures
        material(s.next(a).tiles, opponent(s.active_player)) < material(
            s.tiles,
            opponent(s.active_player),
        ),
{
    s.lemma_legal_shape(a);
    if let Action::Jump { from, capture, to } = a {
        let other = opponent(s.active_player);
        let cleared = s.tiles.update(cell(capture), Tile::Empty);
        let lifted = cleared.update(cell(from), Tile::Empty);
        let mover = s.cleared(capture).tile(from);
        assert(s.next(a).tiles == lifted.update(cell(to), s.cleared(capture).moved(from, to).tile(to)));
        lemma_material_update(s.tiles, cell(capture), Tile::Empty, other);
        lemma_material_update(cleared, cell(from), Tile::Empty, other);
        lemma_material_update(
            lifted,
            cell(to),
            s.cleared(capture).moved(from, to).tile(to),
            other,
        );
        crate::checkers::lemma_crowned_once(mover, to, to);
    }
}

/// How far a chain of captures can still go: nothing outside a chain, else
/// one more than the material of the opponent.
pub open spec fn chain_room(s: GameState) -> int {
    if s.mode is ChainCapture {
        material(s.tiles, opponent(s.active_player)) + 1
    } else {
        0
    }
}

/// The legal actions of `game` that move the piece at `pos`.
pub fn actions_from(game: &Checkers, pos: Pos) -> (found: Vec<Action>)
    requires
        game@.inv(),
    ensures
        found@ == starting_at(game@.legal(), pos),
{
    let mut actions: Vec<Action> = Vec::new();
    game.possible_actions(&mut actions);
    assert(actions@ =~= game@.legal());
    let mut found: Vec<Action> = Vec::new();
    let mut k: usize = 0;
    while k < actions.len()
        invariant
            k <= actions.len(),
            found@ == starting_at(actions@.take(k as int), pos),
        decreases actions.len() - k,
    {
        proof {
            assert(actions@.take(k + 1).drop_last() =~= actions@.take(k as int));
        }
        let from = match actions[k] {
            Action::Jump { from, .. } => from,
            Action::Step { from, .. } => from,
        };
        if from == pos {
            found.push(actions[k]);
        }
        k = k + 1;
    }
    assert(actions@.take(actions.len() as int) =~= actions@);
    found
}

/// What a click on the tile at `pos` selects, where `player_actions` holds
/// the highlighted actions. On an empty tile it chooses the first highlighted
/// action that moves a piece there, and then the highlights are cleared; on a
/// piece of the active player it highlights the legal actions of that piece;
/// any other click changes nothing.
pub fn handle_click(
    game: &Checkers,
    player_actions: &mut Vec<Action>,
    pos: Pos,
) -> (chosen: Option<Action>)
    requires
        game@.inv(),
        on_board(pos),
    ensures
        game@.tile(pos) == Tile::Empty ==> is_first_to(old(player_actions)@, pos, chosen),
        game@.tile(pos) == Tile::Empty && chosen.is_some() ==> final(player_actions)@.len() == 0,
        game@.tile(pos) == Tile::Empty && chosen.is_none() ==> final(player_actions)@ == old(
            player_actions,
        )@,
        game@.tile(pos) != Tile::Empty ==> chosen.is_none(),
        owner(game@.tile(pos)) == Some(game@.active_player) ==> final(player_actions)@
            == starting_at(game@.legal(), pos),
        owner(game@.tile(pos)) == Some(opponent(game@.active_player)) ==> final(player_actions)@
            == old(player_actions)@,
{
    match game.get_tile(pos) {
        Tile::Empty => {
            let mut k: usize = 0;
            while k < player_actions.len()
                invariant
                    k <= player_actions.len(),
                    game@.tile(pos) == Tile::Empty,
                    player_actions@ == old(player_actions)@,
                    forall|j: int| 0 <= j < k ==> target(#[trigger] player_actions@[j]) != pos,
                decreases player_actions.len() - k,
            {
                let a = player_actions[k];
                let to = match a {
                    Action::Step { to, .. } => to,
                    Action::Jump { to, .. } => to,
                };
                if to == pos {
                    player_actions.clear();
                    return Some(a);
                }
                k = k + 1;
            }
            None
        },
        Tile::Occupied(player, _) => {
            if player == game.active_player {
                let mut found = actions_from(game, pos);
                player_actions.clear();
                player_actions.append(&mut found);
            }
            None
        },
    }
}

/// The answer of the agents to a move. At the start of a turn the agent of
/// the player to move takes an action, and goes on for as long as the chain
/// of captures lasts and it offers an action; in any other phase nothing
/// happens.
pub fn agent_response<A, B>(
    agent_a: &mut A,
    agent_b: &mut B,
    game: &mut Checkers,
    rng: &mut StdRng,
)
    where
        A: GameAgent<Checkers>,
        B: GameAgent<Checkers>,
    requires
        old(game)@.inv(),
    ensures
        final(game)@.inv(),
        old(game)@.mode != Mode::StartOfTurn ==> final(game)@ == old(game)@,
        exists|taken: Seq<Action>|
            {
                &&& all_legal::<Checkers>(old(game)@, taken)
                &&& final(game)@ == state_after::<Checkers>(old(game)@, taken)
                &&& old(game)@.mode == Mode::StartOfTurn ==> {
                    ||| taken.len() > 0 && !(final(game)@.mode is ChainCapture)
                    ||| exists|x: A, y: B| #[trigger]
                        offer_of::<A, B, Checkers>(x, y, final(game)@, None)
                }
            },
{
    let ghost start = game@;
    let ghost mut taken: Seq<Action> = Seq::empty();
    if game.mode == Mode::StartOfTurn {
        let mut chaining = true;
        while chaining
            invariant
                game@.inv(),
                all_legal::<Checkers>(start, taken),
                game@ == state_after::<Checkers>(start, taken),
                chaining ==> game@.mode == Mode::StartOfTurn && taken.len() == 0 || game@.mode
                    is ChainCapture,
                !chaining ==> {
                    ||| taken.len() > 0 && !(game@.mode is ChainCapture)
                    ||| exists|x: A, y: B| #[trigger] offer_of::<A, B, Checkers>(x, y, game@, None)
                },
            decreases
                    (if chaining { 1int } else { 0int }),
                    (if taken.len() == 0 { 1int } else { 0int }),
                    chain_room(game@),
        {
            let ghost before = game@;
            let ghost agents = (*agent_a, *agent_b);
            let progressed = agent_action(agent_a, agent_b, game, rng);
            if progressed {
                proof {
                    let choice = choose|choice: Option<Action>|
                        {
                            &&& #[trigger] offer_of::<A, B, Checkers>(
                                agents.0,
                                agents.1,
                                before,
                                choice,
                            )
                            &&& choice.is_some()
                            &&& before.legal().contains(choice.unwrap())
                            &&& game@ == before.next(choice.unwrap())
                        };
                    let a = choice.unwrap();
                    let longer = taken.push(a);
                    assert(longer.drop_last() =~= taken);
                    if before.mode is ChainCapture {
                        before.lemma_legal_iff_allowed(a);
                        lemma_jump_takes_material(before, a);
                        before.lemma_turn_after_action(a);
                    }
                    lemma_material_bounds(game@.tiles, opponent(game@.active_player));
                    taken = longer;
                }
                chaining = match game.mode {
                    Mode::ChainCapture(_) => true,
                    _ => false,
                };
            } else {
                assert(offer_of::<A, B, Checkers>(agents.0, agents.1, game@, None));
                chaining = false;
            }
        }
    }
    assert(all_legal::<Checkers>(start, taken) && game@ == state_after::<Checkers>(start, taken));
}

} // verus!
