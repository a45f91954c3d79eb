//! Playing a game to its end with two agents, and counting the outcomes of
//! many games.

use crate::agents::{agent_action, offer_of, Game, GameAgent};
use rand::rngs::StdRng;
use vstd::prelude::*;

verus! {

/// The state reached from `s` when the actions of `taken` are taken in turn.
pub open spec fn state_after<G: Game>(s: G::V, taken: Seq<G::Action>) -> G::V
    decreases taken.len(),
{
    if taken.len() == 0 {
        s
    } else {
        G::next(state_after::<G>(s, taken.drop_last()), taken.last())
    }
}

/// Whether each action of `taken` is legal in the state in which it is taken
/// when the actions are taken in turn from `s`.
pub open spec fn all_legal<G: Game>(s: G::V, taken: Seq<G::Action>) -> bool
    decreases taken.len(),
{
    taken.len() == 0 || (all_legal::<G>(s, taken.drop_last()) && G::legal(
        state_after::<G>(s, taken.drop_last()),
    ).contains(taken.last()))
}

/// How many entries of `winners` are `w`.
pub open spec fn count_of(winners: Seq<Option<i64>>, w: Option<i64>) -> nat
    decreases winners.len(),
{
    if winners.len() == 0 {
        0
    } else {
        count_of(winners.drop_last(), w) + if winners.last() == w {
            1nat
        } else {
            0nat
        }
    }
}

/// No more entries are counted than there are.
pub proof fn lemma_count_of_bound(winners: Seq<Option<i64>>, v: Option<i64>, w: Option<i64>)
    requires
        v != w,
    ensures
        count_of(winners, v) + count_of(winners, w) <= winners.len(),
    decreases winners.len(),
{
    if winners.len() > 0 {
        lemma_count_of_bound(winners.drop_last(), v, w);
    }
}

/// Lets the two agents play `g` on, the first for player 0 and the second for
/// player 1, until an agent offers no action or `max_plies` actions have been
/// taken, and returns the winner of the state reached.
pub fn play_out<A, B, G>(
    a: &mut A,
    b: &mut B,
    g: &mut G,
    rng: &mut StdRng,
    max_plies: usize,
) -> (w: Option<i64>)
    where
        A: GameAgent<G>,
        B: GameAgent<G>,
        G: Game,
    requires
        G::inv(old(g)@),
    ensures
        G::inv(final(g)@),
        w.is_some() == G::outcome(final(g)@).is_some(),
        w.is_some() ==> w.unwrap() == G::outcome(final(g)@).unwrap(),
        exists|taken: Seq<G::Action>|
            {
                &&& taken.len() <= max_plies
                &&& all_legal::<G>(old(g)@, taken)
                &&& final(g)@ == state_after::<G>(old(g)@, taken)
                &&& taken.len() < max_plies ==> exists|x: A, y: B| #[trigger]
                    offer_of::<A, B, G>(x, y, final(g)@, None)
            },
{
    let ghost start = g@;
    let ghost mut taken: Seq<G::Action> = Seq::empty();
    let mut ply: usize = 0;
    let mut halted = false;
    while ply < max_plies && !halted
        invariant
            G::inv(g@),
            ply <= max_plies,
            taken.len() == ply,
            all_legal::<G>(start, taken),
            g@ == state_after::<G>(start, taken),
            halted ==> exists|x: A, y: B| #[trigger] offer_of::<A, B, G>(x, y, g@, None),
        decreases max_plies - ply + (if halted { 0int } else { 1int }),
    {
        let ghost before = g@;
        let ghost agents = (*a, *b);
        if agent_action(a, b, g, rng) {
            proof {
                let choice = choose|choice: Option<G::Action>|
                    {
                        &&& #[trigger] offer_of::<A, B, G>(agents.0, agents.1, before, choice)
                        &&& choice.is_some()
                        &&& G::legal(before).contains(choice.unwrap())
                        &&& g@ == G::next(before, choice.unwrap())
                    };
                let longer = taken.push(choice.unwrap());
                assert(longer.drop_last() =~= taken);
                taken = longer;
            }
            ply = ply + 1;
        } else {
            assert(offer_of::<A, B, G>(agents.0, agents.1, g@, None));
            halted = true;
        }
    }
    assert(all_legal::<G>(start, taken) && g@ == state_after::<G>(start, taken));
    g.winner()
}

/// The numbers of games that player 0 won, that player 1 won, and that
/// neither won.
pub fn tally(winners: &Vec<Option<i64>>) -> (counts: (usize, usize, usize))
    ensures
        counts.0 == count_of(winners@, Some(0i64)),
        counts.1 == count_of(winners@, Some(1i64)),
        counts.2 == winners.len() - counts.0 - counts.1,
{
    let mut p1_wins: usize = 0;
    let mut p2_wins: usize = 0;
    let mut i: usize = 0;
    while i < winners.len()
        invariant
            i <= winners.len(),
            p1_wins == count_of(winners@.take(i as int), Some(0i64)),
            p2_wins == count_of(winners@.take(i as int), Some(1i64)),
            p1_wins + p2_wins <= i,
        decreases winners.len() - i,
    {
        proof {
            assert(winners@.take(i + 1).drop_last() =~= winners@.take(i as int));
            lemma_count_of_bound(winners@.take(i + 1), Some(0i64), Some(1i64));
        }
        match winners[i] {
            Some(0) => p1_wins = p1_wins + 1,
            Some(1) => p2_wins = p2_wins + 1,
            _ => (),
        }
        i = i + 1;
    }
    assert(winners@.take(winners.len() as int) =~= winners@);
    (p1_wins, p2_wins, winners.len() - (p1_wins + p2_wins))
}

} // verus!
