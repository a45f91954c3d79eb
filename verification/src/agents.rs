//! The game contract, and agents that choose actions through it.

use rand::rngs::StdRng;
use rand::Rng;
use std::fmt::Debug;
use vstd::prelude::*;

verus! {

/// The standard generator of the `rand` crate, carried through as an opaque value.
#[verifier::external_type_specification]
#[verifier::external_body]
pub struct ExStdRng(StdRng);

/// A two-player, turn-based ruleset.
///
/// What the rules say is stated over the view of a state: the spec functions
/// of this trait give, for each state, its legal actions in their fixed
/// enumeration order, the player to move, the successor under an action, the
/// score of a player and the winner, if any. The executable methods compute
/// these values for states that are `inv`.
pub trait Game: Clone + View + Sized {
    type Action: Debug;

    /// The consistency condition that every reachable state meets.
    spec fn inv(s: Self::V) -> bool;

    /// The legal actions of `s`, in enumeration order.
    spec fn legal(s: Self::V) -> Seq<Self::Action>;

    /// The index of the player to move in `s`.
    spec fn turn(s: Self::V) -> int;

    /// The state that follows `s` when the action `a` is taken.
    spec fn next(s: Self::V, a: Self::Action) -> Self::V;

    /// The heuristic value of `s` for `player`.
    spec fn score(s: Self::V, player: int) -> int;

    /// The winner of `s`, or `None` while the game is open.
    spec fn outcome(s: Self::V) -> Option<int>;

    /// A clone of a consistent state is the same state.
    proof fn lemma_clone_is_same(a: &Self, b: &Self)
        requires
            Self::inv(a@),
            cloned(*a, *b),
        ensures
            b@ == a@,
    ;

    /// Appends the legal actions of this state to `actions`.
    fn possible_actions(&self, actions: &mut Vec<Self::Action>)
        requires
            Self::inv(self@),
        ensures
            final(actions)@ == old(actions)@ + Self::legal(self@),
    ;

    /// The index of the player to move.
    fn active_player(&self) -> (p: i64)
        requires
            Self::inv(self@),
        ensures
            p == Self::turn(self@),
            p == 0 || p == 1,
    ;

    /// Replaces this state by its successor under the legal action `a`.
    fn apply_action(&mut self, a: &Self::Action)
        requires
            Self::inv(old(self)@),
            Self::legal(old(self)@).contains(*a),
        ensures
            Self::inv(final(self)@),
            final(self)@ == Self::next(old(self)@, *a),
    ;

    /// The heuristic value of this state for `player`.
    fn player_score(&self, player: i64) -> (s: i64)
        requires
            Self::inv(self@),
            player == 0 || player == 1,
        ensures
            s == Self::score(self@, player as int),
    ;

    /// The winner, or `None` while the game is open.
    fn winner(&self) -> (w: Option<i64>)
        requires
            Self::inv(self@),
        ensures
            w.is_some() == Self::outcome(self@).is_some(),
            w.is_some() ==> w.unwrap() == Self::outcome(self@).unwrap(),
    ;
}

/// Draws an index below `n` from the generator, by `Rng::gen_range` with the
/// bounds `0` and `n`. The call panics on an empty range, so `n` must be
/// positive; the index drawn then lies in the range.
#[verifier::external_body]
fn draw_index(rng: &mut StdRng, n: usize) -> (i: usize)
    requires
        n > 0,
    ensures
        i < n,
{
    rng.gen_range(0, n)
}

/// The state in which a playout from `s` ends: at most `depth` plies are
/// played, the k-th of them taking the legal action numbered `draws[k]`, and
/// the playout stops early in a state without legal actions.
pub open spec fn playout<G: Game>(s: G::V, draws: Seq<int>, depth: nat) -> G::V
    decreases depth,
{
    if depth == 0 || G::legal(s).len() == 0 || draws.len() == 0 {
        s
    } else {
        playout::<G>(G::next(s, G::legal(s)[draws[0]]), draws.drop_first(), (depth - 1) as nat)
    }
}

/// Whether `draws` holds exactly one in-range index for every ply of the
/// playout of at most `depth` plies from `s`.
pub open spec fn playout_fits<G: Game>(s: G::V, draws: Seq<int>, depth: nat) -> bool
    decreases depth,
{
    if depth == 0 || G::legal(s).len() == 0 {
        draws.len() == 0
    } else {
        &&& draws.len() > 0
        &&& 0 <= draws[0] < G::legal(s).len()
        &&& playout_fits::<G>(
            G::next(s, G::legal(s)[draws[0]]),
            draws.drop_first(),
            (depth - 1) as nat,
        )
    }
}

/// How often a loop that counts from zero up to `n` runs.
pub open spec fn repeats(n: i64) -> nat {
    if n > 0 {
        n as nat
    } else {
        0
    }
}

/// A playout in which every ply was drawn can be extended by one more draw.
proof fn lemma_playout_extend<G: Game>(s: G::V, draws: Seq<int>, i: int)
    requires
        playout_fits::<G>(s, draws, draws.len()),
        0 <= i < G::legal(playout::<G>(s, draws, draws.len())).len(),
    ensures
        playout_fits::<G>(s, draws.push(i), draws.len() + 1),
        playout::<G>(s, draws.push(i), draws.len() + 1) == ({
            let end = playout::<G>(s, draws, draws.len());
            G::next(end, G::legal(end)[i])
        }),
    decreases draws.len(),
{
    let longer = draws.push(i);
    if draws.len() == 0 {
        assert(longer.drop_first() =~= Seq::<int>::empty());
        assert(playout_fits::<G>(G::next(s, G::legal(s)[i]), longer.drop_first(), 0));
        assert(playout::<G>(G::next(s, G::legal(s)[i]), longer.drop_first(), 0) == G::next(
            s,
            G::legal(s)[i],
        ));
    } else {
        let after = G::next(s, G::legal(s)[draws[0]]);
        assert(longer.drop_first() =~= draws.drop_first().push(i));
        lemma_playout_extend::<G>(after, draws.drop_first(), i);
    }
}

/// A playout that ran out of legal actions is also the playout of any greater depth.
proof fn lemma_playout_stopped<G: Game>(s: G::V, draws: Seq<int>, depth: nat)
    requires
        playout_fits::<G>(s, draws, draws.len()),
        G::legal(playout::<G>(s, draws, draws.len())).len() == 0,
        draws.len() <= depth,
    ensures
        playout_fits::<G>(s, draws, depth),
        playout::<G>(s, draws, depth) == playout::<G>(s, draws, draws.len()),
    decreases draws.len(),
{
    if draws.len() > 0 {
        let after = G::next(s, G::legal(s)[draws[0]]);
        lemma_playout_stopped::<G>(after, draws.drop_first(), (depth - 1) as nat);
    }
}

/// Plays at most `max_depth` plies on `game`, each chosen uniformly at random
/// among the legal actions, and stops early when none is left.
fn rollout<G: Game>(game: &mut G, rng: &mut StdRng, max_depth: i64)
    requires
        G::inv(old(game)@),
    ensures
        G::inv(final(game)@),
        exists|draws: Seq<int>|
            playout_fits::<G>(old(game)@, draws, repeats(max_depth)) && final(game)@ == playout::<G>(
                old(game)@,
                draws,
                repeats(max_depth),
            ),
{
    let mut actions: Vec<G::Action> = Vec::new();
    let mut ply: i64 = 0;
    let mut open = true;
    let ghost start = game@;
    let ghost mut drawn: Seq<int> = Seq::empty();
    while open && ply < max_depth
        invariant
            G::inv(game@),
            0 <= ply,
            ply <= repeats(max_depth),
            drawn.len() == ply,
            playout_fits::<G>(start, drawn, drawn.len()),
            game@ == playout::<G>(start, drawn, drawn.len()),
            !open ==> G::legal(game@).len() == 0,
        decreases (if open { 1int } else { 0int }), max_depth - ply,
    {
        actions.clear();
        game.possible_actions(&mut actions);
        assert(actions@ =~= G::legal(game@));
        if actions.len() > 0 {
            let i: usize = draw_index(rng, actions.len());
            proof {
                lemma_playout_extend::<G>(start, drawn, i as int);
                drawn = drawn.push(i as int);
            }
            game.apply_action(&actions[i]);
            ply = ply + 1;
        } else {
            open = false;
        }
    }
    proof {
        if !open {
            lemma_playout_stopped::<G>(start, drawn, repeats(max_depth));
        }
    }
}

/// An agent that chooses actions for the player to move.
pub trait GameAgent<G: Game>: Clone {
    /// Whether the agent, as it is, may answer `choice` in the state `s`.
    spec fn offers(&self, s: G::V, choice: Option<G::Action>) -> bool;

    /// Chooses one legal action of `game`, or reports that it has none to offer.
    fn choose_action(&mut self, game: &G, rng: &mut StdRng) -> (choice: Option<G::Action>)
        requires
            G::inv(game@),
        ensures
            old(self).offers(game@, choice),
            choice.is_some() ==> G::legal(game@).contains(choice.unwrap()),
    ;
}

/// The agent that picks uniformly at random among the legal actions.
#[derive(Clone, Copy)]
pub struct RandomAgent {}

impl<G: Game> GameAgent<G> for RandomAgent {
    /// Any legal action where there is one, and `None` only where there is none.
    open spec fn offers(&self, s: G::V, choice: Option<G::Action>) -> bool {
        match choice {
            Some(a) => G::legal(s).contains(a),
            None => G::legal(s).len() == 0,
        }
    }

    fn choose_action(&mut self, game: &G, rng: &mut StdRng) -> (choice: Option<G::Action>) {
        let mut actions: Vec<G::Action> = Vec::new();
        game.possible_actions(&mut actions);
        assert(actions@ =~= G::legal(game@));
        if actions.len() > 0 {
            let i: usize = draw_index(rng, actions.len());
            Some(actions.remove(i))
        } else {
            None
        }
    }
}

/// Applies the choice of an agent to `g`, and tells whether there was one.
pub fn apply_choice<G: Game>(g: &mut G, choice: Option<G::Action>) -> (progressed: bool)
    requires
        G::inv(old(g)@),
        choice.is_some() ==> G::legal(old(g)@).contains(choice.unwrap()),
    ensures
        G::inv(final(g)@),
        progressed == choice.is_some(),
        choice.is_some() ==> final(g)@ == G::next(old(g)@, choice.unwrap()),
        choice.is_none() ==> *final(g) == *old(g),
{
    if let Some(a) = choice {
        g.apply_action(&a);
        true
    } else {
        false
    }
}

/// The agent that moves in the state `s`: the first of `a` and `b` for
/// player 0, the second for player 1.
pub open spec fn offer_of<A, B, G>(a: A, b: B, s: G::V, choice: Option<G::Action>) -> bool
    where
        A: GameAgent<G>,
        B: GameAgent<G>,
        G: Game,
{
    if G::turn(s) == 0 {
        a.offers(s, choice)
    } else {
        b.offers(s, choice)
    }
}

/// Takes one action for whichever player has the next turn: the first agent
/// moves for player 0, the second for player 1. Returns whether an action was
/// taken; without one the game is left as it was.
pub fn agent_action<A, B, G>(a: &mut A, b: &mut B, g: &mut G, rng: &mut StdRng) -> (progressed: bool)
    where
        A: GameAgent<G>,
        B: GameAgent<G>,
        G: Game,
    requires
        G::inv(old(g)@),
    ensures
        G::inv(final(g)@),
        exists|choice: Option<G::Action>|
            {
                &&& #[trigger] offer_of::<A, B, G>(*old(a), *old(b), old(g)@, choice)
                &&& progressed == choice.is_some()
                &&& choice.is_some() ==> G::legal(old(g)@).contains(choice.unwrap()) && final(g)@
                    == G::next(old(g)@, choice.unwrap())
            },
        !progressed ==> *final(g) == *old(g),
{
    let choice = if g.active_player() == 0 {
        a.choose_action(g, rng)
    } else {
        b.choose_action(g, rng)
    };
    assert(offer_of::<A, B, G>(*old(a), *old(b), old(g)@, choice));
    apply_choice(g, choice)
}

/// The agent that tries every legal action `iterations` times, each time
/// followed by a random playout of at most `depth` plies, and picks the action
/// whose trials score best in sum.
#[derive(Clone, Copy)]
pub struct RolloutAgent {
    pub iterations: i64,
    pub depth: i64,
}

/// The score for `player` at the end of one trial of the action `a` in `s`:
/// `a` is applied, then a playout of at most `depth` plies follows `draws`.
pub open spec fn trial_score<G: Game>(
    s: G::V,
    a: G::Action,
    player: int,
    draws: Seq<int>,
    depth: nat,
) -> int {
    G::score(playout::<G>(G::next(s, a), draws, depth), player)
}

/// The sum of the scores of the trials of `a`, one trial for each entry of `trials`.
pub open spec fn candidate_total<G: Game>(
    s: G::V,
    a: G::Action,
    player: int,
    trials: Seq<Seq<int>>,
    depth: nat,
) -> int
    decreases trials.len(),
{
    if trials.len() == 0 {
        0
    } else {
        candidate_total::<G>(s, a, player, trials.drop_last(), depth) + trial_score::<G>(
            s,
            a,
            player,
            trials.last(),
            depth,
        )
    }
}

/// Whether each entry of `trials` holds the draws of one playout after `a`.
pub open spec fn trials_fit<G: Game>(s: G::V, a: G::Action, trials: Seq<Seq<int>>, depth: nat) -> bool {
    forall|k: int|
        0 <= k < trials.len() ==> playout_fits::<G>(G::next(s, a), #[trigger] trials[k], depth)
}

/// Whether `best` is the first index at which `totals` is greatest.
pub open spec fn is_first_best(totals: Seq<int>, best: int) -> bool {
    &&& 0 <= best < totals.len()
    &&& forall|j: int| 0 <= j < best ==> totals[j] < totals[best]
    &&& forall|j: int| best <= j < totals.len() ==> totals[j] <= totals[best]
}

/// The totals of all legal actions of `s`, in enumeration order, where
/// `draws[c]` holds the trials of the action numbered `c`.
pub open spec fn candidate_totals<G: Game>(
    s: G::V,
    draws: Seq<Seq<Seq<int>>>,
    depth: nat,
) -> Seq<int> {
    Seq::new(
        G::legal(s).len(),
        |c: int| candidate_total::<G>(s, G::legal(s)[c], G::turn(s), draws[c], depth),
    )
}

/// Whether a rollout search in `s` whose random draws were `draws` picks the
/// legal action numbered `best`: every legal action has `iterations` trials
/// with fitting draws, and `best` is the first action of greatest total.
pub open spec fn rollout_picks<G: Game>(
    s: G::V,
    iterations: i64,
    depth: i64,
    draws: Seq<Seq<Seq<int>>>,
    best: int,
) -> bool {
    &&& draws.len() == G::legal(s).len()
    &&& forall|c: int|
        0 <= c < draws.len() ==> (#[trigger] draws[c]).len() == repeats(iterations)
            && trials_fit::<G>(s, G::legal(s)[c], draws[c], repeats(depth))
    &&& is_first_best(candidate_totals::<G>(s, draws, repeats(depth)), best)
}

/// Only one index is the first at which a sequence is greatest.
pub proof fn lemma_first_best_is_unique(totals: Seq<int>, b1: int, b2: int)
    requires
        is_first_best(totals, b1),
        is_first_best(totals, b2),
    ensures
        b1 == b2,
{
    if b1 < b2 {
        assert(totals[b1] < totals[b2]);
        assert(totals[b2] <= totals[b1]);
    } else if b2 < b1 {
        assert(totals[b2] < totals[b1]);
        assert(totals[b1] <= totals[b2]);
    }
}

/// Given the same state, the same configuration and the same random draws, a
/// rollout search picks the same action.
pub proof fn lemma_rollout_is_deterministic<G: Game>(
    s: G::V,
    iterations: i64,
    depth: i64,
    draws: Seq<Seq<Seq<int>>>,
    b1: int,
    b2: int,
)
    requires
        rollout_picks::<G>(s, iterations, depth, draws, b1),
        rollout_picks::<G>(s, iterations, depth, draws, b2),
    ensures
        b1 == b2,
        G::legal(s)[b1] == G::legal(s)[b2],
{
    lemma_first_best_is_unique(candidate_totals::<G>(s, draws, repeats(depth)), b1, b2);
}

/// The first index at which `totals` is greatest, or `None` for no totals.
pub fn first_best(totals: &Vec<i128>) -> (best: Option<usize>)
    ensures
        best.is_none() <==> totals.len() == 0,
        best.is_some() ==> is_first_best(totals@.map_values(|t: i128| t as int), best.unwrap() as int),
{
    if totals.len() == 0 {
        return None;
    }
    let mut best: usize = 0;
    let mut c: usize = 1;
    while c < totals.len()
        invariant
            0 <= best < c <= totals.len(),
            forall|j: int| 0 <= j < best ==> totals[j] < totals[best as int],
            forall|j: int| best <= j < c ==> totals[j] <= totals[best as int],
        decreases totals.len() - c,
    {
        if totals[c] > totals[best] {
            best = c;
        }
        c = c + 1;
    }
    Some(best)
}

impl<G: Game> GameAgent<G> for RolloutAgent {
    /// `None` only where `s` has no legal action; else an action that a
    /// rollout search picks for some draws of the generator.
    open spec fn offers(&self, s: G::V, choice: Option<G::Action>) -> bool {
        match choice {
            Some(a) => exists|draws: Seq<Seq<Seq<int>>>, best: int|
                rollout_picks::<G>(s, self.iterations, self.depth, draws, best) && a == G::legal(
                    s,
                )[best],
            None => G::legal(s).len() == 0,
        }
    }

    /// Leaves the agent as it is.
    fn choose_action(&mut self, game: &G, rng: &mut StdRng) -> (choice: Option<G::Action>)
        ensures
            *final(self) == *old(self),
    {
        let player = game.active_player();
        let mut actions: Vec<G::Action> = Vec::new();
        game.possible_actions(&mut actions);
        assert(actions@ =~= G::legal(game@));
        let mut totals: Vec<i128> = Vec::new();
        let ghost depth = repeats(self.depth);
        let ghost mut draws: Seq<Seq<Seq<int>>> = Seq::empty();
        let mut c: usize = 0;
        while c < actions.len()
            invariant
                *self == *old(self),
                G::inv(game@),
                actions@ == G::legal(game@),
                player == G::turn(game@),
                player == 0 || player == 1,
                depth == repeats(self.depth),
                c <= actions.len(),
                totals.len() == c,
                draws.len() == c,
                forall|k: int|
                    0 <= k < c ==> (#[trigger] draws[k]).len() == repeats(self.iterations)
                        && trials_fit::<G>(game@, G::legal(game@)[k], draws[k], depth)
                        && totals[k] == candidate_total::<G>(
                        game@,
                        G::legal(game@)[k],
                        player as int,
                        draws[k],
                        depth,
                    ),
            decreases actions.len() - c,
        {
            let mut score: i128 = 0;
            let mut k: i64 = 0;
            let ghost a = actions[c as int];
            let ghost mut trials: Seq<Seq<int>> = Seq::empty();
            while k < self.iterations
                invariant
                    *self == *old(self),
                    G::inv(game@),
                    actions@ == G::legal(game@),
                    c < actions.len(),
                    a == actions[c as int],
                    player == 0 || player == 1,
                    depth == repeats(self.depth),
                    0 <= k <= repeats(self.iterations),
                    trials.len() == k,
                    trials_fit::<G>(game@, a, trials, depth),
                    score == candidate_total::<G>(game@, a, player as int, trials, depth),
                    -(k * 0x8000_0000_0000_0000) <= score <= k * 0x8000_0000_0000_0000,
                decreases self.iterations - k,
            {
                let mut trial = game.clone();
                proof {
                    G::lemma_clone_is_same(game, &trial);
                }
                trial.apply_action(&actions[c]);
                let ghost first = trial@;
                rollout(&mut trial, rng, self.depth);
                let ghost d = choose|d: Seq<int>|
                    playout_fits::<G>(first, d, depth) && trial@ == playout::<G>(first, d, depth);
                let gained = trial.player_score(player);
                proof {
                    assert(trials.push(d).drop_last() =~= trials);
                    trials = trials.push(d);
                }
                score = score + gained as i128;
                k = k + 1;
            }
            totals.push(score);
            proof {
                draws = draws.push(trials);
            }
            c = c + 1;
        }
        match first_best(&totals) {
            None => None,
            Some(best) => {
                proof {
                    assert(candidate_totals::<G>(game@, draws, depth) =~= totals@.map_values(
                        |t: i128| t as int,
                    ));
                    assert(rollout_picks::<G>(
                        game@,
                        self.iterations,
                        self.depth,
                        draws,
                        best as int,
                    ));
                }
                Some(actions.remove(best))
            },
        }
    }
}

} // verus!
