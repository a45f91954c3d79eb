//! Noughts and crosses on a square board of any size: the player who first
//! has a given number of marks in a line wins.

use crate::agents::Game;
use crate::utils::{lemma_offset_in_range, lemma_push_contains, Board, Pos};
use core::ops::{AddAssign, Neg};
use vstd::arithmetic::div_mod::lemma_fundamental_div_mod_converse;
use vstd::prelude::*;

verus! {

/// The two competing players.
#[derive(Copy, Clone, Debug, PartialEq, Eq, Structural)]
pub enum Player {
    WhitePlayer,
    BlackPlayer,
}

/// The mark of `player` on the tile at `pos`.
#[derive(Copy, Clone, Debug, PartialEq, Eq, Structural)]
pub struct Action {
    pub pos: Pos,
    pub player: Player,
}

/// The state of a game.
pub struct TicTacToe {
    board: Board<Option<Player>>,
    active_player: Player,
    length_to_win: i32,
    victory: Option<Player>,
}

/// A state of the game as a value: the edge length of the board, its tiles
/// row by row, the player to move, the length of a winning line and the
/// winner, once there is one.
pub ghost struct GameState {
    pub size: int,
    pub tiles: Seq<Option<Player>>,
    pub active_player: Player,
    pub length_to_win: int,
    pub victory: Option<Player>,
}

impl View for TicTacToe {
    type V = GameState;

    closed spec fn view(&self) -> GameState {
        GameState {
            size: self.board@.size,
            tiles: self.board@.cells,
            active_player: self.active_player,
            length_to_win: self.length_to_win as int,
            victory: self.victory,
        }
    }
}

/// The opponent of `player`.
pub open spec fn opponent(player: Player) -> Player {
    match player {
        Player::WhitePlayer => Player::BlackPlayer,
        Player::BlackPlayer => Player::WhitePlayer,
    }
}

/// The index by which the game contract knows `player`.
pub open spec fn player_index(player: Player) -> int {
    match player {
        Player::WhitePlayer => 0,
        Player::BlackPlayer => 1,
    }
}

/// The four directions in which a line can run.
pub open spec fn line_directions() -> Seq<(int, int)> {
    seq![(1, 0), (0, 1), (1, 1), (1, -1)]
}

impl GameState {
    /// Whether `(x, y)` names a tile of the board.
    pub open spec fn on_board(self, x: int, y: int) -> bool {
        0 <= x < self.size && 0 <= y < self.size
    }

    /// Whether the tile at `(x, y)` is on the board and holds `mark`.
    pub open spec fn holds(self, x: int, y: int, mark: Option<Player>) -> bool {
        self.on_board(x, y) && self.tiles[y * self.size + x] == mark
    }

    /// The mark on the tile at `(x, y)`; none off the board.
    pub open spec fn mark(self, x: int, y: int) -> Option<Player> {
        if self.on_board(x, y) {
            self.tiles[y * self.size + x]
        } else {
            None
        }
    }

    /// The position of the tile at the row-major offset `i`.
    pub open spec fn pos_of(self, i: int) -> Pos {
        Pos { x: (i % self.size) as i32, y: (i / self.size) as i32 }
    }

    /// The number of tiles in a row that hold the mark of `player`, counted
    /// from `(x, y)` in the direction `(dx, dy)` over at most `span` tiles.
    pub open spec fn run(self, x: int, y: int, dx: int, dy: int, player: Player, span: nat) -> int
        decreases span,
    {
        if span > 0 && self.holds(x, y, Some(player)) {
            1 + self.run(x + dx, y + dy, dx, dy, player, (span - 1) as nat)
        } else {
            0
        }
    }

    /// The length of the line of marks of `player` through `pos` along the
    /// direction `(dx, dy)`, the tile at `pos` counted as marked.
    pub open spec fn line(self, pos: Pos, dx: int, dy: int, player: Player) -> int {
        1 + self.run(pos.x + dx, pos.y + dy, dx, dy, player, self.size as nat) + self.run(
            pos.x - dx,
            pos.y - dy,
            -dx,
            -dy,
            player,
            self.size as nat,
        )
    }

    /// Whether a mark of `player` at `pos` completes a line of the length to
    /// win among the first `n` line directions.
    pub open spec fn completes_among(self, pos: Pos, player: Player, n: int) -> bool {
        exists|k: int|
            0 <= k < n && #[trigger] self.line(
                pos,
                line_directions()[k].0,
                line_directions()[k].1,
                player,
            ) >= self.length_to_win
    }

    /// Whether a mark of `player` at `pos` completes a line of the length to win.
    pub open spec fn completes(self, pos: Pos, player: Player) -> bool {
        self.completes_among(pos, player, 4)
    }

    /// The marks that the active player can set on the empty tiles among the
    /// first `n` tiles, row by row.
    pub open spec fn marks_among(self, n: nat) -> Seq<Action>
        decreases n,
    {
        if n == 0 {
            Seq::empty()
        } else {
            let before = self.marks_among((n - 1) as nat);
            if self.tiles[n - 1].is_none() {
                before.push(Action { pos: self.pos_of(n - 1), player: self.active_player })
            } else {
                before
            }
        }
    }

    /// The legal actions, in enumeration order: a mark of the active player
    /// on each empty tile, row by row; after a victory, none.
    pub open spec fn legal(self) -> Seq<Action> {
        if self.victory.is_some() {
            Seq::empty()
        } else {
            self.marks_among((self.size * self.size) as nat)
        }
    }

    /// The state that follows when the mark `a` is set: the tile holds the
    /// mark, the player who set it has won where it completes a line, and the
    /// turn passes on.
    pub open spec fn next(self, a: Action) -> GameState {
        let marked = GameState {
            tiles: self.tiles.update(a.pos.y * self.size + a.pos.x, Some(a.player)),
            ..self
        };
        GameState {
            active_player: opponent(self.active_player),
            victory: if marked.completes(a.pos, a.player) {
                Some(a.player)
            } else {
                self.victory
            },
            ..marked
        }
    }

    /// The consistency condition: the board is a square of tiles.
    pub open spec fn inv(self) -> bool {
        &&& 0 <= self.size
        &&& self.size * self.size <= i32::MAX
        &&& self.tiles.len() == self.size * self.size
    }

    /// The score of the player numbered `player`: -1 where the other player
    /// has won, else 0.
    pub open spec fn score(self, player: int) -> int {
        match self.victory {
            Some(Player::WhitePlayer) => if player == 1 {
                -1
            } else {
                0
            },
            Some(Player::BlackPlayer) => if player == 0 {
                -1
            } else {
                0
            },
            None => 0,
        }
    }

    /// The number of the winner, once there is one.
    pub open spec fn outcome(self) -> Option<int> {
        match self.victory {
            Some(p) => Some(player_index(p)),
            None => None,
        }
    }
}

impl GameState {
    /// The starting position on a board of edge `size`: every tile is empty
    /// and white is to move.
    pub open spec fn start(size: int, length_to_win: int) -> GameState {
        GameState {
            size,
            tiles: Seq::new((size * size) as nat, |i: int| None),
            active_player: Player::WhitePlayer,
            length_to_win,
            victory: None,
        }
    }

    /// Whether the rules allow the mark `a`: the game is open, the mark is
    /// that of the active player, and its tile is on the board and empty.
    pub open spec fn allows(self, a: Action) -> bool {
        &&& self.victory.is_none()
        &&& a.player == self.active_player
        &&& self.holds(a.pos.x as int, a.pos.y as int, None)
    }

    /// The tile at the row-major offset `y * size + x` is the tile at `(x, y)`.
    pub proof fn lemma_pos_of(self, x: int, y: int)
        requires
            self.on_board(x, y),
            self.size * self.size <= i32::MAX,
        ensures
            0 <= y * self.size + x < self.size * self.size,
            self.pos_of(y * self.size + x) == (Pos { x: x as i32, y: y as i32 }),
    {
        lemma_offset_in_range(x, y, self.size);
        lemma_fundamental_div_mod_converse(y * self.size + x, self.size, y, x);
    }

    /// Every row-major offset below `size * size` is that of a tile of the board.
    pub proof fn lemma_offset_is_on_board(self, i: int)
        requires
            0 <= self.size,
            0 <= i < self.size * self.size,
        ensures
            self.on_board(i % self.size, i / self.size),
            (i / self.size) * self.size + i % self.size == i,
    {
        let n = self.size;
        assert(n > 0) by (nonlinear_arith)
            requires
                0 <= n,
                0 < n * n,
        ;
        vstd::arithmetic::div_mod::lemma_fundamental_div_mod(i, n);
        vstd::arithmetic::div_mod::lemma_mod_bound(i, n);
        assert(n * (i / n) == (i / n) * n) by (nonlinear_arith);
        assert(i / n < n) by (nonlinear_arith)
            requires
                0 <= i < n * n,
                i == n * (i / n) + i % n,
                0 <= i % n < n,
        ;
        assert(i / n >= 0) by (nonlinear_arith)
            requires
                0 <= i,
                0 < n,
                i == n * (i / n) + i % n,
                0 <= i % n < n,
        ;
    }

    /// The marks listed among the first `n` tiles are the marks of the
    /// active player on those of them that are empty.
    proof fn lemma_marks_among(self, n: nat, a: Action)
        requires
            self.inv(),
            n <= self.size * self.size,
        ensures
            self.marks_among(n).contains(a) <==> a.player == self.active_player && self.holds(
                a.pos.x as int,
                a.pos.y as int,
                None,
            ) && a.pos.y * self.size + a.pos.x < n,
        decreases n,
    {
        if n > 0 {
            let before = self.marks_among((n - 1) as nat);
            let here = Action { pos: self.pos_of(n - 1), player: self.active_player };
            self.lemma_marks_among((n - 1) as nat, a);
            lemma_push_contains(before, here, a);
            self.lemma_offset_is_on_board(n - 1);
            self.lemma_pos_of((n - 1) % self.size, (n - 1) / self.size);
            if self.on_board(a.pos.x as int, a.pos.y as int) {
                self.lemma_pos_of(a.pos.x as int, a.pos.y as int);
            }
        }
    }

    /// An action is legal exactly where the rules allow it.
    pub proof fn lemma_legal_iff_allowed(self, a: Action)
        requires
            self.inv(),
        ensures
            self.legal().contains(a) <==> self.allows(a),
    {
        if self.victory.is_none() {
            self.lemma_marks_among((self.size * self.size) as nat, a);
            if self.on_board(a.pos.x as int, a.pos.y as int) {
                self.lemma_pos_of(a.pos.x as int, a.pos.y as int);
            }
        }
    }
}

impl Clone for TicTacToe {
    fn clone(&self) -> (copy: Self)
        ensures
            copy@ == self@,
    {
        let board = self.board.clone();
        assert(board@.cells =~= self.board@.cells);
        TicTacToe {
            board,
            active_player: self.active_player,
            length_to_win: self.length_to_win,
            victory: self.victory,
        }
    }
}

impl TicTacToe {
    /// An empty board of edge `size`, white to move; `length_to_win` marks in
    /// a line win the game.
    pub fn new(size: i32, length_to_win: i32) -> (game: TicTacToe)
        requires
            0 <= size,
            size * size <= i32::MAX,
        ensures
            game@ == GameState::start(size as int, length_to_win as int),
            game@.inv(),
    {
        let board = Board::new(None, size);
        let game = TicTacToe {
            board,
            active_player: Player::WhitePlayer,
            length_to_win,
            victory: None,
        };
        assert(game@.tiles =~= GameState::start(size as int, length_to_win as int).tiles);
        game
    }

    /// Whether this state meets the consistency condition of the game.
    pub fn is_consistent(&self) -> (consistent: bool)
        ensures
            consistent == self@.inv(),
    {
        self.board.is_well_formed()
    }

    /// The edge length of the board.
    pub fn size(&self) -> (size: i32)
        ensures
            size == self@.size,
    {
        self.board.edge()
    }

    /// The number of marks in a line that wins the game.
    pub fn length_to_win(&self) -> (length: i32)
        ensures
            length == self@.length_to_win,
    {
        self.length_to_win
    }

    /// The mark on the tile at `pos`, or `None` where the tile is empty or
    /// `pos` lies off the board.
    pub fn mark_at(&self, pos: Pos) -> (mark: Option<Player>)
        requires
            self@.inv(),
        ensures
            mark == self@.mark(pos.x as int, pos.y as int),
    {
        match self.board.try_get(pos) {
            Some(mark) => mark,
            None => None,
        }
    }

    /// The action by which the active player marks the tile at `pos`, where
    /// the rules allow it.
    pub fn action_at(&self, pos: Pos) -> (action: Option<Action>)
        requires
            self@.inv(),
        ensures
            action == (if self@.allows(Action { pos, player: self@.active_player }) {
                Some(Action { pos, player: self@.active_player })
            } else {
                None
            }),
    {
        if self.victory.is_some() {
            return None;
        }
        match self.board.try_get(pos) {
            Some(None) => Some(Action { pos, player: self.active_player }),
            _ => None,
        }
    }

    /// Passes the turn on to the other player.
    fn active_player_swap(&mut self)
        ensures
            final(self)@ == (GameState {
                active_player: opponent(old(self)@.active_player),
                ..old(self)@
            }),
    {
        match self.active_player {
            Player::WhitePlayer => self.active_player = Player::BlackPlayer,
            Player::BlackPlayer => self.active_player = Player::WhitePlayer,
        }
    }

    /// The number of tiles in a row that hold the mark of `player`, counted
    /// from the neighbour of `pos` in the direction `d`.
    fn count_run(&self, pos: Pos, d: Pos, player: Player) -> (count: i32)
        requires
            self@.inv(),
            self@.on_board(pos.x as int, pos.y as int),
            -1 <= d.x <= 1,
            -1 <= d.y <= 1,
            d.x != 0 || d.y != 0,
        ensures
            0 <= count < self@.size,
            count == self@.run(
                pos.x + d.x,
                pos.y + d.y,
                d.x as int,
                d.y as int,
                player,
                self@.size as nat,
            ),
    {
        let ghost s = self@;
        assert(s.size <= 46340) by (nonlinear_arith)
            requires
                0 <= s.size,
                s.size * s.size <= i32::MAX,
        ;
        let mut count: i32 = 0;
        let mut p = pos + d;
        loop
            invariant
                s == self@,
                s.size <= 46340,
                s.inv(),
                self.board.wf(),
                s.on_board(pos.x as int, pos.y as int),
                -1 <= d.x <= 1,
                -1 <= d.y <= 1,
                d.x != 0 || d.y != 0,
                0 <= count < s.size,
                p.x == pos.x + (count + 1) * d.x,
                p.y == pos.y + (count + 1) * d.y,
                s.run(pos.x + d.x, pos.y + d.y, d.x as int, d.y as int, player, s.size as nat)
                    == count + s.run(
                    p.x as int,
                    p.y as int,
                    d.x as int,
                    d.y as int,
                    player,
                    (s.size - count) as nat,
                ),
            ensures
                0 <= count < s.size,
                count == s.run(
                    pos.x + d.x,
                    pos.y + d.y,
                    d.x as int,
                    d.y as int,
                    player,
                    s.size as nat,
                ),
            decreases s.size - count,
        {
            let marked = match self.board.try_get(p) {
                Some(Some(q)) => q == player,
                _ => false,
            };
            assert(marked == s.holds(p.x as int, p.y as int, Some(player)));
            if !marked {
                break;
            }
            assert(count + 1 < s.size) by {
                assert((count + 1) * d.x == (if d.x == 0 {
                    0
                } else if d.x == 1 {
                    count + 1
                } else {
                    -(count + 1)
                })) by (nonlinear_arith)
                    requires
                        -1 <= d.x <= 1,
                ;
                assert((count + 1) * d.y == (if d.y == 0 {
                    0
                } else if d.y == 1 {
                    count + 1
                } else {
                    -(count + 1)
                })) by (nonlinear_arith)
                    requires
                        -1 <= d.y <= 1,
                ;
            }
            assert((count + 2) * d.x == (count + 1) * d.x + d.x) by (nonlinear_arith);
            assert((count + 2) * d.y == (count + 1) * d.y + d.y) by (nonlinear_arith);
            p.add_assign(d);
            count = count + 1;
        }
        count
    }
}

impl Game for TicTacToe {
    type Action = Action;

    open spec fn inv(s: GameState) -> bool {
        s.inv()
    }

    open spec fn legal(s: GameState) -> Seq<Action> {
        s.legal()
    }

    open spec fn turn(s: GameState) -> int {
        player_index(s.active_player)
    }

    open spec fn next(s: GameState, a: Action) -> GameState {
        s.next(a)
    }

    open spec fn score(s: GameState, player: int) -> int {
        s.score(player)
    }

    open spec fn outcome(s: GameState) -> Option<int> {
        s.outcome()
    }

    proof fn lemma_clone_is_same(a: &Self, b: &Self) {
    }

    fn possible_actions(&self, actions: &mut Vec<Action>) {
        if self.victory.is_some() {
            return ;
        }
        let ghost s = self@;
        let size = self.board.edge();
        let mut y: i32 = 0;
        while y < size
            invariant
                s == self@,
                s.inv(),
                self.board.wf(),
                size == s.size,
                0 <= y <= size,
                actions@ == old(actions)@ + s.marks_among((y * size) as nat),
            decreases size - y,
        {
            let mut x: i32 = 0;
            while x < size
                invariant
                    s == self@,
                    s.inv(),
                    self.board.wf(),
                    size == s.size,
                    0 <= y < size,
                    0 <= x <= size,
                    actions@ == old(actions)@ + s.marks_among((y * size + x) as nat),
                decreases size - x,
            {
                let pos = Pos { x, y };
                proof {
                    s.lemma_pos_of(x as int, y as int);
                }
                if self.board.get(pos).is_none() {
                    actions.push(Action { pos, player: self.active_player });
                }
                x = x + 1;
            }
            assert((y + 1) * size == y * size + size) by (nonlinear_arith);
            y = y + 1;
        }
    }

    fn active_player(&self) -> (p: i64) {
        match self.active_player {
            Player::WhitePlayer => 0,
            Player::BlackPlayer => 1,
        }
    }

    fn apply_action(&mut self, a: &Action) {
        proof {
            self@.lemma_legal_iff_allowed(*a);
        }
        self.board.set(a.pos, Some(a.player));
        let ghost marked = self@;
        assert(marked.size <= 46340) by (nonlinear_arith)
            requires
                0 <= marked.size,
                marked.size * marked.size <= i32::MAX,
        ;
        let dirs = vec![Pos { x: 1, y: 0 }, Pos { x: 0, y: 1 }, Pos { x: 1, y: 1 }, Pos { x: 1, y: -1 }];
        let mut won = false;
        let mut k: usize = 0;
        while k < dirs.len() && !won
            invariant
                marked == self@,
                marked.inv(),
                marked.size <= 46340,
                marked.on_board(a.pos.x as int, a.pos.y as int),
                dirs@.len() == 4,
                forall|i: int|
                    0 <= i < 4 ==> (#[trigger] dirs@[i]).x == line_directions()[i].0 && dirs@[i].y
                        == line_directions()[i].1,
                k <= 4,
                won == marked.completes_among(a.pos, a.player, k as int),
            decreases 4 - k + (if won { 0int } else { 1int }),
        {
            let d = dirs[k];
            let forwards = self.count_run(a.pos, d, a.player);
            let back = self.count_run(a.pos, d.neg(), a.player);
            let count = 1 + forwards + back;
            assert(count == marked.line(a.pos, d.x as int, d.y as int, a.player));
            if count >= self.length_to_win {
                won = true;
            }
            k = k + 1;
        }
        if won {
            self.victory = Some(a.player);
        }
        self.active_player_swap();
    }

    fn player_score(&self, player: i64) -> (s: i64) {
        match self.victory {
            Some(Player::WhitePlayer) => if player == 1 {
                -1
            } else {
                0
            },
            Some(Player::BlackPlayer) => if player == 0 {
                -1
            } else {
                0
            },
            None => 0,
        }
    }

    fn winner(&self) -> (w: Option<i64>) {
        match self.victory {
            Some(Player::WhitePlayer) => Some(0),
            Some(Player::BlackPlayer) => Some(1),
            None => None,
        }
    }
}

} // verus!
