//! Draughts on an 8 by 8 board: captures are mandatory, and a piece that
//! captures keeps capturing until it has no further capture.

use crate::agents::Game;
use crate::utils::{lemma_add_contains, lemma_push_contains, Pos};
use vstd::prelude::*;

verus! {

/// The two competing players.
#[derive(Copy, Clone, Debug, PartialEq, Eq, Structural)]
pub enum Player {
    White,
    Black,
}

/// The rank of a piece.
#[derive(Copy, Clone, Debug, PartialEq, Eq, Structural)]
pub enum Piece {
    Pawn,
    King,
}

/// What a tile holds.
#[derive(Copy, Clone, Debug, PartialEq, Eq, Structural)]
pub enum Tile {
    Occupied(Player, Piece),
    Empty,
}

/// The phase of the turn.
#[derive(Copy, Clone, Debug, PartialEq, Eq, Structural)]
pub enum Mode {
    /// The active player can choose any move.
    StartOfTurn,
    /// The active player has captured with the piece at this position and
    /// must keep capturing with it.
    ChainCapture(Pos),
    /// One of the players has won.
    Victory(Player),
}

/// One move of one piece.
#[derive(Copy, Clone, Debug, PartialEq, Eq, Structural)]
pub enum Action {
    /// A slide to an adjacent empty tile.
    Step { from: Pos, to: Pos },
    /// A hop over the opposing piece at `capture`, which is removed.
    Jump { from: Pos, capture: Pos, to: Pos },
}

/// The edge length of the board.
pub const BOARD_SIZE: i32 = 8;

/// The state of a game of draughts.
#[derive(Copy, Clone)]
pub struct Checkers {
    pub tiles: [Tile; 64],
    pub active_player: Player,
    pub mode: Mode,
}

/// A state of the game as a value: the tiles row by row, the player to move
/// and the phase of the turn.
pub ghost struct GameState {
    pub tiles: Seq<Tile>,
    pub active_player: Player,
    pub mode: Mode,
}

impl View for Checkers {
    type V = GameState;

    open spec fn view(&self) -> GameState {
        GameState { tiles: self.tiles@, active_player: self.active_player, mode: self.mode }
    }
}

/// Whether `p` names a tile of the board.
pub open spec fn on_board(p: Pos) -> bool {
    0 <= p.x < BOARD_SIZE && 0 <= p.y < BOARD_SIZE
}

/// The row-major offset of the tile at `p`.
pub open spec fn cell(p: Pos) -> int {
    p.y * BOARD_SIZE + p.x
}

/// The position of the tile at the row-major offset `i`.
pub open spec fn pos_of(i: int) -> Pos {
    Pos { x: (i % BOARD_SIZE as int) as i32, y: (i / BOARD_SIZE as int) as i32 }
}

/// The opponent of `player`.
pub open spec fn opponent(player: Player) -> Player {
    match player {
        Player::White => Player::Black,
        Player::Black => Player::White,
    }
}

/// The index by which the game contract knows `player`.
pub open spec fn player_index(player: Player) -> int {
    match player {
        Player::White => 0,
        Player::Black => 1,
    }
}

/// The player that owns the piece on `tile`, if there is one.
pub open spec fn owner(tile: Tile) -> Option<Player> {
    match tile {
        Tile::Occupied(p, _) => Some(p),
        Tile::Empty => None,
    }
}

/// The move delta `(x, y)`.
pub open spec fn delta(x: int, y: int) -> Pos {
    Pos { x: x as i32, y: y as i32 }
}

/// The deltas by which the piece on `tile` may move, in enumeration order: a
/// pawn moves diagonally forward, white towards greater `y` and black towards
/// lesser `y`; a king moves along all four diagonals.
pub open spec fn directions(tile: Tile) -> Seq<Pos> {
    match tile {
        Tile::Occupied(Player::White, Piece::Pawn) => seq![delta(-1, 1), delta(1, 1)],
        Tile::Occupied(Player::Black, Piece::Pawn) => seq![delta(-1, -1), delta(1, -1)],
        Tile::Occupied(_, Piece::King) => seq![
            delta(-1, 1),
            delta(1, 1),
            delta(-1, -1),
            delta(1, -1),
        ],
        Tile::Empty => seq![],
    }
}

/// What a piece counts for: a king counts double.
pub open spec fn piece_worth(piece: Piece) -> int {
    match piece {
        Piece::Pawn => 1,
        Piece::King => 2,
    }
}

/// What `tile` adds to the material of `player`.
pub open spec fn tile_worth(tile: Tile, player: Player) -> int {
    match tile {
        Tile::Occupied(p, piece) => if p == player {
            piece_worth(piece)
        } else {
            0
        },
        Tile::Empty => 0,
    }
}

/// The material of `player` on `tiles`.
pub open spec fn material(tiles: Seq<Tile>, player: Player) -> int
    decreases tiles.len(),
{
    if tiles.len() == 0 {
        0
    } else {
        material(tiles.drop_last(), player) + tile_worth(tiles.last(), player)
    }
}

/// The tile that a piece becomes when it lands on `p`: a pawn that reaches
/// the row farthest from its side becomes a king.
pub open spec fn crowned(tile: Tile, p: Pos) -> Tile {
    match tile {
        Tile::Occupied(Player::Black, Piece::Pawn) => if p.y == 0 {
            Tile::Occupied(Player::Black, Piece::King)
        } else {
            tile
        },
        Tile::Occupied(Player::White, Piece::Pawn) => if p.y == BOARD_SIZE - 1 {
            Tile::Occupied(Player::White, Piece::King)
        } else {
            tile
        },
        _ => tile,
    }
}

/// The jump from `start` in the direction `d`.
pub open spec fn jump_of(start: Pos, d: Pos) -> Action {
    Action::Jump { from: start, capture: start.shifted(d), to: start.shifted(d).shifted(d) }
}

/// The step from `start` in the direction `d`.
pub open spec fn step_of(start: Pos, d: Pos) -> Action {
    Action::Step { from: start, to: start.shifted(d) }
}

/// The move from `start` in the direction `d`: a jump where `capturing`, else a step.
pub open spec fn move_of(start: Pos, d: Pos, capturing: bool) -> Action {
    if capturing {
        jump_of(start, d)
    } else {
        step_of(start, d)
    }
}

/// The tile of the starting position at the row-major offset `i`: three rows
/// of pawns for each side on the tiles whose coordinates have an even sum.
pub open spec fn start_tile(i: int) -> Tile {
    let p = pos_of(i);
    if (p.x + p.y) % 2 != 0 {
        Tile::Empty
    } else if p.y < 3 {
        Tile::Occupied(Player::White, Piece::Pawn)
    } else if p.y >= BOARD_SIZE - 3 {
        Tile::Occupied(Player::Black, Piece::Pawn)
    } else {
        Tile::Empty
    }
}

impl GameState {
    /// The starting position: white to move.
    pub open spec fn start() -> GameState {
        GameState {
            tiles: Seq::new(64, |i: int| start_tile(i)),
            active_player: Player::White,
            mode: Mode::StartOfTurn,
        }
    }

    /// The tile at `p`, which lies on the board.
    pub open spec fn tile(self, p: Pos) -> Tile {
        self.tiles[cell(p)]
    }

    /// The tile at `p`, or `None` where `p` lies off the board.
    pub open spec fn look(self, p: Pos) -> Option<Tile> {
        if on_board(p) {
            Some(self.tile(p))
        } else {
            None
        }
    }

    /// Whether the piece at `start` may jump in the direction `d`: the
    /// adjacent tile holds an opposing piece and the tile beyond it is on the
    /// board and empty.
    pub open spec fn can_jump(self, start: Pos, d: Pos) -> bool {
        let over = start.shifted(d);
        let beyond = over.shifted(d);
        &&& owner(self.tile(start)).is_some()
        &&& self.look(over).is_some()
        &&& owner(self.look(over).unwrap()).is_some()
        &&& owner(self.look(over).unwrap()) != owner(self.tile(start))
        &&& self.look(beyond) == Some(Tile::Empty)
    }

    /// Whether the piece at `start` may step in the direction `d`: the
    /// adjacent tile is on the board and empty.
    pub open spec fn can_step(self, start: Pos, d: Pos) -> bool {
        self.look(start.shifted(d)) == Some(Tile::Empty)
    }

    /// Whether the piece at `start` may move in the direction `d`, by a jump
    /// where `capturing`, else by a step.
    pub open spec fn can_move(self, start: Pos, d: Pos, capturing: bool) -> bool {
        if capturing {
            self.can_jump(start, d)
        } else {
            self.can_step(start, d)
        }
    }

    /// The moves of the piece at `start` in the directions `dirs`, in order:
    /// its jumps where `capturing`, else its steps.
    pub open spec fn moves_in(self, start: Pos, dirs: Seq<Pos>, capturing: bool) -> Seq<Action>
        decreases dirs.len(),
    {
        if dirs.len() == 0 {
            Seq::empty()
        } else {
            let before = self.moves_in(start, dirs.drop_last(), capturing);
            if self.can_move(start, dirs.last(), capturing) {
                before.push(move_of(start, dirs.last(), capturing))
            } else {
                before
            }
        }
    }

    /// The moves of the piece at `start`, in the order of its directions.
    pub open spec fn moves_from(self, start: Pos, capturing: bool) -> Seq<Action> {
        self.moves_in(start, directions(self.tile(start)), capturing)
    }

    /// The jumps of the piece at `start`, in the order of its directions.
    pub open spec fn jumps_from(self, start: Pos) -> Seq<Action> {
        self.moves_from(start, true)
    }

    /// The steps of the piece at `start`, in the order of its directions.
    pub open spec fn steps_from(self, start: Pos) -> Seq<Action> {
        self.moves_from(start, false)
    }

    /// The positions among the first `n` tiles that hold a piece of `player`,
    /// row by row.
    pub open spec fn pieces_among(self, player: Player, n: nat) -> Seq<Pos>
        decreases n,
    {
        if n == 0 {
            Seq::empty()
        } else {
            let before = self.pieces_among(player, (n - 1) as nat);
            if owner(self.tiles[n - 1]) == Some(player) {
                before.push(pos_of(n - 1))
            } else {
                before
            }
        }
    }

    /// The positions of the pieces of `player`, row by row.
    pub open spec fn pieces(self, player: Player) -> Seq<Pos> {
        self.pieces_among(player, 64)
    }

    /// The moves of the pieces at `starts`, piece by piece.
    pub open spec fn moves_over(self, starts: Seq<Pos>, capturing: bool) -> Seq<Action>
        decreases starts.len(),
    {
        if starts.len() == 0 {
            Seq::empty()
        } else {
            self.moves_over(starts.drop_last(), capturing) + self.moves_from(
                starts.last(),
                capturing,
            )
        }
    }

    /// All jumps of the pieces of `player`, piece by piece.
    pub open spec fn all_jumps(self, player: Player) -> Seq<Action> {
        self.moves_over(self.pieces(player), true)
    }

    /// All steps of the pieces of `player`, piece by piece.
    pub open spec fn all_steps(self, player: Player) -> Seq<Action> {
        self.moves_over(self.pieces(player), false)
    }

    /// The legal actions, in enumeration order. At the start of a turn these
    /// are the jumps of all pieces of the active player or, where there is
    /// none, their steps; during a chain of captures, the jumps of the piece
    /// that captures; after a victory, none.
    pub open spec fn legal(self) -> Seq<Action> {
        match self.mode {
            Mode::StartOfTurn => {
                if self.all_jumps(self.active_player).len() > 0 {
                    self.all_jumps(self.active_player)
                } else {
                    self.all_steps(self.active_player)
                }
            },
            Mode::ChainCapture(p) => self.jumps_from(p),
            Mode::Victory(_) => Seq::empty(),
        }
    }

    /// Whether either side has no piece left.
    pub open spec fn one_side_is_out(self) -> bool {
        material(self.tiles, Player::White) == 0 || material(self.tiles, Player::Black) == 0
    }

    /// The state after the piece at `from` has moved to `to`, before the turn
    /// is passed on.
    pub open spec fn moved(self, from: Pos, to: Pos) -> GameState {
        GameState {
            tiles: self.tiles.update(cell(from), Tile::Empty).update(
                cell(to),
                crowned(self.tile(from), to),
            ),
            ..self
        }
    }

    /// The state after the tile at `p` has been emptied.
    pub open spec fn cleared(self, p: Pos) -> GameState {
        GameState { tiles: self.tiles.update(cell(p), Tile::Empty), ..self }
    }

    /// The state that follows when the action `a` is taken.
    pub open spec fn next(self, a: Action) -> GameState {
        match a {
            Action::Step { from, to } => GameState {
                active_player: opponent(self.active_player),
                mode: Mode::StartOfTurn,
                ..self.moved(from, to)
            },
            Action::Jump { from, capture, to } => {
                let landed = self.cleared(capture).moved(from, to);
                let passed = if landed.jumps_from(to).len() > 0 {
                    GameState { mode: Mode::ChainCapture(to), ..landed }
                } else {
                    GameState {
                        active_player: opponent(self.active_player),
                        mode: Mode::StartOfTurn,
                        ..landed
                    }
                };
                if landed.one_side_is_out() {
                    GameState { mode: Mode::Victory(owner(self.tile(from)).unwrap()), ..passed }
                } else {
                    passed
                }
            },
        }
    }

    /// The consistency condition: the board has 64 tiles, and during a chain
    /// of captures the capturing piece is on the board, belongs to the active
    /// player and has a jump.
    pub open spec fn inv(self) -> bool {
        &&& self.tiles.len() == 64
        &&& self.mode matches Mode::ChainCapture(p) ==> {
            &&& on_board(p)
            &&& owner(self.tile(p)) == Some(self.active_player)
            &&& self.jumps_from(p).len() > 0
        }
    }

    /// The score of the player numbered `player`: own material less the
    /// opponent's.
    pub open spec fn score(self, player: int) -> int {
        let white = material(self.tiles, Player::White);
        let black = material(self.tiles, Player::Black);
        if player == 0 {
            white - black
        } else {
            black - white
        }
    }

    /// The number of the winner, once there is one.
    pub open spec fn outcome(self) -> Option<int> {
        match self.mode {
            Mode::Victory(p) => Some(player_index(p)),
            _ => None,
        }
    }
}

/// The tile that the action `a` moves a piece from.
pub open spec fn origin(a: Action) -> Pos {
    match a {
        Action::Step { from, .. } => from,
        Action::Jump { from, .. } => from,
    }
}

/// The tile that the action `a` moves a piece to.
pub open spec fn target(a: Action) -> Pos {
    match a {
        Action::Step { to, .. } => to,
        Action::Jump { to, .. } => to,
    }
}

impl GameState {
    /// Whether `p` is on the board and holds a piece of `player`.
    pub open spec fn owns(self, player: Player, p: Pos) -> bool {
        on_board(p) && owner(self.tile(p)) == Some(player)
    }

    /// Whether `a` is a move of the piece at `start` in one of its
    /// directions: a jump where `capturing`, else a step.
    pub open spec fn is_move_from(self, start: Pos, a: Action, capturing: bool) -> bool {
        exists|d: Pos| #[trigger]
            directions(self.tile(start)).contains(d) && self.can_move(start, d, capturing) && a
                == move_of(start, d, capturing)
    }

    /// Whether some piece of `player` has a jump.
    pub open spec fn has_capture(self, player: Player) -> bool {
        exists|p: Pos, d: Pos|
            self.owns(player, p) && directions(self.tile(p)).contains(d) && #[trigger] self.can_jump(
                p,
                d,
            )
    }

    /// Whether the rules allow the action `a`. At the start of a turn a
    /// piece of the active player may jump, and may step only where no piece
    /// of the active player has a jump; during a chain of captures only the
    /// capturing piece may move, and only by a jump; after a victory nothing
    /// is allowed.
    pub open spec fn allows(self, a: Action) -> bool {
        match self.mode {
            Mode::StartOfTurn => {
                &&& self.owns(self.active_player, origin(a))
                &&& if a is Jump {
                    self.is_move_from(origin(a), a, true)
                } else {
                    !self.has_capture(self.active_player) && self.is_move_from(origin(a), a, false)
                }
            },
            Mode::ChainCapture(p) => a is Jump && origin(a) == p && self.is_move_from(p, a, true),
            Mode::Victory(_) => false,
        }
    }
}

impl GameState {
    /// The moves in the directions `dirs` are the moves in those of the
    /// directions in which the piece can move.
    proof fn lemma_moves_in(self, start: Pos, dirs: Seq<Pos>, capturing: bool, a: Action)
        ensures
            self.moves_in(start, dirs, capturing).contains(a) <==> exists|d: Pos| #[trigger]
                dirs.contains(d) && self.can_move(start, d, capturing) && a == move_of(
                    start,
                    d,
                    capturing,
                ),
        decreases dirs.len(),
    {
        if dirs.len() > 0 {
            let front = dirs.drop_last();
            let before = self.moves_in(start, front, capturing);
            self.lemma_moves_in(start, front, capturing, a);
            lemma_push_contains(before, move_of(start, dirs.last(), capturing), a);
            assert(dirs =~= front.push(dirs.last()));
            if self.moves_in(start, dirs, capturing).contains(a) {
                if before.contains(a) {
                    let d = choose|d: Pos| #[trigger]
                        front.contains(d) && self.can_move(start, d, capturing) && a == move_of(
                            start,
                            d,
                            capturing,
                        );
                    lemma_push_contains(front, dirs.last(), d);
                    assert(dirs.contains(d));
                } else {
                    lemma_push_contains(front, dirs.last(), dirs.last());
                    assert(dirs.contains(dirs.last()));
                }
            }
            if exists|d: Pos| #[trigger]
                dirs.contains(d) && self.can_move(start, d, capturing) && a == move_of(
                    start,
                    d,
                    capturing,
                ) {
                let d = choose|d: Pos| #[trigger]
                    dirs.contains(d) && self.can_move(start, d, capturing) && a == move_of(
                        start,
                        d,
                        capturing,
                    );
                lemma_push_contains(front, dirs.last(), d);
                if front.contains(d) {
                    assert(before.contains(a));
                }
            }
        }
    }

    /// The moves of a piece depend on the tiles alone.
    pub proof fn lemma_moves_read_tiles(
        self,
        other: GameState,
        start: Pos,
        dirs: Seq<Pos>,
        capturing: bool,
    )
        requires
            self.tiles == other.tiles,
        ensures
            self.moves_in(start, dirs, capturing) == other.moves_in(start, dirs, capturing),
        decreases dirs.len(),
    {
        if dirs.len() > 0 {
            self.lemma_moves_read_tiles(other, start, dirs.drop_last(), capturing);
        }
    }

    /// The moves of the piece at `start` are what `is_move_from` admits.
    pub proof fn lemma_moves_from(self, start: Pos, capturing: bool, a: Action)
        ensures
            self.moves_from(start, capturing).contains(a) <==> self.is_move_from(
                start,
                a,
                capturing,
            ),
    {
        self.lemma_moves_in(start, directions(self.tile(start)), capturing, a);
    }

    /// The positions listed among the first `n` tiles are those that hold a
    /// piece of `player`.
    proof fn lemma_pieces_among(self, player: Player, n: nat, p: Pos)
        requires
            n <= 64,
            self.tiles.len() == 64,
        ensures
            self.pieces_among(player, n).contains(p) <==> self.owns(player, p) && cell(p) < n,
        decreases n,
    {
        if n > 0 {
            let before = self.pieces_among(player, (n - 1) as nat);
            self.lemma_pieces_among(player, (n - 1) as nat, p);
            lemma_push_contains(before, pos_of(n - 1), p);
            assert(cell(pos_of(n - 1)) == n - 1);
            assert(on_board(pos_of(n - 1)));
            if on_board(p) && cell(p) == n - 1 {
                assert(p == pos_of(n - 1));
            }
        }
    }

    /// The positions listed for `player` are those that hold one of its pieces.
    pub proof fn lemma_pieces(self, player: Player, p: Pos)
        requires
            self.tiles.len() == 64,
        ensures
            self.pieces(player).contains(p) <==> self.owns(player, p),
    {
        self.lemma_pieces_among(player, 64, p);
        if on_board(p) {
            assert(cell(p) < 64);
        }
    }

    /// The moves of the pieces at `starts` are the moves of each of them.
    proof fn lemma_moves_over(self, starts: Seq<Pos>, capturing: bool, a: Action)
        ensures
            self.moves_over(starts, capturing).contains(a) <==> exists|p: Pos| #[trigger]
                starts.contains(p) && self.moves_from(p, capturing).contains(a),
        decreases starts.len(),
    {
        if starts.len() > 0 {
            let front = starts.drop_last();
            self.lemma_moves_over(front, capturing, a);
            lemma_add_contains(
                self.moves_over(front, capturing),
                self.moves_from(starts.last(), capturing),
                a,
            );
            assert(starts =~= front.push(starts.last()));
            if self.moves_over(starts, capturing).contains(a) {
                if self.moves_over(front, capturing).contains(a) {
                    let p = choose|p: Pos| #[trigger]
                        front.contains(p) && self.moves_from(p, capturing).contains(a);
                    lemma_push_contains(front, starts.last(), p);
                    assert(starts.contains(p));
                } else {
                    lemma_push_contains(front, starts.last(), starts.last());
                    assert(starts.contains(starts.last()));
                }
            }
            if exists|p: Pos| #[trigger]
                starts.contains(p) && self.moves_from(p, capturing).contains(a) {
                let p = choose|p: Pos| #[trigger]
                    starts.contains(p) && self.moves_from(p, capturing).contains(a);
                lemma_push_contains(front, starts.last(), p);
                if front.contains(p) {
                    assert(self.moves_over(front, capturing).contains(a));
                }
            }
        }
    }

    /// The moves listed for the pieces of `player` are the moves of the
    /// pieces that `player` owns.
    pub proof fn lemma_all_moves(self, player: Player, capturing: bool, a: Action)
        requires
            self.tiles.len() == 64,
        ensures
            self.moves_over(self.pieces(player), capturing).contains(a) <==> self.owns(
                player,
                origin(a),
            ) && self.is_move_from(origin(a), a, capturing),
    {
        let starts = self.pieces(player);
        self.lemma_moves_over(starts, capturing, a);
        if self.moves_over(starts, capturing).contains(a) {
            let p = choose|p: Pos| #[trigger]
                starts.contains(p) && self.moves_from(p, capturing).contains(a);
            self.lemma_pieces(player, p);
            self.lemma_moves_from(p, capturing, a);
            assert(origin(a) == p);
        }
        if self.owns(player, origin(a)) && self.is_move_from(origin(a), a, capturing) {
            self.lemma_pieces(player, origin(a));
            self.lemma_moves_from(origin(a), capturing, a);
            assert(starts.contains(origin(a)));
        }
    }

    /// Some jump is listed for `player` exactly where one of its pieces has a jump.
    pub proof fn lemma_has_capture(self, player: Player)
        requires
            self.tiles.len() == 64,
        ensures
            self.all_jumps(player).len() > 0 <==> self.has_capture(player),
    {
        let jumps = self.all_jumps(player);
        if jumps.len() > 0 {
            let a = jumps[0];
            assert(jumps.contains(a));
            self.lemma_all_moves(player, true, a);
            let d = choose|d: Pos| #[trigger]
                directions(self.tile(origin(a))).contains(d) && self.can_move(origin(a), d, true)
                    && a == move_of(origin(a), d, true);
            assert(self.can_jump(origin(a), d));
        }
        if self.has_capture(player) {
            let (p, d) = choose|p: Pos, d: Pos|
                self.owns(player, p) && directions(self.tile(p)).contains(d) && #[trigger] self.can_jump(
                    p,
                    d,
                );
            let a = jump_of(p, d);
            assert(self.can_move(p, d, true) && a == move_of(p, d, true));
            assert(self.is_move_from(p, a, true));
            self.lemma_all_moves(player, true, a);
            assert(jumps.contains(a));
        }
    }

    /// An action is legal exactly where the rules allow it.
    pub proof fn lemma_legal_iff_allowed(self, a: Action)
        requires
            self.inv(),
        ensures
            self.legal().contains(a) <==> self.allows(a),
    {
        match self.mode {
            Mode::StartOfTurn => {
                let player = self.active_player;
                self.lemma_has_capture(player);
                self.lemma_all_moves(player, true, a);
                self.lemma_all_moves(player, false, a);
                if self.is_move_from(origin(a), a, true) {
                    assert(a is Jump);
                }
                if self.is_move_from(origin(a), a, false) {
                    assert(a is Step);
                }
                if self.all_jumps(player).len() > 0 {
                } else {
                }
            },
            Mode::ChainCapture(p) => {
                self.lemma_moves_from(p, true, a);
                if self.is_move_from(p, a, true) {
                    assert(a is Jump && origin(a) == p);
                }
            },
            Mode::Victory(_) => {},
        }
    }
}

impl Tile {
    /// The player that the tile belongs to, if either.
    fn player(self) -> (p: Option<Player>)
        ensures
            p == owner(self),
    {
        if let Tile::Occupied(p, _) = self {
            Some(p)
        } else {
            None
        }
    }
}

/// The deltas by which the piece on `tile` may move.
fn possible_moves(tile: Tile) -> (moves: Vec<Pos>)
    ensures
        moves@ == directions(tile),
{
    let moves = match tile {
        Tile::Occupied(Player::White, Piece::Pawn) => vec![Pos { x: -1, y: 1 }, Pos { x: 1, y: 1 }],
        Tile::Occupied(Player::Black, Piece::Pawn) => vec![
            Pos { x: -1, y: -1 },
            Pos { x: 1, y: -1 },
        ],
        Tile::Occupied(_, Piece::King) => vec![
            Pos { x: -1, y: 1 },
            Pos { x: 1, y: 1 },
            Pos { x: -1, y: -1 },
            Pos { x: 1, y: -1 },
        ],
        Tile::Empty => vec![],
    };
    assert(moves@ =~= directions(tile));
    moves
}

/// The row-major offset of the tile at `(x, y)`.
fn coord_index(x: i32, y: i32) -> (i: usize)
    requires
        0 <= x < BOARD_SIZE,
        0 <= y < BOARD_SIZE,
    ensures
        i == y * BOARD_SIZE + x,
        i < 64,
{
    (y * BOARD_SIZE + x) as usize
}

/// The row-major offset of the tile at `p`.
fn pos_index(p: Pos) -> (i: usize)
    requires
        on_board(p),
    ensures
        i == cell(p),
        i < 64,
{
    coord_index(p.x, p.y)
}

/// What a piece counts for in the material of its owner.
fn piece_value(piece: Piece) -> (worth: i32)
    ensures
        worth == piece_worth(piece),
{
    match piece {
        Piece::Pawn => 1,
        Piece::King => 2,
    }
}

/// The material on `tiles` is at least zero and at most two a tile.
pub proof fn lemma_material_bounds(tiles: Seq<Tile>, player: Player)
    ensures
        0 <= material(tiles, player) <= 2 * tiles.len(),
    decreases tiles.len(),
{
    if tiles.len() > 0 {
        lemma_material_bounds(tiles.drop_last(), player);
    }
}

/// Puts `tile` on every tile of the rows `first_row` up to, not including,
/// `end_row` whose coordinates have an even sum.
fn place_rows(board: &mut [Tile; 64], first_row: i32, end_row: i32, tile: Tile)
    requires
        0 <= first_row <= end_row <= BOARD_SIZE,
    ensures
        forall|i: int|
            0 <= i < 64 ==> #[trigger] final(board)@[i] == (if first_row <= pos_of(i).y < end_row
                && (pos_of(i).x + pos_of(i).y) % 2 == 0 {
                tile
            } else {
                old(board)@[i]
            }),
{
    let mut y: i32 = first_row;
    while y < end_row
        invariant
            0 <= first_row <= y <= end_row <= BOARD_SIZE,
            forall|i: int|
                0 <= i < 64 ==> #[trigger] board@[i] == (if first_row <= pos_of(i).y < y && (
                pos_of(i).x + pos_of(i).y) % 2 == 0 {
                    tile
                } else {
                    old(board)@[i]
                }),
        decreases end_row - y,
    {
        let mut i: i32 = 0;
        while i < BOARD_SIZE
            invariant
                0 <= first_row <= y < end_row <= BOARD_SIZE,
                0 <= i <= BOARD_SIZE,
                i % 2 == 0,
                forall|j: int|
                    0 <= j < 64 ==> #[trigger] board@[j] == (if (first_row <= pos_of(j).y < y || (
                    pos_of(j).y == y && pos_of(j).x < i + y % 2)) && (pos_of(j).x + pos_of(j).y) % 2
                        == 0 {
                        tile
                    } else {
                        old(board)@[j]
                    }),
            decreases BOARD_SIZE - i,
        {
            let x = i + (y % 2);
            board[coord_index(x, y)] = tile;
            i = i + 2;
        }
        y = y + 1;
    }
}

impl Checkers {
    /// The starting position: three rows of pawns for each side, white to move.
    pub fn new() -> (game: Checkers)
        ensures
            game@ == GameState::start(),
            game@.inv(),
    {
        let mut board = [Tile::Empty; 64];
        place_rows(&mut board, 0, 3, Tile::Occupied(Player::White, Piece::Pawn));
        place_rows(
            &mut board,
            BOARD_SIZE - 3,
            BOARD_SIZE,
            Tile::Occupied(Player::Black, Piece::Pawn),
        );
        let game = Checkers { tiles: board, active_player: Player::White, mode: Mode::StartOfTurn };
        assert(game@.tiles =~= GameState::start().tiles);
        game
    }

    /// Puts `tile` on the board at `p`.
    fn set_tile(&mut self, p: Pos, tile: Tile)
        requires
            on_board(p),
        ensures
            final(self)@ == (GameState {
                tiles: old(self)@.tiles.update(cell(p), tile),
                ..old(self)@
            }),
    {
        self.tiles[pos_index(p)] = tile;
    }

    /// The tile at `p`, which must lie on the board.
    pub fn get_tile(&self, p: Pos) -> (tile: Tile)
        requires
            on_board(p),
        ensures
            tile == self@.tile(p),
    {
        self.tiles[pos_index(p)]
    }

    /// The tile at `p`, or `None` where `p` lies off the board.
    pub fn try_get_tile(&self, p: Pos) -> (tile: Option<Tile>)
        ensures
            tile == self@.look(p),
    {
        if p.x >= 0 && p.x < BOARD_SIZE && p.y >= 0 && p.y < BOARD_SIZE {
            Some(self.get_tile(p))
        } else {
            None
        }
    }

    /// Turns the piece at `p` into a king if it is a pawn on the row
    /// farthest from its side.
    fn king_check(&mut self, p: Pos)
        requires
            on_board(p),
        ensures
            final(self)@ == (GameState {
                tiles: old(self)@.tiles.update(cell(p), crowned(old(self)@.tile(p), p)),
                ..old(self)@
            }),
    {
        let tile_value = self.get_tile(p);
        match tile_value {
            Tile::Occupied(Player::Black, Piece::Pawn) => {
                if p.y == 0 {
                    self.set_tile(p, Tile::Occupied(Player::Black, Piece::King));
                }
            },
            Tile::Occupied(Player::White, Piece::Pawn) => {
                if p.y == BOARD_SIZE - 1 {
                    self.set_tile(p, Tile::Occupied(Player::White, Piece::King));
                }
            },
            _ => (),
        }
        assert(self@.tiles =~= old(self)@.tiles.update(cell(p), crowned(old(self)@.tile(p), p)));
    }

    /// Whether either side has no piece left.
    fn victory_check(&self) -> (over: bool)
        ensures
            over == self@.one_side_is_out(),
    {
        let (white, black) = self.piece_count();
        white == 0 || black == 0
    }

    /// The material of white and of black.
    fn piece_count(&self) -> (count: (i32, i32))
        ensures
            count.0 == material(self@.tiles, Player::White),
            count.1 == material(self@.tiles, Player::Black),
    {
        let mut white: i32 = 0;
        let mut black: i32 = 0;
        let mut i: usize = 0;
        while i < 64
            invariant
                i <= 64,
                white == material(self@.tiles.take(i as int), Player::White),
                black == material(self@.tiles.take(i as int), Player::Black),
            decreases 64 - i,
        {
            proof {
                let seen = self@.tiles.take(i + 1);
                assert(seen.drop_last() =~= self@.tiles.take(i as int));
                lemma_material_bounds(self@.tiles.take(i as int), Player::White);
                lemma_material_bounds(self@.tiles.take(i as int), Player::Black);
            }
            match self.tiles[i] {
                Tile::Occupied(Player::Black, piece) => black += piece_value(piece),
                Tile::Occupied(Player::White, piece) => white += piece_value(piece),
                Tile::Empty => (),
            }
            i = i + 1;
        }
        assert(self@.tiles.take(64) =~= self@.tiles);
        (white, black)
    }

    /// The jumps of the piece at `start`, in the order of its directions.
    fn visit_jumps_from_pos(&self, start: Pos) -> (jumps: Vec<Action>)
        requires
            on_board(start),
            owner(self@.tile(start)).is_some(),
        ensures
            jumps@ == self@.jumps_from(start),
    {
        let start_tile = self.get_tile(start);
        let player = start_tile.player().unwrap();
        let moves = possible_moves(start_tile);
        let mut jumps: Vec<Action> = Vec::new();
        let mut k: usize = 0;
        while k < moves.len()
            invariant
                on_board(start),
                start_tile == self@.tile(start),
                owner(start_tile) == Some(player),
                moves@ == directions(start_tile),
                k <= moves.len(),
                jumps@ == self@.moves_in(start, moves@.take(k as int), true),
            decreases moves.len() - k,
        {
            let m = moves[k];
            let pos = start + m;
            let mut found = false;
            if let Some(Tile::Occupied(p, _)) = self.try_get_tile(pos) {
                if p != player {
                    let jump = pos + m;
                    if let Some(Tile::Empty) = self.try_get_tile(jump) {
                        jumps.push(Action::Jump { from: start, capture: pos, to: jump });
                        found = true;
                    }
                }
            }
            proof {
                assert(moves@.take(k + 1).drop_last() =~= moves@.take(k as int));
                assert(found == self@.can_jump(start, m));
            }
            k = k + 1;
        }
        assert(moves@.take(moves.len() as int) =~= moves@);
        jumps
    }

    /// Appends the jumps of the piece at `start`.
    fn find_jumps_from_pos(&self, start: Pos, actions: &mut Vec<Action>)
        requires
            on_board(start),
            owner(self@.tile(start)).is_some(),
        ensures
            final(actions)@ == old(actions)@ + self@.jumps_from(start),
    {
        let mut jumps = self.visit_jumps_from_pos(start);
        actions.append(&mut jumps);
    }

    /// Appends the steps of the piece at `start`.
    fn find_steps_from_pos(&self, start: Pos, actions: &mut Vec<Action>)
        requires
            on_board(start),
        ensures
            final(actions)@ == old(actions)@ + self@.steps_from(start),
    {
        let start_tile = self.get_tile(start);
        let moves = possible_moves(start_tile);
        let mut k: usize = 0;
        while k < moves.len()
            invariant
                on_board(start),
                start_tile == self@.tile(start),
                moves@ == directions(start_tile),
                k <= moves.len(),
                actions@ == old(actions)@ + self@.moves_in(start, moves@.take(k as int), false),
            decreases moves.len() - k,
        {
            let m = moves[k];
            let pos = start + m;
            proof {
                assert(moves@.take(k + 1).drop_last() =~= moves@.take(k as int));
            }
            if let Some(Tile::Empty) = self.try_get_tile(pos) {
                actions.push(Action::Step { from: start, to: pos });
            }
            k = k + 1;
        }
        assert(moves@.take(moves.len() as int) =~= moves@);
    }

    /// The positions of the pieces of `player`, row by row.
    fn visit_player_pieces(&self, player: Player) -> (found: Vec<Pos>)
        ensures
            found@ == self@.pieces(player),
    {
        let mut found: Vec<Pos> = Vec::new();
        let mut i: usize = 0;
        while i < 64
            invariant
                i <= 64,
                found@ == self@.pieces_among(player, i as nat),
            decreases 64 - i,
        {
            if self.tiles[i].player() == Some(player) {
                let p = Pos { x: (i as i32) % BOARD_SIZE, y: (i as i32) / BOARD_SIZE };
                found.push(p);
            }
            i = i + 1;
        }
        found
    }

    /// Appends the moves of the pieces at `starts`, piece by piece: their
    /// jumps where `capturing`, else their steps.
    fn find_moves_of_pieces(&self, starts: &Vec<Pos>, capturing: bool, actions: &mut Vec<Action>)
        requires
            forall|k: int|
                0 <= k < starts.len() ==> on_board(#[trigger] starts[k]) && owner(
                    self@.tile(starts[k]),
                ).is_some(),
        ensures
            final(actions)@ == old(actions)@ + self@.moves_over(starts@, capturing),
    {
        let mut k: usize = 0;
        while k < starts.len()
            invariant
                k <= starts.len(),
                forall|k: int|
                    0 <= k < starts.len() ==> on_board(#[trigger] starts[k]) && owner(
                        self@.tile(starts[k]),
                    ).is_some(),
                actions@ == old(actions)@ + self@.moves_over(starts@.take(k as int), capturing),
            decreases starts.len() - k,
        {
            proof {
                assert(starts@.take(k + 1).drop_last() =~= starts@.take(k as int));
            }
            if capturing {
                self.find_jumps_from_pos(starts[k], actions);
            } else {
                self.find_steps_from_pos(starts[k], actions);
            }
            k = k + 1;
        }
        assert(starts@.take(starts.len() as int) =~= starts@);
    }

    /// Whether this state meets the consistency condition of the game.
    pub fn is_consistent(&self) -> (consistent: bool)
        ensures
            consistent == self@.inv(),
    {
        match self.mode {
            Mode::ChainCapture(p) => {
                match self.try_get_tile(p) {
                    Some(Tile::Occupied(player, _)) => player == self.active_player
                        && self.can_capture_a_piece(p),
                    _ => false,
                }
            },
            _ => true,
        }
    }

    /// Whether the action `a` is legal in this state.
    pub fn is_legal(&self, a: &Action) -> (legal: bool)
        requires
            self@.inv(),
        ensures
            legal == self@.legal().contains(*a),
    {
        let mut actions: Vec<Action> = Vec::new();
        self.possible_actions(&mut actions);
        assert(actions@ =~= self@.legal());
        let mut k: usize = 0;
        while k < actions.len()
            invariant
                k <= actions.len(),
                actions@ == self@.legal(),
                forall|i: int| 0 <= i < k ==> actions@[i] != *a,
            decreases actions.len() - k,
        {
            if actions[k] == *a {
                return true;
            }
            k = k + 1;
        }
        false
    }

    /// Whether the piece at `p` can capture a piece in its next move.
    fn can_capture_a_piece(&self, p: Pos) -> (can_capture: bool)
        requires
            on_board(p),
            owner(self@.tile(p)).is_some(),
        ensures
            can_capture == (self@.jumps_from(p).len() > 0),
    {
        let jumps = self.visit_jumps_from_pos(p);
        jumps.len() > 0
    }

    /// Passes the turn on to the other player.
    fn active_player_swap(&mut self)
        ensures
            final(self)@ == (GameState {
                active_player: opponent(old(self)@.active_player),
                ..old(self)@
            }),
    {
        let p = match self.active_player {
            Player::White => Player::Black,
            Player::Black => Player::White,
        };
        self.active_player = p;
    }
}

impl GameState {
    /// A legal action moves a piece of the active player between tiles of
    /// the board, and a legal jump captures on the board.
    pub proof fn lemma_legal_shape(self, a: Action)
        requires
            self.inv(),
            self.legal().contains(a),
        ensures
            self.owns(self.active_player, origin(a)),
            on_board(target(a)),
            self.tile(target(a)) == Tile::Empty,
            a matches Action::Jump { capture, .. } ==> self.owns(
                opponent(self.active_player),
                capture,
            ),
    {
        self.lemma_legal_iff_allowed(a);
    }
}

/// Replacing one tile changes the material by the difference of what the
/// two tiles are worth.
pub proof fn lemma_material_update(tiles: Seq<Tile>, i: int, tile: Tile, player: Player)
    requires
        0 <= i < tiles.len(),
    ensures
        material(tiles.update(i, tile), player) == material(tiles, player) - tile_worth(
            tiles[i],
            player,
        ) + tile_worth(tile, player),
    decreases tiles.len(),
{
    let changed = tiles.update(i, tile);
    if i == tiles.len() - 1 {
        assert(changed.drop_last() =~= tiles.drop_last());
    } else {
        assert(changed.drop_last() =~= tiles.drop_last().update(i, tile));
        lemma_material_update(tiles.drop_last(), i, tile, player);
    }
}

/// A player with a piece on the board has material.
pub proof fn lemma_material_positive(tiles: Seq<Tile>, i: int, player: Player)
    requires
        0 <= i < tiles.len(),
        owner(tiles[i]) == Some(player),
    ensures
        material(tiles, player) > 0,
    decreases tiles.len(),
{
    if i == tiles.len() - 1 {
        lemma_material_bounds(tiles.drop_last(), player);
    } else {
        lemma_material_positive(tiles.drop_last(), i, player);
    }
}

/// A king stays a king wherever it lands, so a pawn is crowned once.
pub proof fn lemma_crowned_once(tile: Tile, p: Pos, q: Pos)
    ensures
        owner(crowned(tile, p)) == owner(tile),
        tile matches Tile::Occupied(_, Piece::King) ==> crowned(tile, p) == tile,
        crowned(tile, p) matches Tile::Occupied(_, Piece::King) ==> crowned(crowned(tile, p), q)
            == crowned(tile, p),
{
}

impl GameState {
    /// Whether the piece at `p` has a jump.
    pub open spec fn has_jump_at(self, p: Pos) -> bool {
        exists|d: Pos| #[trigger]
            directions(self.tile(p)).contains(d) && self.can_jump(p, d)
    }

    /// The piece at `p` has a jump exactly where jumps are listed for it.
    pub proof fn lemma_has_jump_at(self, p: Pos)
        ensures
            self.has_jump_at(p) <==> self.jumps_from(p).len() > 0,
    {
        let jumps = self.jumps_from(p);
        if jumps.len() > 0 {
            assert(jumps.contains(jumps[0]));
            self.lemma_moves_from(p, true, jumps[0]);
            let d = choose|d: Pos| #[trigger]
                directions(self.tile(p)).contains(d) && self.can_move(p, d, true) && jumps[0]
                    == move_of(p, d, true);
            assert(self.can_jump(p, d));
        }
        if self.has_jump_at(p) {
            let d = choose|d: Pos| #[trigger]
                directions(self.tile(p)).contains(d) && self.can_jump(p, d);
            assert(self.can_move(p, d, true));
            self.lemma_moves_from(p, true, jump_of(p, d));
        }
    }

    /// Where a piece on the board has a jump, both sides have material.
    pub proof fn lemma_jump_needs_both_sides(self, p: Pos)
        requires
            self.tiles.len() == 64,
            on_board(p),
            self.has_jump_at(p),
        ensures
            !self.one_side_is_out(),
    {
        let d = choose|d: Pos| #[trigger]
            directions(self.tile(p)).contains(d) && self.can_jump(p, d);
        let over = p.shifted(d);
        let mover = owner(self.tile(p)).unwrap();
        let other = owner(self.tile(over)).unwrap();
        lemma_material_positive(self.tiles, cell(p), mover);
        lemma_material_positive(self.tiles, cell(over), other);
    }

    /// The board after the legal action `a`: the tile that the piece left is
    /// empty, and so is the tile of the piece that a jump captured; the tile
    /// that the piece reached holds it, crowned where it is due; every other
    /// tile is as before.
    pub proof fn lemma_board_after(self, a: Action, p: Pos)
        requires
            self.inv(),
            self.legal().contains(a),
            on_board(p),
        ensures
            self.next(a).tiles.len() == 64,
            self.next(a).tile(p) == (if p == target(a) {
                crowned(self.tile(origin(a)), p)
            } else if p == origin(a) {
                Tile::Empty
            } else if a matches Action::Jump { capture, .. } && p == capture {
                Tile::Empty
            } else {
                self.tile(p)
            }),
    {
        self.lemma_legal_shape(a);
    }

    /// A king is never turned back into a pawn: a pawn on the board after a
    /// legal action was a pawn before it, on the same tile or on the tile
    /// that the action moved it from; and the piece that moved is a king
    /// where it was one or reached the row farthest from its side.
    pub proof fn lemma_kings_stay_kings(self, a: Action, p: Pos, player: Player)
        requires
            self.inv(),
            self.legal().contains(a),
            on_board(p),
        ensures
            self.next(a).tile(target(a)) == crowned(self.tile(origin(a)), target(a)),
            self.tile(origin(a)) == Tile::Occupied(player, Piece::King) ==> self.next(a).tile(
                target(a),
            ) == Tile::Occupied(player, Piece::King),
            self.next(a).tile(p) == Tile::Occupied(player, Piece::Pawn) ==> (if p == target(a) {
                self.tile(origin(a))
            } else {
                self.tile(p)
            }) == Tile::Occupied(player, Piece::Pawn),
    {
        self.lemma_legal_shape(a);
        self.lemma_board_after(a, p);
        self.lemma_board_after(a, target(a));
    }

    /// After a legal action the state is consistent again. A step passes the
    /// turn on. A jump keeps the turn exactly where the chain of captures
    /// goes on, from the tile that the piece reached; else it passes the turn
    /// on, and ends the game where it took the last piece of a side.
    pub proof fn lemma_turn_after_action(self, a: Action)
        requires
            self.inv(),
            self.legal().contains(a),
        ensures
            self.next(a).inv(),
            a is Step ==> self.next(a).mode == Mode::StartOfTurn,
            self.next(a).mode is ChainCapture ==> a is Jump && self.next(a).mode
                == Mode::ChainCapture(target(a)) && self.next(a).active_player
                == self.active_player,
            !(self.next(a).mode is ChainCapture) ==> self.next(a).active_player == opponent(
                self.active_player,
            ),
            self.next(a).mode matches Mode::Victory(w) ==> w == self.active_player,
    {
        self.lemma_legal_shape(a);
        match a {
            Action::Step { from, to } => {},
            Action::Jump { from, capture, to } => {
                let landed = self.cleared(capture).moved(from, to);
                let after = self.next(a);
                lemma_crowned_once(self.tile(from), to, to);
                landed.lemma_moves_read_tiles(after, to, directions(landed.tile(to)), true);
                if landed.jumps_from(to).len() > 0 {
                    landed.lemma_has_jump_at(to);
                    landed.lemma_jump_needs_both_sides(to);
                }
            },
        }
    }

    /// Where some piece of the active player has a jump, every legal action
    /// is a jump, and at the start of a turn there is one.
    pub proof fn lemma_capture_is_mandatory(self, a: Action)
        requires
            self.inv(),
            self.has_capture(self.active_player),
        ensures
            self.legal().contains(a) ==> a is Jump,
            self.mode == Mode::StartOfTurn ==> self.legal().len() > 0,
    {
        self.lemma_has_capture(self.active_player);
        if self.legal().contains(a) {
            self.lemma_legal_iff_allowed(a);
        }
    }

    /// After a legal jump whose piece has a further jump from the tile that
    /// it reached, the chain of captures goes on from that tile: the legal
    /// actions are then jumps of that piece, and nothing else.
    pub proof fn lemma_forced_continuation(self, a: Action, b: Action)
        requires
            self.inv(),
            self.legal().contains(a),
            a is Jump,
            self.next(a).has_jump_at(target(a)),
        ensures
            self.next(a).mode == Mode::ChainCapture(target(a)),
            self.next(a).active_player == self.active_player,
            self.next(a).legal().len() > 0,
            self.next(a).legal().contains(b) ==> b is Jump && origin(b) == target(a),
    {
        let to = target(a);
        let after = self.next(a);
        self.lemma_legal_shape(a);
        self.lemma_turn_after_action(a);
        if let Action::Jump { from, capture, to } = a {
            let landed = self.cleared(capture).moved(from, to);
            after.lemma_has_jump_at(to);
            landed.lemma_moves_read_tiles(after, to, directions(landed.tile(to)), true);
            landed.lemma_has_jump_at(to);
            landed.lemma_jump_needs_both_sides(to);
        }
        if after.legal().contains(b) {
            after.lemma_legal_iff_allowed(b);
        }
    }

    /// Once a legal action has taken the last piece of a side, the game is
    /// over: the side that moved has material and has won, and no action is
    /// legal any more.
    pub proof fn lemma_victory_is_final(self, a: Action)
        requires
            self.inv(),
            self.legal().contains(a),
            !self.one_side_is_out(),
            self.next(a).one_side_is_out(),
        ensures
            a is Jump,
            material(self.next(a).tiles, self.active_player) > 0,
            material(self.next(a).tiles, opponent(self.active_player)) == 0,
            self.next(a).mode == Mode::Victory(self.active_player),
            self.next(a).outcome() == Some(player_index(self.active_player)),
            self.next(a).legal() == Seq::<Action>::empty(),
    {
        self.lemma_legal_shape(a);
        let mover = self.tile(origin(a));
        lemma_crowned_once(mover, target(a), target(a));
        lemma_material_bounds(self.tiles, Player::White);
        lemma_material_bounds(self.tiles, Player::Black);
        self.lemma_board_after(a, target(a));
        match a {
            Action::Step { from, to } => {
                let lifted = self.tiles.update(cell(from), Tile::Empty);
                assert(lifted[cell(to)] == Tile::Empty);
                assert(self.next(a).tiles == lifted.update(cell(to), crowned(mover, to)));
                lemma_material_update(self.tiles, cell(from), Tile::Empty, Player::White);
                lemma_material_update(self.tiles, cell(from), Tile::Empty, Player::Black);
                lemma_material_update(lifted, cell(to), crowned(mover, to), Player::White);
                lemma_material_update(lifted, cell(to), crowned(mover, to), Player::Black);
            },
            Action::Jump { from, capture, to } => {
                lemma_material_positive(self.next(a).tiles, cell(to), self.active_player);
            },
        }
    }

    /// After a victory no action is legal, and the winner stands.
    pub proof fn lemma_no_action_after_victory(self)
        requires
            self.mode is Victory,
        ensures
            self.legal() == Seq::<Action>::empty(),
            self.outcome().is_some(),
    {
    }
}

impl Game for Checkers {
    type Action = Action;

    open spec fn inv(s: GameState) -> bool {
        s.inv()
    }

    open spec fn legal(s: GameState) -> Seq<Action> {
        s.legal()
    }

    open spec fn turn(s: GameState) -> int {
        player_index(s.active_player)
    }

    open spec fn next(s: GameState, a: Action) -> GameState {
        s.next(a)
    }

    open spec fn score(s: GameState, player: int) -> int {
        s.score(player)
    }

    open spec fn outcome(s: GameState) -> Option<int> {
        s.outcome()
    }

    proof fn lemma_clone_is_same(a: &Self, b: &Self) {
    }

    fn possible_actions(&self, actions: &mut Vec<Action>) {
        match self.mode {
            Mode::StartOfTurn => {
                let p = self.active_player;
                let pieces = self.visit_player_pieces(p);
                let listed = actions.len();
                proof {
                    assert forall|k: int| 0 <= k < pieces.len() implies self@.owns(
                        p,
                        #[trigger] pieces[k],
                    ) by {
                        assert(pieces@.contains(pieces[k]));
                        self@.lemma_pieces(p, pieces[k]);
                    }
                }
                self.find_moves_of_pieces(&pieces, true, actions);
                if actions.len() == listed {
                    self.find_moves_of_pieces(&pieces, false, actions);
                }
            },
            Mode::ChainCapture(p) => {
                self.find_jumps_from_pos(p, actions);
            },
            Mode::Victory(_) => (),
        }
    }

    fn active_player(&self) -> (p: i64) {
        match self.active_player {
            Player::White => 0,
            Player::Black => 1,
        }
    }

    fn apply_action(&mut self, a: &Action) {
        proof {
            self@.lemma_legal_shape(*a);
        }
        match *a {
            Action::Step { from, to } => {
                let tile_value = self.get_tile(from);
                self.set_tile(from, Tile::Empty);
                self.set_tile(to, tile_value);
                self.king_check(to);
                assert(self@.tiles =~= old(self)@.moved(from, to).tiles);
                self.active_player_swap();
                self.mode = Mode::StartOfTurn;
            },
            Action::Jump { from, capture, to } => {
                let tile_value = self.get_tile(from);
                self.set_tile(from, Tile::Empty);
                self.set_tile(capture, Tile::Empty);
                self.set_tile(to, tile_value);
                self.king_check(to);
                assert(self@.tiles =~= old(self)@.cleared(capture).moved(from, to).tiles);
                assert(self@ == old(self)@.cleared(capture).moved(from, to));
                if self.can_capture_a_piece(to) {
                    self.mode = Mode::ChainCapture(to);
                    proof {
                        let landed = old(self)@.cleared(capture).moved(from, to);
                        landed.lemma_moves_read_tiles(
                            self@,
                            to,
                            directions(landed.tile(to)),
                            true,
                        );
                    }
                } else {
                    self.active_player_swap();
                    self.mode = Mode::StartOfTurn;
                }
                if self.victory_check() {
                    self.mode = Mode::Victory(tile_value.player().unwrap());
                }
            },
        }
    }

    fn player_score(&self, player: i64) -> (s: i64) {
        let (white, black) = self.piece_count();
        proof {
            lemma_material_bounds(self@.tiles, Player::White);
            lemma_material_bounds(self@.tiles, Player::Black);
        }
        if player == 0 {
            (white - black) as i64
        } else {
            (black - white) as i64
        }
    }

    fn winner(&self) -> (w: Option<i64>) {
        match self.mode {
            Mode::Victory(Player::White) => Some(0),
            Mode::Victory(Player::Black) => Some(1),
            _ => None,
        }
    }
}

} // verus!
