//! Integer board coordinates and a square grid of cells.

use core::ops::{Add, AddAssign, Neg};
use vstd::prelude::*;
use vstd::std_specs::ops::{AddSpecImpl, NegSpecImpl};

verus! {

/// An integer (x, y) coordinate, used both as a grid index and as a move delta.
#[derive(Copy, Clone, Debug, PartialEq, Eq, Structural)]
pub struct Pos {
    pub x: i32,
    pub y: i32,
}

impl Pos {
    /// This coordinate moved by the delta `d`.
    pub open spec fn shifted(self, d: Pos) -> Pos {
        Pos { x: (self.x + d.x) as i32, y: (self.y + d.y) as i32 }
    }

    /// Whether the component-wise sum of two coordinates fits the coordinate type.
    pub open spec fn can_add(self, other: Pos) -> bool {
        &&& i32::MIN <= self.x + other.x <= i32::MAX
        &&& i32::MIN <= self.y + other.y <= i32::MAX
    }

    /// Whether both components can be negated within the coordinate type.
    pub open spec fn can_neg(self) -> bool {
        self.x != i32::MIN && self.y != i32::MIN
    }
}

impl AddSpecImpl for Pos {
    open spec fn obeys_add_spec() -> bool {
        true
    }

    open spec fn add_req(self, other: Pos) -> bool {
        self.can_add(other)
    }

    open spec fn add_spec(self, other: Pos) -> Pos {
        self.shifted(other)
    }
}

impl Add for Pos {
    type Output = Pos;

    /// The component-wise sum.
    fn add(self, other: Pos) -> (sum: Pos)
        ensures
            sum.x == self.x + other.x,
            sum.y == self.y + other.y,
    {
        Pos { x: self.x + other.x, y: self.y + other.y }
    }
}

impl NegSpecImpl for Pos {
    open spec fn obeys_neg_spec() -> bool {
        true
    }

    open spec fn neg_req(self) -> bool {
        self.can_neg()
    }

    open spec fn neg_spec(self) -> Pos {
        Pos { x: (-self.x) as i32, y: (-self.y) as i32 }
    }
}

impl Neg for Pos {
    type Output = Pos;

    /// The coordinate with both components negated.
    fn neg(self) -> (opposite: Pos)
        ensures
            opposite.x == -self.x,
            opposite.y == -self.y,
    {
        Pos { x: -self.x, y: -self.y }
    }
}

impl AddAssign for Pos {
    /// Moves this coordinate by `other`.
    fn add_assign(&mut self, other: Pos)
        requires
            old(self).can_add(other),
        ensures
            final(self).x == old(self).x + other.x,
            final(self).y == old(self).y + other.y,
    {
        *self = *self + other;
    }
}

/// A square grid of cells, stored row by row.
pub struct Board<Tile: Clone> {
    pub size: i32,
    tiles: Vec<Tile>,
}

/// What a grid is: its edge length and its cells in row-major order.
pub ghost struct Grid<Tile> {
    pub size: int,
    pub cells: Seq<Tile>,
}

impl<Tile: Clone> View for Board<Tile> {
    type V = Grid<Tile>;

    closed spec fn view(&self) -> Grid<Tile> {
        Grid { size: self.size as int, cells: self.tiles@ }
    }
}

impl<Tile: Clone> Clone for Board<Tile> {
    /// A grid of the same edge whose cells are clones of this grid's cells.
    fn clone(&self) -> (copy: Self)
        ensures
            copy@.size == self@.size,
            copy@.cells.len() == self@.cells.len(),
            forall|i: int|
                0 <= i < self@.cells.len() ==> cloned(self@.cells[i], #[trigger] copy@.cells[i]),
    {
        Board { size: self.size, tiles: self.tiles.clone() }
    }
}

/// In a square grid of edge `size`, the row-major offset of an in-range
/// coordinate lies below `size * size`.
pub proof fn lemma_offset_in_range(x: int, y: int, size: int)
    requires
        0 <= x < size,
        0 <= y < size,
    ensures
        0 <= y * size <= y * size + x < size * size,
{
    assert(y * size >= 0) by (nonlinear_arith)
        requires
            y >= 0,
            size >= 0,
    ;
    assert((y + 1) * size <= size * size) by (nonlinear_arith)
        requires
            y + 1 <= size,
            size >= 0,
    ;
    assert((y + 1) * size == y * size + size) by (nonlinear_arith);
}

impl<Tile: Clone> Board<Tile> {
    /// The grid holds exactly `size * size` cells.
    pub open spec fn wf(&self) -> bool {
        &&& 0 <= self@.size
        &&& self@.size * self@.size <= i32::MAX
        &&& self@.cells.len() == self@.size * self@.size
    }

    /// Whether `p` names a cell of the grid.
    pub open spec fn contains(&self, p: Pos) -> bool {
        &&& 0 <= p.x < self@.size
        &&& 0 <= p.y < self@.size
    }

    /// The row-major offset of the coordinate `(x, y)`.
    pub open spec fn offset(&self, x: int, y: int) -> int {
        y * self@.size + x
    }

    /// The cell at `p`.
    pub open spec fn at(&self, p: Pos) -> Tile {
        self@.cells[self.offset(p.x as int, p.y as int)]
    }

    /// A grid of edge `size` in which every cell is a clone of `initial_val`.
    pub fn new(initial_val: Tile, size: i32) -> (board: Board<Tile>)
        requires
            0 <= size,
            size * size <= i32::MAX,
        ensures
            board.wf(),
            board@.size == size,
            forall|i: int| 0 <= i < size * size ==> cloned(initial_val, #[trigger] board@.cells[i]),
    {
        assert(size * size >= 0) by (nonlinear_arith)
            requires
                size >= 0,
        ;
        let area: i32 = size * size;
        let tiles = vec![initial_val; area as usize];
        Board { size, tiles }
    }

    /// Whether the grid holds exactly `size * size` cells.
    pub fn is_well_formed(&self) -> (ok: bool)
        ensures
            ok == self.wf(),
    {
        if self.size < 0 {
            return false;
        }
        if self.size > 46340 {
            assert(self@.size * self@.size > i32::MAX) by (nonlinear_arith)
                requires
                    self@.size > 46340,
            ;
            return false;
        }
        assert(0 <= self@.size * self@.size <= i32::MAX) by (nonlinear_arith)
            requires
                0 <= self@.size <= 46340,
        ;
        let area: i32 = self.size * self.size;
        self.tiles.len() == area as usize
    }

    /// The edge length of the grid.
    pub fn edge(&self) -> (size: i32)
        ensures
            size == self@.size,
    {
        self.size
    }

    /// An iterator over the cells in row-major order.
    pub fn iter(&self) -> (cells: core::slice::Iter<'_, Tile>)
        ensures
            vstd::std_specs::iter::IteratorSpec::remaining(&cells) == self@.cells.as_ref(),
    {
        self.tiles.iter()
    }

    /// The row-major offset of `(x, y)`.
    pub fn index(&self, x: i32, y: i32) -> (i: usize)
        requires
            i32::MIN <= y * self@.size <= i32::MAX,
            0 <= y * self@.size + x <= i32::MAX,
        ensures
            i == self.offset(x as int, y as int),
    {
        (y * self.size + x) as usize
    }

    /// The cell at `p`, or `None` where `p` lies off the grid.
    pub fn try_get(&self, p: Pos) -> (cell: Option<Tile>)
        requires
            self.wf(),
        ensures
            self.contains(p) ==> cell.is_some() && cloned(self.at(p), cell.unwrap()),
            !self.contains(p) ==> cell.is_none(),
    {
        if p.x < 0 || p.x >= self.size || p.y < 0 || p.y >= self.size {
            None
        } else {
            Some(self.get(p))
        }
    }

    /// The cell at `p`, which must lie on the grid.
    pub fn get(&self, p: Pos) -> (cell: Tile)
        requires
            self.wf(),
            self.contains(p),
        ensures
            cloned(self.at(p), cell),
    {
        proof {
            lemma_offset_in_range(p.x as int, p.y as int, self.size as int);
        }
        self.tiles[self.index(p.x, p.y)].clone()
    }

    /// Replaces the cell at `p`, which must lie on the grid, by `t`.
    pub fn set(&mut self, p: Pos, t: Tile)
        requires
            old(self).wf(),
            old(self).contains(p),
        ensures
            final(self).wf(),
            final(self)@.size == old(self)@.size,
            final(self)@.cells == old(self)@.cells.update(old(self).offset(p.x as int, p.y as int), t),
    {
        proof {
            lemma_offset_in_range(p.x as int, p.y as int, self.size as int);
        }
        let i = self.index(p.x, p.y);
        self.tiles[i] = t;
    }
}

/// A sequence with one more element holds what it held before, and that element.
pub proof fn lemma_push_contains<T>(s: Seq<T>, x: T, a: T)
    ensures
        s.push(x).contains(a) <==> s.contains(a) || a == x,
{
    if s.contains(a) {
        let i = choose|i: int| 0 <= i < s.len() && s[i] == a;
        assert(s.push(x)[i] == a);
    }
    if a == x {
        assert(s.push(x)[s.len() as int] == a);
    }
}

/// The concatenation of two sequences holds what either of them holds.
pub proof fn lemma_add_contains<T>(s: Seq<T>, t: Seq<T>, a: T)
    ensures
        (s + t).contains(a) <==> s.contains(a) || t.contains(a),
{
    if s.contains(a) {
        let i = choose|i: int| 0 <= i < s.len() && s[i] == a;
        assert((s + t)[i] == a);
    }
    if t.contains(a) {
        let i = choose|i: int| 0 <= i < t.len() && t[i] == a;
        assert((s + t)[s.len() + i] == a);
    }
    if (s + t).contains(a) {
        let i = choose|i: int| 0 <= i < (s + t).len() && (s + t)[i] == a;
        if i < s.len() {
            assert(s[i] == a);
        } else {
            assert(t[i - s.len()] == a);
        }
    }
}

} // verus!
