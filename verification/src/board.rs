//! The 15x15 board, its cells and the spec model every other module speaks of.
use vstd::prelude::*;

verus! {

/// Width and height of the board.
pub const BOARD_SIZE: usize = 15;

/// Number of cells of the board.
pub const NUM_CELLS: usize = 225;

/// A stone colour.
#[derive(Debug, Clone, Copy, PartialEq, Eq, Hash, Structural)]
pub enum Player {
    Black,
    White,
}

impl Player {
    pub open spec fn spec_opponent(self) -> Player {
        match self {
            Player::Black => Player::White,
            Player::White => Player::Black,
        }
    }

    /// The other player.
    pub fn opponent(&self) -> (res: Player)
        ensures
            res == self.spec_opponent(),
    {
        match self {
            Player::Black => Player::White,
            Player::White => Player::Black,
        }
    }
}

/// The model of a board: its cells in row-major order, `y * 15 + x`.
pub type Cells = Seq<Option<Player>>;

pub open spec fn on_board(x: int, y: int) -> bool {
    0 <= x < 15 && 0 <= y < 15
}

pub open spec fn cell_index(x: int, y: int) -> int {
    y * 15 + x
}

/// What stands at column `x`, row `y`.
pub open spec fn cell(b: Cells, x: int, y: int) -> Option<Player> {
    b[cell_index(x, y)]
}

/// Column `x`, row `y` is on the board and holds a stone of `p`.
pub open spec fn stone_at(b: Cells, x: int, y: int, p: Player) -> bool {
    on_board(x, y) && cell(b, x, y) == Some(p)
}

/// Column `x`, row `y` is on the board and holds a stone of either player.
pub open spec fn occupied(b: Cells, x: int, y: int) -> bool {
    on_board(x, y) && cell(b, x, y) is Some
}

/// Column `x`, row `y` is on the board and empty.
pub open spec fn empty_at(b: Cells, x: int, y: int) -> bool {
    on_board(x, y) && cell(b, x, y) is None
}

pub open spec fn board_full(b: Cells) -> bool {
    forall|i: int| 0 <= i < 225 ==> (#[trigger] b[i]) is Some
}

pub open spec fn board_empty(b: Cells) -> bool {
    forall|i: int| 0 <= i < 225 ==> (#[trigger] b[i]) is None
}

/// The board after a stone of `p`, or nothing, is put at column `x`, row `y`.
pub open spec fn put(b: Cells, x: int, y: int, v: Option<Player>) -> Cells {
    b.update(cell_index(x, y), v)
}

/// The first empty cell in row-major order, searched from column `x` of row `y` on.
pub open spec fn first_empty_from(b: Cells, y: int, x: int) -> Option<(usize, usize)>
    decreases 15 - y, 15 - x,
{
    if y >= 15 || y < 0 || x < 0 {
        None
    } else if x >= 15 {
        first_empty_from(b, y + 1, 0)
    } else if cell(b, x, y) is None {
        Some((x as usize, y as usize))
    } else {
        first_empty_from(b, y, x + 1)
    }
}

/// The first empty cell of the board in row-major order, as (column, row).
pub open spec fn first_empty(b: Cells) -> Option<(usize, usize)> {
    first_empty_from(b, 0, 0)
}

/// A board: 15 rows of 15 cells, each empty or holding a stone.
pub struct Board {
    cells: Vec<Option<Player>>,
}

impl View for Board {
    type V = Cells;

    closed spec fn view(&self) -> Cells {
        self.cells@
    }
}

impl Board {
    pub open spec fn wf(&self) -> bool {
        self@.len() == 225
    }

    /// The empty board.
    pub fn new() -> (b: Board)
        ensures
            b.wf(),
            board_empty(b@),
    {
        let mut cells: Vec<Option<Player>> = Vec::new();
        let mut i: usize = 0;
        while i < NUM_CELLS
            invariant
                i <= 225,
                cells@.len() == i,
                forall|j: int| 0 <= j < i ==> (#[trigger] cells@[j]) is None,
            decreases 225 - i,
        {
            cells.push(None);
            i = i + 1;
        }
        Board { cells }
    }

    /// A board with the same cells.
    pub fn copy(&self) -> (b: Board)
        requires
            self.wf(),
        ensures
            b.wf(),
            b@ == self@,
    {
        let mut cells: Vec<Option<Player>> = Vec::new();
        let mut i: usize = 0;
        while i < NUM_CELLS
            invariant
                i <= 225,
                self.wf(),
                cells@ == self@.take(i as int),
            decreases 225 - i,
        {
            cells.push(self.cells[i]);
            i = i + 1;
            assert(cells@ =~= self@.take(i as int));
        }
        assert(self@.take(225) =~= self@);
        Board { cells }
    }

    /// What stands at column `x`, row `y`.
    pub fn get(&self, x: usize, y: usize) -> (c: Option<Player>)
        requires
            self.wf(),
            x < 15,
            y < 15,
        ensures
            c == cell(self@, x as int, y as int),
    {
        self.cells[y * BOARD_SIZE + x]
    }

    /// Puts `v` at column `x`, row `y`.
    pub fn set(&mut self, x: usize, y: usize, v: Option<Player>)
        requires
            old(self).wf(),
            x < 15,
            y < 15,
        ensures
            final(self).wf(),
            final(self)@ == put(old(self)@, x as int, y as int, v),
    {
        self.cells.set(y * BOARD_SIZE + x, v);
    }

    /// Whether column `x`, row `y` (possibly off the board) holds a stone of `p`.
    pub fn has_stone(&self, x: isize, y: isize, p: Player) -> (r: bool)
        requires
            self.wf(),
        ensures
            r == stone_at(self@, x as int, y as int, p),
    {
        if x < 0 || y < 0 || x >= 15 || y >= 15 {
            return false;
        }
        match self.get(x as usize, y as usize) {
            Some(q) => q == p,
            None => false,
        }
    }
}

/// Whether every cell holds a stone.
pub fn is_board_full(board: &Board) -> (r: bool)
    requires
        board.wf(),
    ensures
        r == board_full(board@),
{
    let mut i: usize = 0;
    while i < NUM_CELLS
        invariant
            i <= 225,
            board.wf(),
            forall|j: int| 0 <= j < i ==> (#[trigger] board@[j]) is Some,
        decreases 225 - i,
    {
        if board.cells[i].is_none() {
            return false;
        }
        i = i + 1;
    }
    true
}

/// The first empty cell in row-major order, as (column, row).
pub fn find_first_empty_cell(board: &Board) -> (r: Option<(usize, usize)>)
    requires
        board.wf(),
    ensures
        r == first_empty(board@),
{
    let mut y: usize = 0;
    while y < BOARD_SIZE
        invariant
            y <= 15,
            board.wf(),
            first_empty(board@) == first_empty_from(board@, y as int, 0),
        decreases 15 - y,
    {
        let mut x: usize = 0;
        while x < BOARD_SIZE
            invariant
                x <= 15,
                y < 15,
                board.wf(),
                first_empty(board@) == first_empty_from(board@, y as int, x as int),
            decreases 15 - x,
        {
            if board.get(x, y).is_none() {
                return Some((x, y));
            }
            x = x + 1;
        }
        y = y + 1;
    }
    None
}

/// The first empty cell, if any, is empty and every cell before it is occupied; when there
/// is none, the board is full.
pub proof fn lemma_first_empty(b: Cells)
    requires
        b.len() == 225,
    ensures
        first_empty(b) matches Some((x, y)) ==> empty_at(b, x as int, y as int) && forall|
            i: int,
        |
            0 <= i < cell_index(x as int, y as int) ==> (#[trigger] b[i]) is Some,
        first_empty(b) is None <==> board_full(b),
{
    lemma_first_empty_from(b, 0, 0);
}

proof fn lemma_first_empty_from(b: Cells, y: int, x: int)
    requires
        b.len() == 225,
        0 <= y <= 15,
        0 <= x <= 15,
    ensures
        first_empty_from(b, y, x) matches Some((fx, fy)) ==> empty_at(b, fx as int, fy as int)
            && cell_index(x, y) <= cell_index(fx as int, fy as int) && forall|i: int|
            cell_index(x, y) <= i < cell_index(fx as int, fy as int) ==> (#[trigger] b[i]) is Some,
        first_empty_from(b, y, x) is None <==> forall|i: int|
            cell_index(x, y) <= i < 225 ==> (#[trigger] b[i]) is Some,
    decreases 15 - y, 15 - x,
{
    if y >= 15 {
    } else if x >= 15 {
        lemma_first_empty_from(b, y + 1, 0);
    } else if cell(b, x, y) is None {
    } else {
        lemma_first_empty_from(b, y, x + 1);
    }
}

} // verus!
