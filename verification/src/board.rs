//! The grid: a total map from cells of a fixed rectangle to what they hold.

use vstd::prelude::*;

verus! {

/// Largest column; columns run from 0 to `WIDTH` inclusive.
pub const WIDTH: u16 = 40;

/// Largest row; rows run from 0 to `HEIGHT` inclusive.
pub const HEIGHT: u16 = 20;

/// Number of cells in a column.
pub const ROWS: usize = 21;

/// Number of cells of the rectangle.
pub const CELLS: usize = 861;

/// What a cell holds.
#[derive(Clone, Copy, Debug, PartialEq, Eq, Structural)]
pub enum Sprites {
    Wall,
    Player,
    Robot,
    DeadRobot,
    Empty,
}

impl Sprites {
    /// The character that stands for what a cell holds.
    pub open spec fn spec_glyph(self) -> char {
        match self {
            Sprites::Wall => '\u{2591}',
            Sprites::Player => '@',
            Sprites::Robot => 'R',
            Sprites::DeadRobot => 'X',
            Sprites::Empty => ' ',
        }
    }

    /// The character that stands for what a cell holds.
    pub fn glyph(&self) -> (c: char)
        ensures
            c == self.spec_glyph(),
    {
        match self {
            Sprites::Wall => '\u{2591}',
            Sprites::Player => '@',
            Sprites::Robot => 'R',
            Sprites::DeadRobot => 'X',
            Sprites::Empty => ' ',
        }
    }
}

/// A cell of the grid: its column, then its row.
pub type Cell = (u16, u16);

/// What each cell holds.
pub type Grid = Map<Cell, Sprites>;

/// The cell lies in the rectangle.
pub open spec fn in_bounds(c: Cell) -> bool {
    c.0 <= WIDTH && c.1 <= HEIGHT
}

/// The cell lies on the rectangle's rim.
pub open spec fn on_border(c: Cell) -> bool {
    in_bounds(c) && (c.0 == 0 || c.1 == 0 || c.0 == WIDTH || c.1 == HEIGHT)
}

/// The cell lies in the rectangle and off its rim.
pub open spec fn interior(c: Cell) -> bool {
    0 < c.0 < WIDTH && 0 < c.1 < HEIGHT
}

/// Position of a cell in scan order: column by column, top to bottom.
pub open spec fn cell_index(c: Cell) -> int {
    c.0 * ROWS + c.1
}

/// The cell at a position of the scan order.
pub open spec fn cell_at(i: int) -> Cell {
    ((i / ROWS as int) as u16, (i % ROWS as int) as u16)
}

/// A cell of the rectangle has its place in the scan order, and that place
/// leads back to the cell.
pub proof fn lemma_scan_order(c: Cell)
    requires
        in_bounds(c),
    ensures
        0 <= cell_index(c) < CELLS,
        cell_at(cell_index(c)) == c,
{
}

/// A place of the scan order holds a cell of the rectangle, and that cell
/// leads back to the place.
pub proof fn lemma_scan_order_inverse(i: int)
    requires
        0 <= i < CELLS,
    ensures
        in_bounds(cell_at(i)),
        cell_index(cell_at(i)) == i,
{
}

/// The map is defined on exactly the cells of the rectangle.
pub open spec fn total(m: Grid) -> bool {
    forall|c: Cell| #[trigger] m.dom().contains(c) <==> in_bounds(c)
}

/// Every cell of the rim holds a wall.
pub open spec fn walled(m: Grid) -> bool {
    forall|c: Cell| on_border(c) ==> #[trigger] m[c] == Sprites::Wall
}

/// The board with every wreck cleared away.
pub open spec fn purged(m: Grid) -> Grid {
    Map::new(
        |c: Cell| m.dom().contains(c),
        |c: Cell| if m[c] == Sprites::DeadRobot { Sprites::Empty } else { m[c] },
    )
}

/// Number of `Empty` cells among the first `n` of the scan order.
pub open spec fn empties_before(m: Grid, n: int) -> int
    decreases n,
{
    if n <= 0 {
        0
    } else if m[cell_at(n - 1)] == Sprites::Empty {
        empties_before(m, n - 1) + 1
    } else {
        empties_before(m, n - 1)
    }
}

/// Number of `Empty` cells of the rectangle.
pub open spec fn empties(m: Grid) -> int {
    empties_before(m, CELLS as int)
}

/// The `k`-th `Empty` cell of the scan order, counted from 0, is `c`.
pub open spec fn is_kth_empty(m: Grid, k: int, c: Cell) -> bool {
    in_bounds(c) && m[c] == Sprites::Empty && empties_before(m, cell_index(c)) == k
}

/// A longer prefix of the scan order holds no fewer `Empty` cells.
pub proof fn lemma_empties_monotone(m: Grid, a: int, b: int)
    requires
        0 <= a <= b,
    ensures
        empties_before(m, a) <= empties_before(m, b),
    decreases b - a,
{
    if a < b {
        lemma_empties_monotone(m, a, b - 1);
    }
}

/// Overwriting one cell changes the count of `Empty` cells by what that cell
/// lost and gained, and only in the prefixes that reach past it.
pub proof fn lemma_empties_insert(m: Grid, c: Cell, s: Sprites, n: int)
    requires
        in_bounds(c),
        0 <= n <= CELLS,
    ensures
        empties_before(m.insert(c, s), n) == empties_before(m, n) + if cell_index(c) < n {
            (if s == Sprites::Empty { 1int } else { 0 }) - (if m[c] == Sprites::Empty { 1int } else { 0 })
        } else {
            0
        },
    decreases n,
{
    if n > 0 {
        lemma_empties_insert(m, c, s, n - 1);
        lemma_scan_order(c);
        lemma_scan_order_inverse(n - 1);
    }
}

/// Two cells that are both the `k`-th `Empty` cell are one cell.
pub proof fn lemma_kth_empty_unique(m: Grid, k: int, a: Cell, b: Cell)
    requires
        is_kth_empty(m, k, a),
        is_kth_empty(m, k, b),
    ensures
        a == b,
{
    lemma_scan_order(a);
    lemma_scan_order(b);
    if cell_index(a) < cell_index(b) {
        lemma_empties_monotone(m, cell_index(a) + 1, cell_index(b));
    } else if cell_index(b) < cell_index(a) {
        lemma_empties_monotone(m, cell_index(b) + 1, cell_index(a));
    }
}

/// Number of cells off the rim among the first `n` of the scan order.
pub open spec fn interior_before(n: int) -> int {
    let x = n / ROWS as int;
    let y = n % ROWS as int;
    let full = if x <= 1 {
        0
    } else if x <= WIDTH {
        (HEIGHT - 1) * (x - 1)
    } else {
        (HEIGHT - 1) * (WIDTH - 1)
    };
    let part = if 1 <= x < WIDTH {
        if y <= 1 {
            0
        } else if y <= HEIGHT {
            y - 1
        } else {
            HEIGHT - 1
        }
    } else {
        0
    };
    full + part
}

/// Number of cells off the rim.
pub const INTERIOR_CELLS: usize = 741;

/// The grid of a game.
pub struct Board {
    cells: Vec<Sprites>,
}

impl View for Board {
    type V = Grid;

    closed spec fn view(&self) -> Grid {
        Map::new(|c: Cell| in_bounds(c), |c: Cell| self.cells@[cell_index(c)])
    }
}

impl Board {
    /// Storage holds one entry per cell.
    pub closed spec fn sized(&self) -> bool {
        self.cells@.len() == CELLS
    }

    /// The board is a total map over the rectangle with a rim of walls.
    pub open spec fn wf(&self) -> bool {
        self.sized() && total(self@) && walled(self@)
    }

    /// The contents of a freshly laid out board: walls on the rim, nothing inside.
    pub open spec fn blank() -> Grid {
        Map::new(
            |c: Cell| in_bounds(c),
            |c: Cell| if on_border(c) { Sprites::Wall } else { Sprites::Empty },
        )
    }

    /// A board with walls on the rim and nothing inside.
    pub fn new() -> (b: Board)
        ensures
            b.wf(),
            b@ == Self::blank(),
    {
        let mut cells: Vec<Sprites> = Vec::new();
        let mut x: u16 = 0;
        while x <= WIDTH
            invariant
                x <= WIDTH + 1,
                cells@.len() == cell_index((x, 0)),
                forall|i: int| 0 <= i < cells@.len() ==> cells@[i] == Self::blank()[cell_at(i)],
            decreases WIDTH + 1 - x,
        {
            let mut y: u16 = 0;
            while y <= HEIGHT
                invariant
                    x <= WIDTH,
                    y <= HEIGHT + 1,
                    cells@.len() == cell_index((x, y)),
                    forall|i: int| 0 <= i < cells@.len() ==> cells@[i] == Self::blank()[cell_at(i)],
                decreases HEIGHT + 1 - y,
            {
                proof {
                    lemma_scan_order((x, y));
                }
                if x == 0 || y == 0 || x == WIDTH || y == HEIGHT {
                    cells.push(Sprites::Wall);
                } else {
                    cells.push(Sprites::Empty);
                }
                y = y + 1;
            }
            x = x + 1;
        }
        let b = Board { cells };
        proof {
            assert forall|c: Cell| in_bounds(c) implies b@[c] == Self::blank()[c] by {
                lemma_scan_order(c);
            }
            assert(b@ =~= Self::blank());
        }
        b
    }

    /// On a freshly laid out board the cells off the rim are the empty ones.
    pub proof fn lemma_blank_empties_before(n: int)
        requires
            0 <= n <= CELLS,
        ensures
            empties_before(Self::blank(), n) == interior_before(n),
        decreases n,
    {
        if n > 0 {
            Self::lemma_blank_empties_before(n - 1);
            lemma_scan_order_inverse(n - 1);
        }
    }

    /// A freshly laid out board has one empty cell for each cell off the rim.
    pub proof fn lemma_blank_empties()
        ensures
            empties(Self::blank()) == INTERIOR_CELLS,
    {
        Self::lemma_blank_empties_before(CELLS as int);
    }

    /// Whether the board is well formed: of full size, with walls all along the rim.
    pub fn is_wf(&self) -> (ok: bool)
        ensures
            ok == self.wf(),
    {
        if self.cells.len() != CELLS {
            return false;
        }
        let mut i: usize = 0;
        while i < CELLS
            invariant
                self.cells@.len() == CELLS,
                i <= CELLS,
                forall|j: int| 0 <= j < i && on_border(cell_at(j)) ==> self.cells@[j] == Sprites::Wall,
            decreases CELLS - i,
        {
            let x = i / ROWS;
            let y = i % ROWS;
            let rim = x == 0 || y == 0 || x == WIDTH as usize || y == HEIGHT as usize;
            if rim && self.cells[i] != Sprites::Wall {
                proof {
                    lemma_scan_order_inverse(i as int);
                    assert(self@[cell_at(i as int)] != Sprites::Wall);
                }
                return false;
            }
            i = i + 1;
        }
        proof {
            assert forall|c: Cell| on_border(c) implies #[trigger] self@[c] == Sprites::Wall by {
                lemma_scan_order(c);
            }
        }
        true
    }

    /// Number of empty cells.
    pub fn count_empty(&self) -> (n: usize)
        requires
            self.wf(),
        ensures
            n == empties(self@),
            n <= CELLS,
    {
        let mut n: usize = 0;
        let mut i: usize = 0;
        while i < CELLS
            invariant
                self.wf(),
                i <= CELLS,
                n <= i,
                n == empties_before(self@, i as int),
            decreases CELLS - i,
        {
            proof {
                lemma_scan_order_inverse(i as int);
            }
            if self.cells[i] == Sprites::Empty {
                n = n + 1;
            }
            i = i + 1;
        }
        n
    }

    /// The empty cell that has exactly `k` empty cells before it in scan order.
    pub fn kth_empty(&self, k: usize) -> (c: Cell)
        requires
            self.wf(),
            k < empties(self@),
        ensures
            is_kth_empty(self@, k as int, c),
    {
        let mut seen: usize = 0;
        let mut i: usize = 0;
        while i < CELLS
            invariant
                self.wf(),
                i <= CELLS,
                seen <= k,
                seen == empties_before(self@, i as int),
                k < empties(self@),
            decreases CELLS - i,
        {
            proof {
                lemma_scan_order_inverse(i as int);
            }
            if self.cells[i] == Sprites::Empty {
                if seen == k {
                    return ((i / ROWS) as u16, (i % ROWS) as u16);
                }
                seen = seen + 1;
            }
            i = i + 1;
        }
        // Not reached: more than `k` cells are empty, so the scan has met the one asked for.
        (0, 0)
    }

    /// Clears every wreck off the board.
    pub fn clear_wrecks(&mut self)
        requires
            old(self).wf(),
        ensures
            final(self).wf(),
            final(self)@ == purged(old(self)@),
    {
        let mut i: usize = 0;
        while i < CELLS
            invariant
                i <= CELLS,
                self.cells@.len() == CELLS,
                old(self).cells@.len() == CELLS,
                forall|j: int|
                    0 <= j < i ==> self.cells@[j] == (if old(self).cells@[j] == Sprites::DeadRobot {
                        Sprites::Empty
                    } else {
                        old(self).cells@[j]
                    }),
                forall|j: int| i <= j < CELLS ==> self.cells@[j] == old(self).cells@[j],
            decreases CELLS - i,
        {
            if self.cells[i] == Sprites::DeadRobot {
                self.cells.set(i, Sprites::Empty);
            }
            i = i + 1;
        }
        proof {
            assert forall|c: Cell| in_bounds(c) implies self@[c] == purged(old(self)@)[c] by {
                lemma_scan_order(c);
            }
            assert(self@ =~= purged(old(self)@));
        }
    }

    /// Where the cell is stored.
    fn slot(cell: Cell) -> (i: usize)
        requires
            in_bounds(cell),
        ensures
            i == cell_index(cell),
            i < CELLS,
    {
        let column: usize = cell.0 as usize;
        let row: usize = cell.1 as usize;
        column * ROWS + row
    }

    /// What the cell holds.
    pub fn get(&self, cell: Cell) -> (s: Sprites)
        requires
            self.wf(),
            in_bounds(cell),
        ensures
            s == self@[cell],
    {
        self.cells[Self::slot(cell)]
    }

    /// Overwrites one cell. A cell of the rim takes nothing but a wall.
    pub fn set(&mut self, cell: Cell, sprite: Sprites)
        requires
            old(self).wf(),
            in_bounds(cell),
            on_border(cell) ==> sprite == Sprites::Wall,
        ensures
            final(self).wf(),
            final(self)@ == old(self)@.insert(cell, sprite),
    {
        let i = Self::slot(cell);
        self.cells.set(i, sprite);
        proof {
            assert forall|c: Cell| in_bounds(c) implies self@[c] == old(self)@.insert(cell, sprite)[c] by {
                lemma_scan_order(c);
                lemma_scan_order(cell);
            }
            assert(self@ =~= old(self)@.insert(cell, sprite));
        }
    }
}

} // verus!
