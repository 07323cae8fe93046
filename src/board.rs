use vstd::prelude::*;

verus! {

/// Number of columns on the board.
pub const COLUMNS: usize = 7;

/// Number of rows on the board; row 0 is the bottom of every column.
pub const ROWS: usize = 6;

/// What a single cell of the grid holds.
#[derive(Clone, Copy, Debug, PartialEq, Eq, Structural)]
pub enum SlotState {
    Empty,
    Red,
    Blue,
}

/// The single character used to draw a cell holding `m`.
pub open spec fn glyph(m: SlotState) -> Seq<char> {
    match m {
        SlotState::Empty => seq![' '],
        SlotState::Red => seq!['R'],
        SlotState::Blue => seq!['B'],
    }
}

/// One cell of the grid.
#[derive(Clone, Copy)]
struct Slot {
    state: SlotState,
}

impl Slot {
    fn new() -> (s: Slot)
        ensures
            s.state == SlotState::Empty,
    {
        Slot { state: SlotState::Empty }
    }

    /// The character that draws this cell.
    fn display(&self) -> (r: &'static str)
        ensures
            r@ == glyph(self.state),
    {
        proof {
            reveal_strlit(" ");
            reveal_strlit("R");
            reveal_strlit("B");
        }
        match self.state {
            SlotState::Empty => " ",
            SlotState::Red => "R",
            SlotState::Blue => "B",
        }
    }
}


/// The four kinds of line through a cell along which a win can be made.
#[derive(Clone, Copy, Debug, PartialEq, Eq, Structural)]
pub enum Direction {
    /// Up a column.
    Vertical,
    /// Along a row.
    Horizontal,
    /// Bottom-left to top-right: column minus row is constant.
    Rising,
    /// Top-left to bottom-right: column plus row is constant.
    Falling,
}

/// The cell `i` steps from `(c, r)` along a line of kind `d`.
pub open spec fn step(c: int, r: int, d: Direction, i: int) -> (int, int) {
    match d {
        Direction::Vertical => (c, r + i),
        Direction::Horizontal => (c + i, r),
        Direction::Rising => (c + i, r + i),
        Direction::Falling => (c + i, r - i),
    }
}

/// `p` is a (column, row) coordinate of the grid.
pub open spec fn on_board(p: (int, int)) -> bool {
    0 <= p.0 < COLUMNS && 0 <= p.1 < ROWS
}

/// Number of filled cells in a column.
pub open spec fn filled(col: Seq<SlotState>) -> nat
    decreases col.len(),
{
    if col.len() == 0 {
        0
    } else {
        filled(col.drop_last()) + if col.last() != SlotState::Empty {
            1nat
        } else {
            0nat
        }
    }
}

/// Gravity: no filled cell stands above an empty one.
pub open spec fn settled(col: Seq<SlotState>) -> bool {
    forall|i: int, j: int|
        0 <= i < j < col.len() && #[trigger] col[j] != SlotState::Empty ==> #[trigger] col[i]
            != SlotState::Empty
}

/// Four equal marks, none empty, start at index `t` of `s`.
pub open spec fn four_at(s: Seq<SlotState>, t: int) -> bool {
    &&& 0 <= t
    &&& t + 4 <= s.len()
    &&& s[t] != SlotState::Empty
    &&& s[t + 1] == s[t]
    &&& s[t + 2] == s[t]
    &&& s[t + 3] == s[t]
}

/// Somewhere in `s` stand four consecutive equal marks, none empty.
pub open spec fn has_four(s: Seq<SlotState>) -> bool {
    exists|t: int| four_at(s, t)
}

/// The mathematical content of a board: `grid[c][r]` is the cell at column
/// `c` and row `r` (row 0 at the bottom), and `last` is where the most recent
/// successful drop landed, if there was one.
pub struct BoardView {
    pub grid: Seq<Seq<SlotState>>,
    pub last: Option<(int, int)>,
}

impl BoardView {
    pub open spec fn mark(self, p: (int, int)) -> SlotState {
        self.grid[p.0][p.1]
    }

    /// Number of pieces in column `c`.
    pub open spec fn height(self, c: int) -> nat {
        filled(self.grid[c])
    }

    /// Every column is filled to the top.
    pub open spec fn is_full(self) -> bool {
        forall|c: int| 0 <= c < COLUMNS ==> #[trigger] self.height(c) == ROWS
    }

    /// Number of pieces on the board.
    pub open spec fn pieces(self) -> nat {
        self.pieces_in(COLUMNS as int)
    }

    /// Number of pieces in the columns below index `k`.
    pub open spec fn pieces_in(self, k: int) -> nat
        decreases k,
    {
        if k <= 0 {
            0
        } else {
            self.pieces_in(k - 1) + self.height(k - 1)
        }
    }

    /// The grid has its fixed shape, every column obeys gravity, and the
    /// recorded last move is the top piece of its column.
    pub open spec fn wf(self) -> bool {
        &&& self.grid.len() == COLUMNS
        &&& forall|c: int|
            0 <= c < COLUMNS ==> #[trigger] self.grid[c].len() == ROWS && settled(self.grid[c])
        &&& match self.last {
            Some(p) => on_board(p) && self.mark(p) != SlotState::Empty && (p.1 == ROWS - 1
                || self.grid[p.0][p.1 + 1] == SlotState::Empty),
            None => true,
        }
    }

    /// The board after `m` lands on top of column `c`.
    pub open spec fn after_drop(self, c: int, m: SlotState) -> BoardView {
        let h = self.height(c) as int;
        BoardView { grid: self.grid.update(c, self.grid[c].update(h, m)), last: Some((c, h)) }
    }

    /// The cells `t`, `t + 1`, `t + 2` and `t + 3` steps from `(c, r)` along
    /// a line of kind `d` lie on the board and hold one and the same mark,
    /// which is not empty.
    pub open spec fn four_in_line(self, c: int, r: int, d: Direction, t: int) -> bool {
        let m = self.mark(step(c, r, d, t));
        &&& on_board(step(c, r, d, t))
        &&& on_board(step(c, r, d, t + 1))
        &&& on_board(step(c, r, d, t + 2))
        &&& on_board(step(c, r, d, t + 3))
        &&& m != SlotState::Empty
        &&& self.mark(step(c, r, d, t + 1)) == m
        &&& self.mark(step(c, r, d, t + 2)) == m
        &&& self.mark(step(c, r, d, t + 3)) == m
    }

    /// The line of kind `d` through `(c, r)` holds four in a row.
    pub open spec fn wins_along(self, c: int, r: int, d: Direction) -> bool {
        exists|t: int| #[trigger] self.four_in_line(c, r, d, t)
    }

    /// One of the four lines through `(c, r)` holds four in a row.
    pub open spec fn wins_through(self, c: int, r: int) -> bool {
        ||| self.wins_along(c, r, Direction::Vertical)
        ||| self.wins_along(c, r, Direction::Horizontal)
        ||| self.wins_along(c, r, Direction::Rising)
        ||| self.wins_along(c, r, Direction::Falling)
    }

    /// The lines through the last piece placed hold four in a row.
    pub open spec fn has_winner(self) -> bool {
        match self.last {
            Some(p) => self.wins_through(p.0, p.1),
            None => false,
        }
    }

    /// The `n` cells of the line of kind `d` that starts at `(c, r)`.
    pub open spec fn line(self, c: int, r: int, d: Direction, n: int) -> Seq<SlotState> {
        Seq::new(n as nat, |i: int| self.mark(step(c, r, d, i)))
    }
}

/// Under gravity the filled cells of a column are exactly those below its
/// height.
pub proof fn lemma_settled_filled(col: Seq<SlotState>)
    requires
        settled(col),
    ensures
        filled(col) <= col.len(),
        forall|i: int| 0 <= i < col.len() ==> (#[trigger] col[i] != SlotState::Empty <==> i < filled(col)),
    decreases col.len(),
{
    if col.len() > 0 {
        let p = col.drop_last();
        assert(settled(p)) by {
            assert forall|i: int, j: int|
                0 <= i < j < p.len() && #[trigger] p[j] != SlotState::Empty implies #[trigger] p[i]
                != SlotState::Empty by {
                assert(col[j] != SlotState::Empty);
            }
        }
        lemma_settled_filled(p);
        assert forall|i: int| 0 <= i < p.len() implies #[trigger] col[i] == p[i] by {}
        if col.last() != SlotState::Empty {
            assert forall|i: int| 0 <= i < col.len() implies #[trigger] col[i] != SlotState::Empty by {
                if i < p.len() {
                    assert(col[col.len() - 1] != SlotState::Empty);
                }
            }
            if p.len() > 0 {
                assert(p[p.len() - 1] != SlotState::Empty);
            }
            assert(filled(p) == p.len());
        }
    }
}

/// Dropping a mark into a column that has room keeps the board well formed
/// and raises that column by one: gravity holds after every drop.
pub proof fn lemma_drop_keeps_wf(v: BoardView, c: int, m: SlotState)
    requires
        v.wf(),
        0 <= c < COLUMNS,
        v.height(c) < ROWS,
        m != SlotState::Empty,
    ensures
        v.after_drop(c, m).wf(),
        v.after_drop(c, m).height(c) == v.height(c) + 1,
        forall|k: int| 0 <= k < COLUMNS && k != c ==> #[trigger] v.after_drop(c, m).height(k) == v.height(k),
{
    let col = v.grid[c];
    let h = v.height(c) as int;
    let w = v.after_drop(c, m);
    let col2 = w.grid[c];
    assert(col.len() == ROWS);
    lemma_settled_filled(col);
    assert(settled(col2)) by {
        assert forall|i: int, j: int|
            0 <= i < j < col2.len() && #[trigger] col2[j] != SlotState::Empty implies #[trigger] col2[i]
            != SlotState::Empty by {
            if j != h {
                assert(col[j] != SlotState::Empty);
            }
            assert(col[i] != SlotState::Empty);
        }
    }
    lemma_settled_filled(col2);
    assert(col2[h] != SlotState::Empty);
    if h + 1 < ROWS {
        assert(col2[h + 1] == SlotState::Empty);
    }
    assert forall|k: int| 0 <= k < COLUMNS implies #[trigger] w.grid[k].len() == ROWS && settled(w.grid[k]) by {
        if k != c {
            assert(w.grid[k] == v.grid[k]);
        }
    }
}

/// A scan over `s` that has read `i` cells and counts `run` equal, non-empty
/// marks ending at the last cell read, with no four in a row seen so far.
spec fn run_ok(s: Seq<SlotState>, i: int, run: int) -> bool {
    &&& 0 <= run <= i <= s.len()
    &&& run < 4
    &&& forall|j: int| i - run <= j < i ==> #[trigger] s[j] != SlotState::Empty && s[j] == s[i - 1]
    &&& i - run > 0 ==> !(s[i - run - 1] != SlotState::Empty && s[i - run - 1] == s[i - 1])
    &&& forall|t: int| t + 4 <= i ==> !#[trigger] four_at(s, t)
}

/// The run counter after reading cell `i`: an empty cell resets it to zero.
spec fn next_run(s: Seq<SlotState>, i: int, run: int) -> int {
    if s[i] == SlotState::Empty {
        0
    } else if i > 0 && s[i] == s[i - 1] {
        run + 1
    } else {
        1
    }
}

proof fn lemma_run_step(s: Seq<SlotState>, i: int, run: int)
    requires
        run_ok(s, i, run),
        i < s.len(),
    ensures
        next_run(s, i, run) >= 4 ==> four_at(s, i - 3),
        next_run(s, i, run) < 4 ==> run_ok(s, i + 1, next_run(s, i, run)),
{
    let n = next_run(s, i, run);
    if n >= 4 {
        assert(s[i - 3] == s[i - 1] && s[i - 2] == s[i - 1]);
    } else {
        if s[i] != SlotState::Empty && i > 0 && s[i] == s[i - 1] && i >= 3 && run < 3 {
            assert(s[i - run - 1] == s[i - run - 1]);
        }
        assert forall|t: int| t + 4 <= i + 1 implies !#[trigger] four_at(s, t) by {
            if t + 4 == i + 1 && four_at(s, t) {
                if s[i] != SlotState::Empty && i > 0 && s[i] == s[i - 1] && run < 3 {
                    assert(s[i - run - 1] != SlotState::Empty);
                }
            }
        }
    }
}

/// How a line is walked: `(c, r)` moved `i` steps along `d`.
fn step_exec(c: usize, r: usize, d: Direction, i: usize) -> (p: (usize, usize))
    requires
        on_board(step(c as int, r as int, d, i as int)),
    ensures
        (p.0 as int, p.1 as int) == step(c as int, r as int, d, i as int),
{
    match d {
        Direction::Vertical => (c, r + i),
        Direction::Horizontal => (c + i, r),
        Direction::Rising => (c + i, r + i),
        Direction::Falling => (c + i, r - i),
    }
}

/// Along a line of kind `d` through `(c, r)` whose cells on the board are
/// exactly those `-k` to `n - k - 1` steps away, four in a row exist exactly
/// when the `n` cells from the line's first cell hold them.
proof fn lemma_line_scan(v: BoardView, c: int, r: int, d: Direction, k: int, n: int)
    requires
        0 <= n,
        forall|t: int| on_board(#[trigger] step(c, r, d, t)) <==> -k <= t < n - k,
    ensures
        v.wins_along(c, r, d) <==> has_four(v.line(step(c, r, d, -k).0, step(c, r, d, -k).1, d, n)),
{
    let c0 = step(c, r, d, -k).0;
    let r0 = step(c, r, d, -k).1;
    let s = v.line(c0, r0, d, n);
    assert forall|i: int| #[trigger] step(c0, r0, d, i) == step(c, r, d, i - k) by {}
    if v.wins_along(c, r, d) {
        let t = choose|t: int| #[trigger] v.four_in_line(c, r, d, t);
        assert(step(c0, r0, d, t + k) == step(c, r, d, t));
        assert(step(c0, r0, d, t + k + 1) == step(c, r, d, t + 1));
        assert(step(c0, r0, d, t + k + 2) == step(c, r, d, t + 2));
        assert(step(c0, r0, d, t + k + 3) == step(c, r, d, t + 3));
        assert(four_at(s, t + k));
    }
    if has_four(s) {
        let t = choose|t: int| four_at(s, t);
        assert(step(c0, r0, d, t) == step(c, r, d, t - k));
        assert(step(c0, r0, d, t + 1) == step(c, r, d, t - k + 1));
        assert(step(c0, r0, d, t + 2) == step(c, r, d, t - k + 2));
        assert(step(c0, r0, d, t + 3) == step(c, r, d, t - k + 3));
        assert(v.four_in_line(c, r, d, t - k));
    }
}

/// A drop adds one piece to the board.
pub proof fn lemma_drop_adds_piece(v: BoardView, c: int, m: SlotState)
    requires
        v.wf(),
        0 <= c < COLUMNS,
        v.height(c) < ROWS,
        m != SlotState::Empty,
    ensures
        v.after_drop(c, m).pieces() == v.pieces() + 1,
{
    lemma_drop_keeps_wf(v, c, m);
    lemma_pieces_after_drop(v, c, m, COLUMNS as int);
}

proof fn lemma_pieces_after_drop(v: BoardView, c: int, m: SlotState, k: int)
    requires
        0 <= c < COLUMNS,
        0 <= k <= COLUMNS,
        v.after_drop(c, m).height(c) == v.height(c) + 1,
        forall|j: int| 0 <= j < COLUMNS && j != c ==> #[trigger] v.after_drop(c, m).height(j) == v.height(j),
    ensures
        v.after_drop(c, m).pieces_in(k) == v.pieces_in(k) + if k > c {
            1int
        } else {
            0int
        },
    decreases k,
{
    if k > 0 {
        lemma_pieces_after_drop(v, c, m, k - 1);
    }
}

/// One column of the grid, indexed from the bottom.
struct Column {
    slots: [Slot; ROWS],
}

impl Column {
    spec fn marks(&self) -> Seq<SlotState> {
        Seq::new(ROWS as nat, |r: int| self.slots[r].state)
    }

    fn new() -> (col: Column)
        ensures
            forall|r: int| 0 <= r < ROWS ==> #[trigger] col.slots[r].state == SlotState::Empty,
    {
        Column { slots: [Slot::new(), Slot::new(), Slot::new(), Slot::new(), Slot::new(), Slot::new()] }
    }

    /// Four equal marks, none empty, stand one above another in this column.
    fn contains_run_of_four(&self) -> (found: bool)
        ensures
            found == has_four(self.marks()),
    {
        let ghost s = self.marks();
        let mut run: usize = 0;
        let mut last = SlotState::Empty;
        let mut i: usize = 0;
        while i < ROWS
            invariant
                s == self.marks(),
                i <= ROWS,
                run_ok(s, i as int, run as int),
                i > 0 ==> last == s[i - 1],
                i == 0 ==> last == SlotState::Empty,
            decreases ROWS - i,
        {
            let cur = self.slots[i].state;
            proof {
                lemma_run_step(s, i as int, run as int);
            }
            if cur == SlotState::Empty {
                run = 0;
            } else if cur == last {
                run = run + 1;
            } else {
                run = 1;
            }
            last = cur;
            if run >= 4 {
                return true;
            }
            i = i + 1;
        }
        false
    }
}

/// A 7-column by 6-row Connect Four board.
pub struct Board {
    columns: [Column; COLUMNS],
    /// (column, row) of the most recent successful drop.
    last_insert: Option<(usize, usize)>,
}

impl View for Board {
    type V = BoardView;

    closed spec fn view(&self) -> BoardView {
        BoardView {
            grid: Seq::new(COLUMNS as nat, |c: int| self.columns[c].marks()),
            last: match self.last_insert {
                Some(p) => Some((p.0 as int, p.1 as int)),
                None => None,
            },
        }
    }
}

impl Board {
    /// An empty board.
    pub fn new() -> (b: Board)
        ensures
            b@.wf(),
            b@.last is None,
            forall|c: int, r: int| on_board((c, r)) ==> #[trigger] b@.mark((c, r)) == SlotState::Empty,
            forall|c: int| 0 <= c < COLUMNS ==> #[trigger] b@.height(c) == 0,
            b@.pieces() == 0,
    {
        let b = Board {
            columns: [Column::new(), Column::new(), Column::new(), Column::new(), Column::new(), Column::new(), Column::new()],
            last_insert: None,
        };
        assert forall|c: int| 0 <= c < COLUMNS implies #[trigger] b@.height(c) == 0 by {
            lemma_settled_filled(b@.grid[c]);
            assert(b@.grid[c][0] == SlotState::Empty);
        }
        assert(b@.pieces_in(0) == 0);
        assert(b@.pieces_in(1) == 0);
        assert(b@.pieces_in(2) == 0);
        assert(b@.pieces_in(3) == 0);
        assert(b@.pieces_in(4) == 0);
        assert(b@.pieces_in(5) == 0);
        assert(b@.pieces_in(6) == 0);
        assert(b@.pieces_in(7) == 0);
        b
    }

    /// Four equal marks, none empty, follow one another among the `n` cells
    /// of the line of kind `d` that starts at `(c, r)`.
    fn line_has_four(&self, c: usize, r: usize, d: Direction, n: usize) -> (found: bool)
        requires
            self@.wf(),
            forall|i: int| 0 <= i < n ==> on_board(#[trigger] step(c as int, r as int, d, i)),
        ensures
            found == has_four(self@.line(c as int, r as int, d, n as int)),
    {
        let ghost s = self@.line(c as int, r as int, d, n as int);
        let mut run: usize = 0;
        let mut last = SlotState::Empty;
        let mut i: usize = 0;
        while i < n
            invariant
                s == self@.line(c as int, r as int, d, n as int),
                self@.wf(),
                forall|i: int| 0 <= i < n ==> on_board(#[trigger] step(c as int, r as int, d, i)),
                i <= n,
                run_ok(s, i as int, run as int),
                i > 0 ==> last == s[i - 1],
                i == 0 ==> last == SlotState::Empty,
            decreases n - i,
        {
            let p = step_exec(c, r, d, i);
            let cur = self.columns[p.0].slots[p.1].state;
            assert(cur == s[i as int]);
            proof {
                lemma_run_step(s, i as int, run as int);
            }
            if cur == SlotState::Empty {
                run = 0;
            } else if cur == last {
                run = run + 1;
            } else {
                run = 1;
            }
            last = cur;
            if run >= 4 {
                return true;
            }
            i = i + 1;
        }
        false
    }

    /// Whether the last piece placed completed four in a row along its
    /// column, its row, or either of its diagonals. Only those four lines
    /// are scanned, each from one edge of the board to the other. A board on
    /// which nothing was dropped yet has no winner.
    pub fn check_for_winner(&self) -> (won: bool)
        requires
            self@.wf(),
        ensures
            won == self@.has_winner(),
    {
        let (c, r) = match self.last_insert {
            Some(p) => p,
            None => return false,
        };
        let ghost v = self@;
        let ghost ci = c as int;
        let ghost ri = r as int;
        proof {
            lemma_line_scan(v, ci, ri, Direction::Vertical, ri, ROWS as int);
            assert(v.line(ci, 0, Direction::Vertical, ROWS as int) =~= self.columns[ci].marks());
        }
        if self.columns[c].contains_run_of_four() {
            return true;
        }
        proof {
            lemma_line_scan(v, ci, ri, Direction::Horizontal, ci, COLUMNS as int);
        }
        if self.line_has_four(0, r, Direction::Horizontal, COLUMNS) {
            return true;
        }
        let rising = if c <= r {
            proof {
                lemma_line_scan(v, ci, ri, Direction::Rising, ci, ROWS - (ri - ci));
            }
            self.line_has_four(0, r - c, Direction::Rising, ROWS - (r - c))
        } else {
            proof {
                lemma_line_scan(v, ci, ri, Direction::Rising, ri, COLUMNS - (ci - ri));
            }
            self.line_has_four(c - r, 0, Direction::Rising, COLUMNS - (c - r))
        };
        if rising {
            return true;
        }
        if c + r <= ROWS - 1 {
            proof {
                lemma_line_scan(v, ci, ri, Direction::Falling, ci, ci + ri + 1);
            }
            self.line_has_four(0, c + r, Direction::Falling, c + r + 1)
        } else {
            proof {
                lemma_line_scan(v, ci, ri, Direction::Falling, ROWS - 1 - ri, 2 * ROWS - (ci + ri));
            }
            self.line_has_four(c + r - (ROWS - 1), ROWS - 1, Direction::Falling, 2 * ROWS - (c + r))
        }
    }

    /// Every column is filled to the top.
    pub fn is_full(&self) -> (full: bool)
        requires
            self@.wf(),
        ensures
            full == self@.is_full(),
    {
        let mut c: usize = 0;
        while c < COLUMNS
            invariant
                self@.wf(),
                c <= COLUMNS,
                forall|k: int| 0 <= k < c ==> #[trigger] self@.height(k) == ROWS,
            decreases COLUMNS - c,
        {
            proof {
                lemma_settled_filled(self@.grid[c as int]);
            }
            if self.columns[c].slots[ROWS - 1].state == SlotState::Empty {
                assert(!(self@.height(c as int) == ROWS));
                return false;
            }
            c = c + 1;
        }
        true
    }

    /// The mark at `column` and `row`, both counted from 0, row 0 at the
    /// bottom.
    pub fn mark_at(&self, column: usize, row: usize) -> (m: SlotState)
        requires
            column < COLUMNS,
            row < ROWS,
        ensures
            m == self@.mark((column as int, row as int)),
    {
        self.columns[column].slots[row].state
    }

    /// The one-character drawing of the cell at `column` and `row`, both
    /// counted from 0, row 0 at the bottom.
    pub fn glyph_at(&self, column: usize, row: usize) -> (g: &'static str)
        requires
            column < COLUMNS,
            row < ROWS,
        ensures
            g@ == glyph(self@.mark((column as int, row as int))),
    {
        self.columns[column].slots[row].display()
    }

    /// Drops `symbol` into column `column_number` (counted from 1): it lands
    /// on the lowest empty cell. Returns false, and changes nothing, when the
    /// column is full.
    pub fn drop_into(&mut self, column_number: usize, symbol: SlotState) -> (placed: bool)
        requires
            old(self)@.wf(),
            1 <= column_number <= COLUMNS,
            symbol != SlotState::Empty,
        ensures
            final(self)@.wf(),
            placed == (old(self)@.height(column_number - 1) < ROWS),
            placed ==> final(self)@ == old(self)@.after_drop(column_number - 1, symbol),
            placed ==> final(self)@.height(column_number - 1) == old(self)@.height(column_number - 1) + 1,
            placed ==> final(self)@.pieces() == old(self)@.pieces() + 1,
            !placed ==> final(self)@ == old(self)@,
    {
        let c = column_number - 1;
        let ghost v = self@;
        proof {
            lemma_settled_filled(v.grid[c as int]);
        }
        let mut r: usize = 0;
        while r < ROWS
            invariant
                r <= ROWS,
                c < COLUMNS,
                c == column_number - 1,
                self@ == v,
                v == old(self)@,
                v.wf(),
                v.height(c as int) <= ROWS,
                symbol != SlotState::Empty,
                forall|j: int| 0 <= j < r ==> #[trigger] v.grid[c as int][j] != SlotState::Empty,
                forall|j: int|
                    0 <= j < ROWS ==> (#[trigger] v.grid[c as int][j] != SlotState::Empty <==> j < v.height(c as int)),
            decreases ROWS - r,
        {
            assert(v.grid[c as int][r as int] == self.columns[c as int].slots[r as int].state);
            if self.columns[c].slots[r].state == SlotState::Empty {
                self.columns[c].slots[r].state = symbol;
                self.last_insert = Some((c, r));
                proof {
                    let w = v.after_drop(c as int, symbol);
                    if v.height(c as int) < r {
                        assert(v.grid[c as int][v.height(c as int) as int] != SlotState::Empty);
                    }
                    assert(r == v.height(c as int));
                    assert(self@.grid[c as int] =~= w.grid[c as int]);
                    assert(self@.grid =~= w.grid);
                    lemma_drop_keeps_wf(v, c as int, symbol);
                    lemma_drop_adds_piece(v, c as int, symbol);
                }
                return true;
            }
            r += 1;
        }
        assert(v.grid[c as int][ROWS - 1] != SlotState::Empty);
        false
    }
}

} // verus!
