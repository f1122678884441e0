//! Board model of the four-in-a-row game: a 6 x 7 grid that fills from the
//! bottom row upwards, one piece kind per side.
use vstd::prelude::*;
use crate::window::{window_score, window_value, WINDOW_BOUND};

verus! {

pub const NUM_COLS: usize = 7;

pub const NUM_ROWS: usize = 6;

/// Number of four-cell lines on the board.
pub const NUM_LINES: usize = 69;

/// Board contents as rows of cells.
pub type Grid = Seq<Seq<Option<C4Piece>>>;

/// Row of the `i`-th cell of line `k`. Lines are numbered in scan order: the
/// 24 horizontal ones row by row, then the 21 vertical ones column by
/// column, then the 12 rising diagonals (starting in rows 3 to 5), then the
/// 12 falling diagonals (starting in rows 0 to 2).
pub open spec fn line_row(k: int, i: int) -> int {
    if k < 24 {
        k / 4
    } else if k < 45 {
        (k - 24) % 3 + i
    } else if k < 57 {
        3 + (k - 45) / 4 - i
    } else {
        (k - 57) / 4 + i
    }
}

/// Column of the `i`-th cell of line `k`.
pub open spec fn line_col(k: int, i: int) -> int {
    if k < 24 {
        k % 4 + i
    } else if k < 45 {
        (k - 24) / 3
    } else if k < 57 {
        (k - 45) % 4 + i
    } else {
        (k - 57) % 4 + i
    }
}

pub open spec fn line_cell(b: Grid, k: int, i: int) -> Option<C4Piece> {
    b[line_row(k, i)][line_col(k, i)]
}

/// All four cells of line `k` hold `p`.
pub open spec fn line_owned(b: Grid, p: C4Piece, k: int) -> bool {
    forall|i: int| 0 <= i < 4 ==> line_cell(b, k, i) == Some(p)
}

/// Some line of four holds `p` in every cell.
pub open spec fn has_win(b: Grid, p: C4Piece) -> bool {
    exists|k: int| 0 <= k < NUM_LINES && line_owned(b, p, k)
}

/// The first line at or after `k`, in scan order, that `p` owns; `NUM_LINES`
/// where there is none.
pub open spec fn first_win_from(b: Grid, p: C4Piece, k: int) -> int
    decreases NUM_LINES - k,
{
    if k >= NUM_LINES {
        NUM_LINES as int
    } else if line_owned(b, p, k) {
        k
    } else {
        first_win_from(b, p, k + 1)
    }
}

pub open spec fn first_win(b: Grid, p: C4Piece) -> int {
    first_win_from(b, p, 0)
}

/// The coordinates `[row, column]` of the cells of line `k`.
pub open spec fn line_coords(k: int) -> Seq<(int, int)> {
    Seq::new(4, |i: int| (line_row(k, i), line_col(k, i)))
}

pub open spec fn coords_view(v: Seq<[usize; 2]>) -> Seq<(int, int)> {
    Seq::new(v.len(), |i: int| (v[i][0] as int, v[i][1] as int))
}

pub proof fn lemma_line_in_bounds(k: int, i: int)
    requires
        0 <= k < NUM_LINES,
        0 <= i < 4,
    ensures
        0 <= line_row(k, i) < NUM_ROWS,
        0 <= line_col(k, i) < NUM_COLS,
{
}

proof fn lemma_first_win_from(b: Grid, p: C4Piece, k: int)
    requires
        0 <= k <= NUM_LINES,
    ensures
        k <= first_win_from(b, p, k) <= NUM_LINES,
        first_win_from(b, p, k) < NUM_LINES ==> line_owned(b, p, first_win_from(b, p, k)),
        forall|j: int| k <= j < first_win_from(b, p, k) ==> !line_owned(b, p, j),
    decreases NUM_LINES - k,
{
    if k < NUM_LINES && !line_owned(b, p, k) {
        lemma_first_win_from(b, p, k + 1);
    }
}

/// There is a winning line exactly when the scan finds one.
pub proof fn lemma_first_win(b: Grid, p: C4Piece)
    ensures
        0 <= first_win(b, p) <= NUM_LINES,
        has_win(b, p) <==> first_win(b, p) < NUM_LINES,
        first_win(b, p) < NUM_LINES ==> line_owned(b, p, first_win(b, p)),
        forall|j: int| 0 <= j < first_win(b, p) ==> !line_owned(b, p, j),
{
    lemma_first_win_from(b, p, 0);
}

/// Column whose pieces earn a bonus: it takes part in the most lines.
pub const CENTER_COL: usize = 3;

/// Bonus for each own piece in the center column.
pub const CENTER_BONUS: i32 = 10;

/// The `i`-th cell of line `k` is filled or can be filled by the next drop
/// into its column (vertical lines count every cell as such).
pub open spec fn cell_ready(m: C4Model, k: int, i: int) -> bool {
    (24 <= k < 45) || m.heights[line_col(k, i)] >= NUM_ROWS - line_row(k, i) - 1
}

/// Counts over the first `n` cells of line `k`, seen from `p`: own pieces,
/// opposing pieces, empty ready cells, empty cells not yet ready.
pub open spec fn tally(m: C4Model, p: C4Piece, k: int, n: int) -> (int, int, int, int)
    decreases n,
{
    if n <= 0 {
        (0, 0, 0, 0)
    } else {
        let t = tally(m, p, k, n - 1);
        match line_cell(m.board, k, n - 1) {
            Some(q) => if q == p {
                (t.0 + 1, t.1, t.2, t.3)
            } else {
                (t.0, t.1 + 1, t.2, t.3)
            },
            None => if cell_ready(m, k, n - 1) {
                (t.0, t.1, t.2 + 1, t.3)
            } else {
                (t.0, t.1, t.2, t.3 + 1)
            },
        }
    }
}

pub open spec fn line_value(m: C4Model, p: C4Piece, k: int) -> int {
    let t = tally(m, p, k, 4);
    window_value(t.0, t.1, t.2, t.3)
}

/// Sum of the values of the first `n` lines.
pub open spec fn lines_value(m: C4Model, p: C4Piece, n: int) -> int
    decreases n,
{
    if n <= 0 {
        0
    } else {
        lines_value(m, p, n - 1) + line_value(m, p, n - 1)
    }
}

/// Bonus for the pieces of `p` in the first `n` rows of the center column.
pub open spec fn center_value(m: C4Model, p: C4Piece, n: int) -> int
    decreases n,
{
    if n <= 0 {
        0
    } else {
        center_value(m, p, n - 1) + if m.board[n - 1][CENTER_COL as int] == Some(p) {
            CENTER_BONUS as int
        } else {
            0
        }
    }
}

/// Positional value of the board for `p`.
pub open spec fn heuristic(m: C4Model, p: C4Piece) -> int {
    lines_value(m, p, NUM_LINES as int) + center_value(m, p, NUM_ROWS as int)
}

/// Sum of the first `n` column heights.
pub open spec fn sum_heights(h: Seq<int>, n: int) -> int
    decreases n,
{
    if n <= 0 {
        0
    } else {
        sum_heights(h, n - 1) + h[n - 1]
    }
}

impl C4Model {
    /// The invariant of every game reachable from the initial one.
    pub open spec fn wf(self) -> bool {
        &&& self.board.len() == NUM_ROWS
        &&& forall|r: int| 0 <= r < NUM_ROWS ==> #[trigger] self.board[r].len() == NUM_COLS
        &&& self.heights.len() == NUM_COLS
        &&& forall|c: int| 0 <= c < NUM_COLS ==> 0 <= #[trigger] self.heights[c] <= NUM_ROWS
        &&& forall|r: int, c: int|
            0 <= r < NUM_ROWS && 0 <= c < NUM_COLS ==> (#[trigger] self.board[r][c]).is_some()
                == (r >= NUM_ROWS - self.heights[c])
        &&& self.next_step == sum_heights(self.heights, NUM_COLS as int)
        &&& self.current_player == if self.next_step % 2 == 0 {
            C4Piece::P1
        } else {
            C4Piece::P2
        }
        &&& self.termination == (self.winner.is_some() || self.next_step == NUM_ROWS * NUM_COLS)
        &&& self.winner matches Some(p) ==> has_win(self.board, p)
        &&& self.winner.is_none() ==> !has_win(self.board, C4Piece::P1) && !has_win(self.board, C4Piece::P2)
    }

    /// The game after the side to move drops a piece into column `col`;
    /// `None` where the move is refused: the column does not exist or is
    /// full, or the game is over.
    pub open spec fn next_state(self, col: int) -> Option<C4Model> {
        if col < 0 || col >= NUM_COLS || self.termination || self.heights[col] >= NUM_ROWS {
            None
        } else {
            let row = NUM_ROWS - 1 - self.heights[col];
            let p = self.current_player;
            let board = self.board.update(row, self.board[row].update(col, Some(p)));
            let step = self.next_step + 1;
            let won = has_win(board, p);
            Some(
                C4Model {
                    board,
                    current_player: p.spec_switch(),
                    winner: if won {
                        Some(p)
                    } else {
                        None
                    },
                    termination: won || step == NUM_ROWS * NUM_COLS,
                    next_step: step,
                    heights: self.heights.update(col, self.heights[col] + 1),
                },
            )
        }
    }

    pub open spec fn can_place(self, col: int) -> bool {
        self.next_state(col).is_some()
    }
}

proof fn lemma_sum_heights_update(h: Seq<int>, c: int, n: int)
    requires
        0 <= c < h.len(),
        0 <= n <= h.len(),
    ensures
        sum_heights(h.update(c, h[c] + 1), n) == sum_heights(h, n) + if c < n {
            1int
        } else {
            0
        },
    decreases n,
{
    if n > 0 {
        lemma_sum_heights_update(h, c, n - 1);
    }
}

proof fn lemma_sum_heights_bounds(h: Seq<int>, n: int)
    requires
        0 <= n <= h.len(),
        forall|c: int| 0 <= c < n ==> 0 <= #[trigger] h[c] <= NUM_ROWS,
    ensures
        0 <= sum_heights(h, n) <= n * NUM_ROWS,
        sum_heights(h, n) == n * NUM_ROWS <==> forall|c: int| 0 <= c < n ==> #[trigger] h[c] == NUM_ROWS,
    decreases n,
{
    if n > 0 {
        lemma_sum_heights_bounds(h, n - 1);
    }
}

/// A piece of `p` cannot complete a line for another side: a line that
/// another side owns after the drop was owned before it.
proof fn lemma_win_not_created(b: Grid, row: int, col: int, p: C4Piece, q: C4Piece)
    requires
        q != p,
        0 <= row < NUM_ROWS,
        0 <= col < NUM_COLS,
        b.len() == NUM_ROWS,
        forall|r: int| 0 <= r < NUM_ROWS ==> #[trigger] b[r].len() == NUM_COLS,
        has_win(b.update(row, b[row].update(col, Some(p))), q),
    ensures
        has_win(b, q),
{
    let nb = b.update(row, b[row].update(col, Some(p)));
    let k = choose|k: int| 0 <= k < NUM_LINES && line_owned(nb, q, k);
    assert forall|i: int| 0 <= i < 4 implies line_cell(b, k, i) == Some(q) by {
        lemma_line_in_bounds(k, i);
        assert(line_cell(nb, k, i) == Some(q));
    }
    assert(line_owned(b, q, k));
}

/// A legal move keeps the invariant.
pub proof fn lemma_next_state_wf(m: C4Model, col: int)
    requires
        m.wf(),
        m.can_place(col),
    ensures
        m.next_state(col).unwrap().wf(),
{
    let n = m.next_state(col).unwrap();
    let row = NUM_ROWS - 1 - m.heights[col];
    let p = m.current_player;
    lemma_sum_heights_update(m.heights, col, NUM_COLS as int);
    assert forall|r: int, c: int| 0 <= r < NUM_ROWS && 0 <= c < NUM_COLS implies (
    #[trigger] n.board[r][c]).is_some() == (r >= NUM_ROWS - n.heights[c]) by {
        if r == row && c == col {
        } else if r == row {
            assert(n.board[r][c] == m.board[r][c]);
        } else {
            assert(n.board[r][c] == m.board[r][c]);
        }
    }
    assert(forall|r: int| 0 <= r < NUM_ROWS ==> #[trigger] n.board[r].len() == NUM_COLS);
    if n.winner.is_none() {
        if has_win(n.board, p.spec_switch()) {
            lemma_win_not_created(m.board, row, col, p, p.spec_switch());
        }
        if has_win(n.board, p) {
        }
        assert(!has_win(n.board, C4Piece::P1) && !has_win(n.board, C4Piece::P2));
    }
}

/// The order in which moves are tried: center columns first.
pub open spec fn column_order() -> Seq<usize> {
    seq![3usize, 2, 4, 1, 5, 0, 6]
}

/// The columns among the first `n` of `column_order()` that are not full,
/// in that order.
pub open spec fn open_columns(m: C4Model, n: int) -> Seq<usize>
    decreases n,
{
    if n <= 0 {
        Seq::empty()
    } else {
        let c = column_order()[n - 1];
        if m.heights[c as int] < NUM_ROWS {
            open_columns(m, n - 1).push(c)
        } else {
            open_columns(m, n - 1)
        }
    }
}

proof fn lemma_open_columns(m: C4Model, n: int)
    requires
        0 <= n <= NUM_COLS,
    ensures
        forall|j: int|
            0 <= j < open_columns(m, n).len() ==> m.heights[#[trigger] open_columns(m, n)[j] as int]
                < NUM_ROWS && open_columns(m, n)[j] < NUM_COLS,
        forall|j: int|
            0 <= j < n && m.heights[column_order()[j] as int] < NUM_ROWS ==> open_columns(
                m,
                n,
            ).contains(#[trigger] column_order()[j]),
    decreases n,
{
    if n > 0 {
        lemma_open_columns(m, n - 1);
        let prev = open_columns(m, n - 1);
        let c = column_order()[n - 1];
        if m.heights[c as int] < NUM_ROWS {
            assert forall|j: int|
                0 <= j < n && m.heights[column_order()[j] as int] < NUM_ROWS implies open_columns(
                m,
                n,
            ).contains(#[trigger] column_order()[j]) by {
                if j < n - 1 {
                    let w = choose|w: int| 0 <= w < prev.len() && prev[w] == column_order()[j];
                    assert(open_columns(m, n)[w] == column_order()[j]);
                } else {
                    assert(open_columns(m, n)[prev.len() as int] == column_order()[j]);
                }
            }
        }
    }
}

/// In a game that is not over, every column that is not full takes a piece.
pub proof fn lemma_open_columns_legal(m: C4Model)
    ensures
        forall|c: usize|
            #[trigger] open_columns(m, NUM_COLS as int).contains(c) && !m.termination ==> m.can_place(c as int),
{
    lemma_open_columns(m, NUM_COLS as int);
}

/// In a game that is not over some column still has room.
pub proof fn lemma_open_column_exists(m: C4Model)
    requires
        m.wf(),
        !m.termination,
    ensures
        open_columns(m, NUM_COLS as int).len() > 0,
        exists|j: int| 0 <= j < NUM_COLS && m.can_place(#[trigger] column_order()[j] as int),
{
    lemma_sum_heights_bounds(m.heights, NUM_COLS as int);
    assert(sum_heights(m.heights, NUM_COLS as int) != NUM_COLS * NUM_ROWS);
    assert(!forall|c: int| 0 <= c < NUM_COLS ==> #[trigger] m.heights[c] == NUM_ROWS);
    let c = choose|c: int| 0 <= c < NUM_COLS && m.heights[c] != NUM_ROWS;
    assert(m.can_place(c));
    lemma_open_columns(m, NUM_COLS as int);
    let j: int = if c == 3 {
        0
    } else if c == 2 {
        1
    } else if c == 4 {
        2
    } else if c == 1 {
        3
    } else if c == 5 {
        4
    } else if c == 0 {
        5
    } else {
        6
    };
    assert(column_order()[j] == c as usize);
}

/// Row and column of the `i`-th cell of line `k`.
pub fn line_cell_at(k: usize, i: usize) -> (r: (usize, usize))
    requires
        k < NUM_LINES,
        i < 4,
    ensures
        r.0 == line_row(k as int, i as int),
        r.1 == line_col(k as int, i as int),
        r.0 < NUM_ROWS,
        r.1 < NUM_COLS,
{
    if k < 24 {
        (k / 4, k % 4 + i)
    } else if k < 45 {
        ((k - 24) % 3 + i, (k - 24) / 3)
    } else if k < 57 {
        (3 + (k - 45) / 4 - i, (k - 45) % 4 + i)
    } else {
        ((k - 57) / 4 + i, (k - 57) % 4 + i)
    }
}

/// The two pieces that can be placed on the board.
#[derive(Copy, Clone, Debug, PartialEq, Eq, Structural)]
pub enum C4Piece {
    P1,
    P2,
}

impl C4Piece {
    pub open spec fn spec_switch(self) -> C4Piece {
        match self {
            C4Piece::P1 => C4Piece::P2,
            C4Piece::P2 => C4Piece::P1,
        }
    }

    /// The other side's piece.
    pub fn switch(&self) -> (r: Self)
        ensures
            r == self.spec_switch(),
            r != *self,
    {
        match self {
            C4Piece::P1 => C4Piece::P2,
            C4Piece::P2 => C4Piece::P1,
        }
    }
}

/// A game in progress. `board[r][c]` is the cell in row `r` (row 0 on top)
/// and column `c`; `col_row_index[c]` is the number of pieces in column `c`.
#[derive(Copy, Clone)]
pub struct Connect4 {
    pub board: [[Option<C4Piece>; NUM_COLS]; NUM_ROWS],
    pub current_player: C4Piece,
    pub winner: Option<C4Piece>,
    pub termination: bool,
    pub next_step: usize,
    pub col_row_index: [usize; NUM_COLS],
}

/// The mathematical value of a game.
pub ghost struct C4Model {
    pub board: Seq<Seq<Option<C4Piece>>>,
    pub current_player: C4Piece,
    pub winner: Option<C4Piece>,
    pub termination: bool,
    pub next_step: int,
    pub heights: Seq<int>,
}

impl View for Connect4 {
    type V = C4Model;

    open spec fn view(&self) -> C4Model {
        C4Model {
            board: Seq::new(NUM_ROWS as nat, |r: int| self.board[r]@),
            current_player: self.current_player,
            winner: self.winner,
            termination: self.termination,
            next_step: self.next_step as int,
            heights: Seq::new(NUM_COLS as nat, |c: int| self.col_row_index[c] as int),
        }
    }
}

impl Connect4 {
    /// An empty board, with `P1` to move.
    pub fn initialize() -> (r: Self)
        ensures
            r@ == initial_model(),
            r@.wf(),
            r@.current_player == C4Piece::P1,
            r@.winner.is_none(),
            !r@.termination,
            r@.next_step == 0,
            forall|c: int| 0 <= c < NUM_COLS ==> r@.heights[c] == 0,
            forall|row: int, c: int|
                0 <= row < NUM_ROWS && 0 <= c < NUM_COLS ==> r@.board[row][c].is_none(),
    {
        let r = Connect4 {
            board: [[None; NUM_COLS]; NUM_ROWS],
            next_step: 0,
            current_player: C4Piece::P1,
            termination: false,
            winner: None,
            col_row_index: [0; NUM_COLS],
        };
        proof {
            lemma_initial_wf();
        }
        assert(r@.board =~~= initial_model().board);
        assert(r@.heights =~= initial_model().heights);
        r
    }

    /// The order in which moves are tried: center columns first.
    pub fn get_columns(&self) -> (r: [usize; NUM_COLS])
        ensures
            r@ == column_order(),
    {
        let r = [3, 2, 4, 1, 5, 0, 6];
        assert(r@ =~= column_order());
        r
    }

    /// The columns that are not full, in the order of `get_columns`.
    pub fn get_availiable_columns(&self) -> (r: Vec<usize>)
        ensures
            r@ == open_columns(self@, NUM_COLS as int),
    {
        let order = self.get_columns();
        let mut v: Vec<usize> = Vec::new();
        let mut i: usize = 0;
        while i < NUM_COLS
            invariant
                i <= NUM_COLS,
                order@ == column_order(),
                v@ == open_columns(self@, i as int),
            decreases NUM_COLS - i,
        {
            let c = order[i];
            if self.col_row_index[c] < NUM_ROWS {
                v.push(c);
            }
            i += 1;
        }
        v
    }

    /// Whether all four cells of line `k` hold `color`.
    fn line_full(&self, color: C4Piece, k: usize) -> (r: bool)
        requires
            k < NUM_LINES,
        ensures
            r == line_owned(self@.board, color, k as int),
    {
        let mut i: usize = 0;
        while i < 4
            invariant
                k < NUM_LINES,
                i <= 4,
                forall|j: int| 0 <= j < i ==> line_cell(self@.board, k as int, j) == Some(color),
            decreases 4 - i,
        {
            let (row, col) = line_cell_at(k, i);
            assert(line_cell(self@.board, k as int, i as int) == self.board[row as int][col as int]);
            if self.board[row][col] != Some(color) {
                return false;
            }
            i += 1;
        }
        true
    }

    /// The first line of four cells holding `color`, in scan order, as the
    /// `[row, column]` of each of its cells; `None` where there is none.
    pub fn check_win(&self, color: C4Piece) -> (r: Option<Vec<[usize; 2]>>)
        ensures
            r.is_some() <==> has_win(self@.board, color),
            r.is_some() <==> first_win(self@.board, color) < NUM_LINES,
            r matches Some(v) ==> coords_view(v@) == line_coords(first_win(self@.board, color)),
    {
        proof {
            lemma_first_win(self@.board, color);
        }
        let mut k: usize = 0;
        while k < NUM_LINES
            invariant
                k <= NUM_LINES,
                first_win(self@.board, color) == first_win_from(self@.board, color, k as int),
            decreases NUM_LINES - k,
        {
            if self.line_full(color, k) {
                let mut v: Vec<[usize; 2]> = Vec::new();
                let mut i: usize = 0;
                while i < 4
                    invariant
                        k < NUM_LINES,
                        i <= 4,
                        v@.len() == i,
                        forall|j: int| 0 <= j < i ==> (v@[j][0] as int, v@[j][1] as int) == line_coords(k as int)[j],
                    decreases 4 - i,
                {
                    let (row, col) = line_cell_at(k, i);
                    v.push([row, col]);
                    i += 1;
                }
                assert(coords_view(v@) =~= line_coords(k as int));
                return Some(v);
            }
            k += 1;
        }
        None
    }

    /// Counts of line `k` seen from `color`, as in `tally`.
    fn line_tally(&self, color: C4Piece, k: usize) -> (r: (u32, u32, u32, u32))
        requires
            k < NUM_LINES,
        ensures
            (r.0 as int, r.1 as int, r.2 as int, r.3 as int) == tally(self@, color, k as int, 4),
    {
        let mut own: u32 = 0;
        let mut opp: u32 = 0;
        let mut empty: u32 = 0;
        let mut below: u32 = 0;
        let mut i: usize = 0;
        while i < 4
            invariant
                k < NUM_LINES,
                i <= 4,
                (own as int, opp as int, empty as int, below as int) == tally(self@, color, k as int, i as int),
                own + opp + empty + below == i,
            decreases 4 - i,
        {
            let (row, col) = line_cell_at(k, i);
            assert(line_cell(self@.board, k as int, i as int) == self.board[row as int][col as int]);
            match self.board[row][col] {
                Some(q) => {
                    if q == color {
                        own += 1;
                    } else {
                        opp += 1;
                    }
                },
                None => {
                    if (24 <= k && k < 45) || self.col_row_index[col] >= NUM_ROWS - row - 1 {
                        empty += 1;
                    } else {
                        below += 1;
                    }
                },
            }
            i += 1;
        }
        (own, opp, empty, below)
    }

    /// Positional value of the board for `color`: the sum of the window
    /// scores of all lines of four, plus a bonus per own center piece.
    pub fn heuristic_searc_score(&self, color: C4Piece) -> (r: i32)
        ensures
            r == heuristic(self@, color),
    {
        let mut score: i32 = 0;
        let mut k: usize = 0;
        while k < NUM_LINES
            invariant
                k <= NUM_LINES,
                score == lines_value(self@, color, k as int),
                -(k as int) * (WINDOW_BOUND as int) <= score <= (k as int) * (WINDOW_BOUND as int),
            decreases NUM_LINES - k,
        {
            let (own, opp, empty, below) = self.line_tally(color, k);
            let w = window_score(own, opp, empty, below);
            score = score + w;
            k += 1;
        }
        let mut row: usize = 0;
        while row < NUM_ROWS
            invariant
                row <= NUM_ROWS,
                score == lines_value(self@, color, NUM_LINES as int) + center_value(self@, color, row as int),
                -(NUM_LINES as int) * (WINDOW_BOUND as int) <= score <= (NUM_LINES as int) * (WINDOW_BOUND as int) + (row as int) * (CENTER_BONUS as int),
            decreases NUM_ROWS - row,
        {
            assert(self@.board[row as int][CENTER_COL as int] == self.board[row as int][CENTER_COL as int]);
            if self.board[row][CENTER_COL] == Some(color) {
                score = score + CENTER_BONUS;
            }
            row += 1;
        }
        score
    }

    /// Drops the piece of the side to move into column `col`. Returns false,
    /// and changes nothing, where the column does not exist or is full, or
    /// the game is over. Otherwise the piece lands on top of the column,
    /// the move counter and the column height grow by one, the winner and
    /// the end of the game are settled, and the other side is to move.
    pub fn place(&mut self, col: usize) -> (r: bool)
        requires
            old(self)@.wf(),
        ensures
            r == old(self)@.can_place(col as int),
            r ==> final(self)@ == old(self)@.next_state(col as int).unwrap(),
            !r ==> *final(self) == *old(self),
            final(self)@.wf(),
    {
        if col >= NUM_COLS || self.termination {
            return false;
        }
        let height = self.col_row_index[col];
        if height >= NUM_ROWS {
            return false;
        }
        proof {
            lemma_next_state_wf(self@, col as int);
            lemma_sum_heights_bounds(self@.heights, NUM_COLS as int);
        }
        let ghost next = self@.next_state(col as int).unwrap();
        let row = NUM_ROWS - 1 - height;
        let p = self.current_player;
        self.set_cell(row, col, Some(p));
        self.next_step += 1;
        self.winner = match self.check_win(p) {
            Some(_) => Some(p),
            None => None,
        };
        self.termination = self.winner.is_some() || self.next_step == NUM_COLS * NUM_ROWS;
        self.col_row_index[col] = height + 1;
        self.current_player = p.switch();
        assert(self@.heights =~= next.heights);
        assert(self@.board =~= next.board);
        true
    }

    fn set_cell(&mut self, row: usize, col: usize, v: Option<C4Piece>)
        requires
            row < NUM_ROWS,
            col < NUM_COLS,
        ensures
            final(self)@.board == old(self)@.board.update(row as int, old(self)@.board[row as int].update(col as int, v)),
            final(self).current_player == old(self).current_player,
            final(self).winner == old(self).winner,
            final(self).termination == old(self).termination,
            final(self).next_step == old(self).next_step,
            final(self).col_row_index == old(self).col_row_index,
    {
        let mut line = self.board[row];
        line[col] = v;
        self.board[row] = line;
        assert(self@.board =~= old(self)@.board.update(row as int, old(self)@.board[row as int].update(col as int, v)));
    }
}


/// The game before the first move.
pub open spec fn initial_model() -> C4Model {
    C4Model {
        board: Seq::new(NUM_ROWS as nat, |r: int| Seq::new(NUM_COLS as nat, |c: int| None)),
        current_player: C4Piece::P1,
        winner: None,
        termination: false,
        next_step: 0,
        heights: Seq::new(NUM_COLS as nat, |c: int| 0),
    }
}

/// The game after the side to move tries each column of `moves` in turn; a
/// refused move leaves the game as it was.
pub open spec fn play(m: C4Model, moves: Seq<int>) -> C4Model
    decreases moves.len(),
{
    if moves.len() == 0 {
        m
    } else {
        let next = match m.next_state(moves[0]) {
            Some(n) => n,
            None => m,
        };
        play(next, moves.drop_first())
    }
}

pub proof fn lemma_initial_wf()
    ensures
        initial_model().wf(),
{
    let m = initial_model();
    assert(sum_heights(m.heights, NUM_COLS as int) == 0) by {
        reveal_with_fuel(sum_heights, 8);
    }
    assert forall|p: C4Piece| !has_win(m.board, p) by {
        if has_win(m.board, p) {
            let k = choose|k: int| 0 <= k < NUM_LINES && line_owned(m.board, p, k);
            lemma_line_in_bounds(k, 0);
            assert(line_cell(m.board, k, 0) == Some(p));
        }
    }
}

proof fn lemma_play_wf(m: C4Model, moves: Seq<int>)
    requires
        m.wf(),
    ensures
        play(m, moves).wf(),
    decreases moves.len(),
{
    if moves.len() > 0 {
        if m.can_place(moves[0]) {
            lemma_next_state_wf(m, moves[0]);
            lemma_play_wf(m.next_state(moves[0]).unwrap(), moves.drop_first());
        } else {
            lemma_play_wf(m, moves.drop_first());
        }
    }
}

/// In every game reachable from the initial one, each column holds between
/// 0 and `NUM_ROWS` pieces, and the move counter is the sum of the column
/// heights.
pub proof fn lemma_reachable_counter(moves: Seq<int>)
    ensures
        play(initial_model(), moves).wf(),
        play(initial_model(), moves).next_step == sum_heights(play(initial_model(), moves).heights, NUM_COLS as int),
        forall|c: int|
            0 <= c < NUM_COLS ==> 0 <= #[trigger] play(initial_model(), moves).heights[c] <= NUM_ROWS,
{
    lemma_initial_wf();
    lemma_play_wf(initial_model(), moves);
}

/// A full column refuses every piece (and `place` then leaves the game
/// unchanged).
pub proof fn lemma_full_column_refused(m: C4Model, col: int)
    requires
        0 <= col < NUM_COLS,
        m.heights[col] == NUM_ROWS,
    ensures
        !m.can_place(col),
        m.next_state(col).is_none(),
{
}

/// `check_win` gives the same answer on every call for one board and side:
/// any two results that meet its contract are equal.
pub proof fn lemma_check_win_idempotent(b: Grid, p: C4Piece, r1: Option<Vec<[usize; 2]>>, r2: Option<Vec<[usize; 2]>>)
    requires
        r1.is_some() <==> first_win(b, p) < NUM_LINES,
        r1 matches Some(v) ==> coords_view(v@) == line_coords(first_win(b, p)),
        r2.is_some() <==> first_win(b, p) < NUM_LINES,
        r2 matches Some(v) ==> coords_view(v@) == line_coords(first_win(b, p)),
    ensures
        r1.is_some() == r2.is_some(),
        r1 matches Some(v1) ==> r2 matches Some(v2) && v1@ == v2@,
{
    if r1 is Some {
        let v1 = r1->0;
        let v2 = r2->0;
        assert(coords_view(v1@).len() == coords_view(v2@).len());
        assert forall|i: int| 0 <= i < v1@.len() implies v1@[i] == v2@[i] by {
            assert(coords_view(v1@)[i] == coords_view(v2@)[i]);
            assert(v1@[i]@ =~= v2@[i]@);
        }
        assert(v1@ =~= v2@);
    }
}

/// The board seen in a mirror: column `c` becomes column `NUM_COLS - 1 - c`.
pub open spec fn mirror(b: Grid) -> Grid {
    Seq::new(b.len(), |r: int| Seq::new(b[r].len(), |c: int| b[r][NUM_COLS - 1 - c]))
}

/// The line that line `k` becomes in the mirror.
pub open spec fn mirror_line(k: int) -> int {
    if k < 24 {
        (k / 4) * 4 + 3 - k % 4
    } else if k < 45 {
        24 + (6 - (k - 24) / 3) * 3 + (k - 24) % 3
    } else if k < 57 {
        57 + ((k - 45) / 4) * 4 + 3 - (k - 45) % 4
    } else {
        45 + ((k - 57) / 4) * 4 + 3 - (k - 57) % 4
    }
}

/// The place in `mirror_line(k)` of the mirror image of the `i`-th cell of
/// line `k`.
pub open spec fn mirror_index(k: int, i: int) -> int {
    if 24 <= k < 45 {
        i
    } else {
        3 - i
    }
}

proof fn lemma_mirror_line(k: int, i: int)
    requires
        0 <= k < NUM_LINES,
        0 <= i < 4,
    ensures
        0 <= mirror_line(k) < NUM_LINES,
        0 <= mirror_index(k, i) < 4,
        line_row(mirror_line(k), mirror_index(k, i)) == line_row(k, i),
        line_col(mirror_line(k), mirror_index(k, i)) == NUM_COLS - 1 - line_col(k, i),
{
}

proof fn lemma_mirror_keeps_win(b: Grid, p: C4Piece)
    requires
        b.len() == NUM_ROWS,
        forall|r: int| 0 <= r < NUM_ROWS ==> #[trigger] b[r].len() == NUM_COLS,
        has_win(b, p),
    ensures
        has_win(mirror(b), p),
{
    let k = choose|k: int| 0 <= k < NUM_LINES && line_owned(b, p, k);
    let k2 = mirror_line(k);
    lemma_mirror_line(k, 0);
    assert forall|j: int| 0 <= j < 4 implies line_cell(mirror(b), k2, j) == Some(p) by {
        let i = if 24 <= k < 45 { j } else { 3 - j };
        lemma_mirror_line(k, i);
        lemma_line_in_bounds(k, i);
        assert(line_cell(b, k, i) == Some(p));
    }
    assert(line_owned(mirror(b), p, k2));
}

/// A side has four in a line exactly when it has them on the mirrored
/// board: `check_win` finds a line on one board iff it finds one on the
/// other.
pub proof fn lemma_win_mirror_symmetric(b: Grid, p: C4Piece)
    requires
        b.len() == NUM_ROWS,
        forall|r: int| 0 <= r < NUM_ROWS ==> #[trigger] b[r].len() == NUM_COLS,
    ensures
        has_win(mirror(b), p) == has_win(b, p),
{
    let mb = mirror(b);
    assert(forall|r: int| 0 <= r < NUM_ROWS ==> #[trigger] mb[r].len() == NUM_COLS);
    if has_win(b, p) {
        lemma_mirror_keeps_win(b, p);
    }
    if has_win(mb, p) {
        lemma_mirror_keeps_win(mb, p);
        assert forall|r: int| 0 <= r < NUM_ROWS implies #[trigger] mirror(mb)[r] =~= b[r] by {}
        assert(mirror(mb) =~= b);
    }
}

proof fn lemma_tally(m: C4Model, p: C4Piece, k: int, n: int)
    requires
        0 <= n <= 4,
    ensures
        tally(m, p, k, n).0 >= 0,
        tally(m, p, k, n).1 >= 0,
        tally(m, p, k, n).0 + tally(m, p, k, n).1 + tally(m, p, k, n).2 + tally(m, p, k, n).3 == n,
        (exists|i: int| 0 <= i < n && line_cell(m.board, k, i) == Some(p)) ==> tally(m, p, k, n).0 > 0,
        (exists|i: int| 0 <= i < n && line_cell(m.board, k, i) == Some(p.spec_switch())) ==> tally(m, p, k, n).1 > 0,
        tally(m, p.spec_switch(), k, n) == (tally(m, p, k, n).1, tally(m, p, k, n).0, tally(m, p, k, n).2, tally(m, p, k, n).3),
    decreases n,
{
    if n > 0 {
        lemma_tally(m, p, k, n - 1);
    }
}

/// A line that holds pieces of both sides scores 0 for either side.
pub proof fn lemma_mixed_line_scores_zero(m: C4Model, k: int, i: int, j: int)
    requires
        0 <= i < 4,
        0 <= j < 4,
        line_cell(m.board, k, i) == Some(C4Piece::P1),
        line_cell(m.board, k, j) == Some(C4Piece::P2),
    ensures
        line_value(m, C4Piece::P1, k) == 0,
        line_value(m, C4Piece::P2, k) == 0,
{
    lemma_tally(m, C4Piece::P1, k, 4);
    lemma_tally(m, C4Piece::P2, k, 4);
}

/// A line that holds at most one piece scores for one side the negation of
/// what it scores for the other.
pub proof fn lemma_sparse_line_antisymmetric(m: C4Model, k: int)
    requires
        tally(m, C4Piece::P1, k, 4).0 + tally(m, C4Piece::P1, k, 4).1 <= 1,
    ensures
        line_value(m, C4Piece::P1, k) == -line_value(m, C4Piece::P2, k),
{
    lemma_tally(m, C4Piece::P1, k, 4);
}

} // verus!
