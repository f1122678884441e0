//! Board model of TOOT and OTTO: a 4 x 6 grid that fills from the bottom
//! row upwards. Each side drops either letter from a limited stock; side
//! TOOT wins on the letters T O O T in a line of four, side OTTO on O T T O.
use vstd::prelude::*;
use crate::window::{window_score, window_value, WINDOW_BOUND};

verus! {

pub const NUM_COLS: usize = 6;

pub const NUM_ROWS: usize = 4;

/// Number of four-cell lines on the board.
pub const NUM_LINES: usize = 24;

/// Letters of each kind that each side starts with.
pub const LETTERS_PER_KIND: usize = 6;

/// The two letters.
#[derive(Copy, Clone, Debug, PartialEq, Eq, Hash, Structural)]
pub enum TOenum {
    T,
    O,
}

/// The two sides, named by the word each one spells.
#[derive(Copy, Clone, Debug, PartialEq, Eq, Hash, Structural)]
pub enum Player {
    TOOT,
    OTTO,
}

impl Player {
    pub open spec fn spec_switch(self) -> Player {
        match self {
            Player::TOOT => Player::OTTO,
            Player::OTTO => Player::TOOT,
        }
    }

    /// The other side.
    pub fn switch(&self) -> (r: Self)
        ensures
            r == self.spec_switch(),
            r != *self,
    {
        match self {
            Player::TOOT => Player::OTTO,
            Player::OTTO => Player::TOOT,
        }
    }
}

/// Row of a side in the stock table.
pub open spec fn side_index(p: Player) -> int {
    match p {
        Player::TOOT => 0,
        Player::OTTO => 1,
    }
}

/// Column of a letter in the stock table.
pub open spec fn letter_index(l: TOenum) -> int {
    match l {
        TOenum::T => 0,
        TOenum::O => 1,
    }
}

/// The `i`-th letter of the word that side `p` has to spell.
pub open spec fn pattern(p: Player, i: int) -> TOenum {
    match p {
        Player::TOOT => if i == 0 || i == 3 {
            TOenum::T
        } else {
            TOenum::O
        },
        Player::OTTO => if i == 0 || i == 3 {
            TOenum::O
        } else {
            TOenum::T
        },
    }
}

/// Board contents as rows of cells.
pub type Grid = Seq<Seq<Option<TOenum>>>;

/// Row of the `i`-th cell of line `k`. Lines are numbered in scan order: the
/// 12 horizontal ones row by row, then the 6 vertical ones, then the 3
/// rising diagonals (from the bottom row), then the 3 falling diagonals
/// (from the top row). Each line is read in one direction only.
pub open spec fn line_row(k: int, i: int) -> int {
    if k < 12 {
        k / 3
    } else if k < 18 {
        i
    } else if k < 21 {
        3 - i
    } else {
        i
    }
}

/// Column of the `i`-th cell of line `k`.
pub open spec fn line_col(k: int, i: int) -> int {
    if k < 12 {
        k % 3 + i
    } else if k < 18 {
        k - 12
    } else if k < 21 {
        k - 18 + i
    } else {
        k - 21 + i
    }
}

pub open spec fn line_cell(b: Grid, k: int, i: int) -> Option<TOenum> {
    b[line_row(k, i)][line_col(k, i)]
}

/// Line `k` spells the word of side `p`.
pub open spec fn line_spells(b: Grid, p: Player, k: int) -> bool {
    forall|i: int| 0 <= i < 4 ==> line_cell(b, k, i) == Some(pattern(p, i))
}

/// Some line of four spells the word of side `p`.
pub open spec fn has_win(b: Grid, p: Player) -> bool {
    exists|k: int| 0 <= k < NUM_LINES && line_spells(b, p, k)
}

/// The first line at or after `k`, in scan order, that spells the word of
/// `p`; `NUM_LINES` where there is none.
pub open spec fn first_win_from(b: Grid, p: Player, k: int) -> int
    decreases NUM_LINES - k,
{
    if k >= NUM_LINES {
        NUM_LINES as int
    } else if line_spells(b, p, k) {
        k
    } else {
        first_win_from(b, p, k + 1)
    }
}

pub open spec fn first_win(b: Grid, p: Player) -> int {
    first_win_from(b, p, 0)
}

/// The coordinates `[row, column]` of the cells of line `k`.
pub open spec fn line_coords(k: int) -> Seq<(int, int)> {
    Seq::new(4, |i: int| (line_row(k, i), line_col(k, i)))
}

pub open spec fn coords_view(v: Seq<[usize; 2]>) -> Seq<(int, int)> {
    Seq::new(v.len(), |i: int| (v[i][0] as int, v[i][1] as int))
}

/// Who has won on board `b`: nobody where both words or neither stand.
pub open spec fn winner_of(b: Grid) -> Option<Player> {
    let t = has_win(b, Player::TOOT);
    let o = has_win(b, Player::OTTO);
    if t && o {
        None
    } else if o {
        Some(Player::OTTO)
    } else if t {
        Some(Player::TOOT)
    } else {
        None
    }
}

pub proof fn lemma_line_in_bounds(k: int, i: int)
    requires
        0 <= k < NUM_LINES,
        0 <= i < 4,
    ensures
        0 <= line_row(k, i) < NUM_ROWS,
        0 <= line_col(k, i) < NUM_COLS,
{
}

proof fn lemma_first_win_from(b: Grid, p: Player, k: int)
    requires
        0 <= k <= NUM_LINES,
    ensures
        k <= first_win_from(b, p, k) <= NUM_LINES,
        first_win_from(b, p, k) < NUM_LINES ==> line_spells(b, p, first_win_from(b, p, k)),
        forall|j: int| k <= j < first_win_from(b, p, k) ==> !line_spells(b, p, j),
    decreases NUM_LINES - k,
{
    if k < NUM_LINES && !line_spells(b, p, k) {
        lemma_first_win_from(b, p, k + 1);
    }
}

/// There is a winning line exactly when the scan finds one.
pub proof fn lemma_first_win(b: Grid, p: Player)
    ensures
        0 <= first_win(b, p) <= NUM_LINES,
        has_win(b, p) <==> first_win(b, p) < NUM_LINES,
        first_win(b, p) < NUM_LINES ==> line_spells(b, p, first_win(b, p)),
        forall|j: int| 0 <= j < first_win(b, p) ==> !line_spells(b, p, j),
{
    lemma_first_win_from(b, p, 0);
}

/// Row and column of the `i`-th cell of line `k`.
pub fn line_cell_at(k: usize, i: usize) -> (r: (usize, usize))
    requires
        k < NUM_LINES,
        i < 4,
    ensures
        r.0 == line_row(k as int, i as int),
        r.1 == line_col(k as int, i as int),
        r.0 < NUM_ROWS,
        r.1 < NUM_COLS,
{
    if k < 12 {
        (k / 3, k % 3 + i)
    } else if k < 18 {
        (i, k - 12)
    } else if k < 21 {
        (3 - i, k - 18 + i)
    } else {
        (i, k - 21 + i)
    }
}

/// The `i`-th letter of the word of side `p`.
pub fn pattern_at(p: Player, i: usize) -> (r: TOenum)
    ensures
        r == pattern(p, i as int),
{
    let outer = i == 0 || i == 3;
    match p {
        Player::TOOT => if outer {
            TOenum::T
        } else {
            TOenum::O
        },
        Player::OTTO => if outer {
            TOenum::O
        } else {
            TOenum::T
        },
    }
}

/// A game in progress. `board[r][c]` is the cell in row `r` (row 0 on top)
/// and column `c`; `current_height[c]` is the number of letters in column
/// `c`; `countings[s][l]` is what side `s` (TOOT, OTTO) has left of letter
/// `l` (T, O).
#[derive(Copy, Clone)]
pub struct TootAndOtto {
    pub board: [[Option<TOenum>; NUM_COLS]; NUM_ROWS],
    pub winner: Option<Player>,
    pub current_player: Player,
    pub termination: bool,
    pub next_step: usize,
    pub current_height: [usize; NUM_COLS],
    pub countings: [[usize; 2]; 2],
}

/// The mathematical value of a game.
pub ghost struct TootModel {
    pub board: Seq<Seq<Option<TOenum>>>,
    pub winner: Option<Player>,
    pub current_player: Player,
    pub termination: bool,
    pub next_step: int,
    pub heights: Seq<int>,
    pub countings: Seq<Seq<int>>,
}

impl View for TootAndOtto {
    type V = TootModel;

    open spec fn view(&self) -> TootModel {
        TootModel {
            board: Seq::new(NUM_ROWS as nat, |r: int| self.board[r]@),
            winner: self.winner,
            current_player: self.current_player,
            termination: self.termination,
            next_step: self.next_step as int,
            heights: Seq::new(NUM_COLS as nat, |c: int| self.current_height[c] as int),
            countings: Seq::new(2, |s: int| Seq::new(2, |l: int| self.countings[s][l] as int)),
        }
    }
}

/// Sum of the first `n` column heights.
pub open spec fn sum_heights(h: Seq<int>, n: int) -> int
    decreases n,
{
    if n <= 0 {
        0
    } else {
        sum_heights(h, n - 1) + h[n - 1]
    }
}

/// Letters that side `s` has dropped.
pub open spec fn used(c: Seq<Seq<int>>, s: int) -> int {
    2 * LETTERS_PER_KIND - c[s][0] - c[s][1]
}

impl TootModel {
    /// The invariant of every game reachable from the initial one.
    pub open spec fn wf(self) -> bool {
        &&& self.board.len() == NUM_ROWS
        &&& forall|r: int| 0 <= r < NUM_ROWS ==> #[trigger] self.board[r].len() == NUM_COLS
        &&& self.heights.len() == NUM_COLS
        &&& forall|c: int| 0 <= c < NUM_COLS ==> 0 <= #[trigger] self.heights[c] <= NUM_ROWS
        &&& forall|r: int, c: int|
            0 <= r < NUM_ROWS && 0 <= c < NUM_COLS ==> (#[trigger] self.board[r][c]).is_some()
                == (r >= NUM_ROWS - self.heights[c])
        &&& self.next_step == sum_heights(self.heights, NUM_COLS as int)
        &&& self.current_player == if self.next_step % 2 == 0 {
            Player::TOOT
        } else {
            Player::OTTO
        }
        &&& self.countings.len() == 2
        &&& forall|s: int| 0 <= s < 2 ==> #[trigger] self.countings[s].len() == 2
        &&& forall|s: int, l: int|
            0 <= s < 2 && 0 <= l < 2 ==> 0 <= #[trigger] self.countings[s][l] <= LETTERS_PER_KIND
        &&& used(self.countings, 0) == (self.next_step + 1) / 2
        &&& used(self.countings, 1) == self.next_step / 2
        &&& self.termination == (has_win(self.board, Player::TOOT) || has_win(self.board, Player::OTTO)
            || self.next_step == NUM_ROWS * NUM_COLS)
        &&& self.winner == winner_of(self.board)
    }

    /// What side `p` has left of letter `l`.
    pub open spec fn stock(self, p: Player, l: TOenum) -> int {
        self.countings[side_index(p)][letter_index(l)]
    }

    /// The game after the side to move drops `letter` into column `col`;
    /// `None` where the move is refused: the column does not exist or is
    /// full, the side has no such letter left, or the game is over.
    pub open spec fn next_state(self, letter: TOenum, col: int) -> Option<TootModel> {
        let p = self.current_player;
        if col < 0 || col >= NUM_COLS || self.termination || self.stock(p, letter) == 0
            || self.heights[col] >= NUM_ROWS {
            None
        } else {
            let row = NUM_ROWS - 1 - self.heights[col];
            let board = self.board.update(row, self.board[row].update(col, Some(letter)));
            let step = self.next_step + 1;
            let s = side_index(p);
            let l = letter_index(letter);
            Some(
                TootModel {
                    board,
                    winner: winner_of(board),
                    current_player: p.spec_switch(),
                    termination: has_win(board, Player::TOOT) || has_win(board, Player::OTTO) || step
                        == NUM_ROWS * NUM_COLS,
                    next_step: step,
                    heights: self.heights.update(col, self.heights[col] + 1),
                    countings: self.countings.update(s, self.countings[s].update(l, self.countings[s][l] - 1)),
                },
            )
        }
    }

    pub open spec fn can_drop(self, letter: TOenum, col: int) -> bool {
        self.next_state(letter, col).is_some()
    }
}

proof fn lemma_sum_heights_update(h: Seq<int>, c: int, n: int)
    requires
        0 <= c < h.len(),
        0 <= n <= h.len(),
    ensures
        sum_heights(h.update(c, h[c] + 1), n) == sum_heights(h, n) + if c < n {
            1int
        } else {
            0
        },
    decreases n,
{
    if n > 0 {
        lemma_sum_heights_update(h, c, n - 1);
    }
}

/// The column heights sum to at most a full board, and to exactly that
/// only when every column is full.
pub proof fn lemma_sum_heights_bounds(h: Seq<int>, n: int)
    requires
        0 <= n <= h.len(),
        forall|c: int| 0 <= c < n ==> 0 <= #[trigger] h[c] <= NUM_ROWS,
    ensures
        0 <= sum_heights(h, n) <= n * NUM_ROWS,
        sum_heights(h, n) == n * NUM_ROWS <==> forall|c: int| 0 <= c < n ==> #[trigger] h[c] == NUM_ROWS,
    decreases n,
{
    if n > 0 {
        lemma_sum_heights_bounds(h, n - 1);
    }
}

/// A legal move keeps the invariant.
pub proof fn lemma_next_state_wf(m: TootModel, letter: TOenum, col: int)
    requires
        m.wf(),
        m.can_drop(letter, col),
    ensures
        m.next_state(letter, col).unwrap().wf(),
{
    let n = m.next_state(letter, col).unwrap();
    let row = NUM_ROWS - 1 - m.heights[col];
    lemma_sum_heights_update(m.heights, col, NUM_COLS as int);
    lemma_sum_heights_bounds(m.heights, NUM_COLS as int);
    assert forall|r: int, c: int| 0 <= r < NUM_ROWS && 0 <= c < NUM_COLS implies (
    #[trigger] n.board[r][c]).is_some() == (r >= NUM_ROWS - n.heights[c]) by {
        if r == row && c == col {
        } else {
            assert(n.board[r][c] == m.board[r][c]);
        }
    }
    assert(forall|r: int| 0 <= r < NUM_ROWS ==> #[trigger] n.board[r].len() == NUM_COLS);
    assert(forall|s: int| 0 <= s < 2 ==> #[trigger] n.countings[s].len() == 2);
    assert forall|s: int, l: int| 0 <= s < 2 && 0 <= l < 2 implies 0 <= #[trigger] n.countings[s][l]
        <= LETTERS_PER_KIND by {
        if s == side_index(m.current_player) && l == letter_index(letter) {
        } else {
            assert(n.countings[s][l] == m.countings[s][l]);
        }
    }
    if m.current_player == Player::TOOT {
        assert(n.countings[1] == m.countings[1]);
    } else {
        assert(n.countings[0] == m.countings[0]);
    }
}

/// Cells of line `k` whose letter is the `i`-th of the word of `p` count as
/// own, other letters as opposing; an empty cell is ready where it is filled
/// or can be filled by the next drop into its column (vertical lines count
/// every cell as ready).
pub open spec fn cell_ready(m: TootModel, k: int, i: int) -> bool {
    (12 <= k < 18) || m.heights[line_col(k, i)] >= NUM_ROWS - line_row(k, i) - 1
}

/// Counts over the first `n` cells of line `k`, seen from `p`: own letters,
/// opposing letters, empty ready cells, empty cells not yet ready.
pub open spec fn tally(m: TootModel, p: Player, k: int, n: int) -> (int, int, int, int)
    decreases n,
{
    if n <= 0 {
        (0, 0, 0, 0)
    } else {
        let t = tally(m, p, k, n - 1);
        match line_cell(m.board, k, n - 1) {
            Some(l) => if l == pattern(p, n - 1) {
                (t.0 + 1, t.1, t.2, t.3)
            } else {
                (t.0, t.1 + 1, t.2, t.3)
            },
            None => if cell_ready(m, k, n - 1) {
                (t.0, t.1, t.2 + 1, t.3)
            } else {
                (t.0, t.1, t.2, t.3 + 1)
            },
        }
    }
}

pub open spec fn line_value(m: TootModel, p: Player, k: int) -> int {
    let t = tally(m, p, k, 4);
    window_value(t.0, t.1, t.2, t.3)
}

/// Sum of the values of the first `n` lines.
pub open spec fn lines_value(m: TootModel, p: Player, n: int) -> int
    decreases n,
{
    if n <= 0 {
        0
    } else {
        lines_value(m, p, n - 1) + line_value(m, p, n - 1)
    }
}

/// Positional value of the board for `p`.
pub open spec fn heuristic(m: TootModel, p: Player) -> int {
    lines_value(m, p, NUM_LINES as int)
}

impl TootAndOtto {
    /// An empty board, with side TOOT to move and full stocks.
    pub fn new() -> (r: Self)
        ensures
            r@ == initial_model(),
            r@.wf(),
            r@.current_player == Player::TOOT,
            r@.winner.is_none(),
            !r@.termination,
            r@.next_step == 0,
            forall|c: int| 0 <= c < NUM_COLS ==> r@.heights[c] == 0,
            forall|row: int, c: int|
                0 <= row < NUM_ROWS && 0 <= c < NUM_COLS ==> r@.board[row][c].is_none(),
            forall|p: Player, l: TOenum| r@.stock(p, l) == LETTERS_PER_KIND,
    {
        let r = TootAndOtto {
            board: [[None; NUM_COLS]; NUM_ROWS],
            current_height: [0; NUM_COLS],
            current_player: Player::TOOT,
            termination: false,
            next_step: 0,
            winner: None,
            countings: [[LETTERS_PER_KIND; 2]; 2],
        };
        proof {
            lemma_initial_wf();
        }
        assert(r@.board =~~= initial_model().board);
        assert(r@.heights =~= initial_model().heights);
        assert(r@.countings =~~= initial_model().countings);
        r
    }

    /// The order in which columns are tried: center columns first.
    pub fn get_columns(&self) -> (r: [usize; NUM_COLS])
        ensures
            r@ == column_order(),
    {
        let r = [2, 3, 1, 4, 0, 5];
        assert(r@ =~= column_order());
        r
    }

    /// Number of letters in column `col`, read off the board.
    pub fn get_height(&self, col: usize) -> (r: usize)
        requires
            self@.wf(),
            col < NUM_COLS,
        ensures
            r == self@.heights[col as int],
    {
        let mut row_index: usize = 0;
        while row_index < NUM_ROWS
            invariant
                self@.wf(),
                col < NUM_COLS,
                row_index <= NUM_ROWS,
                forall|r: int| 0 <= r < row_index ==> self@.board[r][col as int].is_none(),
            decreases NUM_ROWS - row_index,
        {
            assert(self@.board[row_index as int][col as int] == self.board[row_index as int][col as int]);
            if self.board[row_index][col].is_some() {
                proof {
                    let h = self@.heights[col as int];
                    if row_index > NUM_ROWS - h {
                        assert(self@.board[NUM_ROWS - h][col as int].is_none());
                    }
                }
                return NUM_ROWS - row_index;
            }
            row_index += 1;
        }
        proof {
            let h = self@.heights[col as int];
            if h > 0 {
                assert(self@.board[NUM_ROWS - 1][col as int].is_none());
            }
        }
        0
    }

    /// Whether line `k` spells the word of `player`.
    fn line_full(&self, player: Player, k: usize) -> (r: bool)
        requires
            k < NUM_LINES,
        ensures
            r == line_spells(self@.board, player, k as int),
    {
        let mut i: usize = 0;
        while i < 4
            invariant
                k < NUM_LINES,
                i <= 4,
                forall|j: int| 0 <= j < i ==> line_cell(self@.board, k as int, j) == Some(pattern(player, j)),
            decreases 4 - i,
        {
            let (row, col) = line_cell_at(k, i);
            assert(line_cell(self@.board, k as int, i as int) == self.board[row as int][col as int]);
            if self.board[row][col] != Some(pattern_at(player, i)) {
                return false;
            }
            i += 1;
        }
        true
    }

    /// The first line of four, in scan order, that spells the word of
    /// `player`, as the `[row, column]` of each of its cells; `None` where
    /// there is none.
    pub fn check_win(&self, player: Player) -> (r: Option<Vec<[usize; 2]>>)
        ensures
            r.is_some() <==> has_win(self@.board, player),
            r.is_some() <==> first_win(self@.board, player) < NUM_LINES,
            r matches Some(v) ==> coords_view(v@) == line_coords(first_win(self@.board, player)),
    {
        proof {
            lemma_first_win(self@.board, player);
        }
        let mut k: usize = 0;
        while k < NUM_LINES
            invariant
                k <= NUM_LINES,
                first_win(self@.board, player) == first_win_from(self@.board, player, k as int),
            decreases NUM_LINES - k,
        {
            if self.line_full(player, k) {
                let mut v: Vec<[usize; 2]> = Vec::new();
                let mut i: usize = 0;
                while i < 4
                    invariant
                        k < NUM_LINES,
                        i <= 4,
                        v@.len() == i,
                        forall|j: int| 0 <= j < i ==> (v@[j][0] as int, v@[j][1] as int) == line_coords(k as int)[j],
                    decreases 4 - i,
                {
                    let (row, col) = line_cell_at(k, i);
                    v.push([row, col]);
                    i += 1;
                }
                assert(coords_view(v@) =~= line_coords(k as int));
                return Some(v);
            }
            k += 1;
        }
        None
    }

    /// What the side to move has left of `letter`.
    fn stock_of(&self, letter: TOenum) -> (r: usize)
        ensures
            r == self@.stock(self.current_player, letter),
    {
        let s: usize = match self.current_player {
            Player::TOOT => 0,
            Player::OTTO => 1,
        };
        let l: usize = match letter {
            TOenum::T => 0,
            TOenum::O => 1,
        };
        self.countings[s][l]
    }

    /// The side to move drops `letter` into column `col`. Returns false, and
    /// changes nothing, where the column does not exist or is full, the side
    /// has no such letter left, or the game is over. Otherwise the letter
    /// lands on top of the column, the side's stock of it shrinks by one,
    /// the counter and the column height grow by one, the winner and the end
    /// of the game are settled (both words at once end the game with no
    /// winner), and the other side is to move.
    pub fn drop(&mut self, letter: TOenum, col: usize) -> (r: bool)
        requires
            old(self)@.wf(),
        ensures
            r == old(self)@.can_drop(letter, col as int),
            r ==> final(self)@ == old(self)@.next_state(letter, col as int).unwrap(),
            !r ==> *final(self) == *old(self),
            final(self)@.wf(),
    {
        if col >= NUM_COLS || self.termination {
            return false;
        }
        let piece_count = self.stock_of(letter);
        if piece_count == 0 {
            return false;
        }
        let height = self.get_height(col);
        if height >= NUM_ROWS {
            return false;
        }
        proof {
            lemma_next_state_wf(self@, letter, col as int);
            lemma_sum_heights_bounds(self@.heights, NUM_COLS as int);
        }
        let ghost next = self@.next_state(letter, col as int).unwrap();
        let row = NUM_ROWS - 1 - height;
        self.set_cell(row, col, Some(letter));
        let winning_toot = self.check_win(Player::TOOT).is_some();
        let winning_otto = self.check_win(Player::OTTO).is_some();
        self.winner = match (winning_toot, winning_otto) {
            (true, true) => None,
            (false, true) => Some(Player::OTTO),
            (true, false) => Some(Player::TOOT),
            (false, false) => None,
        };
        let s: usize = match self.current_player {
            Player::TOOT => 0,
            Player::OTTO => 1,
        };
        let l: usize = match letter {
            TOenum::T => 0,
            TOenum::O => 1,
        };
        self.countings[s][l] = piece_count - 1;
        self.current_height[col] = height + 1;
        self.next_step += 1;
        self.termination = winning_toot || winning_otto || self.next_step == NUM_COLS * NUM_ROWS;
        self.current_player = self.current_player.switch();
        assert(self@.heights =~= next.heights);
        assert(self@.board =~= next.board);
        assert(self@.countings =~~= next.countings);
        true
    }

    fn set_cell(&mut self, row: usize, col: usize, v: Option<TOenum>)
        requires
            row < NUM_ROWS,
            col < NUM_COLS,
        ensures
            final(self)@.board == old(self)@.board.update(row as int, old(self)@.board[row as int].update(col as int, v)),
            final(self).current_player == old(self).current_player,
            final(self).winner == old(self).winner,
            final(self).termination == old(self).termination,
            final(self).next_step == old(self).next_step,
            final(self).current_height == old(self).current_height,
            final(self).countings == old(self).countings,
    {
        let mut line = self.board[row];
        line[col] = v;
        self.board[row] = line;
        assert(self@.board =~= old(self)@.board.update(row as int, old(self)@.board[row as int].update(col as int, v)));
    }

    /// Counts of line `k` seen from `player`, as in `tally`.
    fn line_tally(&self, player: Player, k: usize) -> (r: (u32, u32, u32, u32))
        requires
            k < NUM_LINES,
        ensures
            (r.0 as int, r.1 as int, r.2 as int, r.3 as int) == tally(self@, player, k as int, 4),
    {
        let mut own: u32 = 0;
        let mut opp: u32 = 0;
        let mut empty: u32 = 0;
        let mut below: u32 = 0;
        let mut i: usize = 0;
        while i < 4
            invariant
                k < NUM_LINES,
                i <= 4,
                (own as int, opp as int, empty as int, below as int) == tally(self@, player, k as int, i as int),
                own + opp + empty + below == i,
            decreases 4 - i,
        {
            let (row, col) = line_cell_at(k, i);
            assert(line_cell(self@.board, k as int, i as int) == self.board[row as int][col as int]);
            match self.board[row][col] {
                Some(l) => {
                    if l == pattern_at(player, i) {
                        own += 1;
                    } else {
                        opp += 1;
                    }
                },
                None => {
                    if (12 <= k && k < 18) || self.current_height[col] >= NUM_ROWS - row - 1 {
                        empty += 1;
                    } else {
                        below += 1;
                    }
                },
            }
            i += 1;
        }
        (own, opp, empty, below)
    }

    /// Positional value of the board for `player`: the sum of the window
    /// scores of all lines of four, where a letter counts as own when it is
    /// the letter of `player`'s word at that place of the line.
    pub fn heuristic_searc_score(&self, player: Player) -> (r: i32)
        ensures
            r == heuristic(self@, player),
    {
        let mut score: i32 = 0;
        let mut k: usize = 0;
        while k < NUM_LINES
            invariant
                k <= NUM_LINES,
                score == lines_value(self@, player, k as int),
                -(k as int) * (WINDOW_BOUND as int) <= score <= (k as int) * (WINDOW_BOUND as int),
            decreases NUM_LINES - k,
        {
            let (own, opp, empty, below) = self.line_tally(player, k);
            let w = window_score(own, opp, empty, below);
            score = score + w;
            k += 1;
        }
        score
    }
}

/// The order in which columns are tried: center columns first.
pub open spec fn column_order() -> Seq<usize> {
    seq![2usize, 3, 1, 4, 0, 5]
}

/// The game before the first move.
pub open spec fn initial_model() -> TootModel {
    TootModel {
        board: Seq::new(NUM_ROWS as nat, |r: int| Seq::new(NUM_COLS as nat, |c: int| None)),
        winner: None,
        current_player: Player::TOOT,
        termination: false,
        next_step: 0,
        heights: Seq::new(NUM_COLS as nat, |c: int| 0),
        countings: Seq::new(2, |s: int| Seq::new(2, |l: int| LETTERS_PER_KIND as int)),
    }
}

/// The game after the side to move tries each (letter, column) of `moves`
/// in turn; a refused move leaves the game as it was.
pub open spec fn play(m: TootModel, moves: Seq<(TOenum, int)>) -> TootModel
    decreases moves.len(),
{
    if moves.len() == 0 {
        m
    } else {
        let next = match m.next_state(moves[0].0, moves[0].1) {
            Some(n) => n,
            None => m,
        };
        play(next, moves.drop_first())
    }
}

pub proof fn lemma_initial_wf()
    ensures
        initial_model().wf(),
{
    let m = initial_model();
    assert(sum_heights(m.heights, NUM_COLS as int) == 0) by {
        reveal_with_fuel(sum_heights, 7);
    }
    assert forall|p: Player| !has_win(m.board, p) by {
        if has_win(m.board, p) {
            let k = choose|k: int| 0 <= k < NUM_LINES && line_spells(m.board, p, k);
            lemma_line_in_bounds(k, 0);
            assert(line_cell(m.board, k, 0) == Some(pattern(p, 0)));
        }
    }
}

proof fn lemma_play_wf(m: TootModel, moves: Seq<(TOenum, int)>)
    requires
        m.wf(),
    ensures
        play(m, moves).wf(),
    decreases moves.len(),
{
    if moves.len() > 0 {
        if m.can_drop(moves[0].0, moves[0].1) {
            lemma_next_state_wf(m, moves[0].0, moves[0].1);
            lemma_play_wf(m.next_state(moves[0].0, moves[0].1).unwrap(), moves.drop_first());
        } else {
            lemma_play_wf(m, moves.drop_first());
        }
    }
}

/// In every game reachable from the initial one, each column holds between
/// 0 and `NUM_ROWS` letters, and the move counter is the sum of the column
/// heights.
pub proof fn lemma_reachable_counter(moves: Seq<(TOenum, int)>)
    ensures
        play(initial_model(), moves).wf(),
        play(initial_model(), moves).next_step == sum_heights(play(initial_model(), moves).heights, NUM_COLS as int),
        forall|c: int|
            0 <= c < NUM_COLS ==> 0 <= #[trigger] play(initial_model(), moves).heights[c] <= NUM_ROWS,
{
    lemma_initial_wf();
    lemma_play_wf(initial_model(), moves);
}

/// A full column refuses every letter (and `drop` then leaves the game
/// unchanged).
pub proof fn lemma_full_column_refused(m: TootModel, letter: TOenum, col: int)
    requires
        0 <= col < NUM_COLS,
        m.heights[col] == NUM_ROWS,
    ensures
        !m.can_drop(letter, col),
        m.next_state(letter, col).is_none(),
{
}

/// A side with none of a letter left cannot drop it, in any column. While
/// it has some left, it can drop it into any column that has room until the
/// game ends, and doing so takes exactly one from that stock and nothing
/// from the other three.
pub proof fn lemma_stock_rules(m: TootModel, letter: TOenum, col: int)
    requires
        m.wf(),
    ensures
        m.stock(m.current_player, letter) == 0 ==> !m.can_drop(letter, col),
        m.stock(m.current_player, letter) > 0 && !m.termination && 0 <= col < NUM_COLS && m.heights[col]
            < NUM_ROWS ==> m.can_drop(letter, col),
        m.can_drop(letter, col) ==> m.next_state(letter, col).unwrap().stock(m.current_player, letter)
            == m.stock(m.current_player, letter) - 1,
        m.can_drop(letter, col) ==> forall|p: Player, l: TOenum|
            (p, l) != (m.current_player, letter) ==> #[trigger] m.next_state(letter, col).unwrap().stock(p, l)
                == m.stock(p, l),
{
    if m.can_drop(letter, col) {
        let n = m.next_state(letter, col).unwrap();
        assert forall|p: Player, l: TOenum|
            (p, l) != (m.current_player, letter) implies #[trigger] n.stock(p, l) == m.stock(p, l) by {
            if side_index(p) != side_index(m.current_player) {
                assert(n.countings[side_index(p)] == m.countings[side_index(p)]);
            } else {
                assert(p == m.current_player);
                assert(letter_index(l) != letter_index(letter));
            }
        }
    }
}

/// `check_win` gives the same answer on every call for one board and side:
/// any two results that meet its contract are equal.
pub proof fn lemma_check_win_idempotent(b: Grid, p: Player, r1: Option<Vec<[usize; 2]>>, r2: Option<Vec<[usize; 2]>>)
    requires
        r1.is_some() <==> first_win(b, p) < NUM_LINES,
        r1 matches Some(v) ==> coords_view(v@) == line_coords(first_win(b, p)),
        r2.is_some() <==> first_win(b, p) < NUM_LINES,
        r2 matches Some(v) ==> coords_view(v@) == line_coords(first_win(b, p)),
    ensures
        r1.is_some() == r2.is_some(),
        r1 matches Some(v1) ==> r2 matches Some(v2) && v1@ == v2@,
{
    if r1 is Some {
        let v1 = r1->0;
        let v2 = r2->0;
        assert(coords_view(v1@).len() == coords_view(v2@).len());
        assert forall|i: int| 0 <= i < v1@.len() implies v1@[i] == v2@[i] by {
            assert(coords_view(v1@)[i] == coords_view(v2@)[i]);
            assert(v1@[i]@ =~= v2@[i]@);
        }
        assert(v1@ =~= v2@);
    }
}

/// The board seen in a mirror: column `c` becomes column `NUM_COLS - 1 - c`.
pub open spec fn mirror(b: Grid) -> Grid {
    Seq::new(b.len(), |r: int| Seq::new(b[r].len(), |c: int| b[r][NUM_COLS - 1 - c]))
}

/// The line that line `k` becomes in the mirror.
pub open spec fn mirror_line(k: int) -> int {
    if k < 12 {
        (k / 3) * 3 + 2 - k % 3
    } else if k < 18 {
        29 - k
    } else {
        41 - k
    }
}

/// The place in `mirror_line(k)` of the mirror image of the `i`-th cell of
/// line `k`.
pub open spec fn mirror_index(k: int, i: int) -> int {
    if 12 <= k < 18 {
        i
    } else {
        3 - i
    }
}

proof fn lemma_mirror_line(k: int, i: int)
    requires
        0 <= k < NUM_LINES,
        0 <= i < 4,
    ensures
        0 <= mirror_line(k) < NUM_LINES,
        0 <= mirror_index(k, i) < 4,
        line_row(mirror_line(k), mirror_index(k, i)) == line_row(k, i),
        line_col(mirror_line(k), mirror_index(k, i)) == NUM_COLS - 1 - line_col(k, i),
        pattern(Player::TOOT, mirror_index(k, i)) == pattern(Player::TOOT, i),
        pattern(Player::OTTO, mirror_index(k, i)) == pattern(Player::OTTO, i),
{
}

proof fn lemma_mirror_keeps_win(b: Grid, p: Player)
    requires
        b.len() == NUM_ROWS,
        forall|r: int| 0 <= r < NUM_ROWS ==> #[trigger] b[r].len() == NUM_COLS,
        has_win(b, p),
    ensures
        has_win(mirror(b), p),
{
    let k = choose|k: int| 0 <= k < NUM_LINES && line_spells(b, p, k);
    let k2 = mirror_line(k);
    lemma_mirror_line(k, 0);
    assert forall|j: int| 0 <= j < 4 implies line_cell(mirror(b), k2, j) == Some(pattern(p, j)) by {
        let i = if 12 <= k < 18 { j } else { 3 - j };
        lemma_mirror_line(k, i);
        lemma_line_in_bounds(k, i);
        assert(line_cell(b, k, i) == Some(pattern(p, i)));
    }
    assert(line_spells(mirror(b), p, k2));
}

/// A side's word stands on the board exactly when it stands on the
/// mirrored board (both words read the same both ways): `check_win` finds a
/// line on one board iff it finds one on the other.
pub proof fn lemma_win_mirror_symmetric(b: Grid, p: Player)
    requires
        b.len() == NUM_ROWS,
        forall|r: int| 0 <= r < NUM_ROWS ==> #[trigger] b[r].len() == NUM_COLS,
    ensures
        has_win(mirror(b), p) == has_win(b, p),
{
    let mb = mirror(b);
    assert(forall|r: int| 0 <= r < NUM_ROWS ==> #[trigger] mb[r].len() == NUM_COLS);
    if has_win(b, p) {
        lemma_mirror_keeps_win(b, p);
    }
    if has_win(mb, p) {
        lemma_mirror_keeps_win(mb, p);
        assert forall|r: int| 0 <= r < NUM_ROWS implies #[trigger] mirror(mb)[r] =~= b[r] by {}
        assert(mirror(mb) =~= b);
    }
}

proof fn lemma_tally(m: TootModel, p: Player, k: int, n: int)
    requires
        0 <= n <= 4,
    ensures
        tally(m, p, k, n).0 >= 0,
        tally(m, p, k, n).1 >= 0,
        tally(m, p, k, n).0 + tally(m, p, k, n).1 + tally(m, p, k, n).2 + tally(m, p, k, n).3 == n,
        (exists|i: int| 0 <= i < n && line_cell(m.board, k, i) == Some(pattern(p, i))) ==> tally(m, p, k, n).0 > 0,
        (exists|i: int| 0 <= i < n && line_cell(m.board, k, i) == Some(pattern(p.spec_switch(), i))) ==> tally(m, p, k, n).1 > 0,
        tally(m, p.spec_switch(), k, n) == (tally(m, p, k, n).1, tally(m, p, k, n).0, tally(m, p, k, n).2, tally(m, p, k, n).3),
    decreases n,
{
    if n > 0 {
        lemma_tally(m, p, k, n - 1);
    }
}

/// A line that holds a letter in place for each side's word scores 0 for
/// either side.
pub proof fn lemma_mixed_line_scores_zero(m: TootModel, k: int, i: int, j: int)
    requires
        0 <= i < 4,
        0 <= j < 4,
        line_cell(m.board, k, i) == Some(pattern(Player::TOOT, i)),
        line_cell(m.board, k, j) == Some(pattern(Player::OTTO, j)),
    ensures
        line_value(m, Player::TOOT, k) == 0,
        line_value(m, Player::OTTO, k) == 0,
{
    lemma_tally(m, Player::TOOT, k, 4);
    lemma_tally(m, Player::OTTO, k, 4);
}

/// A line that holds at most one letter scores for one side the negation
/// of what it scores for the other.
pub proof fn lemma_sparse_line_antisymmetric(m: TootModel, k: int)
    requires
        tally(m, Player::TOOT, k, 4).0 + tally(m, Player::TOOT, k, 4).1 <= 1,
    ensures
        line_value(m, Player::TOOT, k) == -line_value(m, Player::OTTO, k),
{
    lemma_tally(m, Player::TOOT, k, 4);
}

} // verus!
