//! The computer opponent of TOOT and OTTO. It plays side OTTO: a fixed
//! depth minimax search over every (column, letter) move, no pruning, with
//! a random pick among the moves that tie for the best value.
use vstd::prelude::*;
use crate::policy::{select_move, ROLL_RANGE};
use crate::random::{choose_one, random_below};
use crate::toot_and_otto::{
    column_order, heuristic, lemma_sum_heights_bounds, Player, TOenum, TootAndOtto, TootModel, used,
    LETTERS_PER_KIND, NUM_COLS, NUM_ROWS,
};

verus! {

/// Search depth of the opponent.
pub const SEARCH_DEPTH: usize = 3;

/// Deepest search that values stay in range for: no game lasts longer.
pub const MAX_DEPTH: usize = 24;

/// One more than the number of cells: the margin by which a finished game's
/// value stays inside the range of `i32`.
pub const WIN_BASELINE: i32 = 25;

/// Number of distinct moves: each letter in each column.
pub const NUM_MOVES: usize = 12;

/// The `j`-th move in the order the search tries them: letter T in every
/// column of `column_order()`, then letter O likewise.
pub open spec fn move_at(j: int) -> (usize, TOenum) {
    (column_order()[j % NUM_COLS as int], if j < NUM_COLS { TOenum::T } else { TOenum::O })
}

pub open spec fn legal(m: TootModel, mv: (usize, TOenum)) -> bool {
    m.can_drop(mv.1, mv.0 as int)
}

/// Value for the computer of a finished game, searched with `depth` plies
/// left: a win is worth more, a loss less, the sooner it comes.
pub open spec fn terminal_value(m: TootModel, depth: int) -> int {
    match m.winner {
        None => 0,
        Some(Player::OTTO) => i32::MAX - WIN_BASELINE + depth,
        Some(Player::TOOT) => i32::MIN + WIN_BASELINE - depth,
    }
}

/// Value of a game for the computer by a search of `depth` plies;
/// `maximizing` holds when the computer is to move.
pub open spec fn minimax(m: TootModel, depth: int, maximizing: bool) -> int
    decreases depth, NUM_MOVES + 1,
{
    if m.termination {
        terminal_value(m, depth)
    } else if depth <= 0 {
        heuristic(m, Player::OTTO)
    } else {
        best(m, depth, maximizing, NUM_MOVES as int).0
    }
}

/// The best value among the legal moves among the first `n` of `move_at`,
/// and the moves that reach it exactly, in that order. With no legal move
/// it is the worst value for the side to move.
pub open spec fn best(m: TootModel, depth: int, maximizing: bool, n: int) -> (int, Seq<(usize, TOenum)>)
    decreases depth, n,
{
    if n <= 0 || depth <= 0 {
        (if maximizing { i32::MIN as int } else { i32::MAX as int }, Seq::empty())
    } else {
        let prev = best(m, depth, maximizing, n - 1);
        let mv = move_at(n - 1);
        if !legal(m, mv) {
            prev
        } else {
            let v = minimax(m.next_state(mv.1, mv.0 as int).unwrap(), depth - 1, !maximizing);
            if prev.1.len() == 0 || (maximizing && v > prev.0) || (!maximizing && v < prev.0) {
                (v, seq![mv])
            } else if v == prev.0 {
                (prev.0, prev.1.push(mv))
            } else {
                prev
            }
        }
    }
}

/// The moves that tie for the best value of a search.
pub open spec fn best_moves_of(m: TootModel, depth: int, maximizing: bool) -> Seq<(usize, TOenum)> {
    best(m, depth, maximizing, NUM_MOVES as int).1
}

/// The legal moves among the first `n` of `move_at`, in that order.
pub open spec fn legal_moves(m: TootModel, n: int) -> Seq<(usize, TOenum)>
    decreases n,
{
    if n <= 0 {
        Seq::empty()
    } else if legal(m, move_at(n - 1)) {
        legal_moves(m, n - 1).push(move_at(n - 1))
    } else {
        legal_moves(m, n - 1)
    }
}

proof fn lemma_legal_moves(m: TootModel, n: int)
    requires
        0 <= n <= NUM_MOVES,
    ensures
        forall|j: int| 0 <= j < legal_moves(m, n).len() ==> legal(m, #[trigger] legal_moves(m, n)[j]),
        (exists|j: int| 0 <= j < n && legal(m, #[trigger] move_at(j))) ==> legal_moves(m, n).len() > 0,
    decreases n,
{
    if n > 0 {
        lemma_legal_moves(m, n - 1);
        let prev = legal_moves(m, n - 1);
        if legal(m, move_at(n - 1)) {
            assert forall|j: int| 0 <= j < legal_moves(m, n).len() implies legal(
                m,
                #[trigger] legal_moves(m, n)[j],
            ) by {
                if j < prev.len() {
                    assert(legal_moves(m, n)[j] == prev[j]);
                }
            }
        }
    }
}

/// In a game that is not over the side to move has a legal move.
pub proof fn lemma_legal_move_exists(m: TootModel)
    requires
        m.wf(),
        !m.termination,
    ensures
        exists|j: int| 0 <= j < NUM_MOVES && legal(m, #[trigger] move_at(j)),
        legal_moves(m, NUM_MOVES as int).len() > 0,
{
    lemma_sum_heights_bounds(m.heights, NUM_COLS as int);
    assert(!forall|c: int| 0 <= c < NUM_COLS ==> #[trigger] m.heights[c] == NUM_ROWS);
    let c = choose|c: int| 0 <= c < NUM_COLS && m.heights[c] != NUM_ROWS;
    let s: int = if m.current_player == Player::TOOT { 0 } else { 1 };
    assert(used(m.countings, s) < 2 * LETTERS_PER_KIND);
    let letter = if m.countings[s][0] > 0 { TOenum::T } else { TOenum::O };
    assert(m.can_drop(letter, c));
    let base: int = if letter == TOenum::T { 0 } else { NUM_COLS as int };
    let i: int = if c == 2 { 0 } else if c == 3 { 1 } else if c == 1 { 2 } else if c == 4 { 3 } else if c == 0 { 4 } else { 5 };
    assert(move_at(base + i) == (c as usize, letter));
    lemma_legal_moves(m, NUM_MOVES as int);
}

proof fn lemma_best_legal(m: TootModel, depth: int, maximizing: bool, n: int)
    requires
        0 <= n <= NUM_MOVES,
        depth > 0,
    ensures
        forall|j: int|
            0 <= j < best(m, depth, maximizing, n).1.len() ==> legal(m, #[trigger] best(m, depth, maximizing, n).1[j]),
        (exists|j: int| 0 <= j < n && legal(m, #[trigger] move_at(j))) ==> best(m, depth, maximizing, n).1.len() > 0,
    decreases n,
{
    if n > 0 {
        lemma_best_legal(m, depth, maximizing, n - 1);
        let prev = best(m, depth, maximizing, n - 1);
        let cur = best(m, depth, maximizing, n);
        let mv = move_at(n - 1);
        if legal(m, mv) {
            assert forall|j: int| 0 <= j < cur.1.len() implies legal(m, #[trigger] cur.1[j]) by {
                if cur.1 != prev.1 && cur.1 != seq![mv] {
                    assert(cur.1 == prev.1.push(mv));
                    if j < prev.1.len() {
                        assert(cur.1[j] == prev.1[j]);
                    }
                }
            }
        }
    }
}

/// Every move the search can return is one that `drop` accepts on the
/// same game, and in a game that is not over there is at least one.
pub proof fn lemma_search_moves_legal(m: TootModel, depth: int, maximizing: bool)
    requires
        m.wf(),
        !m.termination,
        depth > 0,
    ensures
        best_moves_of(m, depth, maximizing).len() > 0,
        forall|mv: (usize, TOenum)| #[trigger] best_moves_of(m, depth, maximizing).contains(mv) ==> legal(m, mv),
{
    lemma_legal_move_exists(m);
    lemma_best_legal(m, depth, maximizing, NUM_MOVES as int);
}

/// Value for the computer of playing `mv`, searched `depth` plies deep in
/// all.
pub open spec fn move_value(m: TootModel, depth: int, maximizing: bool, mv: (usize, TOenum)) -> int {
    minimax(m.next_state(mv.1, mv.0 as int).unwrap(), depth - 1, !maximizing)
}

/// The value that the search settles on is the best value among the legal
/// moves tried (the largest where the computer moves, else the smallest),
/// and the tied moves are exactly the legal moves that reach it.
pub proof fn lemma_best_is_extremum(m: TootModel, depth: int, maximizing: bool, n: int)
    requires
        0 <= n <= NUM_MOVES,
        depth > 0,
    ensures
        forall|j: int|
            0 <= j < n && legal(m, #[trigger] move_at(j)) ==> if maximizing {
                move_value(m, depth, maximizing, move_at(j)) <= best(m, depth, maximizing, n).0
            } else {
                move_value(m, depth, maximizing, move_at(j)) >= best(m, depth, maximizing, n).0
            },
        forall|j: int|
            0 <= j < n && legal(m, #[trigger] move_at(j)) && move_value(m, depth, maximizing, move_at(j))
                == best(m, depth, maximizing, n).0 ==> best(m, depth, maximizing, n).1.contains(move_at(j)),
        forall|mv: (usize, TOenum)|
            #[trigger] best(m, depth, maximizing, n).1.contains(mv) ==> legal(m, mv) && move_value(
                m,
                depth,
                maximizing,
                mv,
            ) == best(m, depth, maximizing, n).0,
    decreases n,
{
    if n > 0 {
        lemma_best_is_extremum(m, depth, maximizing, n - 1);
        lemma_best_legal(m, depth, maximizing, n - 1);
        let prev = best(m, depth, maximizing, n - 1);
        let cur = best(m, depth, maximizing, n);
        let c = move_at(n - 1);
        if legal(m, c) {
            let w = move_value(m, depth, maximizing, c);
            if prev.1.len() == 0 {
                assert forall|j: int| 0 <= j < n - 1 implies !legal(m, #[trigger] move_at(j)) by {
                    if legal(m, move_at(j)) {
                        assert(exists|i: int| 0 <= i < n - 1 && legal(m, #[trigger] move_at(i)));
                    }
                }
                assert(cur.1 == seq![c]);
                assert forall|x: (usize, TOenum)| #[trigger] cur.1.contains(x) implies legal(m, x) && move_value(m, depth, maximizing, x) == cur.0 by {
                    assert(cur.1[0] == c);
                }
                assert(cur.1[0] == c);
            } else if (maximizing && w > prev.0) || (!maximizing && w < prev.0) {
                assert(cur.1 == seq![c]);
                assert(cur.1[0] == c);
                assert forall|x: (usize, TOenum)| #[trigger] cur.1.contains(x) implies legal(m, x) && move_value(m, depth, maximizing, x) == cur.0 by {
                    assert(cur.1[0] == c);
                }
            } else if w == prev.0 {
                assert(cur.1 == prev.1.push(c));
                assert(cur.1[prev.1.len() as int] == c);
                assert forall|j: int|
                    0 <= j < n && legal(m, #[trigger] move_at(j)) && move_value(m, depth, maximizing, move_at(j)) == cur.0
                    implies cur.1.contains(move_at(j)) by {
                    if j < n - 1 {
                        let i = choose|i: int| 0 <= i < prev.1.len() && prev.1[i] == move_at(j);
                        assert(cur.1[i] == move_at(j));
                    }
                }
                assert forall|x: (usize, TOenum)| #[trigger] cur.1.contains(x) implies legal(m, x) && move_value(m, depth, maximizing, x) == cur.0 by {
                    let i = choose|i: int| 0 <= i < cur.1.len() && cur.1[i] == x;
                    if i < prev.1.len() {
                        assert(prev.1[i] == x);
                        assert(prev.1.contains(x));
                    }
                }
            }
        }
    }
}

/// The `j`-th move of `move_at`.
fn move_at_index(order: &[usize; NUM_COLS], j: usize) -> (r: (usize, TOenum))
    requires
        order@ == column_order(),
        j < NUM_MOVES,
    ensures
        r == move_at(j as int),
{
    if j < NUM_COLS {
        (order[j], TOenum::T)
    } else {
        (order[j - NUM_COLS], TOenum::O)
    }
}

/// The search's value of `board`.
fn evaluate(board: TootAndOtto, depth: usize, maximizing: bool) -> (r: i32)
    requires
        board@.wf(),
        depth <= MAX_DEPTH,
    ensures
        r == minimax(board@, depth as int, maximizing),
    decreases depth, 1int,
{
    if board.termination {
        match board.winner {
            None => 0,
            Some(Player::OTTO) => i32::MAX - WIN_BASELINE + depth as i32,
            Some(Player::TOOT) => i32::MIN + WIN_BASELINE - depth as i32,
        }
    } else if depth == 0 {
        board.heuristic_searc_score(Player::OTTO)
    } else {
        best_moves(board, depth, maximizing).1
    }
}

/// Tries every legal move on a copy of `board`, in the order of `move_at`,
/// and returns the moves that tie for the best value, with that value.
pub fn best_moves(board: TootAndOtto, depth: usize, maximizing: bool) -> (r: (Vec<(usize, TOenum)>, i32))
    requires
        board@.wf(),
        !board@.termination,
        0 < depth <= MAX_DEPTH,
    ensures
        r.0@ == best_moves_of(board@, depth as int, maximizing),
        r.1 == best(board@, depth as int, maximizing, NUM_MOVES as int).0,
    decreases depth, 0int,
{
    let order = board.get_columns();
    let mut best_value: i32 = if maximizing { i32::MIN } else { i32::MAX };
    let mut ties: Vec<(usize, TOenum)> = Vec::new();
    let mut j: usize = 0;
    while j < NUM_MOVES
        invariant
            j <= NUM_MOVES,
            0 < depth <= MAX_DEPTH,
            board@.wf(),
            order@ == column_order(),
            (best_value as int, ties@) == best(board@, depth as int, maximizing, j as int),
        decreases NUM_MOVES - j,
    {
        let (col, letter) = move_at_index(&order, j);
        let mut copy = board;
        if copy.drop(letter, col) {
            let v = evaluate(copy, depth - 1, !maximizing);
            if ties.len() == 0 || (maximizing && v > best_value) || (!maximizing && v < best_value) {
                best_value = v;
                ties = vec![(col, letter)];
                assert(ties@ =~= seq![(col, letter)]);
            } else if v == best_value {
                ties.push((col, letter));
            }
        }
        j += 1;
    }
    (ties, best_value)
}

/// Searches `depth` plies and returns a move that ties for the best value,
/// drawn at random among all such moves, with that value. A finished game,
/// or a search of depth 0, returns letter O in column 3 and the game's own
/// value.
pub fn find_best_move(board: TootAndOtto, depth: usize, is_cpu_turn: bool) -> (r: (usize, TOenum, i32))
    requires
        board@.wf(),
        depth <= MAX_DEPTH,
    ensures
        r.2 == minimax(board@, depth as int, is_cpu_turn),
        board@.termination || depth == 0 ==> r.0 == 3 && r.1 == TOenum::O,
        !board@.termination && depth > 0 ==> best_moves_of(board@, depth as int, is_cpu_turn).contains(
            (r.0, r.1),
        ),
{
    if board.termination || depth == 0 {
        return (3, TOenum::O, evaluate(board, depth, is_cpu_turn));
    }
    let (ties, value) = best_moves(board, depth, is_cpu_turn);
    proof {
        lemma_search_moves_legal(board@, depth as int, is_cpu_turn);
    }
    match choose_one(&ties) {
        Some((col, letter)) => (col, letter, value),
        None => (3, TOenum::O, value),
    }
}

/// The legal moves of `board`, in the order of `move_at`.
pub fn legal_moves_of(board: TootAndOtto) -> (r: Vec<(usize, TOenum)>)
    requires
        board@.wf(),
    ensures
        r@ == legal_moves(board@, NUM_MOVES as int),
{
    let order = board.get_columns();
    let mut v: Vec<(usize, TOenum)> = Vec::new();
    let mut j: usize = 0;
    while j < NUM_MOVES
        invariant
            j <= NUM_MOVES,
            board@.wf(),
            order@ == column_order(),
            v@ == legal_moves(board@, j as int),
        decreases NUM_MOVES - j,
    {
        let (col, letter) = move_at_index(&order, j);
        let mut copy = board;
        if copy.drop(letter, col) {
            v.push((col, letter));
        }
        j += 1;
    }
    v
}

/// A legal move, drawn at random.
pub fn random_move(board: TootAndOtto) -> (r: (usize, TOenum))
    requires
        board@.wf(),
        legal_moves(board@, NUM_MOVES as int).len() > 0,
    ensures
        legal_moves(board@, NUM_MOVES as int).contains(r),
        legal(board@, r),
{
    let moves = legal_moves_of(board);
    proof {
        lemma_legal_moves(board@, NUM_MOVES as int);
    }
    match choose_one(&moves) {
        Some(mv) => mv,
        None => (0, TOenum::T),
    }
}

/// The computer's next move at `difficulty`, as (column, letter): level 1
/// plays a random legal move; level 2 plays the searched move, or three
/// times in ten a random legal move; any other level plays the searched
/// move. The search looks `SEARCH_DEPTH` plies ahead.
#[allow(non_snake_case)]
pub fn AI_next_move(board: TootAndOtto, difficulty: usize) -> (r: (usize, TOenum))
    requires
        board@.wf(),
        legal_moves(board@, NUM_MOVES as int).len() > 0,
    ensures
        legal(board@, r),
        legal_moves(board@, NUM_MOVES as int).contains(r) || best_moves_of(board@, SEARCH_DEPTH as int, true).contains(r),
        difficulty == 1 ==> legal_moves(board@, NUM_MOVES as int).contains(r),
        difficulty != 1 && difficulty != 2 ==> best_moves_of(board@, SEARCH_DEPTH as int, true).contains(r),
{
    let (rand_col, rand_letter) = random_move(board);
    if difficulty == 1 {
        return (rand_col, rand_letter);
    }
    let roll = random_below(ROLL_RANGE);
    let (best_col, best_letter, _) = find_best_move(board, SEARCH_DEPTH, true);
    proof {
        lemma_search_moves_legal(board@, SEARCH_DEPTH as int, true);
    }
    select_move(difficulty, (rand_col, rand_letter), (best_col, best_letter), roll)
}

} // verus!
