//! The computer opponent of the four-in-a-row game. It plays `P2`: a fixed
//! depth minimax search, no pruning, with a random pick among the moves
//! that tie for the best value.
use vstd::prelude::*;
use crate::connect4::{column_order, heuristic, lemma_open_column_exists, open_columns, C4Model, C4Piece, Connect4, NUM_COLS};
use crate::policy::{select_move, ROLL_RANGE};
use crate::random::{choose_one, random_below};

verus! {

/// Search depth of the opponent.
pub const SEARCH_DEPTH: usize = 3;

/// Deepest search that values stay in range for: no game lasts longer.
pub const MAX_DEPTH: usize = 42;

/// One more than the number of cells: the margin by which a finished game's
/// value stays inside the range of `i32`.
pub const WIN_BASELINE: i32 = 43;

/// Value for the computer of a finished game, searched with `depth` plies
/// left: a win is worth more, a loss less, the sooner it comes.
pub open spec fn terminal_value(m: C4Model, depth: int) -> int {
    match m.winner {
        None => 0,
        Some(C4Piece::P2) => i32::MAX - WIN_BASELINE + depth,
        Some(C4Piece::P1) => i32::MIN + WIN_BASELINE - depth,
    }
}

/// Value of a game for the computer by a search of `depth` plies;
/// `maximizing` holds when the computer is to move.
pub open spec fn minimax(m: C4Model, depth: int, maximizing: bool) -> int
    decreases depth, NUM_COLS + 1,
{
    if m.termination {
        terminal_value(m, depth)
    } else if depth <= 0 {
        heuristic(m, C4Piece::P2)
    } else {
        best(m, depth, maximizing, NUM_COLS as int).0
    }
}

/// The best value among the legal moves in the first `n` columns of
/// `column_order()`, and the moves that reach it exactly, in that order.
/// With no legal move it is the worst value for the side to move.
pub open spec fn best(m: C4Model, depth: int, maximizing: bool, n: int) -> (int, Seq<usize>)
    decreases depth, n,
{
    if n <= 0 || depth <= 0 {
        (if maximizing { i32::MIN as int } else { i32::MAX as int }, Seq::empty())
    } else {
        let prev = best(m, depth, maximizing, n - 1);
        let c = column_order()[n - 1];
        if !m.can_place(c as int) {
            prev
        } else {
            let v = minimax(m.next_state(c as int).unwrap(), depth - 1, !maximizing);
            if prev.1.len() == 0 || (maximizing && v > prev.0) || (!maximizing && v < prev.0) {
                (v, seq![c])
            } else if v == prev.0 {
                (prev.0, prev.1.push(c))
            } else {
                prev
            }
        }
    }
}

/// The moves that tie for the best value of a search.
pub open spec fn best_moves_of(m: C4Model, depth: int, maximizing: bool) -> Seq<usize> {
    best(m, depth, maximizing, NUM_COLS as int).1
}

proof fn lemma_best_legal(m: C4Model, depth: int, maximizing: bool, n: int)
    requires
        0 <= n <= NUM_COLS,
        depth > 0,
    ensures
        forall|j: int|
            0 <= j < best(m, depth, maximizing, n).1.len() ==> m.can_place(
                #[trigger] best(m, depth, maximizing, n).1[j] as int,
            ),
        (exists|j: int| 0 <= j < n && m.can_place(column_order()[j] as int)) ==> best(
            m,
            depth,
            maximizing,
            n,
        ).1.len() > 0,
    decreases n,
{
    if n > 0 {
        lemma_best_legal(m, depth, maximizing, n - 1);
        let prev = best(m, depth, maximizing, n - 1);
        let cur = best(m, depth, maximizing, n);
        let c = column_order()[n - 1];
        if m.can_place(c as int) {
            assert forall|j: int| 0 <= j < cur.1.len() implies m.can_place(#[trigger] cur.1[j] as int) by {
                if cur.1 != prev.1 && cur.1 != seq![c] {
                    assert(cur.1 == prev.1.push(c));
                    if j < prev.1.len() {
                        assert(cur.1[j] == prev.1[j]);
                    }
                }
            }
        }
    }
}

/// Every move the search can return is one that `place` accepts on the
/// same game, and in a game that is not over there is at least one.
pub proof fn lemma_search_moves_legal(m: C4Model, depth: int, maximizing: bool)
    requires
        m.wf(),
        !m.termination,
        depth > 0,
    ensures
        best_moves_of(m, depth, maximizing).len() > 0,
        forall|c: usize| #[trigger] best_moves_of(m, depth, maximizing).contains(c) ==> m.can_place(c as int),
{
    lemma_open_column_exists(m);
    lemma_best_legal(m, depth, maximizing, NUM_COLS as int);
}

/// Value for the computer of dropping into column `c`, searched `depth`
/// plies deep in all.
pub open spec fn move_value(m: C4Model, depth: int, maximizing: bool, c: usize) -> int {
    minimax(m.next_state(c as int).unwrap(), depth - 1, !maximizing)
}

/// The value that the search settles on is the best value among the legal
/// moves tried (the largest where the computer moves, else the smallest),
/// and the tied moves are exactly the legal moves that reach it.
pub proof fn lemma_best_is_extremum(m: C4Model, depth: int, maximizing: bool, n: int)
    requires
        0 <= n <= NUM_COLS,
        depth > 0,
    ensures
        forall|j: int|
            0 <= j < n && m.can_place(#[trigger] column_order()[j] as int) ==> if maximizing {
                move_value(m, depth, maximizing, column_order()[j]) <= best(m, depth, maximizing, n).0
            } else {
                move_value(m, depth, maximizing, column_order()[j]) >= best(m, depth, maximizing, n).0
            },
        forall|j: int|
            0 <= j < n && m.can_place(#[trigger] column_order()[j] as int) && move_value(
                m,
                depth,
                maximizing,
                column_order()[j],
            ) == best(m, depth, maximizing, n).0 ==> best(m, depth, maximizing, n).1.contains(
                column_order()[j],
            ),
        forall|c: usize|
            #[trigger] best(m, depth, maximizing, n).1.contains(c) ==> m.can_place(c as int) && move_value(
                m,
                depth,
                maximizing,
                c,
            ) == best(m, depth, maximizing, n).0,
    decreases n,
{
    if n > 0 {
        lemma_best_is_extremum(m, depth, maximizing, n - 1);
        lemma_best_legal(m, depth, maximizing, n - 1);
        let prev = best(m, depth, maximizing, n - 1);
        let cur = best(m, depth, maximizing, n);
        let c = column_order()[n - 1];
        if m.can_place(c as int) {
            let w = move_value(m, depth, maximizing, c);
            if prev.1.len() == 0 {
                assert forall|j: int| 0 <= j < n - 1 implies !m.can_place(#[trigger] column_order()[j] as int) by {
                    if m.can_place(column_order()[j] as int) {
                        assert(exists|i: int| 0 <= i < n - 1 && m.can_place(#[trigger] column_order()[i] as int));
                    }
                }
                assert(cur.1 == seq![c]);
                assert forall|x: usize| #[trigger] cur.1.contains(x) implies m.can_place(x as int) && move_value(m, depth, maximizing, x) == cur.0 by {
                    assert(cur.1[0] == c);
                }
                assert(cur.1[0] == c);
            } else if (maximizing && w > prev.0) || (!maximizing && w < prev.0) {
                assert(cur.1 == seq![c]);
                assert(cur.1[0] == c);
                assert forall|x: usize| #[trigger] cur.1.contains(x) implies m.can_place(x as int) && move_value(m, depth, maximizing, x) == cur.0 by {
                    assert(cur.1[0] == c);
                }
            } else if w == prev.0 {
                assert(cur.1 == prev.1.push(c));
                assert(cur.1[prev.1.len() as int] == c);
                assert forall|j: int|
                    0 <= j < n && m.can_place(#[trigger] column_order()[j] as int) && move_value(m, depth, maximizing, column_order()[j]) == cur.0
                    implies cur.1.contains(column_order()[j]) by {
                    if j < n - 1 {
                        let i = choose|i: int| 0 <= i < prev.1.len() && prev.1[i] == column_order()[j];
                        assert(cur.1[i] == column_order()[j]);
                    }
                }
                assert forall|x: usize| #[trigger] cur.1.contains(x) implies m.can_place(x as int) && move_value(m, depth, maximizing, x) == cur.0 by {
                    let i = choose|i: int| 0 <= i < cur.1.len() && cur.1[i] == x;
                    if i < prev.1.len() {
                        assert(prev.1[i] == x);
                        assert(prev.1.contains(x));
                    }
                }
            }
        }
    }
}

/// The search's value of `board`.
fn evaluate(board: Connect4, depth: usize, maximizing: bool) -> (r: i32)
    requires
        board@.wf(),
        depth <= MAX_DEPTH,
    ensures
        r == minimax(board@, depth as int, maximizing),
    decreases depth, 1int,
{
    if board.termination {
        match board.winner {
            None => 0,
            Some(C4Piece::P2) => i32::MAX - WIN_BASELINE + depth as i32,
            Some(C4Piece::P1) => i32::MIN + WIN_BASELINE - depth as i32,
        }
    } else if depth == 0 {
        board.heuristic_searc_score(C4Piece::P2)
    } else {
        best_moves(board, depth, maximizing).1
    }
}

/// Tries every legal move on a copy of `board`, in the order of
/// `get_columns`, and returns the moves that tie for the best value, with
/// that value.
pub fn best_moves(board: Connect4, depth: usize, maximizing: bool) -> (r: (Vec<usize>, i32))
    requires
        board@.wf(),
        !board@.termination,
        0 < depth <= MAX_DEPTH,
    ensures
        r.0@ == best_moves_of(board@, depth as int, maximizing),
        r.1 == best(board@, depth as int, maximizing, NUM_COLS as int).0,
    decreases depth, 0int,
{
    let order = board.get_columns();
    let mut best_value: i32 = if maximizing { i32::MIN } else { i32::MAX };
    let mut ties: Vec<usize> = Vec::new();
    let mut i: usize = 0;
    while i < NUM_COLS
        invariant
            i <= NUM_COLS,
            0 < depth <= MAX_DEPTH,
            board@.wf(),
            order@ == column_order(),
            (best_value as int, ties@) == best(board@, depth as int, maximizing, i as int),
        decreases NUM_COLS - i,
    {
        let c = order[i];
        let mut copy = board;
        if copy.place(c) {
            let v = evaluate(copy, depth - 1, !maximizing);
            if ties.len() == 0 || (maximizing && v > best_value) || (!maximizing && v < best_value) {
                best_value = v;
                ties = vec![c];
                assert(ties@ =~= seq![c]);
            } else if v == best_value {
                ties.push(c);
            }
        }
        i += 1;
    }
    (ties, best_value)
}

/// Searches `depth` plies and returns a move that ties for the best value,
/// drawn at random among all such moves, with that value. A finished game,
/// or a search of depth 0, returns column 3 and the game's own value.
pub fn find_best_move(board: Connect4, depth: usize, is_cpu_turn: bool) -> (r: (usize, i32))
    requires
        board@.wf(),
        depth <= MAX_DEPTH,
    ensures
        r.1 == minimax(board@, depth as int, is_cpu_turn),
        board@.termination || depth == 0 ==> r.0 == 3,
        !board@.termination && depth > 0 ==> best_moves_of(board@, depth as int, is_cpu_turn).contains(r.0),
{
    if board.termination || depth == 0 {
        return (3, evaluate(board, depth, is_cpu_turn));
    }
    let (ties, value) = best_moves(board, depth, is_cpu_turn);
    proof {
        lemma_search_moves_legal(board@, depth as int, is_cpu_turn);
    }
    match choose_one(&ties) {
        Some(c) => (c, value),
        None => (3, value),
    }
}

/// A column that is not full, drawn at random.
pub fn random_move(board: Connect4) -> (r: usize)
    requires
        open_columns(board@, NUM_COLS as int).len() > 0,
    ensures
        open_columns(board@, NUM_COLS as int).contains(r),
{
    let cols = board.get_availiable_columns();
    match choose_one(&cols) {
        Some(c) => c,
        None => 0,
    }
}

/// The computer's next column at `difficulty`: level 1 plays a random open
/// column; level 2 plays the searched move, or three times in ten a random
/// open column; any other level plays the searched move. The search looks
/// `SEARCH_DEPTH` plies ahead.
#[allow(non_snake_case)]
pub fn AI_next_move(board: Connect4, difficulty: usize) -> (r: usize)
    requires
        board@.wf(),
        open_columns(board@, NUM_COLS as int).len() > 0,
    ensures
        !board@.termination ==> open_columns(board@, NUM_COLS as int).contains(r) || best_moves_of(
            board@,
            SEARCH_DEPTH as int,
            true,
        ).contains(r),
        board@.termination ==> open_columns(board@, NUM_COLS as int).contains(r) || r == 3,
        difficulty == 1 ==> open_columns(board@, NUM_COLS as int).contains(r),
        difficulty != 1 && difficulty != 2 && !board@.termination ==> best_moves_of(
            board@,
            SEARCH_DEPTH as int,
            true,
        ).contains(r),
        !board@.termination ==> board@.can_place(r as int),
{
    let rand_col = random_move(board);
    proof {
        crate::connect4::lemma_open_columns_legal(board@);
    }
    if difficulty == 1 {
        return rand_col;
    }
    let roll = random_below(ROLL_RANGE);
    let (best_col, _) = find_best_move(board, SEARCH_DEPTH, true);
    proof {
        if !board@.termination {
            lemma_search_moves_legal(board@, SEARCH_DEPTH as int, true);
        }
    }
    select_move(difficulty, rand_col, best_col, roll)
}

} // verus!
