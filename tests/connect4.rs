use board_games::connect4::{C4Piece, Connect4, NUM_COLS, NUM_ROWS};

fn play(moves: &[usize]) -> Connect4 {
    let mut g = Connect4::initialize();
    for &c in moves {
        assert!(g.place(c), "move {} refused", c);
    }
    g
}

fn heights_sum(g: &Connect4) -> usize {
    g.col_row_index.iter().sum()
}

#[test]
fn initialize_is_empty() {
    let g = Connect4::initialize();
    assert_eq!(g.current_player, C4Piece::P1);
    assert_eq!(g.winner, None);
    assert!(!g.termination);
    assert_eq!(g.next_step, 0);
    assert_eq!(g.col_row_index, [0; NUM_COLS]);
    assert_eq!(g.board, [[None; NUM_COLS]; NUM_ROWS]);
}

#[test]
fn piece_switch_flips() {
    assert_eq!(C4Piece::P1.switch(), C4Piece::P2);
    assert_eq!(C4Piece::P2.switch(), C4Piece::P1);
}

#[test]
fn columns_in_center_first_order() {
    let g = Connect4::initialize();
    assert_eq!(g.get_columns(), [3, 2, 4, 1, 5, 0, 6]);
    assert_eq!(g.get_availiable_columns(), vec![3, 2, 4, 1, 5, 0, 6]);
}

#[test]
fn available_columns_skip_full_ones() {
    let g = play(&[2, 2, 2, 2, 2, 2]);
    assert_eq!(g.get_availiable_columns(), vec![3, 4, 1, 5, 0, 6]);
}

#[test]
fn place_stacks_from_the_bottom() {
    let g = play(&[4, 4]);
    assert_eq!(g.board[5][4], Some(C4Piece::P1));
    assert_eq!(g.board[4][4], Some(C4Piece::P2));
    assert_eq!(g.col_row_index[4], 2);
    assert_eq!(g.next_step, 2);
    assert_eq!(g.current_player, C4Piece::P1);
}

#[test]
fn place_out_of_range_is_refused() {
    let mut g = play(&[3]);
    assert!(!g.place(7));
    assert!(!g.place(100));
    assert_eq!(g.next_step, 1);
    assert_eq!(g.current_player, C4Piece::P2);
}

#[test]
fn place_on_full_column_changes_nothing() {
    let mut g = play(&[0, 0, 0, 0, 0, 0]);
    assert_eq!(g.col_row_index[0], NUM_ROWS);
    let before = g;
    assert!(!g.place(0));
    assert_eq!(g.board, before.board);
    assert_eq!(g.current_player, before.current_player);
    assert_eq!(g.winner, before.winner);
    assert_eq!(g.termination, before.termination);
    assert_eq!(g.next_step, before.next_step);
    assert_eq!(g.col_row_index, before.col_row_index);
}

#[test]
fn counter_is_sum_of_heights() {
    let mut g = Connect4::initialize();
    for &c in &[3, 3, 9, 2, 4, 0, 0, 6, 1, 5, 5] {
        g.place(c);
        assert_eq!(g.next_step, heights_sum(&g));
        for h in g.col_row_index.iter() {
            assert!(*h <= NUM_ROWS);
        }
    }
    assert_eq!(g.next_step, 10);
}

#[test]
fn bottom_row_win() {
    let mut g = play(&[0, 0, 1, 1, 2, 2]);
    assert_eq!(g.check_win(C4Piece::P1), None);
    assert!(g.place(3));
    assert_eq!(g.check_win(C4Piece::P1), Some(vec![[5, 0], [5, 1], [5, 2], [5, 3]]));
    assert_eq!(g.winner, Some(C4Piece::P1));
    assert!(g.termination);
}

#[test]
fn no_move_after_the_game_ends() {
    let mut g = play(&[0, 0, 1, 1, 2, 2, 3]);
    assert!(!g.place(4));
    assert_eq!(g.next_step, 7);
    assert_eq!(g.winner, Some(C4Piece::P1));
}

#[test]
fn vertical_win() {
    let g = play(&[0, 1, 0, 1, 0, 1, 0]);
    assert_eq!(g.check_win(C4Piece::P1), Some(vec![[2, 0], [3, 0], [4, 0], [5, 0]]));
    assert_eq!(g.check_win(C4Piece::P2), None);
    assert_eq!(g.winner, Some(C4Piece::P1));
}

#[test]
fn rising_diagonal_win() {
    let g = play(&[0, 1, 1, 2, 2, 3, 2, 3, 3, 6, 3]);
    assert_eq!(g.check_win(C4Piece::P1), Some(vec![[5, 0], [4, 1], [3, 2], [2, 3]]));
    assert!(g.termination);
}

#[test]
fn falling_diagonal_win() {
    let g = play(&[6, 5, 5, 4, 4, 3, 4, 3, 3, 0, 3]);
    assert_eq!(g.check_win(C4Piece::P1), Some(vec![[2, 3], [3, 4], [4, 5], [5, 6]]));
    assert_eq!(g.winner, Some(C4Piece::P1));
}

#[test]
fn check_win_repeats_and_mirrors() {
    let g = play(&[0, 1, 1, 2, 2, 3, 2, 3, 3, 6, 3]);
    let first = g.check_win(C4Piece::P1);
    assert_eq!(g.check_win(C4Piece::P1), first);
    let mut mirrored = g;
    for r in 0..NUM_ROWS {
        for c in 0..NUM_COLS {
            mirrored.board[r][c] = g.board[r][NUM_COLS - 1 - c];
        }
    }
    assert_eq!(mirrored.check_win(C4Piece::P1), Some(vec![[2, 3], [3, 4], [4, 5], [5, 6]]));
    assert_eq!(mirrored.check_win(C4Piece::P2), None);
}

#[test]
fn full_board_without_line_is_a_draw() {
    let moves = [
        3, 3, 3, 3, 3, 3, 0, 0, 0, 0, 0, 0, 1, 1, 1, 1, 1, 1, 4, 2, 2, 2, 2, 2, 2, 4, 4, 4, 4, 4, 5, 5,
        5, 5, 5, 6, 6, 6, 6, 6, 5, 6,
    ];
    let mut g = Connect4::initialize();
    for (i, &c) in moves.iter().enumerate() {
        assert!(!g.termination);
        assert!(g.place(c));
        assert_eq!(g.winner, None);
        assert_eq!(g.termination, i + 1 == NUM_ROWS * NUM_COLS);
    }
    assert_eq!(g.next_step, 42);
    assert!(g.termination);
    assert_eq!(g.winner, None);
    assert!(!g.place(3));
}

#[test]
fn heuristic_of_empty_board_is_zero() {
    let g = Connect4::initialize();
    assert_eq!(g.heuristic_searc_score(C4Piece::P1), 0);
    assert_eq!(g.heuristic_searc_score(C4Piece::P2), 0);
}

#[test]
fn heuristic_center_bonus() {
    let g = play(&[3]);
    assert_eq!(g.heuristic_searc_score(C4Piece::P1), 10);
    assert_eq!(g.heuristic_searc_score(C4Piece::P2), 0);
    let g = play(&[0]);
    assert_eq!(g.heuristic_searc_score(C4Piece::P1), 0);
    assert_eq!(g.heuristic_searc_score(C4Piece::P2), 0);
}

#[test]
fn heuristic_mixed_position() {
    let g = play(&[3, 3, 4, 2]);
    assert_eq!(g.heuristic_searc_score(C4Piece::P1), 2);
    assert_eq!(g.heuristic_searc_score(C4Piece::P2), 2);
}

#[test]
fn heuristic_sees_playable_threat() {
    let g = play(&[0, 6, 1, 6, 2]);
    assert_eq!(g.heuristic_searc_score(C4Piece::P1), 42);
    assert_eq!(g.heuristic_searc_score(C4Piece::P2), -1000008);
}
