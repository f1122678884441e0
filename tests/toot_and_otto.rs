use board_games::toot_and_otto::{Player, TOenum, TootAndOtto, NUM_COLS, NUM_ROWS};

fn play(moves: &[(TOenum, usize)]) -> TootAndOtto {
    let mut g = TootAndOtto::new();
    for &(l, c) in moves {
        assert!(g.drop(l, c), "move {:?} {} refused", l, c);
    }
    g
}

#[test]
fn new_game_is_empty_with_full_stocks() {
    let g = TootAndOtto::new();
    assert_eq!(g.current_player, Player::TOOT);
    assert_eq!(g.winner, None);
    assert!(!g.termination);
    assert_eq!(g.next_step, 0);
    assert_eq!(g.countings, [[6, 6], [6, 6]]);
    assert_eq!(g.current_height, [0; NUM_COLS]);
    assert_eq!(g.board, [[None; NUM_COLS]; NUM_ROWS]);
}

#[test]
fn player_switch_flips() {
    assert_eq!(Player::TOOT.switch(), Player::OTTO);
    assert_eq!(Player::OTTO.switch(), Player::TOOT);
}

#[test]
fn toot_columns_in_center_first_order() {
    assert_eq!(TootAndOtto::new().get_columns(), [2, 3, 1, 4, 0, 5]);
}

#[test]
fn drop_stacks_and_counts() {
    let g = play(&[(TOenum::T, 1), (TOenum::O, 1)]);
    assert_eq!(g.board[3][1], Some(TOenum::T));
    assert_eq!(g.board[2][1], Some(TOenum::O));
    assert_eq!(g.current_height[1], 2);
    assert_eq!(g.get_height(1), 2);
    assert_eq!(g.get_height(0), 0);
    assert_eq!(g.countings, [[5, 6], [6, 5]]);
    assert_eq!(g.next_step, 2);
    assert_eq!(g.current_player, Player::TOOT);
}

#[test]
fn drop_out_of_range_is_refused() {
    let mut g = TootAndOtto::new();
    assert!(!g.drop(TOenum::T, 6));
    assert_eq!(g.next_step, 0);
    assert_eq!(g.countings, [[6, 6], [6, 6]]);
}

#[test]
fn drop_on_full_column_changes_nothing() {
    let mut g = play(&[(TOenum::T, 0), (TOenum::T, 0), (TOenum::T, 0), (TOenum::T, 0)]);
    let before = g;
    assert!(!g.drop(TOenum::O, 0));
    assert_eq!(g.board, before.board);
    assert_eq!(g.countings, before.countings);
    assert_eq!(g.current_height, before.current_height);
    assert_eq!(g.next_step, before.next_step);
    assert_eq!(g.current_player, before.current_player);
}

#[test]
fn exhausted_letter_is_refused_everywhere() {
    let moves = [
        (TOenum::T, 0),
        (TOenum::T, 5),
        (TOenum::T, 0),
        (TOenum::T, 5),
        (TOenum::T, 0),
        (TOenum::T, 5),
        (TOenum::T, 0),
        (TOenum::T, 5),
        (TOenum::T, 1),
        (TOenum::T, 4),
        (TOenum::T, 1),
        (TOenum::T, 4),
    ];
    let mut g = play(&moves);
    assert_eq!(g.current_player, Player::TOOT);
    assert_eq!(g.countings[0], [0, 6]);
    for c in 0..NUM_COLS {
        assert!(!g.drop(TOenum::T, c));
    }
    assert_eq!(g.next_step, 12);
    assert!(g.drop(TOenum::O, 2));
    assert_eq!(g.countings[0], [0, 5]);
    assert_eq!(g.countings[1], [0, 6]);
}

#[test]
fn toot_row_win() {
    let mut g = play(&[(TOenum::T, 0), (TOenum::O, 1), (TOenum::O, 2)]);
    assert_eq!(g.check_win(Player::TOOT), None);
    assert!(g.drop(TOenum::T, 3));
    assert_eq!(g.check_win(Player::TOOT), Some(vec![[3, 0], [3, 1], [3, 2], [3, 3]]));
    assert_eq!(g.check_win(Player::OTTO), None);
    assert_eq!(g.winner, Some(Player::TOOT));
    assert!(g.termination);
    assert!(!g.drop(TOenum::T, 4));
}

#[test]
fn both_words_at_once_end_without_winner() {
    let g = play(&[
        (TOenum::T, 0),
        (TOenum::O, 1),
        (TOenum::O, 2),
        (TOenum::T, 4),
        (TOenum::O, 5),
        (TOenum::T, 3),
    ]);
    assert_eq!(g.check_win(Player::TOOT), Some(vec![[3, 0], [3, 1], [3, 2], [3, 3]]));
    assert_eq!(g.check_win(Player::OTTO), Some(vec![[3, 2], [3, 3], [3, 4], [3, 5]]));
    assert_eq!(g.winner, None);
    assert!(g.termination);
}

#[test]
fn otto_vertical_win() {
    let g = play(&[(TOenum::O, 2), (TOenum::T, 2), (TOenum::T, 2), (TOenum::O, 2)]);
    assert_eq!(g.check_win(Player::OTTO), Some(vec![[0, 2], [1, 2], [2, 2], [3, 2]]));
    assert_eq!(g.winner, Some(Player::OTTO));
}

#[test]
fn toot_heuristic_values() {
    let g = TootAndOtto::new();
    assert_eq!(g.heuristic_searc_score(Player::TOOT), 0);
    assert_eq!(g.heuristic_searc_score(Player::OTTO), 0);
    let g = play(&[(TOenum::T, 2)]);
    assert_eq!(g.heuristic_searc_score(Player::TOOT), 0);
    assert_eq!(g.heuristic_searc_score(Player::OTTO), 0);
    let g = play(&[(TOenum::T, 0), (TOenum::O, 1), (TOenum::O, 2)]);
    assert_eq!(g.heuristic_searc_score(Player::TOOT), 50);
    assert_eq!(g.heuristic_searc_score(Player::OTTO), -1000000);
}
