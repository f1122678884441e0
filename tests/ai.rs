use board_games::con4_ai;
use board_games::connect4::{C4Piece, Connect4};
use board_games::toot_ai;
use board_games::toot_and_otto::{TOenum, TootAndOtto};

fn c4(moves: &[usize]) -> Connect4 {
    let mut g = Connect4::initialize();
    for &c in moves {
        assert!(g.place(c));
    }
    g
}

fn toot(moves: &[(TOenum, usize)]) -> TootAndOtto {
    let mut g = TootAndOtto::new();
    for &(l, c) in moves {
        assert!(g.drop(l, c));
    }
    g
}

#[test]
fn expert_first_move_is_legal() {
    for _ in 0..3 {
        let g = Connect4::initialize();
        let c = con4_ai::AI_next_move(g, 3);
        assert!(g.get_columns().contains(&c));
        let mut copy = g;
        assert!(copy.place(c));
    }
}

#[test]
fn every_level_plays_a_legal_column() {
    let g = c4(&[3, 3, 3, 3, 3, 3, 2]);
    for level in 1..=3 {
        let c = con4_ai::AI_next_move(g, level);
        assert_ne!(c, 3);
        let mut copy = g;
        assert!(copy.place(c));
    }
}

#[test]
fn random_move_is_an_open_column() {
    let g = c4(&[0, 0, 0, 0, 0, 0]);
    for _ in 0..20 {
        let c = con4_ai::random_move(g);
        assert!(c != 0 && c < 7);
    }
}

#[test]
fn search_takes_immediate_win() {
    let g = c4(&[0, 6, 1, 6, 0, 6, 4]);
    assert_eq!(g.current_player, C4Piece::P2);
    assert_eq!(con4_ai::find_best_move(g, 3, true), (6, i32::MAX - 41));
    let (moves, value) = con4_ai::best_moves(g, 3, true);
    assert_eq!(moves, vec![6]);
    assert_eq!(value, i32::MAX - 41);
}

#[test]
fn search_blocks_a_threat() {
    let g = c4(&[0, 6, 1, 6, 2]);
    assert_eq!(con4_ai::find_best_move(g, 3, true).0, 3);
    assert_eq!(con4_ai::AI_next_move(g, 3), 3);
}

#[test]
fn search_on_finished_game_returns_its_value() {
    let g = c4(&[0, 0, 1, 1, 2, 2, 3]);
    assert_eq!(con4_ai::find_best_move(g, 3, true), (3, i32::MIN + 43 - 3));
    let g = Connect4::initialize();
    assert_eq!(con4_ai::find_best_move(g, 0, true), (3, 0));
}

#[test]
fn toot_search_takes_immediate_win() {
    let g = toot(&[(TOenum::O, 0), (TOenum::T, 1), (TOenum::T, 2)]);
    assert_eq!(toot_ai::find_best_move(g, 3, true), (3, TOenum::O, i32::MAX - 23));
    assert_eq!(toot_ai::AI_next_move(g, 3), (3, TOenum::O));
}

#[test]
fn toot_every_level_plays_a_legal_move() {
    let g = toot(&[(TOenum::T, 2), (TOenum::O, 3)]);
    for level in 1..=3 {
        let (c, l) = toot_ai::AI_next_move(g, level);
        let mut copy = g;
        assert!(copy.drop(l, c));
    }
}

#[test]
fn toot_legal_moves_of_new_game() {
    let g = TootAndOtto::new();
    let moves = toot_ai::legal_moves_of(g);
    assert_eq!(moves.len(), 12);
    assert_eq!(moves[0], (2, TOenum::T));
    assert_eq!(moves[6], (2, TOenum::O));
    let (c, l) = toot_ai::random_move(g);
    assert!(moves.contains(&(c, l)));
}

#[test]
fn toot_search_on_finished_game() {
    let g = toot(&[(TOenum::T, 0), (TOenum::O, 1), (TOenum::O, 2), (TOenum::T, 3)]);
    assert_eq!(toot_ai::find_best_move(g, 2, true), (3, TOenum::O, i32::MIN + 25 - 2));
}
