use board_games::connect4::Connect4;
use board_games::opponent::Opponent;
use board_games::policy::select_move;
use board_games::report::{connect4_report, toot_report, MODE_CONNECT4, MODE_TOOT, RESULT_LOSS, RESULT_TIE, RESULT_WIN};
use board_games::toot_and_otto::{TOenum, TootAndOtto};
use board_games::window::window_score;

#[test]
fn window_policy_values() {
    assert_eq!(window_score(1, 1, 2, 0), 0);
    assert_eq!(window_score(2, 2, 0, 0), 0);
    assert_eq!(window_score(4, 0, 0, 0), 1000000);
    assert_eq!(window_score(3, 0, 1, 0), 50);
    assert_eq!(window_score(2, 0, 2, 0), 2);
    assert_eq!(window_score(0, 3, 1, 0), -1000000);
    assert_eq!(window_score(0, 3, 0, 1), -100);
    assert_eq!(window_score(0, 2, 1, 1), -10);
    assert_eq!(window_score(1, 0, 3, 0), 0);
    assert_eq!(window_score(0, 4, 0, 0), 0);
    assert_eq!(window_score(0, 1, 3, 0), 0);
}

#[test]
fn mixed_window_is_zero_for_both_sides() {
    assert_eq!(window_score(1, 2, 1, 0), 0);
    assert_eq!(window_score(2, 1, 1, 0), 0);
    assert_eq!(window_score(3, 1, 0, 0), 0);
    assert_eq!(window_score(1, 3, 0, 0), 0);
}

#[test]
fn sparse_window_is_antisymmetric() {
    assert_eq!(window_score(0, 0, 4, 0), -window_score(0, 0, 4, 0));
    assert_eq!(window_score(1, 0, 3, 0), -window_score(0, 1, 3, 0));
}

#[test]
fn difficulty_policy() {
    assert_eq!(select_move(1, 5, 9, 99), 5);
    assert_eq!(select_move(2, 5, 9, 29), 5);
    assert_eq!(select_move(2, 5, 9, 30), 9);
    assert_eq!(select_move(3, 5, 9, 0), 9);
    assert_eq!(select_move(7, 5, 9, 0), 9);
}

#[test]
fn opponent_levels_and_names() {
    assert_eq!(Opponent::Human.difficulty(), 0);
    assert_eq!(Opponent::EasyMode.difficulty(), 1);
    assert_eq!(Opponent::NormalMode.difficulty(), 2);
    assert_eq!(Opponent::ExpertMode.difficulty(), 3);
    assert_eq!(Opponent::Human.name(), "Human");
    assert_eq!(Opponent::EasyMode.name(), "Easy");
    assert_eq!(Opponent::NormalMode.name(), "Normal");
    assert_eq!(Opponent::ExpertMode.name(), "Expert");
    assert!(Opponent::NormalMode == Opponent::NormalMode);
    assert!(Opponent::Human != Opponent::ExpertMode);
}

#[test]
fn connect4_reports() {
    let mut g = Connect4::initialize();
    assert!(connect4_report("ann".to_string(), &g, Opponent::EasyMode).is_none());
    for c in [0, 0, 1, 1, 2, 2, 3] {
        assert!(g.place(c));
    }
    let u = connect4_report("ann".to_string(), &g, Opponent::EasyMode).unwrap();
    assert_eq!(u.username, "ann");
    assert_eq!(u.mode, MODE_CONNECT4);
    assert_eq!(u.result, RESULT_WIN);
    assert_eq!(u.human_flag, 0);
    let mut g = Connect4::initialize();
    for c in [6, 0, 6, 1, 5, 2, 6, 3] {
        assert!(g.place(c));
    }
    let u = connect4_report("bo".to_string(), &g, Opponent::Human).unwrap();
    assert_eq!(u.result, RESULT_LOSS);
    assert_eq!(u.human_flag, 1);
}

#[test]
fn toot_reports_tie_when_both_words_stand() {
    let mut g = TootAndOtto::new();
    for (l, c) in [(TOenum::T, 0), (TOenum::O, 1), (TOenum::O, 2), (TOenum::T, 4), (TOenum::O, 5)] {
        assert!(g.drop(l, c));
        assert!(toot_report("cy".to_string(), &g, Opponent::NormalMode).is_none());
    }
    assert!(g.drop(TOenum::T, 3));
    let u = toot_report("cy".to_string(), &g, Opponent::NormalMode).unwrap();
    assert_eq!(u.mode, MODE_TOOT);
    assert_eq!(u.result, RESULT_TIE);
    assert_eq!(u.human_flag, 0);
}

use board_games::scores::{normalized_rank, score_action, score_delta, ScoreAction, ScoreDelta};

#[test]
fn score_deltas_per_result() {
    assert_eq!(
        score_delta(RESULT_WIN),
        ScoreDelta { win_count: 1, lose_count: 0, tie_count: 0, score: 5, rank: -5 }
    );
    assert_eq!(
        score_delta(RESULT_LOSS),
        ScoreDelta { win_count: 0, lose_count: 1, tie_count: 0, score: -3, rank: -1 }
    );
    assert_eq!(
        score_delta(RESULT_TIE),
        ScoreDelta { win_count: 0, lose_count: 0, tie_count: 1, score: 2, rank: -2 }
    );
}

#[test]
fn score_actions() {
    assert_eq!(score_action(MODE_CONNECT4, RESULT_WIN, 1), ScoreAction::Skip);
    assert_eq!(score_action(5, RESULT_WIN, 0), ScoreAction::UnknownMode);
    assert_eq!(score_action(MODE_TOOT, RESULT_LOSS, 0), ScoreAction::Apply(MODE_TOOT, score_delta(RESULT_LOSS)));
}

#[test]
fn ranks_out_of_range_become_one() {
    assert_eq!(normalized_rank(0), (1, true));
    assert_eq!(normalized_rank(-255), (1, true));
    assert_eq!(normalized_rank(100001), (1, true));
    assert_eq!(normalized_rank(100000), (100000, false));
    assert_eq!(normalized_rank(7), (7, false));
}
