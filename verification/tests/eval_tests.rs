use gomoku::threat::Finding;
use gomoku::{bobs_shallow_eval, cell, valid_move, Board, BoardState, LOST, WIN};

fn position(white: &[(usize, usize)], black: &[(usize, usize)]) -> Board {
    let mut board = Board::new();
    let rounds = white.len().max(black.len());
    for i in 0..rounds {
        if i < white.len() {
            assert!(board.make_move(cell(white[i].0, white[i].1)));
        }
        if i < black.len() {
            assert!(board.make_move(cell(black[i].0, black[i].1)));
        }
    }
    board
}

#[test]
fn constants_of_the_scores() {
    assert_eq!(WIN, 1_000_000);
    assert_eq!(LOST, -1_000_000);
}

#[test]
fn empty_board_scores_zero() {
    assert_eq!(bobs_shallow_eval(&Board::new()), 0);
}

#[test]
fn open_two_of_the_mover_scores_twenty() {
    let board = position(&[(7, 7), (7, 8)], &[(0, 0), (14, 14)]);
    assert_eq!(bobs_shallow_eval(&board), 20);
}

#[test]
fn open_two_of_the_opponent_scores_minus_ten() {
    let board = position(&[(7, 7), (7, 8)], &[(0, 0)]);
    assert_eq!(bobs_shallow_eval(&board), -10);
}

#[test]
fn half_open_two_of_the_mover_scores_two() {
    let board = position(&[(0, 0), (0, 1)], &[(14, 14), (10, 5)]);
    assert_eq!(bobs_shallow_eval(&board), 2);
}

#[test]
fn half_open_three_of_the_opponent_scores_minus_thirty() {
    let board = position(&[(14, 14), (10, 5), (5, 10)], &[(0, 0), (0, 1), (0, 2)]);
    assert_eq!(bobs_shallow_eval(&board), -30);
}

#[test]
fn half_open_three_of_the_mover_scores_sixty() {
    let board = position(&[(14, 14), (10, 5), (5, 10), (14, 0)], &[(0, 0), (0, 1), (0, 2)]);
    assert_eq!(bobs_shallow_eval(&board), 60);
}

#[test]
fn gap_between_two_stones_of_the_mover_counts_as_a_two() {
    let board = position(&[(7, 7), (7, 9)], &[(0, 0), (14, 14)]);
    assert_eq!(bobs_shallow_eval(&board), 20);
}

#[test]
fn open_three_of_the_mover_is_a_win() {
    let board = position(&[(7, 7), (7, 8), (7, 9)], &[(0, 0), (14, 14), (0, 14)]);
    assert_eq!(bobs_shallow_eval(&board), WIN);
}

#[test]
fn open_three_of_the_mover_beside_a_half_open_four_is_no_win() {
    let board = position(
        &[(7, 7), (7, 8), (7, 9), (14, 14)],
        &[(0, 0), (0, 1), (0, 2), (0, 3)],
    );
    assert_eq!(bobs_shallow_eval(&board), 3 * 300 - 4 * 70);
}

#[test]
fn open_four_of_the_opponent_is_lost() {
    let board = position(
        &[(0, 0), (14, 14), (0, 14), (14, 0)],
        &[(7, 5), (7, 6), (7, 7), (7, 8)],
    );
    assert_eq!(bobs_shallow_eval(&board), LOST);
}

#[test]
fn five_of_the_opponent_is_lost() {
    let board = position(
        &[(14, 14), (10, 5), (5, 10), (14, 0), (10, 10)],
        &[(0, 0), (0, 1), (0, 2), (0, 3), (0, 4)],
    );
    assert_eq!(bobs_shallow_eval(&board), LOST);
}

#[test]
fn four_of_the_mover_is_a_win() {
    let board = position(
        &[(7, 5), (7, 6), (7, 7), (7, 8)],
        &[(0, 0), (14, 14), (0, 14), (14, 0)],
    );
    assert_eq!(bobs_shallow_eval(&board), WIN);
}

#[test]
fn extending_an_open_two_to_an_open_three_raises_the_score() {
    let two = position(&[(7, 7), (7, 8), (3, 3)], &[(0, 0), (14, 14), (0, 14)]);
    let three = position(&[(7, 7), (7, 8), (7, 9)], &[(0, 0), (14, 14), (0, 14)]);
    assert_eq!(bobs_shallow_eval(&two), 20);
    assert!(bobs_shallow_eval(&three) > bobs_shallow_eval(&two));
}

#[test]
fn alive_cells_lie_within_two_steps_of_a_stone() {
    let board = position(&[(7, 7)], &[]);
    assert!(valid_move(&board, cell(7, 8)));
    assert!(valid_move(&board, cell(7, 9)));
    assert!(valid_move(&board, cell(5, 5)));
    assert!(valid_move(&board, cell(9, 5)));
    assert!(!valid_move(&board, cell(7, 10)));
    assert!(!valid_move(&board, cell(8, 9)));
    assert!(!valid_move(&board, cell(7, 7)));
    assert!(!valid_move(&board, cell(0, 0)));
}

#[test]
fn quiet_position_is_boring() {
    assert!(matches!(BoardState::compute(&Board::new()), BoardState::Boring));
    let board = position(&[(7, 7), (7, 8)], &[(0, 0), (14, 14)]);
    assert!(matches!(BoardState::compute(&board), BoardState::Boring));
}

#[test]
fn priorities_ascend_from_boring_to_one_move_win() {
    assert_eq!(BoardState::Boring.priority(), 0);
    assert_eq!(BoardState::TwoMoveWin(cell(0, 0)).priority(), 2);
    assert_eq!(BoardState::ForcedDefense(vec![cell(0, 0)]).priority(), 3);
    assert_eq!(BoardState::OneMoveLoss(cell(0, 0)).priority(), 4);
    assert_eq!(BoardState::OneMoveWin(cell(0, 0)).priority(), 5);
    assert_ne!(Finding::Win, Finding::Defense);
}

#[test]
fn open_three_of_the_mover_is_a_two_move_win() {
    let board = position(&[(7, 6), (7, 7), (7, 8)], &[(0, 0), (14, 14), (0, 14)]);
    match BoardState::compute(&board) {
        BoardState::TwoMoveWin(c) => assert_eq!(c, cell(7, 5)),
        other => panic!("{:?}", other),
    }
}

#[test]
fn split_three_of_the_mover_is_a_two_move_win() {
    let board = position(&[(7, 5), (7, 7), (7, 8)], &[(0, 0), (14, 14), (0, 14)]);
    match BoardState::compute(&board) {
        BoardState::TwoMoveWin(c) => assert_eq!(c, cell(7, 6)),
        other => panic!("{:?}", other),
    }
}

#[test]
fn open_four_of_the_opponent_is_a_one_move_loss() {
    let board = position(
        &[(0, 0), (14, 14), (0, 14), (14, 0)],
        &[(7, 5), (7, 6), (7, 7), (7, 8)],
    );
    match BoardState::compute(&board) {
        BoardState::OneMoveLoss(c) => assert_eq!(c, cell(7, 4)),
        other => panic!("{:?}", other),
    }
}

#[test]
fn bounded_four_of_the_opponent_forces_a_defense() {
    let board = position(
        &[(14, 14), (10, 5), (5, 10), (14, 0)],
        &[(0, 0), (0, 1), (0, 2), (0, 3)],
    );
    match BoardState::compute(&board) {
        BoardState::ForcedDefense(cells) => assert_eq!(cells, vec![cell(0, 4)]),
        other => panic!("{:?}", other),
    }
}

#[test]
fn split_four_of_the_opponent_is_seen_from_both_sides() {
    let board = position(
        &[(14, 14), (10, 5), (5, 10), (14, 0)],
        &[(3, 1), (3, 2), (3, 4), (3, 5)],
    );
    match BoardState::compute(&board) {
        BoardState::ForcedDefense(cells) => assert_eq!(cells, vec![cell(3, 3), cell(3, 3)]),
        other => panic!("{:?}", other),
    }
}

#[test]
fn two_fours_of_the_opponent_give_two_cells_to_defend() {
    let board = position(
        &[(14, 14), (14, 10), (10, 14), (10, 10), (12, 7), (8, 12), (12, 2), (9, 6)],
        &[(0, 0), (0, 1), (0, 2), (0, 3), (5, 0), (5, 1), (5, 2), (5, 3)],
    );
    match BoardState::compute(&board) {
        BoardState::ForcedDefense(cells) => {
            assert_eq!(cells.len(), 2);
            assert_eq!(cells, vec![cell(0, 4), cell(5, 4)]);
        },
        other => panic!("{:?}", other),
    }
}

#[test]
fn winning_cell_overrides_a_cell_to_defend() {
    let board = position(
        &[(7, 6), (7, 7), (7, 8), (7, 9)],
        &[(0, 0), (0, 1), (0, 2), (0, 3)],
    );
    match BoardState::compute(&board) {
        BoardState::OneMoveWin(c) => assert_eq!(c, cell(7, 5)),
        other => panic!("{:?}", other),
    }
}

#[test]
fn winning_cell_overrides_an_open_four_of_the_opponent() {
    let board = position(
        &[(12, 6), (12, 7), (12, 8), (12, 9)],
        &[(3, 1), (3, 2), (3, 3), (3, 4)],
    );
    match BoardState::compute(&board) {
        BoardState::OneMoveWin(c) => assert_eq!(c, cell(12, 5)),
        other => panic!("{:?}", other),
    }
}

#[test]
fn six_in_a_row_would_not_be_a_winning_cell() {
    let board = position(
        &[(7, 3), (7, 4), (7, 5), (7, 7), (7, 8)],
        &[(0, 0), (14, 14), (0, 14), (14, 0), (0, 7)],
    );
    assert!(!matches!(BoardState::compute(&board), BoardState::OneMoveWin(_)));
}
