use gomoku::john::{
    alive_moves, distinct_cells, pass_verdict, rank_moves, tactical_verdict, Best, Verdict,
};
use gomoku::ordering::{reverse_moves, sort_moves};
use gomoku::{
    bobs_shallow_eval, cell, johns_shallow_eval, Actor, Board, BoardState, BobAI, Budget, CellPos,
    John, NoobAI, NoobEval, RandomAI, Reason, LOST, WIN,
};

fn position(white: &[(usize, usize)], black: &[(usize, usize)]) -> Board {
    let mut board = Board::new();
    let rounds = white.len().max(black.len());
    for i in 0..rounds {
        if i < white.len() {
            assert!(board.make_move(cell(white[i].0, white[i].1)));
        }
        if i < black.len() {
            assert!(board.make_move(cell(black[i].0, black[i].1)));
        }
    }
    board
}

fn grid_of(board: &Board) -> Vec<Option<gomoku::Stone>> {
    let mut grid = Vec::new();
    for i in 0..225 {
        grid.push(board.get(cell(i / 15, i % 15)));
    }
    grid
}

#[derive(Clone, Copy)]
struct Quota {
    rem: f32,
    mp: f32,
}

impl Budget for Quota {
    fn enter(&self) -> Quota {
        Quota { rem: self.rem - (15 * 15) as f32, mp: self.mp }
    }

    fn exhausted(&self) -> bool {
        self.rem < 0.
    }

    fn seed(&self, passes: i32, moves: usize) -> Quota {
        Quota { rem: self.rem / self.mp.powi(passes + 1) / moves as f32, mp: self.mp }
    }

    fn widen(&self) -> Quota {
        Quota { rem: self.rem * self.mp, mp: self.mp }
    }

    fn below_floor(&self) -> bool {
        self.rem < 15. * 15. / self.mp
    }

    fn pass_share(&self, rank: usize, moves: usize) -> Quota {
        let cur = self.rem;
        Quota {
            rem: cur + (cur * self.mp - cur) * ((moves - rank) as f32 / moves as f32),
            mp: self.mp,
        }
    }

    fn final_share(&self, rank: usize, moves: usize) -> Quota {
        let cur = self.rem / moves as f32;
        Quota {
            rem: cur + (cur * self.mp - cur) * (moves - rank) as f32 / moves as f32,
            mp: self.mp,
        }
    }
}

fn quota(rem: f32) -> Quota {
    Quota { rem, mp: 2. }
}

const OPEN_FOUR: [(usize, usize); 4] = [(7, 6), (7, 7), (7, 8), (7, 9)];
const CORNERS: [(usize, usize); 4] = [(0, 0), (14, 14), (0, 14), (14, 0)];

#[test]
fn first_move_of_the_exhaustive_search_is_the_centre() {
    let mut ai = NoobAI { depth: 2 };
    assert_eq!(ai.next(&Board::new()), cell(7, 7));
}

#[test]
fn first_move_of_the_alpha_beta_search_is_the_centre() {
    let mut ai = BobAI::new(3);
    assert_eq!(ai.next(&Board::new()), cell(7, 7));
    assert_eq!(ai.computed_positions(), 0);
    assert_eq!(ai.used_memory(), 0);
}

#[test]
fn first_move_of_the_budget_search_is_the_centre() {
    let mut ai = John::new(quota(10000.), 2);
    assert_eq!(ai.next(&Board::new()), cell(7, 7));
}

#[test]
fn alpha_beta_search_completes_an_open_four() {
    let mut board = position(&OPEN_FOUR, &CORNERS);
    let hash = board.hash();
    let grid = grid_of(&board);
    let mut ai = BobAI::new(2);
    let (score, best) = ai.minmax(0, &mut board, LOST - 1, WIN + 1);
    assert_eq!(score, WIN);
    let best = best.unwrap();
    assert!(best == cell(7, 5) || best == cell(7, 10));
    assert_eq!(board.hash(), hash);
    assert_eq!(grid_of(&board), grid);
    assert!(board.make_move(best));
    assert!(board.check_win_from(best));
}

#[test]
fn alpha_beta_player_completes_an_open_four() {
    let board = position(&OPEN_FOUR, &CORNERS);
    let mut ai = BobAI::new(2);
    let best = ai.next(&board);
    assert!(best == cell(7, 5) || best == cell(7, 10));
    assert_eq!(board.get(best), None);
}

#[test]
fn budget_search_completes_an_open_four() {
    let mut board = position(&OPEN_FOUR, &CORNERS);
    let hash = board.hash();
    let ai = John::new(quota(10000.), 2);
    let (score, best, reason) = ai.minimax(&mut board, LOST - 1, WIN + 1, &quota(10000.));
    assert_eq!(score, WIN);
    assert_eq!(best, Some(cell(7, 5)));
    assert_eq!(reason, Reason::OneMoveWin);
    assert_eq!(board.hash(), hash);
    let mut ai = John::new(quota(10000.), 2);
    assert_eq!(ai.next(&board), cell(7, 5));
}

#[test]
fn budget_search_sees_a_win_in_two_moves() {
    let mut board = position(&[(7, 6), (7, 7), (7, 8)], &[(0, 0), (14, 14), (0, 14)]);
    let ai = John::new(quota(10000.), 2);
    let result = ai.minimax(&mut board, LOST - 1, WIN + 1, &quota(10000.));
    assert_eq!(result, (WIN, Some(cell(7, 5)), Reason::TwoMove));
}

#[test]
fn budget_search_gives_up_against_an_open_four() {
    let mut board = position(&CORNERS, &[(7, 5), (7, 6), (7, 7), (7, 8)]);
    let ai = John::new(quota(10000.), 2);
    let result = ai.minimax(&mut board, LOST - 1, WIN + 1, &quota(10000.));
    assert_eq!(result, (LOST, Some(cell(7, 4)), Reason::OneMoveLoss));
}

#[test]
fn budget_search_is_lost_against_two_fours() {
    let mut board = position(
        &[(14, 14), (14, 10), (10, 14), (10, 10), (12, 7), (8, 12), (12, 2), (9, 6)],
        &[(0, 0), (0, 1), (0, 2), (0, 3), (5, 0), (5, 1), (5, 2), (5, 3)],
    );
    let hash = board.hash();
    let ai = John::new(quota(10000.), 2);
    let result = ai.minimax(&mut board, LOST - 1, WIN + 1, &quota(10000.));
    assert_eq!(result, (LOST, Some(cell(0, 4)), Reason::ForcedLoss));
    assert_eq!(board.hash(), hash);
}

#[test]
fn budget_search_takes_the_one_cell_to_defend() {
    let mut board = position(
        &[(14, 14), (10, 5), (5, 10), (14, 0)],
        &[(3, 1), (3, 2), (3, 4), (3, 5)],
    );
    let hash = board.hash();
    let grid = grid_of(&board);
    let ai = John::new(quota(3000.), 1);
    let (score, best, _) = ai.minimax(&mut board, LOST - 1, WIN + 1, &quota(3000.));
    assert_eq!(best, Some(cell(3, 3)));
    assert!(score > LOST);
    assert_eq!(board.hash(), hash);
    assert_eq!(grid_of(&board), grid);
    let mut ai = John::new(quota(3000.), 1);
    assert_eq!(ai.next(&board), cell(3, 3));
}

#[test]
fn budget_search_without_budget_scores_the_position() {
    let mut board = position(&[(7, 7), (7, 8)], &[(0, 0), (14, 14)]);
    let ai = John::new(quota(100.), 2);
    let result = ai.minimax(&mut board, LOST - 1, WIN + 1, &quota(100.));
    assert_eq!(result, (20, None, Reason::BobsEval));
    let mut ai = John::new(quota(100.), 2);
    let chosen = ai.next(&board);
    assert_eq!(chosen, cell(1, 0));
}

#[test]
fn budget_search_with_budget_answers_an_alive_cell_and_restores_the_board() {
    let mut board = position(&[(7, 7), (7, 8)], &[(6, 7), (8, 8)]);
    let hash = board.hash();
    let grid = grid_of(&board);
    let ai = John::new(quota(4000.), 2);
    let (score, best, _) = ai.minimax(&mut board, LOST - 1, WIN + 1, &quota(4000.));
    assert!(score >= LOST - 1 && score <= WIN + 1);
    let best = best.unwrap();
    assert!(gomoku::valid_move(&board, best));
    assert_eq!(board.hash(), hash);
    assert_eq!(grid_of(&board), grid);
}

#[test]
fn exhaustive_search_completes_an_open_four() {
    let mut board = position(&OPEN_FOUR, &CORNERS);
    let hash = board.hash();
    let ai = NoobAI { depth: 2 };
    let found = ai.minmax(0, &mut board);
    let (best, eval) = found.unwrap();
    assert_eq!(eval, NoobEval::Win);
    assert_eq!(best, cell(7, 5));
    assert_eq!(board.hash(), hash);
    let mut ai = NoobAI { depth: 2 };
    assert_eq!(ai.next(&board), cell(7, 5));
}

#[test]
fn exhaustive_search_at_its_depth_limit_finds_nothing() {
    let mut board = position(&OPEN_FOUR, &CORNERS);
    let ai = NoobAI { depth: 2 };
    assert_eq!(ai.minmax(2, &mut board), None);
    let mut ai = NoobAI { depth: 0 };
    assert_eq!(ai.next(&board), cell(1, 0));
}

#[test]
fn exhaustive_search_of_one_ply_is_uncertain_about_a_quiet_position() {
    let mut board = position(&[(7, 7)], &[(0, 0)]);
    let ai = NoobAI { depth: 1 };
    let (best, eval) = ai.minmax(0, &mut board).unwrap();
    assert_eq!(eval, NoobEval::Uncertain);
    assert_eq!(best, cell(9, 9));
}

#[test]
fn exhaustive_search_knows_a_lost_position() {
    let mut board = position(&CORNERS, &[(7, 5), (7, 6), (7, 7), (7, 8)]);
    let ai = NoobAI { depth: 2 };
    let (_, eval) = ai.minmax(0, &mut board).unwrap();
    assert_eq!(eval, NoobEval::Lose);
}

#[test]
fn alpha_beta_search_at_its_depth_limit_scores_and_remembers() {
    let mut board = position(&[(7, 7), (7, 8)], &[(0, 0), (14, 14)]);
    let mut ai = BobAI::new(2);
    assert_eq!(ai.depth(), 2);
    let first = ai.minmax(2, &mut board, LOST - 1, WIN + 1);
    assert_eq!(first, (bobs_shallow_eval(&board), None));
    assert_eq!(first.0, 20);
    assert_eq!(ai.computed_positions(), 1);
    assert_eq!(ai.used_memory(), 0);
    let second = ai.minmax(2, &mut board, LOST - 1, WIN + 1);
    assert_eq!(second, first);
    assert_eq!(ai.computed_positions(), 1);
    assert_eq!(ai.used_memory(), 1);
}

#[test]
fn alpha_beta_search_remembers_inner_nodes_only_when_told() {
    let mut board = position(&[(7, 7)], &[(0, 0)]);
    let mut ai = BobAI::new(1);
    let first = ai.minmax(0, &mut board, LOST - 1, WIN + 1);
    let used = ai.used_memory();
    let second = ai.minmax(0, &mut board, LOST - 1, WIN + 1);
    assert_eq!(first, second);
    assert!(ai.used_memory() > used);
    assert!(ai.computed_positions() >= 2);

    let mut keen = BobAI::new(1);
    keen.remember_inner(true);
    let first = keen.minmax(0, &mut board, LOST - 1, WIN + 1);
    let computed = keen.computed_positions();
    let used = keen.used_memory();
    let second = keen.minmax(0, &mut board, LOST - 1, WIN + 1);
    assert_eq!(first, second);
    assert_eq!(keen.computed_positions(), computed);
    assert_eq!(keen.used_memory(), used + 1);
}

#[test]
fn alpha_beta_player_answers_an_empty_cell_and_leaves_the_board() {
    let board = position(&[(7, 7), (7, 8)], &[(6, 7), (8, 8)]);
    let hash = board.hash();
    let mut ai = BobAI::new(2);
    let chosen = ai.next(&board);
    assert_eq!(board.get(chosen), None);
    assert!(gomoku::valid_move(&board, chosen));
    assert_eq!(board.hash(), hash);
    assert!(ai.computed_positions() > 0);
}

#[test]
fn random_player_answers_empty_cells() {
    let board = position(&[(0, 0), (7, 7), (3, 3)], &[(1, 0), (2, 0), (0, 1)]);
    let mut ai = RandomAI {};
    for _ in 0..200 {
        let chosen = ai.next(&board);
        assert_eq!(board.get(chosen), None);
    }
}

#[test]
fn random_player_finds_the_last_empty_cell() {
    let mut board = Board::new();
    for i in 0..225 {
        let (x, y) = (i / 15, i % 15);
        if (x, y) != (0, 0) && (x, y) != (9, 4) {
            assert!(board.make_move(cell(x, y)));
        }
    }
    assert!(board.make_move(cell(0, 0)));
    let mut ai = RandomAI {};
    assert_eq!(ai.next(&board), cell(9, 4));
}

#[test]
fn board_keys_are_drawn_by_chance() {
    let board = Board::new();
    let keys = board.cell_hashes();
    let mut distinct: Vec<u64> = Vec::new();
    for i in 0..225 {
        for j in 0..3 {
            if !distinct.contains(&keys[i][j]) {
                distinct.push(keys[i][j]);
            }
        }
    }
    assert!(distinct.len() > 600);
}

#[test]
fn distinct_cells_are_sorted_and_without_repeats() {
    let cells: Vec<CellPos> = vec![cell(5, 4), cell(0, 4), cell(5, 4), cell(0, 3), cell(0, 4)];
    assert_eq!(distinct_cells(&cells), vec![cell(0, 3), cell(0, 4), cell(5, 4)]);
    assert_eq!(distinct_cells(&Vec::new()), Vec::<CellPos>::new());
}

#[test]
fn moves_are_sorted_by_score_and_keep_their_order_when_equal() {
    let moves = vec![(5, cell(0, 0)), (-3, cell(1, 1)), (5, cell(2, 2)), (0, cell(3, 3)), (-3, cell(4, 4))];
    let sorted = sort_moves(moves);
    assert_eq!(
        sorted,
        vec![(-3, cell(1, 1)), (-3, cell(4, 4)), (0, cell(3, 3)), (5, cell(0, 0)), (5, cell(2, 2))]
    );
    let turned = reverse_moves(sorted);
    assert_eq!(
        turned,
        vec![(5, cell(2, 2)), (5, cell(0, 0)), (0, cell(3, 3)), (-3, cell(4, 4)), (-3, cell(1, 1))]
    );
}

#[test]
fn tactics_decide_before_any_search() {
    assert_eq!(tactical_verdict(&BoardState::Boring), Verdict::Open);
    assert_eq!(
        tactical_verdict(&BoardState::OneMoveWin(cell(7, 5))),
        Verdict::Decided(WIN, cell(7, 5), Reason::OneMoveWin)
    );
    assert_eq!(
        tactical_verdict(&BoardState::TwoMoveWin(cell(7, 5))),
        Verdict::Decided(WIN, cell(7, 5), Reason::TwoMove)
    );
    assert_eq!(
        tactical_verdict(&BoardState::OneMoveLoss(cell(7, 4))),
        Verdict::Decided(LOST, cell(7, 4), Reason::OneMoveLoss)
    );
    assert_eq!(
        tactical_verdict(&BoardState::ForcedDefense(vec![cell(3, 3), cell(3, 3)])),
        Verdict::Forced(cell(3, 3))
    );
    assert_eq!(
        tactical_verdict(&BoardState::ForcedDefense(vec![cell(5, 4), cell(0, 4), cell(5, 4)])),
        Verdict::Decided(LOST, cell(0, 4), Reason::ForcedLoss)
    );
}

#[test]
fn a_widening_pass_ends_the_search_when_lost_or_won() {
    assert_eq!(pass_verdict(&Vec::new()), Some((LOST, None, Reason::AllLosingMoves)));
    assert_eq!(
        pass_verdict(&vec![(WIN, cell(1, 2)), (5, cell(3, 4))]),
        Some((WIN, Some(cell(1, 2)), Reason::WinningMove))
    );
    assert_eq!(pass_verdict(&vec![(17, cell(1, 2)), (5, cell(3, 4))]), None);
}

#[test]
fn the_best_move_follows_the_lower_bound() {
    let mut best = Best { low: 10, eval: LOST - 1, cell: cell(0, 0), reason: Reason::BobsEval };
    assert!(!best.take(5, Reason::TwoMove, cell(1, 1), 100));
    assert_eq!(best, Best { low: 10, eval: 5, cell: cell(0, 0), reason: Reason::TwoMove });
    assert!(!best.take(20, Reason::OneMoveLoss, cell(2, 2), 100));
    assert_eq!(best, Best { low: 20, eval: 20, cell: cell(2, 2), reason: Reason::OneMoveLoss });
    assert!(!best.take(15, Reason::WinningMove, cell(3, 3), 100));
    assert_eq!(best, Best { low: 20, eval: 20, cell: cell(2, 2), reason: Reason::OneMoveLoss });
    assert!(best.take(100, Reason::WinningMove, cell(4, 4), 100));
    assert_eq!(best, Best { low: 100, eval: 100, cell: cell(4, 4), reason: Reason::WinningMove });
}

#[test]
fn twos_and_threes_to_come_are_weighed() {
    assert_eq!(johns_shallow_eval(&Board::new()), 0);
    let board = position(&[(7, 7), (7, 8)], &[(0, 0), (14, 14)]);
    assert_eq!(johns_shallow_eval(&board), 60);
    let board = position(&[(7, 7), (7, 8)], &[(0, 0)]);
    assert_eq!(johns_shallow_eval(&board), -40);
    let board = position(&[(7, 7), (7, 8)], &[(7, 10), (14, 14)]);
    assert_eq!(johns_shallow_eval(&board), 40);
    let board = position(&[(7, 7), (7, 8)], &[(7, 9), (14, 14)]);
    assert_eq!(johns_shallow_eval(&board), 0);
    let board = position(&[(7, 6), (7, 7), (7, 8)], &[(0, 0), (14, 14), (0, 14)]);
    assert_eq!(johns_shallow_eval(&board), 400);
    let board = position(&[(7, 6), (7, 7), (7, 8)], &[(7, 9), (14, 14), (0, 14)]);
    assert_eq!(johns_shallow_eval(&board), 0);
    let board = position(&[(7, 6), (7, 7), (7, 8)], &[(7, 4), (14, 14), (0, 14)]);
    assert_eq!(johns_shallow_eval(&board), 230);
}

#[test]
fn alive_moves_come_in_row_major_order_and_rank_in_reverse() {
    let board = position(&[(0, 0)], &[]);
    let moves = alive_moves(&board);
    assert_eq!(
        moves,
        vec![
            (0, cell(1, 0)),
            (0, cell(2, 0)),
            (0, cell(0, 1)),
            (0, cell(1, 1)),
            (0, cell(0, 2)),
            (0, cell(2, 2)),
        ]
    );
    let ranked = rank_moves(moves);
    assert_eq!(ranked[0], (0, cell(2, 2)));
    assert_eq!(ranked[5], (0, cell(1, 0)));
    let ranked = rank_moves(vec![(3, cell(0, 0)), (9, cell(1, 1)), (3, cell(2, 2))]);
    assert_eq!(ranked, vec![(9, cell(1, 1)), (3, cell(2, 2)), (3, cell(0, 0))]);
}

#[test]
fn alpha_beta_player_tells_the_score_of_its_move() {
    let mut ai = BobAI::new(2);
    assert_eq!(ai.next_scored(&Board::new()), (None, cell(7, 7)));
    let board = position(&OPEN_FOUR, &CORNERS);
    let (score, best) = ai.next_scored(&board);
    assert_eq!(score, Some(WIN));
    assert!(best == cell(7, 5) || best == cell(7, 10));
}

#[test]
fn budget_search_scores_lie_between_lost_and_win() {
    let mut board = position(&[(7, 7), (7, 8), (6, 6)], &[(6, 7), (8, 8), (5, 5)]);
    let ai = John::new(quota(6000.), 2);
    let (score, best, _) = ai.minimax(&mut board, LOST - 1, WIN + 1, &quota(6000.));
    assert!(score >= LOST && score <= WIN);
    assert!(best.is_some());
}
