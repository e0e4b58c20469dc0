use gomoku::{cell, Board};

fn set_up(white: &[(usize, usize)], black: &[(usize, usize)]) -> Board {
    let mut board = Board::new();
    let rounds = white.len().max(black.len());
    for i in 0..rounds {
        if i < white.len() {
            assert!(board.make_move(cell(white[i].0, white[i].1)));
        }
        if i < black.len() {
            assert!(board.make_move(cell(black[i].0, black[i].1)));
        }
    }
    board
}

const FAR: [(usize, usize); 7] = [(0, 14), (2, 12), (4, 14), (6, 12), (8, 14), (10, 12), (12, 14)];

#[test]
fn five_in_a_row_wins_from_each_of_its_cells() {
    let lines: [[(usize, usize); 5]; 4] = [
        [(7, 3), (7, 4), (7, 5), (7, 6), (7, 7)],
        [(3, 7), (4, 7), (5, 7), (6, 7), (7, 7)],
        [(3, 3), (4, 4), (5, 5), (6, 6), (7, 7)],
        [(3, 9), (4, 8), (5, 7), (6, 6), (7, 5)],
    ];
    for line in lines.iter() {
        let board = set_up(line, &FAR[0..4]);
        for c in line.iter() {
            assert!(board.check_win_from(cell(c.0, c.1)));
        }
        assert!(board.check_win());
    }
}

#[test]
fn four_in_a_row_does_not_win() {
    let line: [(usize, usize); 4] = [(7, 3), (7, 4), (7, 5), (7, 6)];
    let board = set_up(&line, &FAR[0..4]);
    for c in line.iter() {
        assert!(!board.check_win_from(cell(c.0, c.1)));
    }
    assert!(!board.check_win());
}

#[test]
fn an_empty_cell_does_not_win() {
    let line: [(usize, usize); 5] = [(7, 3), (7, 4), (7, 5), (7, 6), (7, 7)];
    let board = set_up(&line, &FAR[0..4]);
    assert!(!board.check_win_from(cell(7, 8)));
    assert!(!board.check_win_from(cell(7, 2)));
}

#[test]
fn six_in_a_row_is_no_win() {
    let line: [(usize, usize); 6] = [(7, 3), (7, 4), (7, 5), (7, 6), (7, 7), (7, 8)];
    let board = set_up(&line, &FAR[0..5]);
    for c in line.iter() {
        assert!(!board.check_win_from(cell(c.0, c.1)));
    }
}

#[test]
fn run_lengths_are_capped_at_six() {
    let line: [(usize, usize); 7] = [(7, 3), (7, 4), (7, 5), (7, 6), (7, 7), (7, 8), (7, 9)];
    let board = set_up(&line, &FAR[0..6]);
    for c in line.iter() {
        let runs = board.compute_dir_lengths_from(cell(c.0, c.1));
        for i in 0..8 {
            assert!(runs[i] <= 6);
        }
    }
    let first = board.compute_dir_lengths_from(cell(7, 3));
    assert_eq!(first[0], 6);
    assert_eq!(first[4], 1);
    let inner = board.compute_dir_lengths_from(cell(7, 5));
    assert_eq!(inner[0], 5);
    assert_eq!(inner[4], 3);
    assert_eq!(inner[1], 1);
}

#[test]
fn run_lengths_from_a_stone_count_its_own_colour() {
    let board = set_up(&[(7, 7), (7, 8), (7, 9)], &[(7, 10), (8, 8), (0, 0)]);
    let runs = board.compute_dir_lengths_from(cell(7, 7));
    assert_eq!(runs, [3, 1, 1, 1, 1, 1, 1, 1]);
    let runs = board.compute_dir_lengths_from(cell(7, 9));
    assert_eq!(runs, [1, 1, 1, 1, 3, 1, 1, 1]);
    let runs = board.compute_dir_lengths_from(cell(8, 8));
    assert_eq!(runs, [1, 1, 1, 1, 1, 1, 1, 1]);
}

#[test]
fn run_lengths_from_an_empty_cell_count_from_the_neighbour() {
    let board = set_up(&[(7, 7), (7, 8), (7, 9)], &[(7, 10), (8, 8), (0, 0)]);
    let runs = board.compute_dir_lengths_from(cell(7, 6));
    assert_eq!(runs[0], 3);
    assert_eq!(runs[4], 0);
    assert_eq!(runs[1], 0);
    let runs = board.compute_dir_lengths_from(cell(7, 11));
    assert_eq!(runs[4], 1);
    let runs = board.compute_dir_lengths_from(cell(3, 3));
    assert_eq!(runs, [0, 0, 0, 0, 0, 0, 0, 0]);
    let runs = board.compute_dir_lengths_from(cell(1, 1));
    assert_eq!(runs[6], 1);
}
