use gomoku::{cell, dir, Board, CellPos, Stone};

fn play(board: &mut Board, white: &[(usize, usize)], black: &[(usize, usize)]) {
    let rounds = white.len().max(black.len());
    for i in 0..rounds {
        if i < white.len() {
            assert!(board.make_move(cell(white[i].0, white[i].1)));
        }
        if i < black.len() {
            assert!(board.make_move(cell(black[i].0, black[i].1)));
        }
    }
}

fn recomputed_hash(board: &Board) -> u64 {
    let mut hash: u64 = 0;
    for i in 0..15 * 15 {
        if let Some(stone) = board.get(cell(i / 15, i % 15)) {
            hash ^= board.cell_hashes()[i][stone as usize + 1];
        } else {
            hash ^= board.cell_hashes()[i][0];
        }
    }
    hash
}

#[test]
fn test_hash() {
    let mut board = Board::new();
    board.make_move(cell(1, 0));
    board.unmake_move(cell(1, 0));
    board.make_move(cell(1, 0));
    board.make_move(cell(2, 5));

    let mut hash: u64 = 0;

    for i in 0..15 * 15 {
        if let Some(stone) = board[cell(i / 15, i % 15)] {
            hash ^= board.cell_hashes()[i][stone as usize + 1];
        } else {
            hash ^= board.cell_hashes()[i][0];
        }
    }

    assert_eq!(hash, board.hash());
}

#[test]
fn new_board_is_empty_and_white_moves_first() {
    let board = Board::new();
    assert_eq!(board.turn(), Stone::White);
    for x in 0..15 {
        for y in 0..15 {
            assert_eq!(board.get(cell(x, y)), None);
        }
    }
    assert_eq!(board.hash(), recomputed_hash(&board));
    assert_eq!(board.free_cells(), 225);
}

#[test]
fn make_move_places_the_movers_stone_and_passes_the_turn() {
    let mut board = Board::new();
    assert!(board.make_move(cell(3, 4)));
    assert_eq!(board.get(cell(3, 4)), Some(Stone::White));
    assert_eq!(board.turn(), Stone::Black);
    assert!(board.make_move(cell(4, 4)));
    assert_eq!(board.get(cell(4, 4)), Some(Stone::Black));
    assert_eq!(board.turn(), Stone::White);
    assert_eq!(board.free_cells(), 223);
}

#[test]
fn make_move_on_an_occupied_cell_changes_nothing() {
    let mut board = Board::new();
    assert!(board.make_move(cell(3, 4)));
    let hash = board.hash();
    assert!(!board.make_move(cell(3, 4)));
    assert_eq!(board.hash(), hash);
    assert_eq!(board.turn(), Stone::Black);
    assert_eq!(board.get(cell(3, 4)), Some(Stone::White));
}

#[test]
fn unmake_move_restores_grid_turn_and_fingerprint() {
    let mut board = Board::new();
    play(&mut board, &[(7, 7), (8, 8)], &[(7, 8), (1, 1)]);
    let hash = board.hash();
    let turn = board.turn();
    let mut before: Vec<Option<Stone>> = Vec::new();
    for i in 0..225 {
        before.push(board.get(cell(i / 15, i % 15)));
    }
    assert!(board.make_move(cell(5, 9)));
    assert_ne!(board.turn(), turn);
    board.unmake_move(cell(5, 9));
    assert_eq!(board.hash(), hash);
    assert_eq!(board.turn(), turn);
    for i in 0..225 {
        assert_eq!(board.get(cell(i / 15, i % 15)), before[i]);
    }
}

#[test]
fn fingerprint_stays_consistent_over_moves_and_retractions() {
    let mut board = Board::new();
    let moves: [(usize, usize); 6] = [(7, 7), (7, 8), (6, 6), (0, 0), (14, 14), (3, 11)];
    for m in moves.iter() {
        assert!(board.make_move(cell(m.0, m.1)));
        assert_eq!(board.hash(), recomputed_hash(&board));
    }
    for m in moves.iter().rev() {
        board.unmake_move(cell(m.0, m.1));
        assert_eq!(board.hash(), recomputed_hash(&board));
    }
    assert_eq!(board.free_cells(), 225);
}

#[test]
fn clone_is_a_board_of_its_own_in_the_same_state() {
    let mut board = Board::new();
    play(&mut board, &[(7, 7)], &[(7, 8)]);
    let mut copy = board.clone();
    assert_eq!(copy.hash(), board.hash());
    assert_eq!(copy.turn(), board.turn());
    assert_eq!(copy.get(cell(7, 7)), Some(Stone::White));
    assert!(copy.make_move(cell(1, 1)));
    assert_eq!(board.get(cell(1, 1)), None);
}

#[test]
fn indexing_reads_a_cell() {
    let mut board = Board::new();
    play(&mut board, &[(7, 7)], &[(7, 8)]);
    assert_eq!(board[cell(7, 7)], Some(Stone::White));
    assert_eq!(board[cell(7, 8)], Some(Stone::Black));
    assert_eq!(board[cell(0, 0)], None);
    assert!(cell(0, 1) < cell(1, 0));
    assert!(cell(3, 4) < cell(3, 5));
}

#[test]
fn stone_negation_gives_the_other_colour() {
    assert_eq!(-Stone::Black, Stone::White);
    assert_eq!(-Stone::White, Stone::Black);
    assert_eq!(Stone::Black.other_side(), Stone::White);
    assert_eq!(Stone::White.name(), "White");
    assert_eq!(Stone::Black.name(), "Black");
    assert_eq!(Stone::Black.key_slot(), 1);
    assert_eq!(Stone::White.key_slot(), 2);
}

#[test]
fn directions_i_and_i_plus_4_are_opposite() {
    for i in 0..4 {
        assert_eq!(-dir(i), dir(i + 4));
    }
    assert_eq!(dir(8), dir(0));
    assert_eq!(dir(13), dir(5));
}

#[test]
fn try_add_stays_on_the_grid() {
    let origin = cell(0, 0);
    assert_eq!(origin.try_add(dir(0)), Some(cell(0, 1)));
    assert_eq!(origin.try_add(dir(1)), Some(cell(1, 0)));
    assert_eq!(origin.try_add(dir(2)), Some(cell(1, 1)));
    assert_eq!(origin.try_add(dir(3)), None);
    assert_eq!(origin.try_add(dir(4)), None);
    assert_eq!(origin.try_add(dir(5)), None);
    assert_eq!(origin.try_add(dir(6)), None);
    assert_eq!(origin.try_add(dir(7)), None);
    let corner = cell(14, 14);
    assert_eq!(corner.try_add(dir(0)), None);
    assert_eq!(corner.try_add(dir(6)), Some(cell(13, 13)));
    assert_eq!(cell(7, 7).try_add(dir(2) * 3), Some(cell(10, 10)));
    assert_eq!(cell(7, 7).try_add(3 * dir(7)), Some(cell(4, 10)));
    assert_eq!(cell(7, 7).try_add(dir(0) * 8), None);
    assert_eq!(cell(7, 7).try_add(dir(2) * 1000), None);
    assert_eq!(cell(7, 7).try_add(1000 * dir(6)), None);
    assert_eq!(cell(7, 7).try_add(dir(5) * 0), Some(cell(7, 7)));
    assert_eq!(-(dir(3) * 20), dir(7) * 20);
}

#[test]
fn cell_coordinates_and_storage_place() {
    let c: CellPos = cell(3, 11);
    assert_eq!(c.x(), 3);
    assert_eq!(c.y(), 11);
    assert_eq!(c.index(), 56);
}

#[test]
fn free_positions_walks_the_empty_cells_in_row_major_order() {
    let mut board = Board::new();
    play(&mut board, &[(0, 0), (2, 0)], &[(1, 0), (0, 1)]);
    let mut walk = board.free_positions();
    assert_eq!(walk.next(), Some(cell(3, 0)));
    assert_eq!(walk.next(), Some(cell(4, 0)));
    for _ in 0..10 {
        walk.next();
    }
    assert_eq!(walk.next(), Some(cell(1, 1)));
    assert_eq!(board.free_positions().count(), 221);
    assert_eq!(board.first_free(), cell(3, 0));
    assert_eq!(board.nth_free_cell(0), cell(3, 0));
    assert_eq!(board.nth_free_cell(12), cell(1, 1));
    let mut again = board.free_positions();
    assert_eq!(again.next(), Some(cell(3, 0)));
}

#[test]
fn free_positions_ends_with_none() {
    let board = Board::new();
    let mut walk = board.free_positions();
    let mut seen: usize = 0;
    while let Some(_) = walk.next() {
        seen += 1;
    }
    assert_eq!(seen, 225);
    assert_eq!(walk.next(), None);
}
