use rust_sweeper::board::Board;
use rust_sweeper::cell::Cell;
use rust_sweeper::difficulty::Difficulty;
use rust_sweeper::error::EngineError;

fn layout(side: usize, hazards: &[(usize, usize)]) -> Vec<bool> {
    let mut markers = vec![false; side * side];
    for &(r, c) in hazards {
        markers[r * side + c] = true;
    }
    markers
}

fn hazards_on(board: &Board) -> usize {
    let n = board.side_length();
    let mut count = 0;
    for r in 0..n {
        for c in 0..n {
            if board.cell(r, c).unwrap().is_hazard {
                count += 1;
            }
        }
    }
    count
}

fn counts_of(board: &Board) -> Vec<Vec<u8>> {
    let n = board.side_length();
    (0..n)
        .map(|r| (0..n).map(|c| board.cell(r, c).unwrap().adjacent_hazard_count).collect())
        .collect()
}

#[test]
fn new_cell_is_covered_unflagged_and_uncounted() {
    let cell = Cell::new(3, 7, true);
    assert_eq!(cell.row, 3);
    assert_eq!(cell.col, 7);
    assert!(cell.is_hazard);
    assert_eq!(cell.adjacent_hazard_count, 0);
    assert!(cell.is_hidden);
    assert!(!cell.is_flagged);
    assert!(!cell.triggered_loss);
    let safe = Cell::new(0, 0, false);
    assert!(!safe.is_hazard);
    assert!(safe.is_hidden);
}

#[test]
fn difficulty_is_valid_below_the_cell_count() {
    assert!(Difficulty::new(10, 9).is_valid());
    assert!(Difficulty::new(0, 1).is_valid());
    assert!(Difficulty::new(80, 9).is_valid());
    assert!(!Difficulty::new(81, 9).is_valid());
    assert!(!Difficulty::new(82, 9).is_valid());
    assert!(!Difficulty::new(0, 0).is_valid());
    assert!(!Difficulty::new(1, 1).is_valid());
}

#[test]
fn difficulty_too_large_to_count_is_valid_but_not_representable() {
    let huge = Difficulty::new(usize::MAX, usize::MAX);
    assert!(huge.is_valid());
    assert!(!huge.is_representable());
    assert!(Difficulty::new(10, 9).is_representable());
}

#[test]
fn new_board_is_refused_for_an_invalid_difficulty() {
    assert_eq!(Board::new(Difficulty::new(81, 9)).err(), Some(EngineError::InvalidDifficulty));
    assert_eq!(Board::new(Difficulty::new(100, 9)).err(), Some(EngineError::InvalidDifficulty));
    assert_eq!(Board::new(Difficulty::new(0, 0)).err(), Some(EngineError::InvalidDifficulty));
}

#[test]
fn new_board_hides_exactly_the_hazards_asked_for() {
    for &(h, n) in &[(10usize, 9usize), (37, 18), (82, 27), (0, 9), (80, 9), (0, 1), (3, 2), (1, 3)] {
        for _ in 0..5 {
            let board = Board::new(Difficulty::new(h, n)).unwrap();
            assert_eq!(board.side_length(), n);
            assert_eq!(board.difficulty(), Difficulty::new(h, n));
            assert_eq!(hazards_on(&board), h);
        }
    }
}

#[test]
fn new_board_is_untouched_and_knows_its_places() {
    let board = Board::new(Difficulty::new(10, 9)).unwrap();
    for r in 0..9 {
        for c in 0..9 {
            let cell = board.cell(r, c).unwrap();
            assert_eq!((cell.row, cell.col), (r, c));
            assert!(cell.is_hidden);
            assert!(!cell.is_flagged);
            assert!(!cell.triggered_loss);
            assert_eq!(cell.adjacent_hazard_count, 0);
        }
    }
}

#[test]
fn new_boards_are_shuffled() {
    // Unshuffled, the ten hazards would fill the first ten cells of the
    // first row and a bit, on every board.
    let mut moved = false;
    let mut layouts = Vec::new();
    for _ in 0..40 {
        let board = Board::new(Difficulty::new(10, 9)).unwrap();
        let mut markers = Vec::new();
        for r in 0..9 {
            for c in 0..9 {
                markers.push(board.cell(r, c).unwrap().is_hazard);
            }
        }
        if markers[10..].iter().any(|&m| m) {
            moved = true;
        }
        layouts.push(markers);
    }
    assert!(moved);
    assert!(layouts.iter().any(|l| *l != layouts[0]));
}

#[test]
fn new_avoiding_keeps_the_cell_clear() {
    for _ in 0..50 {
        let board = Board::new_avoiding(Difficulty::new(80, 9), 4, 6).unwrap();
        assert!(!board.cell(4, 6).unwrap().is_hazard);
        assert_eq!(hazards_on(&board), 80);
    }
    for _ in 0..20 {
        let board = Board::new_avoiding(Difficulty::new(10, 9), 0, 0).unwrap();
        assert!(!board.cell(0, 0).unwrap().is_hazard);
        assert_eq!(hazards_on(&board), 10);
        let board = Board::new_avoiding(Difficulty::new(10, 9), 8, 8).unwrap();
        assert!(!board.cell(8, 8).unwrap().is_hazard);
        assert_eq!(hazards_on(&board), 10);
    }
    let single = Board::new_avoiding(Difficulty::new(0, 1), 0, 0).unwrap();
    assert_eq!(hazards_on(&single), 0);
}

#[test]
fn new_avoiding_is_shuffled() {
    let mut moved = false;
    for _ in 0..40 {
        let board = Board::new_avoiding(Difficulty::new(10, 9), 8, 8).unwrap();
        for r in 0..9 {
            for c in 0..9 {
                if r * 9 + c >= 10 && board.cell(r, c).unwrap().is_hazard {
                    moved = true;
                }
            }
        }
    }
    assert!(moved);
}

#[test]
fn new_avoiding_reports_its_errors() {
    assert_eq!(
        Board::new_avoiding(Difficulty::new(81, 9), 0, 0).err(),
        Some(EngineError::InvalidDifficulty)
    );
    assert_eq!(
        Board::new_avoiding(Difficulty::new(81, 9), 9, 0).err(),
        Some(EngineError::InvalidDifficulty)
    );
    assert_eq!(
        Board::new_avoiding(Difficulty::new(10, 9), 9, 0).err(),
        Some(EngineError::OutOfBounds)
    );
    assert_eq!(
        Board::new_avoiding(Difficulty::new(10, 9), 0, 9).err(),
        Some(EngineError::OutOfBounds)
    );
}

#[test]
fn from_markers_lays_the_markers_out_row_by_row() {
    let markers = layout(3, &[(0, 1), (2, 0)]);
    let board = Board::from_markers(3, &markers).unwrap();
    assert_eq!(board.difficulty(), Difficulty::new(2, 3));
    for r in 0..3 {
        for c in 0..3 {
            let cell = board.cell(r, c).unwrap();
            assert_eq!(cell, Cell::new(r, c, (r, c) == (0, 1) || (r, c) == (2, 0)));
        }
    }
}

#[test]
fn from_markers_refuses_a_wrong_number_of_markers() {
    assert_eq!(
        Board::from_markers(3, &vec![false; 8]).err(),
        Some(EngineError::InvalidDifficulty)
    );
    assert_eq!(
        Board::from_markers(3, &vec![false; 10]).err(),
        Some(EngineError::InvalidDifficulty)
    );
    assert_eq!(Board::from_markers(0, &vec![]).err(), Some(EngineError::InvalidDifficulty));
    assert_eq!(
        Board::from_markers(usize::MAX, &vec![false; 4]).err(),
        Some(EngineError::InvalidDifficulty)
    );
}

#[test]
fn from_markers_refuses_a_grid_full_of_hazards() {
    assert_eq!(
        Board::from_markers(2, &vec![true; 4]).err(),
        Some(EngineError::InvalidDifficulty)
    );
    assert!(Board::from_markers(2, &vec![true, true, true, false]).is_ok());
}

#[test]
fn cell_outside_the_grid_is_out_of_bounds() {
    let board = Board::from_markers(3, &layout(3, &[(1, 1)])).unwrap();
    assert_eq!(board.cell(3, 0), Err(EngineError::OutOfBounds));
    assert_eq!(board.cell(0, 3), Err(EngineError::OutOfBounds));
    assert_eq!(board.cell(usize::MAX, usize::MAX), Err(EngineError::OutOfBounds));
    assert!(board.cell(2, 2).is_ok());
}

#[test]
fn counts_follow_the_hazards_around_each_cell() {
    // . . . H .
    // . . . . .
    // . . . . .
    // H . . . .
    // . . . . .
    let mut board = Board::from_markers(5, &layout(5, &[(0, 3), (3, 0)])).unwrap();
    board.calculate_rust_count();
    assert_eq!(
        counts_of(&board),
        vec![
            vec![0, 0, 1, 0, 1],
            vec![0, 0, 1, 1, 1],
            vec![1, 1, 0, 0, 0],
            vec![0, 1, 0, 0, 0],
            vec![1, 1, 0, 0, 0],
        ]
    );
}

#[test]
fn counts_are_clipped_at_corners_and_edges() {
    // H H H
    // H . H
    // H H H
    let mut ring = Board::from_markers(
        3,
        &layout(3, &[(0, 0), (0, 1), (0, 2), (1, 0), (1, 2), (2, 0), (2, 1), (2, 2)]),
    )
    .unwrap();
    ring.calculate_rust_count();
    assert_eq!(counts_of(&ring), vec![vec![2, 4, 2], vec![4, 8, 4], vec![2, 4, 2]]);

    // . H
    // H H
    let mut corner = Board::from_markers(2, &layout(2, &[(0, 1), (1, 0), (1, 1)])).unwrap();
    corner.calculate_rust_count();
    assert_eq!(counts_of(&corner), vec![vec![3, 2], vec![2, 2]]);

    let mut single = Board::from_markers(1, &vec![false]).unwrap();
    single.calculate_rust_count();
    assert_eq!(counts_of(&single), vec![vec![0]]);
}

#[test]
fn counts_are_the_hazards_among_the_neighbours_on_random_boards() {
    for _ in 0..10 {
        let mut board = Board::new(Difficulty::new(37, 18)).unwrap();
        board.calculate_rust_count();
        for r in 0..18i64 {
            for c in 0..18i64 {
                let mut expected = 0;
                for dr in -1..=1i64 {
                    for dc in -1..=1i64 {
                        let (nr, nc) = (r + dr, c + dc);
                        if (dr, dc) != (0, 0) && nr >= 0 && nr < 18 && nc >= 0 && nc < 18 {
                            if board.cell(nr as usize, nc as usize).unwrap().is_hazard {
                                expected += 1;
                            }
                        }
                    }
                }
                assert_eq!(
                    board.cell(r as usize, c as usize).unwrap().adjacent_hazard_count,
                    expected
                );
            }
        }
    }
}

#[test]
fn counting_twice_changes_nothing() {
    let mut board = Board::new(Difficulty::new(10, 9)).unwrap();
    board.calculate_rust_count();
    let once = counts_of(&board);
    let hazards = hazards_on(&board);
    board.calculate_rust_count();
    assert_eq!(counts_of(&board), once);
    assert_eq!(hazards_on(&board), hazards);
    for r in 0..9 {
        for c in 0..9 {
            let cell = board.cell(r, c).unwrap();
            assert!(cell.is_hidden && !cell.is_flagged && !cell.triggered_loss);
        }
    }
}

#[test]
fn counts_text_writes_a_line_for_each_row() {
    let mut board = Board::from_markers(5, &layout(5, &[(0, 3), (3, 0)])).unwrap();
    assert_eq!(board.counts_text(), "0 0 0 0 0\n0 0 0 0 0\n0 0 0 0 0\n0 0 0 0 0\n0 0 0 0 0");
    board.calculate_rust_count();
    assert_eq!(board.counts_text(), "0 0 1 0 1\n0 0 1 1 1\n1 1 0 0 0\n0 1 0 0 0\n1 1 0 0 0");

    let mut ring = Board::from_markers(
        3,
        &layout(3, &[(0, 0), (0, 1), (0, 2), (1, 0), (1, 2), (2, 0), (2, 1), (2, 2)]),
    )
    .unwrap();
    ring.calculate_rust_count();
    assert_eq!(ring.counts_text(), "2 4 2\n4 8 4\n2 4 2");

    let single = Board::from_markers(1, &vec![false]).unwrap();
    assert_eq!(single.counts_text(), "0");
}
