use rust_sweeper::board::Board;
use rust_sweeper::cell::Cell;
use rust_sweeper::difficulty::Difficulty;
use rust_sweeper::error::EngineError;
use rust_sweeper::outcome::Outcome;
use rust_sweeper::session::{CellView, Session};

fn board_with(side: usize, hazards: &[(usize, usize)]) -> Board {
    let mut markers = vec![false; side * side];
    for &(r, c) in hazards {
        markers[r * side + c] = true;
    }
    let mut board = Board::from_markers(side, &markers).unwrap();
    board.calculate_rust_count();
    board
}

/// Nine by nine with ten hazards. The corner `(0, 0)` is walled in by
/// hazards, so no cascade ever reveals it.
fn easy() -> Board {
    board_with(
        9,
        &[(0, 1), (1, 0), (1, 1), (8, 8), (8, 0), (0, 8), (4, 4), (4, 5), (6, 2), (2, 6)],
    )
}

fn views(session: &Session) -> Vec<CellView> {
    let n = session.difficulty().side_length;
    let mut all = Vec::new();
    for r in 0..n {
        for c in 0..n {
            all.push(session.cell(r, c).unwrap());
        }
    }
    all
}

fn cells_of(board: &Board) -> Vec<Cell> {
    let n = board.side_length();
    let mut cells = Vec::new();
    for r in 0..n {
        for c in 0..n {
            cells.push(board.cell(r, c).unwrap());
        }
    }
    cells
}

/// What a session that plays on a board like `board` is to show.
fn shown(board: &Board, over: bool) -> Vec<CellView> {
    cells_of(board)
        .iter()
        .map(|cell| CellView {
            is_hidden: cell.is_hidden,
            is_flagged: cell.is_flagged,
            is_hazard_visible: cell.is_hazard && (!cell.is_hidden || over),
            adjacent_hazard_count: cell.adjacent_hazard_count,
            triggered_loss: cell.triggered_loss,
        })
        .collect()
}

fn revealed_in(session: &Session) -> usize {
    views(session).iter().filter(|view| !view.is_hidden).count()
}

/// Plays the round to its end, cell by cell, and hands back the cells of
/// the board that the session gives up then.
fn play_out(session: &mut Session) -> Vec<Cell> {
    let n = session.difficulty().side_length;
    for r in 0..n {
        for c in 0..n {
            if session.outcome() == Outcome::InProgress {
                session.reveal_cell(r, c).unwrap();
            }
        }
    }
    assert_ne!(session.outcome(), Outcome::InProgress);
    cells_of(session.board().unwrap())
}

#[test]
fn new_session_is_in_progress_on_a_fresh_board() {
    let session = Session::new(Difficulty::new(10, 9)).unwrap();
    assert_eq!(session.outcome(), Outcome::InProgress);
    assert!(!session.first_click_taken());
    assert_eq!(session.difficulty(), Difficulty::new(10, 9));
    let all = views(&session);
    assert_eq!(all.len(), 81);
    assert!(all
        .iter()
        .all(|v| v.is_hidden && !v.is_flagged && !v.triggered_loss && !v.is_hazard_visible));
}

#[test]
fn new_session_has_its_hazards_laid_and_counted() {
    for _ in 0..10 {
        let mut session = Session::new(Difficulty::new(37, 18)).unwrap();
        let cells = play_out(&mut session);
        assert_eq!(cells.iter().filter(|cell| cell.is_hazard).count(), 37);
        for r in 0..18i64 {
            for c in 0..18i64 {
                let mut expected = 0;
                for dr in -1..=1i64 {
                    for dc in -1..=1i64 {
                        let (nr, nc) = (r + dr, c + dc);
                        if (dr, dc) != (0, 0) && nr >= 0 && nr < 18 && nc >= 0 && nc < 18 {
                            if cells[(nr * 18 + nc) as usize].is_hazard {
                                expected += 1;
                            }
                        }
                    }
                }
                assert_eq!(cells[(r * 18 + c) as usize].adjacent_hazard_count, expected);
            }
        }
        let counts: Vec<u8> = views(&session).iter().map(|v| v.adjacent_hazard_count).collect();
        let held: Vec<u8> = cells.iter().map(|cell| cell.adjacent_hazard_count).collect();
        assert_eq!(counts, held);
    }
}

#[test]
fn new_session_is_refused_for_an_invalid_difficulty() {
    assert_eq!(Session::new(Difficulty::new(81, 9)).err(), Some(EngineError::InvalidDifficulty));
    assert_eq!(Session::new(Difficulty::new(5, 0)).err(), Some(EngineError::InvalidDifficulty));
}

#[test]
fn board_stays_with_the_session_until_the_round_is_over() {
    let mut session = Session::from_board(easy());
    assert!(session.board().is_none());
    session.reveal_cell(0, 0).unwrap();
    assert_eq!(session.outcome(), Outcome::InProgress);
    assert!(session.board().is_none());
    session.toggle_flag(5, 5).unwrap();
    assert!(session.board().is_none());
    session.reveal_cell(4, 4).unwrap();
    assert_eq!(session.outcome(), Outcome::Lost);
    let mut mirror = easy();
    mirror.reveal_cell(0, 0).unwrap();
    mirror.toggle_flag(5, 5).unwrap();
    mirror.reveal_cell(4, 4).unwrap();
    assert_eq!(cells_of(session.board().unwrap()), cells_of(&mirror));

    let mut won = Session::from_board(board_with(2, &[(0, 0)]));
    assert!(won.board().is_none());
    won.reveal_cell(0, 1).unwrap();
    won.reveal_cell(1, 0).unwrap();
    assert!(won.board().is_none());
    won.reveal_cell(1, 1).unwrap();
    assert_eq!(won.outcome(), Outcome::Won);
    assert!(won.board().is_some());
}

#[test]
fn first_reveal_is_never_lost() {
    for &(h, n) in &[(10usize, 9usize), (37, 18), (80, 9), (40, 9), (3, 2), (0, 1)] {
        for trial in 0..60 {
            let mut session = Session::new(Difficulty::new(h, n)).unwrap();
            let (row, col) = (trial % n, (trial / n) % n);
            assert_eq!(session.reveal_cell(row, col), Ok(()));
            assert_ne!(session.outcome(), Outcome::Lost);
            assert!(session.first_click_taken());
            let view = session.cell(row, col).unwrap();
            assert!(!view.is_hidden);
            assert!(!view.is_hazard_visible);
            assert!(!view.triggered_loss);
            if session.outcome() == Outcome::InProgress {
                assert!(views(&session).iter().all(|v| !v.is_hazard_visible));
            }
            let cells = play_out(&mut session);
            assert_eq!(cells.iter().filter(|cell| cell.is_hazard).count(), h);
            assert!(!cells[row * n + col].is_hazard);
        }
    }
}

#[test]
fn first_reveal_on_a_hazard_takes_a_new_board() {
    for _ in 0..30 {
        let mut session = Session::from_board(easy());
        session.toggle_flag(5, 5).unwrap();
        assert_eq!(session.reveal_cell(4, 4), Ok(()));
        assert_ne!(session.outcome(), Outcome::Lost);
        assert!(session.first_click_taken());
        let view = session.cell(4, 4).unwrap();
        assert!(!view.is_hidden && !view.is_hazard_visible);
        assert!(views(&session).iter().all(|v| !v.is_flagged));
        assert_eq!(session.difficulty(), Difficulty::new(10, 9));
        let cells = play_out(&mut session);
        assert_eq!(cells.iter().filter(|cell| cell.is_hazard).count(), 10);
        assert!(!cells[4 * 9 + 4].is_hazard);
    }
}

#[test]
fn first_reveal_on_a_flagged_hazard_takes_a_new_board_too() {
    let mut session = Session::from_board(easy());
    session.toggle_flag(4, 4).unwrap();
    assert_eq!(session.reveal_cell(4, 4), Ok(()));
    let view = session.cell(4, 4).unwrap();
    assert!(!view.is_hazard_visible && !view.is_hidden && !view.is_flagged);
    assert_ne!(session.outcome(), Outcome::Lost);
}

#[test]
fn first_reveal_on_a_safe_cell_keeps_the_board() {
    let mut session = Session::from_board(easy());
    let mut mirror = easy();
    session.reveal_cell(7, 6).unwrap();
    mirror.reveal_cell(7, 6).unwrap();
    assert_eq!(views(&session), shown(&mirror, false));
    assert!(session.first_click_taken());
    assert_eq!(session.outcome(), Outcome::InProgress);

    let mut session = Session::from_board(easy());
    session.reveal_cell(0, 0).unwrap();
    assert_eq!(revealed_in(&session), 1);
}

#[test]
fn first_reveal_on_a_flagged_safe_cell_changes_nothing_but_counts_as_taken() {
    let mut session = Session::from_board(easy());
    session.toggle_flag(0, 0).unwrap();
    let before = views(&session);
    assert_eq!(session.reveal_cell(0, 0), Ok(()));
    assert_eq!(views(&session), before);
    assert!(session.first_click_taken());
    assert_eq!(session.outcome(), Outcome::InProgress);
}

#[test]
fn later_reveal_on_a_hazard_loses_the_round() {
    let mut session = Session::from_board(easy());
    session.toggle_flag(8, 8).unwrap();
    session.reveal_cell(0, 0).unwrap();
    assert_eq!(session.outcome(), Outcome::InProgress);
    assert_eq!(session.reveal_cell(4, 5), Ok(()));
    assert_eq!(session.outcome(), Outcome::Lost);
    for cell in cells_of(session.board().unwrap()) {
        let at = (cell.row, cell.col);
        if cell.is_hazard {
            assert_eq!(cell.is_hidden, at == (8, 8));
            assert_eq!(cell.is_flagged, at == (8, 8));
            assert_eq!(cell.triggered_loss, at == (4, 5));
        } else {
            assert_eq!(cell.is_hidden, at != (0, 0));
        }
    }
}

#[test]
fn round_is_won_with_the_last_safe_cell_and_not_before() {
    let layout = easy();
    let mut session = Session::from_board(easy());
    for r in 0..9 {
        for c in 0..9 {
            if (r, c) == (0, 0) || layout.cell(r, c).unwrap().is_hazard {
                continue;
            }
            assert_eq!(session.reveal_cell(r, c), Ok(()));
            assert!(revealed_in(&session) <= 70);
            assert_eq!(session.outcome(), Outcome::InProgress);
        }
    }
    assert_eq!(revealed_in(&session), 70);
    assert_eq!(session.outcome(), Outcome::InProgress);
    assert_eq!(session.reveal_cell(0, 0), Ok(()));
    assert_eq!(session.outcome(), Outcome::Won);
    let board = session.board().unwrap();
    assert_eq!(board.revealed_safe_count(), 71);
    assert!(!board.hazard_revealed());
    assert_eq!(board.outcome(), Outcome::Won);
}

#[test]
fn round_is_won_by_a_single_cascade_on_a_board_without_hazards() {
    let mut session = Session::new(Difficulty::new(0, 9)).unwrap();
    session.reveal_cell(4, 4).unwrap();
    assert_eq!(session.outcome(), Outcome::Won);
    assert_eq!(session.board().unwrap().revealed_safe_count(), 81);
}

#[test]
fn round_on_a_single_safe_cell_is_won_at_once() {
    let mut session = Session::new(Difficulty::new(3, 2)).unwrap();
    session.reveal_cell(1, 1).unwrap();
    assert_eq!(session.outcome(), Outcome::Won);
}

#[test]
fn outcome_stands_as_the_board_says() {
    for _ in 0..20 {
        let mut session = Session::new(Difficulty::new(10, 9)).unwrap();
        for step in 0..81 {
            let (r, c) = ((step * 7) % 9, (step * 5 + step / 9) % 9);
            session.reveal_cell(r, c).unwrap();
            match session.board() {
                None => {
                    assert_eq!(session.outcome(), Outcome::InProgress);
                    assert!(revealed_in(&session) < 71);
                    assert!(views(&session).iter().all(|v| !v.is_hazard_visible));
                }
                Some(board) => {
                    let expected = if board.hazard_revealed() {
                        Outcome::Lost
                    } else {
                        Outcome::Won
                    };
                    assert_eq!(session.outcome(), expected);
                    assert_eq!(board.outcome(), expected);
                    if expected == Outcome::Won {
                        assert_eq!(board.revealed_safe_count(), 71);
                    }
                }
            }
        }
    }
}

#[test]
fn finished_round_changes_no_more() {
    let mut lost = Session::from_board(easy());
    lost.reveal_cell(0, 0).unwrap();
    lost.reveal_cell(1, 1).unwrap();
    assert_eq!(lost.outcome(), Outcome::Lost);
    let before = views(&lost);
    assert_eq!(lost.reveal_cell(7, 7), Ok(()));
    assert_eq!(views(&lost), before);
    assert_eq!(lost.outcome(), Outcome::Lost);

    let mut won = Session::from_board(board_with(2, &[(0, 0)]));
    won.reveal_cell(0, 1).unwrap();
    won.reveal_cell(1, 0).unwrap();
    won.reveal_cell(1, 1).unwrap();
    assert_eq!(won.outcome(), Outcome::Won);
    let before = views(&won);
    assert_eq!(won.reveal_cell(0, 0), Ok(()));
    assert_eq!(views(&won), before);
    assert_eq!(won.outcome(), Outcome::Won);
}

#[test]
fn session_reveal_outside_the_grid_is_out_of_bounds() {
    let mut session = Session::from_board(easy());
    let before = views(&session);
    assert_eq!(session.reveal_cell(9, 0), Err(EngineError::OutOfBounds));
    assert_eq!(session.reveal_cell(0, 9), Err(EngineError::OutOfBounds));
    assert_eq!(views(&session), before);
    assert!(!session.first_click_taken());
    assert_eq!(session.outcome(), Outcome::InProgress);
}

#[test]
fn session_toggle_flag_flips_the_flag_and_keeps_the_outcome() {
    let mut session = Session::from_board(easy());
    assert_eq!(session.toggle_flag(3, 3), Ok(()));
    assert!(session.cell(3, 3).unwrap().is_flagged);
    assert_eq!(session.outcome(), Outcome::InProgress);
    assert!(!session.first_click_taken());
    assert_eq!(session.toggle_flag(3, 3), Ok(()));
    assert!(!session.cell(3, 3).unwrap().is_flagged);
    assert_eq!(session.toggle_flag(9, 9), Err(EngineError::OutOfBounds));
    session.reveal_cell(0, 0).unwrap();
    let before = views(&session);
    assert_eq!(session.toggle_flag(0, 0), Ok(()));
    assert_eq!(views(&session), before);
}

#[test]
fn session_plays_as_its_board_does() {
    let mut session = Session::from_board(easy());
    let mut mirror = easy();
    let moves: [(bool, usize, usize); 8] = [
        (true, 7, 5),
        (false, 7, 6),
        (false, 7, 5),
        (true, 7, 5),
        (false, 7, 5),
        (true, 4, 4),
        (false, 4, 4),
        (false, 2, 2),
    ];
    for &(flag, r, c) in &moves {
        if flag {
            session.toggle_flag(r, c).unwrap();
            mirror.toggle_flag(r, c).unwrap();
        } else {
            session.reveal_cell(r, c).unwrap();
            mirror.reveal_cell(r, c).unwrap();
        }
        assert_eq!(session.outcome(), mirror.outcome());
        assert_eq!(views(&session), shown(&mirror, mirror.outcome() != Outcome::InProgress));
    }
    assert_eq!(session.outcome(), Outcome::InProgress);
}

#[test]
fn flagged_cell_is_not_revealed_by_a_session() {
    let mut session = Session::from_board(easy());
    session.toggle_flag(7, 5).unwrap();
    session.reveal_cell(7, 6).unwrap();
    let flagged = session.cell(7, 5).unwrap();
    assert!(flagged.is_hidden && flagged.is_flagged);
    session.reveal_cell(7, 5).unwrap();
    assert!(session.cell(7, 5).unwrap().is_hidden);
}

#[test]
fn reset_starts_a_new_round() {
    let mut session = Session::from_board(easy());
    session.reveal_cell(0, 0).unwrap();
    session.reveal_cell(1, 1).unwrap();
    assert_eq!(session.outcome(), Outcome::Lost);
    assert_eq!(session.reset(Difficulty::new(37, 18)), Ok(()));
    assert_eq!(session.outcome(), Outcome::InProgress);
    assert!(!session.first_click_taken());
    assert_eq!(session.difficulty(), Difficulty::new(37, 18));
    assert!(session.board().is_none());
    let all = views(&session);
    assert_eq!(all.len(), 18 * 18);
    assert!(all
        .iter()
        .all(|v| v.is_hidden && !v.is_flagged && !v.triggered_loss && !v.is_hazard_visible));
    let cells = play_out(&mut session);
    assert_eq!(cells.iter().filter(|cell| cell.is_hazard).count(), 37);
}

#[test]
fn reset_with_an_invalid_difficulty_changes_nothing() {
    let mut session = Session::from_board(easy());
    session.reveal_cell(0, 0).unwrap();
    let before = views(&session);
    assert_eq!(session.reset(Difficulty::new(81, 9)), Err(EngineError::InvalidDifficulty));
    assert_eq!(views(&session), before);
    assert_eq!(session.difficulty(), Difficulty::new(10, 9));
    assert!(session.first_click_taken());
    assert_eq!(session.outcome(), Outcome::InProgress);
}

#[test]
fn session_from_board_stands_as_the_board_says() {
    let mut board = easy();
    board.reveal_cell(4, 4).unwrap();
    let session = Session::from_board(board);
    assert_eq!(session.outcome(), Outcome::Lost);
    assert!(!session.first_click_taken());
}

#[test]
fn cell_view_keeps_the_hazards_secret_during_play() {
    let mut session = Session::from_board(easy());
    session.toggle_flag(1, 1).unwrap();
    session.reveal_cell(0, 0).unwrap();
    assert_eq!(
        session.cell(0, 0),
        Ok(CellView {
            is_hidden: false,
            is_flagged: false,
            is_hazard_visible: false,
            adjacent_hazard_count: 3,
            triggered_loss: false,
        })
    );
    assert_eq!(
        session.cell(1, 1),
        Ok(CellView {
            is_hidden: true,
            is_flagged: true,
            is_hazard_visible: false,
            adjacent_hazard_count: 2,
            triggered_loss: false,
        })
    );
    for r in 0..9 {
        for c in 0..9 {
            assert!(!session.cell(r, c).unwrap().is_hazard_visible);
        }
    }
    assert_eq!(session.cell(9, 0), Err(EngineError::OutOfBounds));
    assert_eq!(session.cell(0, 9), Err(EngineError::OutOfBounds));
}

#[test]
fn cell_view_shows_the_hazards_once_the_round_is_over() {
    let layout = easy();
    let mut lost = Session::from_board(easy());
    lost.toggle_flag(8, 8).unwrap();
    lost.reveal_cell(0, 0).unwrap();
    lost.reveal_cell(0, 1).unwrap();
    assert_eq!(lost.outcome(), Outcome::Lost);
    for r in 0..9 {
        for c in 0..9 {
            let view = lost.cell(r, c).unwrap();
            let cell = layout.cell(r, c).unwrap();
            assert_eq!(view.is_hazard_visible, cell.is_hazard);
            assert_eq!(view.triggered_loss, (r, c) == (0, 1));
        }
    }
    let flagged = lost.cell(8, 8).unwrap();
    assert!(flagged.is_hidden && flagged.is_flagged && flagged.is_hazard_visible);

    let mut won = Session::from_board(Board::from_markers(2, &vec![true, false, false, false]).unwrap());
    won.reveal_cell(0, 1).unwrap();
    won.reveal_cell(1, 0).unwrap();
    won.reveal_cell(1, 1).unwrap();
    assert_eq!(won.outcome(), Outcome::Won);
    let hazard = won.cell(0, 0).unwrap();
    assert!(hazard.is_hidden);
    assert!(hazard.is_hazard_visible);
}
