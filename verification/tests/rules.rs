//! Tests for the rules engine: board creation, move validation, outcome
//! detection and successor enumeration.

use tictactoe::game::{Game, Piece, Winner, MoveError, next_games, to_char};

/// The nine cells in row-major order, plus the recorded outcome.
fn snapshot(g: &Game) -> (Vec<Option<Piece>>, Option<Winner>) {
    let mut cells = Vec::new();
    for row in 0..3usize {
        for col in 0..3usize {
            cells.push(g.piece_at(row, col));
        }
    }
    (cells, g.winner)
}

fn count_empty(g: &Game) -> usize {
    let mut n = 0;
    for row in 0..3usize {
        for col in 0..3usize {
            if g.piece_at(row, col).is_none() {
                n += 1;
            }
        }
    }
    n
}

#[test]
fn new_board_is_empty() {
    let g = Game::new();
    for row in 0..3usize {
        for col in 0..3usize {
            assert_eq!(g.piece_at(row, col), None);
        }
    }
    assert_eq!(g.winner, None);
    assert!(!g.is_finished());
    assert_eq!(g.valid_moves().len(), 9);
}

#[test]
fn default_matches_new() {
    let d = Game::default();
    let (cells, winner) = snapshot(&d);
    assert!(cells.iter().all(|c| c.is_none()));
    assert_eq!(winner, None);
}

#[test]
fn move_places_mark_and_shrinks_legal_moves() {
    let mut g = Game::new();
    assert_eq!(g.valid_moves().len(), 9);
    assert!(g.make_move(1, 1).is_ok());
    assert_eq!(g.piece_at(1, 1), Some(Piece::X));
    assert_eq!(g.valid_moves().len(), 8);
    assert!(!g.valid_moves().contains(&(1, 1)));
    assert!(g.make_move(0, 2).is_ok());
    assert_eq!(g.piece_at(0, 2), Some(Piece::O));
    assert_eq!(g.valid_moves().len(), 7);
}

#[test]
fn legal_moves_are_row_major() {
    let mut g = Game::new();
    assert!(g.make_move(0, 1).is_ok());
    let ms = g.valid_moves();
    assert_eq!(ms, vec![(0, 0), (0, 2), (1, 0), (1, 1), (1, 2), (2, 0), (2, 1), (2, 2)]);
}

#[test]
fn occupied_cell_is_rejected_unchanged() {
    let mut g = Game::new();
    assert!(g.make_move(0, 0).is_ok());
    let before = snapshot(&g);
    let res = g.make_move(0, 0);
    assert_eq!(res, Err(MoveError::TileNotEmpty { other_piece: Piece::X, row: 0, col: 0 }));
    assert_eq!(snapshot(&g), before);
}

#[test]
fn out_of_bounds_is_rejected_unchanged() {
    let mut g = Game::new();
    let before = snapshot(&g);
    assert_eq!(g.make_move(3, 0), Err(MoveError::InvalidPosition { row: 3, col: 0 }));
    assert_eq!(g.make_move(0, 17), Err(MoveError::InvalidPosition { row: 0, col: 17 }));
    assert_eq!(snapshot(&g), before);
}

#[test]
fn finished_game_rejects_all_moves_unchanged() {
    let mut g = Game::new();
    // X completes the top row; O plays elsewhere in between.
    for (row, col) in [(0, 0), (1, 0), (0, 1), (1, 1), (0, 2)] {
        assert!(g.make_move(row, col).is_ok());
    }
    assert!(g.is_finished());
    let before = snapshot(&g);
    assert_eq!(g.make_move(2, 2), Err(MoveError::GameAlreadyOver));
    // The game-over check comes before the bounds check.
    assert_eq!(g.make_move(7, 7), Err(MoveError::GameAlreadyOver));
    assert_eq!(snapshot(&g), before);
}

#[test]
fn top_row_win_ends_game_with_cells_left() {
    let mut g = Game::new();
    for (row, col) in [(0, 0), (1, 0), (0, 1), (1, 1), (0, 2)] {
        assert!(g.make_move(row, col).is_ok());
    }
    assert_eq!(g.winner, Some(Winner::X));
    assert!(g.valid_moves().is_empty());
    assert_eq!(count_empty(&g), 4);
}

#[test]
fn column_and_diagonal_wins_are_detected() {
    // O wins the middle column.
    let mut g = Game::new();
    for (row, col) in [(0, 0), (0, 1), (1, 0), (1, 1), (2, 2), (2, 1)] {
        assert!(g.make_move(row, col).is_ok());
    }
    assert_eq!(g.winner, Some(Winner::O));

    // X wins the main diagonal.
    let mut g = Game::new();
    for (row, col) in [(0, 0), (0, 1), (1, 1), (0, 2), (2, 2)] {
        assert!(g.make_move(row, col).is_ok());
    }
    assert_eq!(g.winner, Some(Winner::X));
}

#[test]
fn full_board_without_line_is_tie() {
    // X O X
    // X O O
    // O X X
    let mut g = Game::new();
    for (row, col) in [
        (0, 0),
        (0, 1),
        (0, 2),
        (1, 1),
        (1, 0),
        (1, 2),
        (2, 1),
        (2, 0),
        (2, 2),
    ] {
        assert!(g.make_move(row, col).is_ok());
    }
    assert_eq!(g.winner, Some(Winner::Tie));
    assert!(g.valid_moves().is_empty());
    assert_eq!(count_empty(&g), 0);
}

#[test]
fn next_games_builds_one_child_per_move() {
    let g = Game::new();
    let children = next_games(&g);
    assert_eq!(children.len(), 9);
    let moves = g.valid_moves();
    for (k, child) in children.iter().enumerate() {
        let (row, col) = moves[k];
        // The parent is untouched, the child holds the move.
        assert_eq!(g.piece_at(row, col), None);
        assert_eq!(child.piece_at(row, col), Some(Piece::X));
        assert_eq!(child.valid_moves().len(), 8);
    }
}

#[test]
fn next_games_of_finished_game_is_empty() {
    let mut g = Game::new();
    for (row, col) in [(0, 0), (1, 0), (0, 1), (1, 1), (0, 2)] {
        assert!(g.make_move(row, col).is_ok());
    }
    assert!(next_games(&g).is_empty());
}

#[test]
fn piece_other_flips() {
    assert_eq!(Piece::X.other(), Piece::O);
    assert_eq!(Piece::O.other(), Piece::X);
}

#[test]
fn winner_from_piece() {
    assert_eq!(Winner::from(Piece::X), Winner::X);
    assert_eq!(Winner::from(Piece::O), Winner::O);
}

#[test]
fn cell_characters() {
    assert_eq!(to_char(&None), ' ');
    assert_eq!(to_char(&Some(Piece::X)), 'X');
    assert_eq!(to_char(&Some(Piece::O)), 'O');
}

#[test]
fn clone_copies_the_position() {
    let mut g = Game::new();
    assert!(g.make_move(2, 0).is_ok());
    let c = g.clone();
    assert_eq!(snapshot(&c), snapshot(&g));
    // Mutating the copy leaves the original alone.
    let mut c2 = c.clone();
    assert!(c2.make_move(0, 0).is_ok());
    assert_eq!(g.piece_at(0, 0), None);
    assert_eq!(c2.piece_at(0, 0), Some(Piece::O));
}
