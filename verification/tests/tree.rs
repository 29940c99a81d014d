//! Tests for the game-tree builder and its exact outcome counts.

use tictactoe::game::{Game, Winner};
use tictactoe::game_tree::{GameTree, factorial};

/// Checks, at every node of the tree, that the three outcome counts sum to
/// the node's total number of playout completions, and that a node is a
/// leaf exactly when its game is finished.
fn check_node(t: &GameTree) {
    let x = t.outcome_count(Winner::X);
    let o = t.outcome_count(Winner::O);
    let tie = t.outcome_count(Winner::Tie);
    assert_eq!(x + o + tie, t.playout_total());
    if t.game.winner.is_some() {
        assert!(t.edges.is_empty());
    } else {
        assert!(!t.edges.is_empty());
        for e in &t.edges {
            assert_eq!(e.x_count, e.child.outcome_count(Winner::X));
            assert_eq!(e.o_count, e.child.outcome_count(Winner::O));
            assert_eq!(e.tie_count, e.child.outcome_count(Winner::Tie));
            check_node(&e.child);
        }
    }
}

#[test]
fn factorial_values() {
    assert_eq!(factorial(0), 1);
    assert_eq!(factorial(1), 1);
    assert_eq!(factorial(4), 24);
    assert_eq!(factorial(9), 362880);
}

#[test]
fn leaf_tree_for_finished_game() {
    let mut g = Game::new();
    for (row, col) in [(0, 0), (1, 0), (0, 1), (1, 1), (0, 2)] {
        assert!(g.make_move(row, col).is_ok());
    }
    let t = GameTree::from(g);
    assert!(t.edges.is_empty());
    // Four cells stay empty, so 4! orderings complete the playout.
    assert_eq!(t.playout_total(), 24);
    assert_eq!(t.outcome_count(Winner::X), 24);
    assert_eq!(t.outcome_count(Winner::O), 0);
    assert_eq!(t.outcome_count(Winner::Tie), 0);
}

#[test]
fn root_counts_partition_all_playouts() {
    let t = GameTree::from(Game::new());
    assert_eq!(t.edges.len(), 9);
    assert_eq!(t.playout_total(), 362880);
    let x = t.outcome_count(Winner::X);
    let o = t.outcome_count(Winner::O);
    let tie = t.outcome_count(Winner::Tie);
    assert_eq!(x + o + tie, 362880);
    // Each child of the root accounts for all 8! of its own completions.
    for e in &t.edges {
        assert_eq!(e.x_count + e.o_count + e.tie_count, 40320);
    }
}

#[test]
fn counts_sum_at_every_node() {
    let t = GameTree::from(Game::new());
    check_node(&t);
}

#[test]
fn exhaustive_uniform_play_counts() {
    let t = GameTree::from(Game::new());
    // Exact weighted counts over the 9! = 362880 equally likely
    // completions of uniform random play from the empty board.
    assert_eq!(t.outcome_count(Winner::X), 212256);
    assert_eq!(t.outcome_count(Winner::O), 104544);
    assert_eq!(t.outcome_count(Winner::Tie), 46080);
    // To four decimal places: 0.5849, 0.2881, 0.1270.
    let total = t.playout_total() as f64;
    assert!((t.outcome_count(Winner::X) as f64 / total - 0.5849).abs() < 5e-5);
    assert!((t.outcome_count(Winner::O) as f64 / total - 0.2881).abs() < 5e-5);
    assert!((t.outcome_count(Winner::Tie) as f64 / total - 0.1270).abs() < 5e-5);
}

#[test]
fn tree_orders_edges_like_the_moves() {
    let t = GameTree::from(Game::new());
    let moves = t.game.valid_moves();
    assert_eq!(moves.len(), t.edges.len());
    for (k, e) in t.edges.iter().enumerate() {
        let (row, col) = moves[k];
        assert!(e.child.game.piece_at(row, col).is_some());
    }
}
