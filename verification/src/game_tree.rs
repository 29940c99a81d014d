//! The game-tree builder: materializes the full tree of positions reachable
//! from a given game and aggregates, bottom-up, how often each outcome is
//! reached under uniform random play.
//!
//! Probabilities are kept exact. A position with `e` empty cells has
//! `fact(e)` equally likely completions of play (a game ending early counts
//! once for each ordering of the cells never filled); [`win_weight`] is the
//! number of those completions that reach a given outcome, so the outcome's
//! probability is `win_weight / fact(e)` and the three weights always sum
//! to `fact(e)`.

use vstd::prelude::*;
use crate::game::{Game, Winner, Piece, empty_count, moves_from, next_board, winner_of, is_full,
    is_successor, legal_move_at, move_index, next_games, lemma_moves_from_props, lemma_moves_len,
    lemma_empty_count_update, lemma_empties_positive, lemma_empties_bound, lemma_same_position,
    lemma_wf_view_len};

verus! {

broadcast use vstd::std_specs::vec::group_vec_axioms;

/// The factorial of `n`.
pub open spec fn fact(n: nat) -> nat
    decreases n,
{
    if n == 0 {
        1
    } else {
        n * fact((n - 1) as nat)
    }
}

/// Whether every entry of `ms` names an empty in-range cell of `b`.
pub open spec fn valid_moves_for(b: Seq<Option<Piece>>, ms: Seq<(usize, usize)>) -> bool {
    forall|k: int| 0 <= k < ms.len() ==> legal_move_at(b, 0, #[trigger] ms[k])
}

/// The number of completions of uniform random play from the position
/// `(b, cur)` that end in outcome `w`, out of `fact(empty_count(b))`
/// equally likely completions.
pub open spec fn win_weight(b: Seq<Option<Piece>>, cur: Piece, w: Winner) -> nat
    decreases empty_count(b), 1int, 0int,
        when b.len() == 9
        via win_weight_dec
{
    match winner_of(b) {
        Some(out) => if out == w {
            fact(empty_count(b))
        } else {
            0
        },
        None => sum_weights(b, cur, w, moves_from(b, 0), 0),
    }
}

/// The sum of the outcome-`w` weights of the positions reached by playing
/// each of the moves `ms[j..]` from `(b, cur)`.
pub open spec fn sum_weights(
    b: Seq<Option<Piece>>,
    cur: Piece,
    w: Winner,
    ms: Seq<(usize, usize)>,
    j: int,
) -> nat
    decreases empty_count(b), 0int, ms.len() - j,
        when b.len() == 9 && 0 <= j && valid_moves_for(b, ms)
        via sum_weights_dec
{
    if j >= ms.len() {
        0
    } else {
        win_weight(next_board(b, ms[j], cur), cur.spec_other(), w) + sum_weights(
            b,
            cur,
            w,
            ms,
            j + 1,
        )
    }
}

#[via_fn]
proof fn win_weight_dec(b: Seq<Option<Piece>>, cur: Piece, w: Winner) {
    if winner_of(b) is None {
        lemma_moves_from_props(b, 0);
    }
}

#[via_fn]
proof fn sum_weights_dec(b: Seq<Option<Piece>>, cur: Piece, w: Winner, ms: Seq<(usize, usize)>, j: int) {
    if j < ms.len() {
        assert(legal_move_at(b, 0, ms[j]));
        lemma_empty_count_update(b, move_index(ms[j]), cur);
        assert(empty_count(next_board(b, ms[j], cur)) < empty_count(b));
    }
}

/// A larger board count never has a smaller factorial.
proof fn lemma_fact_le(a: nat, c: nat)
    requires
        a <= c,
    ensures
        fact(a) <= fact(c),
    decreases c,
{
    if a < c {
        lemma_fact_le(a, (c - 1) as nat);
        assert(fact(c) == c * fact((c - 1) as nat));
        assert(c * fact((c - 1) as nat) >= fact((c - 1) as nat)) by (nonlinear_arith)
            requires
                c >= 1,
        ;
    }
}

/// The factorial of a full board's nine empty cells.
proof fn lemma_fact_9()
    ensures
        fact(9) == 362880,
{
    reveal_with_fuel(fact, 10);
}

/// The three outcome weights at any position account for every completion
/// of play: they sum to the factorial of the number of empty cells.
proof fn lemma_weights_sum_all(b: Seq<Option<Piece>>, cur: Piece)
    requires
        b.len() == 9,
    ensures
        win_weight(b, cur, Winner::X) + win_weight(b, cur, Winner::O) + win_weight(
            b,
            cur,
            Winner::Tie,
        ) == fact(empty_count(b)),
    decreases empty_count(b), 1int, 0int,
{
    if winner_of(b) is None {
        let ms = moves_from(b, 0);
        lemma_moves_from_props(b, 0);
        lemma_moves_len(b, 0);
        assert(!is_full(b));
        let i0 = choose|i: int| 0 <= i < 9 && !(b[i] is Some);
        lemma_empties_positive(b, i0);
        lemma_sum_weights_all(b, cur, ms, 0);
        let ec = empty_count(b);
        assert(fact(ec) == ec * fact((ec - 1) as nat));
    }
}

proof fn lemma_sum_weights_all(b: Seq<Option<Piece>>, cur: Piece, ms: Seq<(usize, usize)>, j: int)
    requires
        b.len() == 9,
        winner_of(b) is None,
        valid_moves_for(b, ms),
        0 <= j <= ms.len(),
        empty_count(b) >= 1,
    ensures
        sum_weights(b, cur, Winner::X, ms, j) + sum_weights(b, cur, Winner::O, ms, j)
            + sum_weights(b, cur, Winner::Tie, ms, j) == (ms.len() - j) * fact(
            (empty_count(b) - 1) as nat,
        ),
    decreases empty_count(b), 0int, ms.len() - j,
{
    let f = fact((empty_count(b) - 1) as nat);
    if j == ms.len() {
        assert(sum_weights(b, cur, Winner::X, ms, j) == 0);
        assert(sum_weights(b, cur, Winner::O, ms, j) == 0);
        assert(sum_weights(b, cur, Winner::Tie, ms, j) == 0);
        assert((ms.len() - j) * f == 0) by (nonlinear_arith)
            requires
                j == ms.len(),
        ;
    } else {
        let m = ms[j];
        assert(legal_move_at(b, 0, m));
        let b2 = next_board(b, m, cur);
        lemma_empty_count_update(b, move_index(m), cur);
        assert(empty_count(b2) == empty_count(b) - 1);
        lemma_weights_sum_all(b2, cur.spec_other());
        assert(win_weight(b2, cur.spec_other(), Winner::X) + win_weight(b2, cur.spec_other(), Winner::O)
            + win_weight(b2, cur.spec_other(), Winner::Tie) == f);
        lemma_sum_weights_all(b, cur, ms, j + 1);
        assert(sum_weights(b, cur, Winner::X, ms, j) == win_weight(b2, cur.spec_other(), Winner::X)
            + sum_weights(b, cur, Winner::X, ms, j + 1));
        assert(sum_weights(b, cur, Winner::O, ms, j) == win_weight(b2, cur.spec_other(), Winner::O)
            + sum_weights(b, cur, Winner::O, ms, j + 1));
        assert(sum_weights(b, cur, Winner::Tie, ms, j) == win_weight(b2, cur.spec_other(), Winner::Tie)
            + sum_weights(b, cur, Winner::Tie, ms, j + 1));
        assert((ms.len() - j) * f == (ms.len() - (j + 1)) * f + f) by (nonlinear_arith);
    }
}

/// Under uniform random play the three outcomes partition every completion
/// of the game: their weights at any position sum to the factorial of the
/// number of empty cells, so the three probabilities sum to one.
pub proof fn lemma_outcome_weights_total(b: Seq<Option<Piece>>, cur: Piece)
    requires
        b.len() == 9,
    ensures
        win_weight(b, cur, Winner::X) + win_weight(b, cur, Winner::O) + win_weight(
            b,
            cur,
            Winner::Tie,
        ) == fact(empty_count(b)),
{
    lemma_weights_sum_all(b, cur);
}

/// The factorial of `n`, for the at most nine empty cells of a board.
pub fn factorial(n: u64) -> (r: u64)
    requires
        n <= 9,
    ensures
        r == fact(n as nat),
        r <= 362880,
    decreases n,
{
    proof {
        lemma_fact_le(n as nat, 9);
        lemma_fact_9();
    }
    if n == 0 {
        1
    } else {
        let rest = factorial(n - 1);
        assert(n as nat * fact((n - 1) as nat) == fact(n as nat));
        n * rest
    }
}

/// One edge of the tree: a child position together with its cached outcome
/// weights, computed once while the tree is built and never changed.
pub struct Edge {
    pub child: GameTree,
    pub x_count: u64,
    pub o_count: u64,
    pub tie_count: u64,
}

/// A node of the full game tree: a game snapshot and one edge per legal
/// move, in the moves' row-major order. A node is a leaf exactly when its
/// game has an outcome.
pub struct GameTree {
    pub game: Game,
    pub edges: Vec<Edge>,
}

impl Edge {
    /// The edge's child is the position its move leads to from `parent`,
    /// the child's subtree is well-formed, and the cached weights are the
    /// child's true outcome weights.
    pub open spec fn wf_edge(self, parent: Game, m: (usize, usize)) -> bool
        decreases self,
    {
        &&& is_successor(parent, m, self.child.game)
        &&& self.child.wf()
        &&& self.x_count == win_weight(
            self.child.game.board_view(),
            self.child.game.turn(),
            Winner::X,
        )
        &&& self.o_count == win_weight(
            self.child.game.board_view(),
            self.child.game.turn(),
            Winner::O,
        )
        &&& self.tie_count == win_weight(
            self.child.game.board_view(),
            self.child.game.turn(),
            Winner::Tie,
        )
    }
}

impl GameTree {
    /// The whole tree is well-formed: every node holds a well-formed game,
    /// a finished node is a leaf, and a running node has one well-formed
    /// edge per legal move — at least one, since a running game always has
    /// a legal move.
    pub open spec fn wf(self) -> bool
        decreases self,
    {
        &&& self.game.wf()
        &&& (self.game.outcome() is Some ==> self.edges@.len() == 0)
        &&& (self.game.outcome() is None ==> {
            &&& self.edges@.len() == self.game.legal_moves().len()
            &&& self.edges@.len() >= 1
            &&& forall|i: int|
                0 <= i < self.edges@.len() ==> (#[trigger] self.edges[i]).wf_edge(
                    self.game,
                    self.game.legal_moves()[i],
                )
        })
    }

    /// Builds the full game tree under `game`: a leaf if the game is over,
    /// else one recursively built subtree per legal move, each edge caching
    /// its child's outcome weights.
    pub fn from(game: Game) -> (t: GameTree)
        requires
            game.wf(),
        ensures
            t.wf(),
            t.game == game,
        decreases empty_count(game.board_view()),
    {
        if game.is_finished() {
            return GameTree { game, edges: Vec::new() };
        }
        let children = next_games(&game);
        let ghost ms = game.legal_moves();
        proof {
            lemma_wf_view_len(game);
            lemma_moves_from_props(game.board_view(), 0);
            lemma_moves_len(game.board_view(), 0);
            assert(!is_full(game.board_view()));
            let i0 = choose|i: int| 0 <= i < 9 && !(game.board_view()[i] is Some);
            lemma_empties_positive(game.board_view(), i0);
        }
        let mut edges: Vec<Edge> = Vec::new();
        let mut k: usize = 0;
        while k < children.len()
            invariant
                game.wf(),
                game.outcome() is None,
                ms == game.legal_moves(),
                game.board_view().len() == 9,
                children@.len() == ms.len(),
                forall|i: int|
                    0 <= i < children@.len() ==> is_successor(game, ms[i], #[trigger] children@[i]),
                0 <= k <= children@.len(),
                edges@.len() == k,
                forall|i: int| 0 <= i < k ==> (#[trigger] edges[i]).wf_edge(game, ms[i]),
            decreases children@.len() - k,
        {
            let cg = children[k].clone();
            proof {
                lemma_same_position(children[k as int], cg);
                assert(is_successor(game, ms[k as int], cg));
                lemma_moves_from_props(game.board_view(), 0);
                assert(legal_move_at(game.board_view(), 0, ms[k as int]));
                lemma_empty_count_update(game.board_view(), move_index(ms[k as int]), game.turn());
                assert(empty_count(cg.board_view()) < empty_count(game.board_view()));
            }
            let child = GameTree::from(cg);
            let x = child.outcome_count(Winner::X);
            let o = child.outcome_count(Winner::O);
            let t = child.outcome_count(Winner::Tie);
            let e = Edge { child, x_count: x, o_count: o, tie_count: t };
            proof {
                assert(e.wf_edge(game, ms[k as int]));
            }
            edges.push(e);
            k = k + 1;
        }
        GameTree { game, edges }
    }

    /// The number of completions of uniform random play from this node's
    /// position that end in outcome `w`, read from the cached edge weights:
    /// out of `playout_total()` equally likely completions.
    pub fn outcome_count(&self, w: Winner) -> (n: u64)
        requires
            self.wf(),
        ensures
            n == win_weight(self.game.board_view(), self.game.turn(), w),
    {
        let ghost b = self.game.board_view();
        let ghost t = self.game.turn();
        proof {
            lemma_wf_view_len(self.game);
        }
        match self.game.winner() {
            Some(out) => {
                let e = self.game.empty_cell_count();
                proof {
                    lemma_empties_bound(b, 0);
                }
                let f = factorial(e);
                if out == w {
                    f
                } else {
                    0
                }
            },
            None => {
                let ghost ms = moves_from(b, 0);
                proof {
                    lemma_moves_from_props(b, 0);
                    lemma_moves_len(b, 0);
                    assert(valid_moves_for(b, ms));
                    assert(win_weight(b, t, w) == sum_weights(b, t, w, ms, 0));
                    assert(!is_full(b));
                    let i0 = choose|i: int| 0 <= i < 9 && !(b[i] is Some);
                    lemma_empties_positive(b, i0);
                    lemma_weights_sum_all(b, t);
                    lemma_empties_bound(b, 0);
                    lemma_fact_le(empty_count(b), 9);
                    lemma_fact_9();
                }
                let mut n: u64 = 0;
                let mut k: usize = 0;
                while k < self.edges.len()
                    invariant
                        self.wf(),
                        self.game.outcome() is None,
                        b == self.game.board_view(),
                        t == self.game.turn(),
                        ms == self.game.legal_moves(),
                        b.len() == 9,
                        valid_moves_for(b, ms),
                        self.edges@.len() == ms.len(),
                        0 <= k <= ms.len(),
                        n + sum_weights(b, t, w, ms, k as int) == win_weight(b, t, w),
                        win_weight(b, t, w) <= 362880,
                    decreases self.edges@.len() - k,
                {
                    let c: u64 = match w {
                        Winner::X => self.edges[k].x_count,
                        Winner::O => self.edges[k].o_count,
                        Winner::Tie => self.edges[k].tie_count,
                    };
                    proof {
                        assert(self.edges[k as int].wf_edge(self.game, ms[k as int]));
                        assert(c == win_weight(next_board(b, ms[k as int], t), t.spec_other(), w));
                        assert(sum_weights(b, t, w, ms, k as int) == win_weight(
                            next_board(b, ms[k as int], t),
                            t.spec_other(),
                            w,
                        ) + sum_weights(b, t, w, ms, k as int + 1));
                    }
                    n = n + c;
                    k = k + 1;
                }
                n
            },
        }
    }

    /// The number of equally likely completions of uniform random play from
    /// this node's position: the factorial of its empty-cell count, and the
    /// sum of the three outcome counts.
    pub fn playout_total(&self) -> (n: u64)
        requires
            self.wf(),
        ensures
            n == fact(empty_count(self.game.board_view())),
            n <= 362880,
    {
        let e = self.game.empty_cell_count();
        proof {
            lemma_wf_view_len(self.game);
            lemma_empties_bound(self.game.board_view(), 0);
        }
        factorial(e)
    }
}

} // verus!
