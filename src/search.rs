//! Exhaustive adversarial search: the value of a position under best play and
//! the move that best play selects.
use vstd::prelude::*;

use crate::game::{
    GameError, Game, GameView, Mark, Outcome, NO_SCORE, WIN_SCORE, empty_count, legal_moves,
    outcome_of, score_of, lemma_legal_upto, lemma_counts_after_place, lemma_place_then_undo,
};

verus! {

/// The value of a position for the side to move, under best play by both sides.
pub open spec fn negamax_value(g: GameView) -> int
    decreases empty_count(g.board), 1nat, 0nat,
{
    if outcome_of(g.board) != Outcome::InProgress {
        score_of(g.board) * g.turn.spec_sign()
    } else {
        best_over(g, legal_moves(g.board))
    }
}

/// The largest negated value of the positions after each of `moves`, or
/// `NO_SCORE` when there are none.
pub open spec fn best_over(g: GameView, moves: Seq<usize>) -> int
    decreases empty_count(g.board), 0nat, moves.len(),
{
    if moves.len() == 0 {
        NO_SCORE as int
    } else {
        let prev = best_over(g, moves.drop_last());
        let m = moves.last() as int;
        if g.board.len() == 9 && m < 9 && g.board[m] is None {
            let s = -negamax_value(g.placed(m));
            if s > prev {
                s
            } else {
                prev
            }
        } else {
            prev
        }
    }
}

/// Move and score after scanning the first `n` of `moves`: a move replaces the
/// incumbent only with a strictly larger score, starting from `moves[0]` and `NO_SCORE`.
pub open spec fn best_pick(g: GameView, moves: Seq<usize>, n: int) -> (usize, int)
    decreases n,
{
    if n <= 0 {
        (moves[0], NO_SCORE as int)
    } else {
        let (bm, bs) = best_pick(g, moves, n - 1);
        let m = moves[n - 1];
        let s = -negamax_value(g.placed(m as int));
        if s > bs {
            (m, s)
        } else {
            (bm, bs)
        }
    }
}

/// The move that best play selects: the first legal move of largest value.
pub open spec fn best_move(g: GameView) -> usize {
    best_pick(g, legal_moves(g.board), legal_moves(g.board).len() as int).0
}


/// Every position of nine cells has a value between `-WIN_SCORE` and `WIN_SCORE`.
pub proof fn lemma_value_bounds(g: GameView)
    requires
        g.board.len() == 9,
    ensures
        -WIN_SCORE <= negamax_value(g) <= WIN_SCORE,
    decreases empty_count(g.board), 1nat, 0nat,
{
    if outcome_of(g.board) == Outcome::InProgress {
        let b = g.board;
        lemma_legal_upto(b, 9);
        let i = choose|i: int| 0 <= i < 9 && b[i] is None;
        assert(!(forall|k: int| 0 <= k < 9 ==> b[k] is Some));
        lemma_best_over_bounds(g, legal_moves(b));
    }
}

/// Over a non-empty list of empty cells the best negated value lies between
/// `-WIN_SCORE` and `WIN_SCORE`.
proof fn lemma_best_over_bounds(g: GameView, moves: Seq<usize>)
    requires
        g.board.len() == 9,
        forall|j: int| 0 <= j < moves.len() ==> moves[j] < 9 && g.board[moves[j] as int] is None,
    ensures
        moves.len() == 0 ==> best_over(g, moves) == NO_SCORE,
        moves.len() > 0 ==> -WIN_SCORE <= best_over(g, moves) <= WIN_SCORE,
    decreases empty_count(g.board), 0nat, moves.len(),
{
    if moves.len() > 0 {
        let m = moves.last() as int;
        lemma_best_over_bounds(g, moves.drop_last());
        lemma_counts_after_place(g, m);
        lemma_value_bounds(g.placed(m));
    }
}

/// Proves that scanning the first `n` of a list of empty cells picks one of them,
/// whose negated value is the best seen.
proof fn lemma_best_pick(g: GameView, moves: Seq<usize>, n: int)
    requires
        g.board.len() == 9,
        forall|j: int| 0 <= j < moves.len() ==> moves[j] < 9 && g.board[moves[j] as int] is None,
        1 <= n <= moves.len(),
    ensures
        best_pick(g, moves, n).1 == best_over(g, moves.take(n)),
        best_pick(g, moves, n).1 == -negamax_value(g.placed(best_pick(g, moves, n).0 as int)),
        exists|j: int| 0 <= j < n && moves[j] == best_pick(g, moves, n).0,
    decreases n,
{
    let m = moves[n - 1];
    lemma_value_bounds(g.placed(m as int));
    assert(moves.take(n).drop_last() =~= moves.take(n - 1));
    assert(moves.take(n).last() == m);
    if n > 1 {
        lemma_best_pick(g, moves, n - 1);
        let j = choose|j: int| 0 <= j < n - 1 && moves[j] == best_pick(g, moves, n - 1).0;
        assert(moves[j] == best_pick(g, moves, n - 1).0);
        assert(best_pick(g, moves, n).1 == best_over(g, moves.take(n)));
    } else {
        assert(moves.take(0) =~= Seq::<usize>::empty());
        assert(best_over(g, moves.take(0)) == NO_SCORE);
        assert(best_pick(g, moves, 0) == (moves[0], NO_SCORE as int));
    }
}

/// In a game in progress the move that best play selects is legal, and its
/// negated value is the value of the position.
pub proof fn lemma_best_move_attains_value(g: GameView)
    requires
        g.board.len() == 9,
        g.outcome() == Outcome::InProgress,
    ensures
        legal_moves(g.board).len() > 0,
        g.board[best_move(g) as int] is None,
        -negamax_value(g.placed(best_move(g) as int)) == negamax_value(g),
{
    let b = g.board;
    let moves = legal_moves(b);
    lemma_legal_upto(b, 9);
    let i = choose|i: int| 0 <= i < 9 && b[i] is None;
    assert(!(forall|k: int| 0 <= k < 9 ==> b[k] is Some));
    lemma_best_pick(g, moves, moves.len() as int);
    assert(moves.take(moves.len() as int) =~= moves);
}

impl Game {
    /// The fixed-perspective score: `WIN_SCORE` for a `Cross` win, its negation
    /// for a `Circle` win, 0 otherwise.
    pub fn evaluate(&self) -> (r: i32)
        ensures
            r == score_of(self@.board),
    {
        match self.is_game_ended() {
            Some(Mark::Circle) => -WIN_SCORE,
            Some(Mark::Cross) => WIN_SCORE,
            None => 0,
        }
    }

    /// The value of the position for the side to move under best play by both
    /// sides; every hypothetical move is retracted before it returns.
    pub fn negamax(&mut self) -> (r: i32)
        ensures
            final(self)@ == old(self)@,
            r == negamax_value(old(self)@),
            NO_SCORE <= r <= -NO_SCORE,
        decreases empty_count(old(self)@.board),
    {
        match self.outcome() {
            Outcome::InProgress => {
                let ghost g0 = self@;
                let moves = self.get_legal_moves();
                proof {
                    lemma_legal_upto(g0.board, 9);
                }
                let mut v: i32 = NO_SCORE;
                let mut i: usize = 0;
                while i < moves.len()
                    invariant
                        self@ == g0,
                        old(self)@ == g0,
                        g0.board.len() == 9,
                        moves@ == legal_moves(g0.board),
                        forall|j: int|
                            0 <= j < moves@.len() ==> moves@[j] < 9 && g0.board[moves@[j] as int] is None,
                        0 <= i <= moves.len(),
                        v == best_over(g0, moves@.take(i as int)),
                        NO_SCORE <= v <= -NO_SCORE,
                    decreases moves.len() - i,
                {
                    let m = moves[i];
                    let _ = self.set_tile(m);
                    proof {
                        lemma_counts_after_place(g0, m as int);
                    }
                    let score = -self.negamax();
                    let _ = self.takeback(m);
                    proof {
                        lemma_place_then_undo(g0, m as int);
                        assert(moves@.take(i + 1).drop_last() =~= moves@.take(i as int));
                    }
                    if score > v {
                        v = score;
                    }
                    i = i + 1;
                }
                assert(moves@.take(moves@.len() as int) =~= moves@);
                v
            },
            _ => self.evaluate() * self.turn.sign(),
        }
    }

    /// Plays the best move for the side to move: the first legal move, in
    /// ascending order, whose value is strictly larger than all before it. With no
    /// empty cell nothing changes and the result is `NoLegalMoves`.
    pub fn ai_play(&mut self) -> (r: Result<(), GameError>)
        ensures
            legal_moves(old(self)@.board).len() == 0 ==> r == Err::<(), GameError>(GameError::NoLegalMoves)
                && final(self)@ == old(self)@,
            legal_moves(old(self)@.board).len() > 0 ==> r == Ok::<(), GameError>(())
                && old(self)@.board[best_move(old(self)@) as int] is None
                && final(self)@ == old(self)@.placed(best_move(old(self)@) as int),
            old(self)@.balanced() ==> final(self)@.balanced(),
    {
        let moves = self.get_legal_moves();
        if moves.len() == 0 {
            return Err(GameError::NoLegalMoves);
        }
        let ghost g0 = self@;
        proof {
            lemma_legal_upto(g0.board, 9);
        }
        let mut v: i32 = NO_SCORE;
        let mut best: usize = moves[0];
        let mut i: usize = 0;
        while i < moves.len()
            invariant
                self@ == g0,
                g0.board.len() == 9,
                moves@ == legal_moves(g0.board),
                moves@.len() > 0,
                forall|j: int|
                    0 <= j < moves@.len() ==> moves@[j] < 9 && g0.board[moves@[j] as int] is None,
                0 <= i <= moves.len(),
                best == best_pick(g0, moves@, i as int).0,
                v == best_pick(g0, moves@, i as int).1,
                best < 9,
                g0.board[best as int] is None,
                NO_SCORE <= v <= -NO_SCORE,
            decreases moves.len() - i,
        {
            let m = moves[i];
            let _ = self.set_tile(m);
            let score = -self.negamax();
            let _ = self.takeback(m);
            proof {
                lemma_place_then_undo(g0, m as int);
            }
            if score > v {
                best = m;
                v = score;
            }
            i = i + 1;
        }
        self.set_tile(best)
    }
}

} // verus!
