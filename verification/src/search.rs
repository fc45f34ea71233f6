//! Plain minimax to a fixed depth over the legal moves, with the static score
//! at the leaves. White seeks the highest score, Black the lowest.

use vstd::prelude::*;
use crate::board::ChessBoard;
use crate::chessmove::ChessMove;
use crate::position::Position;

verus! {

/// Whether the score `new` is strictly better for the given side than `old`.
pub open spec fn better(white: bool, new: int, old: int) -> bool {
    if white {
        new > old
    } else {
        new < old
    }
}

impl Position {
    /// The value of the position searched `depth` plies deep: the static score
    /// at depth 0, else the best of the values that the legal moves lead to.
    pub open spec fn minimax(self, depth: nat) -> int
        decreases depth, 0nat,
    {
        if depth == 0 {
            self.score()
        } else {
            self.best_reply(self.legal_moves(), (depth - 1) as nat, self.legal_moves().len())
        }
    }

    /// The best for the side to move of the values, searched `depth` plies
    /// deep, of the positions after the first `n` of `moves`. With no move to
    /// choose from it is the worst value there is for that side.
    pub open spec fn best_reply(self, moves: Seq<ChessMove>, depth: nat, n: nat) -> int
        decreases depth, n + 1,
    {
        if n == 0 {
            if self.white_to_move {
                i32::MIN as int
            } else {
                i32::MAX as int
            }
        } else {
            let rest = self.best_reply(moves, depth, (n - 1) as nat);
            let value = self.after(moves[n - 1]).minimax(depth);
            if better(self.white_to_move, value, rest) {
                value
            } else {
                rest
            }
        }
    }

    /// The first among the first `n` of `moves` whose position, searched
    /// `depth` plies deep, has the best value for the side to move.
    pub open spec fn choice(self, moves: Seq<ChessMove>, depth: nat, n: nat) -> Option<ChessMove>
        decreases n,
    {
        if n == 0 {
            None
        } else {
            match self.choice(moves, depth, (n - 1) as nat) {
                None => Some(moves[n - 1]),
                Some(best) => if better(
                    self.white_to_move,
                    self.after(moves[n - 1]).minimax(depth),
                    self.after(best).minimax(depth),
                ) {
                    Some(moves[n - 1])
                } else {
                    Some(best)
                },
            }
        }
    }

    /// The move to play: the first legal move with the best value, or none
    /// where there is no legal move.
    pub open spec fn best_move(self, depth: nat) -> Option<ChessMove> {
        self.choice(self.legal_moves(), depth, self.legal_moves().len())
    }
}

impl ChessBoard {
    /// The value of the position searched `depth` plies deep, without pruning.
    pub fn minimax(&self, depth: u8) -> (r: i32)
        requires
            self.wf(),
        ensures
            r == self@.minimax(depth as nat),
        decreases depth,
    {
        if depth == 0 {
            return self.evaluate_position();
        }
        let all_moves = self.all_possible_moves();
        let white = self.get_white_to_move();
        let mut best: i32 = if white {
            i32::MIN
        } else {
            i32::MAX
        };
        let mut i: usize = 0;
        while i < all_moves.len()
            invariant
                self.wf(),
                depth > 0,
                white == self@.white_to_move,
                all_moves@ == self@.legal_moves(),
                forall|k: int|
                    0 <= k < all_moves.len() ==> self@.mover_at((#[trigger] all_moves[k]).from_sq()),
                i <= all_moves.len(),
                best == self@.best_reply(all_moves@, (depth - 1) as nat, i as nat),
            decreases all_moves.len() - i,
        {
            let mv = all_moves[i];
            let eval = self.with_move(mv).minimax(depth - 1);
            if white {
                if eval > best {
                    best = eval;
                }
            } else {
                if eval < best {
                    best = eval;
                }
            }
            i += 1;
        }
        best
    }

    /// The best move for the side to move, each legal move being valued by a
    /// search `depth` plies deep from the position it leads to. Among moves of
    /// equal value the first generated wins. `None` tells that there is no
    /// legal move: the game is over.
    pub fn best_mv(&self, depth: u8) -> (r: Option<ChessMove>)
        requires
            self.wf(),
        ensures
            r == self@.best_move(depth as nat),
            r is None <==> self@.legal_moves().len() == 0,
    {
        let all_moves = self.all_possible_moves();
        let white = self.get_white_to_move();
        let mut best_mv: Option<ChessMove> = None;
        let mut best_eval: i32 = 0;
        let mut i: usize = 0;
        while i < all_moves.len()
            invariant
                self.wf(),
                white == self@.white_to_move,
                all_moves@ == self@.legal_moves(),
                forall|k: int|
                    0 <= k < all_moves.len() ==> self@.mover_at((#[trigger] all_moves[k]).from_sq()),
                i <= all_moves.len(),
                best_mv == self@.choice(all_moves@, depth as nat, i as nat),
                best_mv is None <==> i == 0,
                best_mv matches Some(m) ==> best_eval == self@.after(m).minimax(depth as nat),
            decreases all_moves.len() - i,
        {
            let mv = all_moves[i];
            let curr_eval = self.with_move(mv).minimax(depth);
            let take = match best_mv {
                None => true,
                Some(_) => if white {
                    curr_eval > best_eval
                } else {
                    curr_eval < best_eval
                },
            };
            if take {
                best_eval = curr_eval;
                best_mv = Some(mv);
            }
            i += 1;
        }
        best_mv
    }
}

} // verus!
