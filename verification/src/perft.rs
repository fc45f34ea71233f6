//! Counting the positions that legal play reaches in a given number of plies.

use vstd::prelude::*;
use crate::board::ChessBoard;
use crate::chessmove::ChessMove;
use crate::position::Position;

verus! {

/// A count as far as 64 bits hold it: counts beyond stay at the largest value.
pub open spec fn capped(count: nat) -> u64 {
    if count <= u64::MAX {
        count as u64
    } else {
        u64::MAX
    }
}

impl Position {
    /// The number of ways to play `depth` plies of legal moves from the
    /// position. Below one ply the position itself is the one thing counted.
    pub open spec fn leaves(self, depth: int) -> nat
        decreases depth, 0nat,
    {
        if depth < 1 {
            1
        } else if depth == 1 {
            self.legal_moves().len()
        } else {
            self.leaves_after(self.legal_moves(), depth - 1, self.legal_moves().len())
        }
    }

    /// The sum over the first `n` of `moves` of the number of ways to play
    /// `depth` plies from the position after the move.
    pub open spec fn leaves_after(self, moves: Seq<ChessMove>, depth: int, n: nat) -> nat
        decreases depth, n + 1,
    {
        if n == 0 || depth < 1 {
            0
        } else {
            self.leaves_after(moves, depth, (n - 1) as nat) + self.after(moves[n - 1]).leaves(depth)
        }
    }
}

/// The number of ways to play `depth` plies of legal moves from `board`.
pub fn count_positions(board: ChessBoard, depth: i32) -> (r: u64)
    requires
        board.wf(),
    ensures
        r == capped(board@.leaves(depth as int)),
    decreases depth,
{
    if depth < 1 {
        return 1;
    }
    let all_moves = board.all_possible_moves();
    if depth == 1 {
        return all_moves.len() as u64;
    }
    let mut pos_count: u64 = 0;
    let mut i: usize = 0;
    while i < all_moves.len()
        invariant
            board.wf(),
            depth > 1,
            all_moves@ == board@.legal_moves(),
            forall|k: int|
                0 <= k < all_moves.len() ==> board@.mover_at((#[trigger] all_moves[k]).from_sq()),
            i <= all_moves.len(),
            pos_count == capped(board@.leaves_after(all_moves@, depth - 1, i as nat)),
        decreases all_moves.len() - i,
    {
        let mv = all_moves[i];
        let below = count_positions(board.with_move(mv), depth - 1);
        pos_count = pos_count.saturating_add(below);
        i += 1;
    }
    pos_count
}

/// For each legal move of `board`, the move and the number of ways to play
/// `depth - 1` plies after it.
pub fn perft_divide(board: ChessBoard, depth: i32) -> (r: Vec<(ChessMove, u64)>)
    requires
        board.wf(),
        depth > i32::MIN,
    ensures
        r.len() == board@.legal_moves().len(),
        forall|i: int|
            0 <= i < r.len() ==> (#[trigger] r[i]).0 == board@.legal_moves()[i] && r[i].1 == capped(
                board@.after(board@.legal_moves()[i]).leaves(depth - 1),
            ),
{
    let all_moves = board.all_possible_moves();
    let mut res: Vec<(ChessMove, u64)> = Vec::new();
    let mut i: usize = 0;
    while i < all_moves.len()
        invariant
            board.wf(),
            depth > i32::MIN,
            all_moves@ == board@.legal_moves(),
            forall|k: int|
                0 <= k < all_moves.len() ==> board@.mover_at((#[trigger] all_moves[k]).from_sq()),
            i <= all_moves.len(),
            res.len() == i,
            forall|k: int|
                0 <= k < i ==> (#[trigger] res[k]).0 == all_moves[k] && res[k].1 == capped(
                    board@.after(all_moves[k]).leaves(depth - 1),
                ),
        decreases all_moves.len() - i,
    {
        let mv = all_moves[i];
        let below = count_positions(board.with_move(mv), depth - 1);
        res.push((mv, below));
        i += 1;
    }
    res
}

} // verus!
