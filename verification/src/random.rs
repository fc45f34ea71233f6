//! Picking a legal move at random.

use vstd::prelude::*;
use rand::seq::IndexedRandom;
use crate::board::ChessBoard;
use crate::chessmove::ChessMove;

verus! {

/// `IndexedRandom::choose` of the rand crate on the slice of the moves, with
/// the generator of the running thread (`rand::rng`): it hands out `None`
/// for an empty slice and else the element at an index that it draws below
/// the length. Which element comes is left open.
#[verifier::external_body]
fn choose_move(moves: &Vec<ChessMove>) -> (r: Option<ChessMove>)
    ensures
        moves@.len() == 0 ==> r is None,
        moves@.len() > 0 ==> r is Some && moves@.contains(r->0),
{
    let mut rng = rand::rng();
    moves.choose(&mut rng).cloned()
}

impl ChessBoard {
    /// One of the legal moves, picked at random, or `None` where there is none.
    pub fn random_move(&self) -> (r: Option<ChessMove>)
        requires
            self.wf(),
        ensures
            r is None <==> self@.legal_moves().len() == 0,
            r matches Some(m) ==> self@.legal_moves().contains(m) && self@.mover_at(m.from_sq())
                && self@.is_safe(m),
    {
        let all_moves = self.all_possible_moves();
        let pick = choose_move(&all_moves);
        proof {
            if let Some(m) = pick {
                let k = choose|k: int| 0 <= k < all_moves@.len() && all_moves@[k] == m;
                assert(self@.mover_at(all_moves[k].from_sq()));
            }
        }
        pick
    }

    /// Plays a legal move picked at random and hands it out, or leaves the
    /// position as it is and hands out `None` where there is no legal move.
    pub fn make_random_move(&mut self) -> (r: Option<ChessMove>)
        requires
            old(self).wf(),
        ensures
            final(self).wf(),
            r is None <==> old(self)@.legal_moves().len() == 0,
            r is None ==> *final(self) == *old(self),
            r matches Some(m) ==> old(self)@.legal_moves().contains(m) && final(self)@ == old(
                self,
            )@.after(m),
    {
        let pick = self.random_move();
        match pick {
            Some(m) => {
                self.make_move(m);
            },
            None => {},
        }
        pick
    }
}

} // verus!
