//! The mathematical model of a chess position and of what a move does to it.
//!
//! A position is a board of 64 squares, each empty or holding one piece, the
//! side to move, the four castling rights and the en-passant target. Squares
//! are numbered from a8 (0) along each rank to h1 (63).

use vstd::prelude::*;
use crate::chessmove::{CastleMove, ChessMove};
use crate::piece::Piece;

verus! {

pub open spec fn on_board(sq: int) -> bool {
    0 <= sq < 64
}

/// The rank of a square, 0 for the eighth rank down to 7 for the first.
pub open spec fn rank_of(sq: int) -> int {
    sq / 8
}

/// The file of a square, 0 for the a-file up to 7 for the h-file.
pub open spec fn file_of(sq: int) -> int {
    sq % 8
}

/// The four castling rights.
pub struct Rights {
    pub white_k: bool,
    pub white_q: bool,
    pub black_k: bool,
    pub black_q: bool,
}

pub struct Position {
    pub board: Seq<Option<Piece>>,
    pub white_to_move: bool,
    pub rights: Rights,
    pub en_passant: Option<int>,
}

pub open spec fn pawn_of(white: bool) -> Piece {
    if white {
        Piece::WhitePawn
    } else {
        Piece::BlackPawn
    }
}

pub open spec fn king_of(white: bool) -> Piece {
    if white {
        Piece::WhiteKing
    } else {
        Piece::BlackKing
    }
}

/// The piece that a pawn of the given colour becomes under a promotion tag.
pub open spec fn promotion_piece(white: bool, tag: int) -> Option<Piece> {
    if tag == 1 {
        Some(if white { Piece::WhiteKnight } else { Piece::BlackKnight })
    } else if tag == 2 {
        Some(if white { Piece::WhiteBishop } else { Piece::BlackBishop })
    } else if tag == 4 {
        Some(if white { Piece::WhiteRook } else { Piece::BlackRook })
    } else if tag == 8 {
        Some(if white { Piece::WhiteQueen } else { Piece::BlackQueen })
    } else {
        None
    }
}

/// A right survives a move unless the move starts from or lands on the home
/// square of its king or of its rook.
pub open spec fn rights_after(r: Rights, from: int, to: int) -> Rights {
    Rights {
        white_k: r.white_k && from != 60 && from != 63 && to != 60 && to != 63,
        white_q: r.white_q && from != 60 && from != 56 && to != 60 && to != 56,
        black_k: r.black_k && from != 4 && from != 7 && to != 4 && to != 7,
        black_q: r.black_q && from != 4 && from != 0 && to != 4 && to != 0,
    }
}

/// The board after the king and the rook of a castling move have changed places.
pub open spec fn castled(board: Seq<Option<Piece>>, kind: CastleMove) -> Seq<Option<Piece>> {
    match kind {
        CastleMove::WhiteKingside => board.update(60, None).update(63, None).update(
            62,
            Some(Piece::WhiteKing),
        ).update(61, Some(Piece::WhiteRook)),
        CastleMove::WhiteQueenside => board.update(60, None).update(56, None).update(
            58,
            Some(Piece::WhiteKing),
        ).update(59, Some(Piece::WhiteRook)),
        CastleMove::BlackKingside => board.update(4, None).update(7, None).update(
            6,
            Some(Piece::BlackKing),
        ).update(5, Some(Piece::BlackRook)),
        CastleMove::BlackQueenside => board.update(4, None).update(0, None).update(
            2,
            Some(Piece::BlackKing),
        ).update(3, Some(Piece::BlackRook)),
    }
}

impl Position {
    /// What stands on a square; nothing stands outside the board.
    pub open spec fn at(self, sq: int) -> Option<Piece> {
        if on_board(sq) && self.board.len() == 64 {
            self.board[sq]
        } else {
            None
        }
    }

    pub open spec fn occupied(self, sq: int) -> bool {
        self.at(sq) is Some
    }

    /// Whether a piece of the given colour stands on the square.
    pub open spec fn has_colour(self, white: bool, sq: int) -> bool {
        self.at(sq) matches Some(p) && p.is_white() == white
    }

    /// Whether a piece of the side to move stands on the square.
    pub open spec fn mover_at(self, sq: int) -> bool {
        self.has_colour(self.white_to_move, sq)
    }

    /// A position is valid when each castling right still has its king and
    /// rook on their home squares, and an en-passant target lies on the rank
    /// behind an enemy pawn that can have just advanced two squares.
    pub open spec fn valid(self) -> bool {
        &&& self.board.len() == 64
        &&& self.rights.white_k ==> self.at(60) == Some(Piece::WhiteKing) && self.at(63) == Some(
            Piece::WhiteRook,
        )
        &&& self.rights.white_q ==> self.at(60) == Some(Piece::WhiteKing) && self.at(56) == Some(
            Piece::WhiteRook,
        )
        &&& self.rights.black_k ==> self.at(4) == Some(Piece::BlackKing) && self.at(7) == Some(
            Piece::BlackRook,
        )
        &&& self.rights.black_q ==> self.at(4) == Some(Piece::BlackKing) && self.at(0) == Some(
            Piece::BlackRook,
        )
        &&& match self.en_passant {
            None => true,
            Some(ep) => if self.white_to_move {
                16 <= ep < 24 && self.at(ep + 8) == Some(Piece::BlackPawn)
            } else {
                40 <= ep < 48 && self.at(ep - 8) == Some(Piece::WhitePawn)
            },
        }
    }

    /// Which castling move `m` is, if any: the king of the side to move goes
    /// from its home square to the square two files away.
    pub open spec fn castle_kind(self, m: ChessMove) -> Option<CastleMove> {
        let from = m.from_sq();
        let to = m.to_sq();
        if self.white_to_move && from == 60 && self.at(60) == Some(Piece::WhiteKing) {
            if to == 62 {
                Some(CastleMove::WhiteKingside)
            } else if to == 58 {
                Some(CastleMove::WhiteQueenside)
            } else {
                None
            }
        } else if !self.white_to_move && from == 4 && self.at(4) == Some(Piece::BlackKing) {
            if to == 6 {
                Some(CastleMove::BlackKingside)
            } else if to == 2 {
                Some(CastleMove::BlackQueenside)
            } else {
                None
            }
        } else {
            None
        }
    }

    /// Whether `m` takes a pawn of the side to move from its starting rank two
    /// squares forward.
    pub open spec fn is_double_push(self, m: ChessMove) -> bool {
        let from = m.from_sq();
        let to = m.to_sq();
        &&& self.at(from) == Some(pawn_of(self.white_to_move))
        &&& promotion_piece(self.white_to_move, m.tag()) is None
        &&& if self.white_to_move {
            48 <= from < 56 && to == from - 16
        } else {
            8 <= from < 16 && to == from + 16
        }
    }

    /// Whether `m` takes a pawn of the side to move onto the en-passant target.
    pub open spec fn is_en_passant_capture(self, m: ChessMove) -> bool {
        &&& self.at(m.from_sq()) == Some(pawn_of(self.white_to_move))
        &&& promotion_piece(self.white_to_move, m.tag()) is None
        &&& self.en_passant == Some(m.to_sq())
    }

    /// The position after move `m`, for a move whose origin holds a piece of
    /// the side to move.
    ///
    /// The piece leaves its origin and lands on the destination, replacing
    /// what stood there; under a promotion tag the promoted piece lands
    /// instead. A pawn that lands on the en-passant target also removes the
    /// pawn one rank behind the target. A castling move takes the rook along.
    /// The en-passant target is set behind a pawn that has just advanced two
    /// squares, and is unset by every other move.
    pub open spec fn after(self, m: ChessMove) -> Position {
        let from = m.from_sq();
        let to = m.to_sq();
        let white = self.white_to_move;
        let board = match self.castle_kind(m) {
            Some(kind) => castled(self.board, kind),
            None => {
                let placed = match promotion_piece(white, m.tag()) {
                    Some(q) => q,
                    None => self.board[from].unwrap(),
                };
                let moved = self.board.update(from, None).update(to, Some(placed));
                if self.is_en_passant_capture(m) {
                    moved.update(if white { to + 8 } else { to - 8 }, None)
                } else {
                    moved
                }
            },
        };
        Position {
            board,
            white_to_move: !white,
            rights: rights_after(self.rights, from, to),
            en_passant: if self.is_double_push(m) {
                Some((from + to) / 2)
            } else {
                None
            },
        }
    }
}

/// A valid position stays valid under every move of one of the mover's pieces.
pub proof fn lemma_after_valid(p: Position, m: ChessMove)
    requires
        p.valid(),
        p.mover_at(m.from_sq()),
    ensures
        p.after(m).valid(),
{
    let q = p.after(m);
    let from = m.from_sq();
    let to = m.to_sq();
    assert(q.board.len() == 64);
    assert(0 <= from < 64 && 0 <= to < 64);
}


/// An en-passant square lasts for one move. Whatever the side to move plays,
/// the square of before is the en-passant square no longer; a new one arises
/// only behind a pawn that has just advanced two squares.
pub proof fn lemma_en_passant_lapses(p: Position, m: ChessMove)
    requires
        p.valid(),
        p.mover_at(m.from_sq()),
    ensures
        p.after(m).en_passant is Some <==> p.is_double_push(m),
        p.is_double_push(m) ==> p.after(m).en_passant == Some((m.from_sq() + m.to_sq()) / 2),
        p.en_passant is Some ==> p.after(m).en_passant != p.en_passant,
{
}

} // verus!
