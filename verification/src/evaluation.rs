//! The static score of a position: material and placement, summed over the
//! pieces, positive where White stands better.

use vstd::prelude::*;
use crate::board::ChessBoard;
use crate::piece::Piece;
use crate::position::Position;

verus! {

pub const PAWN_VALUE: i32 = 100;

pub const BISHOP_VALUE: i32 = 330;

pub const KNIGHT_VALUE: i32 = 320;

pub const ROOK_VALUE: i32 = 500;

pub const KING_VALUE: i32 = 20000;

pub const QUEEN_VALUE: i32 = 900;

/// The largest amount by which one piece on one square can move the score.
pub const MAX_SQUARE_VALUE: i32 = 20050;

/// A score beyond this bound in either direction tells that a king is missing.
pub const KING_MISSING: i32 = 10000;

pub const PAWN_SQUARES: [i32; 64] = [
    0, 0, 0, 0, 0, 0, 0, 0,
    50, 50, 50, 50, 50, 50, 50, 50,
    10, 10, 20, 30, 30, 20, 10, 10,
    5, 5, 10, 25, 25, 10, 5, 5,
    0, 0, 0, 20, 20, 0, 0, 0,
    5, -5, -10, 0, 0, -10, -5, 5,
    5, 10, 10, -20, -20, 10, 10, 5,
    0, 0, 0, 0, 0, 0, 0, 0,
];

pub const KNIGHT_SQUARES: [i32; 64] = [
    -50, -40, -30, -30, -30, -30, -40, -50,
    -40, -20, 0, 0, 0, 0, -20, -40,
    -30, 0, 10, 15, 15, 10, 0, -30,
    -30, 5, 15, 20, 20, 15, 5, -30,
    -30, 0, 15, 20, 20, 15, 0, -30,
    -30, 5, 10, 15, 15, 10, 5, -30,
    -40, -20, 0, 5, 5, 0, -20, -40,
    -50, -40, -30, -30, -30, -30, -40, -50,
];

pub const BISHOP_SQUARES: [i32; 64] = [
    -20, -10, -10, -10, -10, -10, -10, -20,
    -10, 0, 0, 0, 0, 0, 0, -10,
    -10, 0, 5, 10, 10, 5, 0, -10,
    -10, 5, 5, 10, 10, 5, 5, -10,
    -10, 0, 10, 10, 10, 10, 0, -10,
    -10, 10, 10, 10, 10, 10, 10, -10,
    -10, 5, 0, 0, 0, 0, 5, -10,
    -20, -10, -10, -10, -10, -10, -10, -20,
];

pub const ROOK_SQUARES: [i32; 64] = [
    0, 0, 0, 0, 0, 0, 0, 0,
    5, 10, 10, 10, 10, 10, 10, 5,
    -5, 0, 0, 0, 0, 0, 0, -5,
    -5, 0, 0, 0, 0, 0, 0, -5,
    -5, 0, 0, 0, 0, 0, 0, -5,
    -5, 0, 0, 0, 0, 0, 0, -5,
    -5, 0, 0, 0, 0, 0, 0, -5,
    0, 0, 0, 5, 5, 0, 0, 0,
];

pub const QUEEN_SQUARES: [i32; 64] = [
    -20, -10, -10, -5, -5, -10, -10, -20,
    -10, 0, 0, 0, 0, 0, 0, -10,
    -10, 0, 5, 5, 5, 5, 0, -10,
    -5, 0, 5, 5, 5, 5, 0, -5,
    0, 0, 5, 5, 5, 5, 0, -5,
    -10, 5, 5, 5, 5, 5, 0, -10,
    -10, 0, 5, 0, 0, 0, 0, -10,
    -20, -10, -10, -5, -5, -10, -10, -20,
];

pub const KING_SQUARES: [i32; 64] = [
    -30, -40, -40, -50, -50, -40, -40, -30,
    -30, -40, -40, -50, -50, -40, -40, -30,
    -30, -40, -40, -50, -50, -40, -40, -30,
    -30, -40, -40, -50, -50, -40, -40, -30,
    -20, -30, -30, -40, -40, -30, -30, -20,
    -10, -20, -20, -20, -20, -20, -20, -10,
    20, 20, 0, 0, 0, 0, 20, 20,
    20, 30, 10, 0, 0, 10, 30, 20,
];

/// The square that mirrors `sq` across the middle of the board, file kept.
pub open spec fn mirrored(sq: int) -> int {
    (7 - sq / 8) * 8 + sq % 8
}

/// What a white piece of the kind of `piece` is worth on square `sq`.
pub open spec fn white_value(piece: Piece, sq: int) -> int {
    match piece {
        Piece::WhitePawn | Piece::BlackPawn => PAWN_VALUE + PAWN_SQUARES[sq],
        Piece::WhiteBishop | Piece::BlackBishop => BISHOP_VALUE + BISHOP_SQUARES[sq],
        Piece::WhiteKnight | Piece::BlackKnight => KNIGHT_VALUE + KNIGHT_SQUARES[sq],
        Piece::WhiteRook | Piece::BlackRook => ROOK_VALUE + ROOK_SQUARES[sq],
        Piece::WhiteKing | Piece::BlackKing => KING_VALUE + KING_SQUARES[sq],
        Piece::WhiteQueen | Piece::BlackQueen => QUEEN_VALUE + QUEEN_SQUARES[sq],
    }
}

/// What a piece on square `sq` adds to the score. A black piece takes away
/// what a white piece of its kind adds on the mirrored square.
pub open spec fn square_value(piece: Piece, sq: int) -> int {
    if piece.is_white() {
        white_value(piece, sq)
    } else {
        -white_value(piece, mirrored(sq))
    }
}

/// The largest placement bonus or malus in any of the six tables.
pub const MAX_PLACEMENT: i32 = 50;

fn pawn_placement(at: usize) -> (r: i32)
    requires
        at < 64,
    ensures
        r == PAWN_SQUARES[at as int],
        -MAX_PLACEMENT <= r <= MAX_PLACEMENT,
{
    PAWN_SQUARES[at]
}

fn bishop_placement(at: usize) -> (r: i32)
    requires
        at < 64,
    ensures
        r == BISHOP_SQUARES[at as int],
        -MAX_PLACEMENT <= r <= MAX_PLACEMENT,
{
    BISHOP_SQUARES[at]
}

fn knight_placement(at: usize) -> (r: i32)
    requires
        at < 64,
    ensures
        r == KNIGHT_SQUARES[at as int],
        -MAX_PLACEMENT <= r <= MAX_PLACEMENT,
{
    KNIGHT_SQUARES[at]
}

fn rook_placement(at: usize) -> (r: i32)
    requires
        at < 64,
    ensures
        r == ROOK_SQUARES[at as int],
        -MAX_PLACEMENT <= r <= MAX_PLACEMENT,
{
    ROOK_SQUARES[at]
}

fn king_placement(at: usize) -> (r: i32)
    requires
        at < 64,
    ensures
        r == KING_SQUARES[at as int],
        -MAX_PLACEMENT <= r <= MAX_PLACEMENT,
{
    KING_SQUARES[at]
}

fn queen_placement(at: usize) -> (r: i32)
    requires
        at < 64,
    ensures
        r == QUEEN_SQUARES[at as int],
        -MAX_PLACEMENT <= r <= MAX_PLACEMENT,
{
    QUEEN_SQUARES[at]
}

/// The value of a piece on a square.
pub fn piece_square_value(piece: Piece, sq: u16) -> (r: i32)
    requires
        sq < 64,
    ensures
        r == square_value(piece, sq as int),
        -MAX_SQUARE_VALUE <= r <= MAX_SQUARE_VALUE,
{
    let at = sq as usize;
    let back = ((7 - sq / 8) * 8 + sq % 8) as usize;
    match piece {
        Piece::WhitePawn => PAWN_VALUE + pawn_placement(at),
        Piece::WhiteBishop => BISHOP_VALUE + bishop_placement(at),
        Piece::WhiteKnight => KNIGHT_VALUE + knight_placement(at),
        Piece::WhiteRook => ROOK_VALUE + rook_placement(at),
        Piece::WhiteKing => KING_VALUE + king_placement(at),
        Piece::WhiteQueen => QUEEN_VALUE + queen_placement(at),
        Piece::BlackPawn => -(PAWN_VALUE + pawn_placement(back)),
        Piece::BlackBishop => -(BISHOP_VALUE + bishop_placement(back)),
        Piece::BlackKnight => -(KNIGHT_VALUE + knight_placement(back)),
        Piece::BlackRook => -(ROOK_VALUE + rook_placement(back)),
        Piece::BlackKing => -(KING_VALUE + king_placement(back)),
        Piece::BlackQueen => -(QUEEN_VALUE + queen_placement(back)),
    }
}


/// No score lies beyond this bound: twelve kinds of piece on 64 squares each.
pub const MAX_SCORE: i32 = 15398400;

impl Position {
    /// What the pieces of one kind on the squares below `n` add to the score.
    pub open spec fn piece_score(self, piece: Piece, n: int) -> int
        decreases n,
    {
        if n <= 0 {
            0
        } else {
            self.piece_score(piece, n - 1) + if self.at(n - 1) == Some(piece) {
                square_value(piece, n - 1)
            } else {
                0
            }
        }
    }

    /// What the first `k` kinds of piece add to the score.
    pub open spec fn score_of_kinds(self, k: int) -> int
        decreases k,
    {
        if k <= 0 {
            0
        } else {
            self.score_of_kinds(k - 1) + self.piece_score(Piece::at(k - 1), 64)
        }
    }

    /// The static score: the sum over all pieces of the value of each on its square.
    pub open spec fn score(self) -> int {
        self.score_of_kinds(12)
    }
}

/// Squares that do not hold the piece add nothing to its score.
pub proof fn lemma_piece_score_gap(p: Position, piece: Piece, lo: int, hi: int)
    requires
        0 <= lo <= hi,
        forall|sq: int| lo <= sq < hi ==> p.at(sq) != Some(piece),
    ensures
        p.piece_score(piece, hi) == p.piece_score(piece, lo),
    decreases hi - lo,
{
    if lo < hi {
        lemma_piece_score_gap(p, piece, lo, hi - 1);
    }
}

impl ChessBoard {
    /// What the pieces of one kind add to the score.
    fn piece_total(&self, piece: Piece) -> (r: i32)
        requires
            self.disjoint(),
        ensures
            r == self@.piece_score(piece, 64),
            -64 * MAX_SQUARE_VALUE <= r <= 64 * MAX_SQUARE_VALUE,
    {
        let index = piece.to_index();
        let mut it = self.bitboards[index].iter();
        let mut res: i32 = 0;
        let ghost mut done: int = 0;
        loop
            invariant_except_break
                0 <= done <= 64,
                forall|sq: int| #[trigger] it.has(sq) == (self.bitboards[index as int].has(sq) && sq
                    >= done),
                res == self@.piece_score(piece, done),
                -done * MAX_SQUARE_VALUE <= res <= done * MAX_SQUARE_VALUE,
            invariant
                self.disjoint(),
                index == piece.index(),
            ensures
                res == self@.piece_score(piece, 64),
                -64 * MAX_SQUARE_VALUE <= res <= 64 * MAX_SQUARE_VALUE,
            decreases it.bits,
        {
            let ghost left = it;
            match it.next() {
                None => {
                    proof {
                        assert forall|sq: int| done <= sq < 64 implies self@.at(sq) != Some(
                            piece,
                        ) by {
                            self.lemma_piece_at(index as int, sq);
                            assert(!left.has(sq));
                        }
                        lemma_piece_score_gap(self@, piece, done, 64);
                    }
                    break ;
                },
                Some(sq) => {
                    proof {
                        assert forall|s: int| done <= s < sq implies self@.at(s) != Some(
                            piece,
                        ) by {
                            self.lemma_piece_at(index as int, s);
                            assert(!left.has(s));
                        }
                        lemma_piece_score_gap(self@, piece, done, sq as int);
                        self.lemma_piece_at(index as int, sq as int);
                        assert(left.has(sq as int));
                    }
                    res = res + piece_square_value(piece, sq);
                    proof {
                        done = sq + 1;
                    }
                },
            }
        }
        res
    }

    /// The static score of the position, positive where White stands better.
    pub fn evaluate_position(&self) -> (r: i32)
        requires
            self.disjoint(),
        ensures
            r == self@.score(),
            -MAX_SCORE <= r <= MAX_SCORE,
    {
        let mut res: i32 = 0;
        let mut k: usize = 0;
        while k < 12
            invariant
                self.disjoint(),
                k <= 12,
                res == self@.score_of_kinds(k as int),
                -k * 64 * MAX_SQUARE_VALUE <= res <= k * 64 * MAX_SQUARE_VALUE,
            decreases 12 - k,
        {
            let piece = Piece::from_index(k);
            res = res + self.piece_total(piece);
            k += 1;
        }
        res
    }
}

/// The static score of a position, positive where White stands better.
pub fn evaluate_position(chess_board: ChessBoard) -> (r: i32)
    requires
        chess_board.disjoint(),
    ensures
        r == chess_board@.score(),
        -MAX_SCORE <= r <= MAX_SCORE,
{
    chess_board.evaluate_position()
}

} // verus!
