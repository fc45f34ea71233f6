//! The position as twelve piece sets, and the application of moves to it.

use vstd::prelude::*;
use crate::bitboard::{bit_of, Bitboard};
use crate::castling;
use crate::chessmove::{CastleMove, ChessMove};
use crate::piece::Piece;
use crate::position::{castled, promotion_piece, rights_after, Position, Rights};

verus! {

/// The rights that a castling byte holds.
pub open spec fn rights_of(flags: u8) -> Rights {
    Rights {
        white_k: castling::holds(flags, castling::WHITE_K),
        white_q: castling::holds(flags, castling::WHITE_Q),
        black_k: castling::holds(flags, castling::BLACK_K),
        black_q: castling::holds(flags, castling::BLACK_Q),
    }
}

/// What the standard starting layout holds on a square.
pub open spec fn initial_piece(sq: int) -> Option<Piece> {
    if sq == 0 || sq == 7 {
        Some(Piece::BlackRook)
    } else if sq == 1 || sq == 6 {
        Some(Piece::BlackKnight)
    } else if sq == 2 || sq == 5 {
        Some(Piece::BlackBishop)
    } else if sq == 3 {
        Some(Piece::BlackQueen)
    } else if sq == 4 {
        Some(Piece::BlackKing)
    } else if 8 <= sq < 16 {
        Some(Piece::BlackPawn)
    } else if 48 <= sq < 56 {
        Some(Piece::WhitePawn)
    } else if sq == 56 || sq == 63 {
        Some(Piece::WhiteRook)
    } else if sq == 57 || sq == 62 {
        Some(Piece::WhiteKnight)
    } else if sq == 58 || sq == 61 {
        Some(Piece::WhiteBishop)
    } else if sq == 59 {
        Some(Piece::WhiteQueen)
    } else if sq == 60 {
        Some(Piece::WhiteKing)
    } else {
        None
    }
}

/// The standard starting position.
pub open spec fn initial_position() -> Position {
    Position {
        board: Seq::new(64, |sq: int| initial_piece(sq)),
        white_to_move: true,
        rights: Rights { white_k: true, white_q: true, black_k: true, black_q: true },
        en_passant: None,
    }
}

/// What dropping the rights in `lost` does to each single right.
pub proof fn lemma_rights_without(flags: u8, lost: u8)
    ensures
        castling::holds(flags & !lost, castling::WHITE_K) == (castling::holds(
            flags,
            castling::WHITE_K,
        ) && !castling::holds(lost, castling::WHITE_K)),
        castling::holds(flags & !lost, castling::WHITE_Q) == (castling::holds(
            flags,
            castling::WHITE_Q,
        ) && !castling::holds(lost, castling::WHITE_Q)),
        castling::holds(flags & !lost, castling::BLACK_K) == (castling::holds(
            flags,
            castling::BLACK_K,
        ) && !castling::holds(lost, castling::BLACK_K)),
        castling::holds(flags & !lost, castling::BLACK_Q) == (castling::holds(
            flags,
            castling::BLACK_Q,
        ) && !castling::holds(lost, castling::BLACK_Q)),
        flags < 16 ==> flags & !lost < 16,
{
    assert({
        &&& ((flags & !lost) & 1 != 0) == ((flags & 1 != 0) && !(lost & 1 != 0))
        &&& ((flags & !lost) & 2 != 0) == ((flags & 2 != 0) && !(lost & 2 != 0))
        &&& ((flags & !lost) & 4 != 0) == ((flags & 4 != 0) && !(lost & 4 != 0))
        &&& ((flags & !lost) & 8 != 0) == ((flags & 8 != 0) && !(lost & 8 != 0))
        &&& (flags < 16 ==> flags & !lost < 16)
    }) by (bit_vector);
}

/// Which single rights a union of flags holds.
pub proof fn lemma_rights_with(flags: u8, more: u8)
    ensures
        castling::holds(flags | more, castling::WHITE_K) == (castling::holds(
            flags,
            castling::WHITE_K,
        ) || castling::holds(more, castling::WHITE_K)),
        castling::holds(flags | more, castling::WHITE_Q) == (castling::holds(
            flags,
            castling::WHITE_Q,
        ) || castling::holds(more, castling::WHITE_Q)),
        castling::holds(flags | more, castling::BLACK_K) == (castling::holds(
            flags,
            castling::BLACK_K,
        ) || castling::holds(more, castling::BLACK_K)),
        castling::holds(flags | more, castling::BLACK_Q) == (castling::holds(
            flags,
            castling::BLACK_Q,
        ) || castling::holds(more, castling::BLACK_Q)),
        flags < 16 && more < 16 ==> flags | more < 16,
{
    assert({
        &&& ((flags | more) & 1 != 0) == ((flags & 1 != 0) || (more & 1 != 0))
        &&& ((flags | more) & 2 != 0) == ((flags & 2 != 0) || (more & 2 != 0))
        &&& ((flags | more) & 4 != 0) == ((flags & 4 != 0) || (more & 4 != 0))
        &&& ((flags | more) & 8 != 0) == ((flags & 8 != 0) || (more & 8 != 0))
        &&& (flags < 16 && more < 16 ==> flags | more < 16)
    }) by (bit_vector);
}

/// Which rights each of the flag constants holds.
pub proof fn lemma_flag_constants()
    ensures
        rights_of(0) == (Rights { white_k: false, white_q: false, black_k: false, black_q: false }),
        rights_of(castling::WHITE_K) == (Rights {
            white_k: true,
            white_q: false,
            black_k: false,
            black_q: false,
        }),
        rights_of(castling::WHITE_Q) == (Rights {
            white_k: false,
            white_q: true,
            black_k: false,
            black_q: false,
        }),
        rights_of(castling::BLACK_K) == (Rights {
            white_k: false,
            white_q: false,
            black_k: true,
            black_q: false,
        }),
        rights_of(castling::BLACK_Q) == (Rights {
            white_k: false,
            white_q: false,
            black_k: false,
            black_q: true,
        }),
        rights_of(castling::WHITE_BOTH) == (Rights {
            white_k: true,
            white_q: true,
            black_k: false,
            black_q: false,
        }),
        rights_of(castling::BLACK_BOTH) == (Rights {
            white_k: false,
            white_q: false,
            black_k: true,
            black_q: true,
        }),
        rights_of(castling::ALL) == (Rights {
            white_k: true,
            white_q: true,
            black_k: true,
            black_q: true,
        }),
{
    assert({
        &&& 0u8 & 1 == 0 && 0u8 & 2 == 0 && 0u8 & 4 == 0 && 0u8 & 8 == 0
        &&& 1u8 & 1 != 0 && 1u8 & 2 == 0 && 1u8 & 4 == 0 && 1u8 & 8 == 0
        &&& 2u8 & 1 == 0 && 2u8 & 2 != 0 && 2u8 & 4 == 0 && 2u8 & 8 == 0
        &&& 4u8 & 1 == 0 && 4u8 & 2 == 0 && 4u8 & 4 != 0 && 4u8 & 8 == 0
        &&& 8u8 & 1 == 0 && 8u8 & 2 == 0 && 8u8 & 4 == 0 && 8u8 & 8 != 0
        &&& 3u8 & 1 != 0 && 3u8 & 2 != 0 && 3u8 & 4 == 0 && 3u8 & 8 == 0
        &&& 12u8 & 1 == 0 && 12u8 & 2 == 0 && 12u8 & 4 != 0 && 12u8 & 8 != 0
        &&& 15u8 & 1 != 0 && 15u8 & 2 != 0 && 15u8 & 4 != 0 && 15u8 & 8 != 0
    }) by (bit_vector);
}

#[derive(Clone, Copy, Debug, PartialEq, Eq)]
pub struct ChessBoard {
    pub bitboards: [Bitboard; 12],
    pub white_to_move: bool,
    pub castling_rights: u8,
    /// The square on which a pawn may be captured en passant, 64 when there is none.
    pub en_passant: u16,
}

impl View for ChessBoard {
    type V = Position;

    open spec fn view(&self) -> Position {
        Position {
            board: Seq::new(64, |sq: int| self.piece_at(sq)),
            white_to_move: self.white_to_move,
            rights: rights_of(self.castling_rights),
            en_passant: if self.en_passant < 64 {
                Some(self.en_passant as int)
            } else {
                None
            },
        }
    }
}

impl ChessBoard {
    /// The piece whose set holds the square: the first of the twelve that does.
    pub open spec fn piece_at(self, sq: int) -> Option<Piece> {
        if self.bitboards[0].has(sq) {
            Some(Piece::WhitePawn)
        } else if self.bitboards[1].has(sq) {
            Some(Piece::WhiteBishop)
        } else if self.bitboards[2].has(sq) {
            Some(Piece::WhiteKnight)
        } else if self.bitboards[3].has(sq) {
            Some(Piece::WhiteRook)
        } else if self.bitboards[4].has(sq) {
            Some(Piece::WhiteKing)
        } else if self.bitboards[5].has(sq) {
            Some(Piece::WhiteQueen)
        } else if self.bitboards[6].has(sq) {
            Some(Piece::BlackPawn)
        } else if self.bitboards[7].has(sq) {
            Some(Piece::BlackBishop)
        } else if self.bitboards[8].has(sq) {
            Some(Piece::BlackKnight)
        } else if self.bitboards[9].has(sq) {
            Some(Piece::BlackRook)
        } else if self.bitboards[10].has(sq) {
            Some(Piece::BlackKing)
        } else if self.bitboards[11].has(sq) {
            Some(Piece::BlackQueen)
        } else {
            None
        }
    }

    /// No square is in two of the twelve piece sets.
    pub open spec fn disjoint(self) -> bool {
        forall|i: int, j: int, sq: int|
            0 <= i < j < 12 ==> !(#[trigger] self.bitboards[i].has(sq)
                && #[trigger] self.bitboards[j].has(sq))
    }

    /// The piece sets are disjoint, the castling byte and the en-passant
    /// square are in range, and the position they stand for is valid.
    pub open spec fn wf(self) -> bool {
        &&& self.disjoint()
        &&& self.castling_rights < 16
        &&& self.en_passant <= 64
        &&& self@.valid()
    }

    /// With disjoint sets, a square is in the set of exactly the piece that stands on it.
    pub proof fn lemma_piece_at(self, i: int, sq: int)
        requires
            self.disjoint(),
            0 <= i < 12,
        ensures
            self.bitboards[i].has(sq) <==> self.piece_at(sq) == Some(Piece::at(i)),
            self@.at(sq) == self.piece_at(sq),
    {
    }

    pub proof fn lemma_at(self, sq: int)
        ensures
            self@.at(sq) == self.piece_at(sq),
            self@.board.len() == 64,
    {
    }

    /// A position with no piece on the board, White to move, every castling
    /// right set and no en-passant target.
    pub fn new() -> (r: Self)
        ensures
            r.disjoint(),
            forall|sq: int| r@.at(sq) is None,
            r@.white_to_move,
            r@.rights == (Rights { white_k: true, white_q: true, black_k: true, black_q: true }),
            r@.en_passant is None,
            r.castling_rights == castling::ALL,
            r.en_passant == 64,
    {
        let r = Self {
            bitboards: [Bitboard::new(0);12],
            white_to_move: true,
            castling_rights: castling::ALL,
            en_passant: 64,
        };
        proof {
            lemma_flag_constants();
            assert forall|i: int, sq: int| 0 <= i < 12 implies !#[trigger] r.bitboards[i].has(
                sq,
            ) by {
                crate::bitboard::lemma_bit_of_zero(sq);
            }
        }
        r
    }

    /// The standard starting position.
    pub fn starting_position() -> (r: Self)
        ensures
            r.wf(),
            r@ == initial_position(),
    {
        let mut board = Self::new();
        board.bitboards[0] = Bitboard::new(0x0000_0000_0000_ff00);
        board.bitboards[3] = Bitboard::new(0x0000_0000_0000_0081);
        board.bitboards[2] = Bitboard::new(0x0000_0000_0000_0042);
        board.bitboards[1] = Bitboard::new(0x0000_0000_0000_0024);
        board.bitboards[5] = Bitboard::new(0x0000_0000_0000_0010);
        board.bitboards[4] = Bitboard::new(0x0000_0000_0000_0008);
        board.bitboards[6] = Bitboard::new(0x00ff_0000_0000_0000);
        board.bitboards[9] = Bitboard::new(0x8100_0000_0000_0000);
        board.bitboards[8] = Bitboard::new(0x4200_0000_0000_0000);
        board.bitboards[7] = Bitboard::new(0x2400_0000_0000_0000);
        board.bitboards[11] = Bitboard::new(0x1000_0000_0000_0000);
        board.bitboards[10] = Bitboard::new(0x0800_0000_0000_0000);
        board.white_to_move = true;
        board.castling_rights = castling::ALL;
        board.en_passant = 64;
        proof {
            lemma_flag_constants();
            assert forall|sq: int| 0 <= sq < 64 implies {
                &&& bit_of(0x0000_0000_0000_ff00, sq) == (48 <= sq < 56)
                &&& bit_of(0x0000_0000_0000_0081, sq) == (sq == 56 || sq == 63)
                &&& bit_of(0x0000_0000_0000_0042, sq) == (sq == 57 || sq == 62)
                &&& bit_of(0x0000_0000_0000_0024, sq) == (sq == 58 || sq == 61)
                &&& bit_of(0x0000_0000_0000_0010, sq) == (sq == 59)
                &&& bit_of(0x0000_0000_0000_0008, sq) == (sq == 60)
                &&& bit_of(0x00ff_0000_0000_0000, sq) == (8 <= sq < 16)
                &&& bit_of(0x8100_0000_0000_0000, sq) == (sq == 0 || sq == 7)
                &&& bit_of(0x4200_0000_0000_0000, sq) == (sq == 1 || sq == 6)
                &&& bit_of(0x2400_0000_0000_0000, sq) == (sq == 2 || sq == 5)
                &&& bit_of(0x1000_0000_0000_0000, sq) == (sq == 3)
                &&& bit_of(0x0800_0000_0000_0000, sq) == (sq == 4)
            } by {
                let j = (63 - sq) as u64;
                assert(j < 64 ==> {
                    &&& ((0x0000_0000_0000_ff00u64 >> j) & 1 == 1) == (8 <= j && j < 16)
                    &&& ((0x0000_0000_0000_0081u64 >> j) & 1 == 1) == (j == 7 || j == 0)
                    &&& ((0x0000_0000_0000_0042u64 >> j) & 1 == 1) == (j == 6 || j == 1)
                    &&& ((0x0000_0000_0000_0024u64 >> j) & 1 == 1) == (j == 5 || j == 2)
                    &&& ((0x0000_0000_0000_0010u64 >> j) & 1 == 1) == (j == 4)
                    &&& ((0x0000_0000_0000_0008u64 >> j) & 1 == 1) == (j == 3)
                    &&& ((0x00ff_0000_0000_0000u64 >> j) & 1 == 1) == (48 <= j && j < 56)
                    &&& ((0x8100_0000_0000_0000u64 >> j) & 1 == 1) == (j == 63 || j == 56)
                    &&& ((0x4200_0000_0000_0000u64 >> j) & 1 == 1) == (j == 62 || j == 57)
                    &&& ((0x2400_0000_0000_0000u64 >> j) & 1 == 1) == (j == 61 || j == 58)
                    &&& ((0x1000_0000_0000_0000u64 >> j) & 1 == 1) == (j == 60)
                    &&& ((0x0800_0000_0000_0000u64 >> j) & 1 == 1) == (j == 59)
                }) by (bit_vector);
            }
            assert forall|sq: int| 0 <= sq < 64 implies #[trigger] board.piece_at(sq)
                == initial_piece(sq) by {}
            assert(board@.board =~= initial_position().board);
            assert forall|i: int, j: int, sq: int| 0 <= i < j < 12 implies !(
            #[trigger] board.bitboards[i].has(sq) && #[trigger] board.bitboards[j].has(sq)) by {}
        }
        board
    }

    pub fn get_bitboards(&self) -> (r: &[Bitboard; 12])
        ensures
            *r == self.bitboards,
    {
        &self.bitboards
    }

    /// The set of the piece with the given index, if there is such a piece.
    pub fn get_bitboard(&self, index: usize) -> (r: Option<Bitboard>)
        ensures
            index < 12 ==> r == Some(self.bitboards[index as int]),
            index >= 12 ==> r is None,
    {
        if index < 12 {
            Some(self.bitboards[index])
        } else {
            None
        }
    }

    /// Replaces the set of the piece with the given index; an index past the
    /// twelve pieces changes nothing.
    pub fn set_bitboard(&mut self, index: usize, bb: Bitboard)
        ensures
            index < 12 ==> final(self).bitboards@ == old(self).bitboards@.update(index as int, bb),
            index >= 12 ==> final(self).bitboards == old(self).bitboards,
            final(self).white_to_move == old(self).white_to_move,
            final(self).castling_rights == old(self).castling_rights,
            final(self).en_passant == old(self).en_passant,
    {
        if index < 12 {
            self.bitboards[index] = bb;
        }
    }

    pub fn set_bitboards(&mut self, bitboards: [Bitboard; 12])
        ensures
            final(self).bitboards == bitboards,
            final(self).white_to_move == old(self).white_to_move,
            final(self).castling_rights == old(self).castling_rights,
            final(self).en_passant == old(self).en_passant,
    {
        self.bitboards = bitboards;
    }

    /// The squares on which any piece stands.
    pub fn get_all_pieces(&self) -> (r: Bitboard)
        ensures
            forall|sq: int| #[trigger] r.has(sq) == self@.occupied(sq),
    {
        let b = &self.bitboards;
        let white = b[0].union(b[1]).union(b[2]).union(b[3]).union(b[4]).union(b[5]);
        let black = b[6].union(b[7]).union(b[8]).union(b[9]).union(b[10]).union(b[11]);
        let r = white.union(black);
        proof {
            assert forall|sq: int| #[trigger] r.has(sq) == self@.occupied(sq) by {
                self.lemma_at(sq);
            }
        }
        r
    }

    /// The squares on which a white piece stands.
    pub fn get_w_pieces(&self) -> (r: Bitboard)
        ensures
            forall|sq: int| #[trigger] r.has(sq) == self@.has_colour(true, sq),
    {
        let b = &self.bitboards;
        let r = b[0].union(b[1]).union(b[2]).union(b[3]).union(b[4]).union(b[5]);
        proof {
            assert forall|sq: int| #[trigger] r.has(sq) == self@.has_colour(true, sq) by {
                self.lemma_at(sq);
            }
        }
        r
    }

    /// The squares on which a black piece stands.
    pub fn get_b_pieces(&self) -> (r: Bitboard)
        requires
            self.disjoint(),
        ensures
            forall|sq: int| #[trigger] r.has(sq) == self@.has_colour(false, sq),
    {
        let b = &self.bitboards;
        let r = b[6].union(b[7]).union(b[8]).union(b[9]).union(b[10]).union(b[11]);
        proof {
            assert forall|sq: int| #[trigger] r.has(sq) == self@.has_colour(false, sq) by {
                self.lemma_at(sq);
                self.lemma_piece_at(0, sq);
            }
        }
        r
    }

    pub fn get_white_to_move(&self) -> (r: bool)
        ensures
            r == self.white_to_move,
            r == self@.white_to_move,
    {
        self.white_to_move
    }

    pub fn set_white_to_move(&mut self, white: bool)
        ensures
            *final(self) == (ChessBoard { white_to_move: white, ..*old(self) }),
    {
        self.white_to_move = white;
    }

    pub fn get_castling_rights(&self) -> (r: u8)
        ensures
            r == self.castling_rights,
            rights_of(r) == self@.rights,
    {
        self.castling_rights
    }

    pub fn set_castling_rights(&mut self, rights: u8)
        ensures
            *final(self) == (ChessBoard { castling_rights: rights, ..*old(self) }),
    {
        self.castling_rights = rights;
    }

    /// The en-passant square, 64 when there is none.
    pub fn get_en_passant(&self) -> (r: u16)
        ensures
            r == self.en_passant,
            r < 64 ==> self@.en_passant == Some(r as int),
            r >= 64 ==> self@.en_passant is None,
    {
        self.en_passant
    }

    pub fn set_en_passant(&mut self, index: u16)
        ensures
            *final(self) == (ChessBoard { en_passant: index, ..*old(self) }),
    {
        self.en_passant = index;
    }

    /// The piece that stands on a square.
    pub fn piece_on(&self, sq: u16) -> (r: Option<Piece>)
        requires
            sq < 64,
        ensures
            r == self@.at(sq as int),
    {
        proof {
            self.lemma_at(sq as int);
        }
        let b = &self.bitboards;
        if b[0].get_bit(sq) {
            Some(Piece::WhitePawn)
        } else if b[1].get_bit(sq) {
            Some(Piece::WhiteBishop)
        } else if b[2].get_bit(sq) {
            Some(Piece::WhiteKnight)
        } else if b[3].get_bit(sq) {
            Some(Piece::WhiteRook)
        } else if b[4].get_bit(sq) {
            Some(Piece::WhiteKing)
        } else if b[5].get_bit(sq) {
            Some(Piece::WhiteQueen)
        } else if b[6].get_bit(sq) {
            Some(Piece::BlackPawn)
        } else if b[7].get_bit(sq) {
            Some(Piece::BlackBishop)
        } else if b[8].get_bit(sq) {
            Some(Piece::BlackKnight)
        } else if b[9].get_bit(sq) {
            Some(Piece::BlackRook)
        } else if b[10].get_bit(sq) {
            Some(Piece::BlackKing)
        } else if b[11].get_bit(sq) {
            Some(Piece::BlackQueen)
        } else {
            None
        }
    }

    /// Empties a square.
    pub fn lift(&mut self, sq: u16)
        requires
            sq < 64,
        ensures
            final(self)@ == (Position { board: old(self)@.board.update(sq as int, None), ..old(self)@ }),
            old(self).disjoint() ==> final(self).disjoint(),
            final(self).castling_rights == old(self).castling_rights,
            final(self).en_passant == old(self).en_passant,
    {
        let mut i: usize = 0;
        while i < 12
            invariant
                i <= 12,
                sq < 64,
                self.white_to_move == old(self).white_to_move,
                self.castling_rights == old(self).castling_rights,
                self.en_passant == old(self).en_passant,
                forall|k: int, s: int|
                    0 <= k < i ==> #[trigger] self.bitboards[k].has(s) == (old(self).bitboards[k].has(
                        s,
                    ) && s != sq),
                forall|k: int| i <= k < 12 ==> self.bitboards[k] == old(self).bitboards[k],
            decreases 12 - i,
        {
            self.bitboards[i].clear_bit(sq);
            i += 1;
        }
        proof {
            assert forall|s: int| 0 <= s < 64 implies #[trigger] self.piece_at(s) == old(
                self,
            )@.board.update(sq as int, None)[s] by {}
            assert(self@.board =~= old(self)@.board.update(sq as int, None));
        }
    }

    /// Sets a piece on a square, in place of whatever stood there.
    pub fn put(&mut self, sq: u16, piece: Piece)
        requires
            sq < 64,
        ensures
            final(self)@ == (Position {
                board: old(self)@.board.update(sq as int, Some(piece)),
                ..old(self)@
            }),
            old(self).disjoint() ==> final(self).disjoint(),
            final(self).castling_rights == old(self).castling_rights,
            final(self).en_passant == old(self).en_passant,
    {
        self.lift(sq);
        let ghost lifted = *self;
        let index = piece.to_index();
        self.bitboards[index].set_bit(sq);
        proof {
            assert forall|k: int, s: int| 0 <= k < 12 implies #[trigger] self.bitboards[k].has(s)
                == (lifted.bitboards[k].has(s) || (k == index && s == sq)) by {}
            assert forall|k: int| 0 <= k < 12 implies !#[trigger] lifted.bitboards[k].has(
                sq as int,
            ) by {
                lifted.lemma_at(sq as int);
            }
            assert forall|s: int| 0 <= s < 64 implies #[trigger] self.piece_at(s) == old(
                self,
            )@.board.update(sq as int, Some(piece))[s] by {
                lifted.lemma_at(s);
            }
            assert(self@.board =~= old(self)@.board.update(sq as int, Some(piece)));
        }
    }
}

/// The rights that a move loses by touching a square: those whose king or
/// rook has its home there.
pub open spec fn flags_lost_at(sq: int) -> u8 {
    if sq == 60 {
        castling::WHITE_BOTH
    } else if sq == 63 {
        castling::WHITE_K
    } else if sq == 56 {
        castling::WHITE_Q
    } else if sq == 4 {
        castling::BLACK_BOTH
    } else if sq == 7 {
        castling::BLACK_K
    } else if sq == 0 {
        castling::BLACK_Q
    } else {
        0
    }
}

fn rights_lost_at(sq: u16) -> (r: u8)
    ensures
        r == flags_lost_at(sq as int),
{
    if sq == 60 {
        castling::WHITE_BOTH
    } else if sq == 63 {
        castling::WHITE_K
    } else if sq == 56 {
        castling::WHITE_Q
    } else if sq == 4 {
        castling::BLACK_BOTH
    } else if sq == 7 {
        castling::BLACK_K
    } else if sq == 0 {
        castling::BLACK_Q
    } else {
        0
    }
}

/// Dropping the flags of both squares of a move leaves the rights that survive it.
pub proof fn lemma_rights_after(flags: u8, from: int, to: int)
    ensures
        rights_of(flags & !(flags_lost_at(from) | flags_lost_at(to))) == rights_after(
            rights_of(flags),
            from,
            to,
        ),
        flags < 16 ==> flags & !(flags_lost_at(from) | flags_lost_at(to)) < 16,
{
    lemma_flag_constants();
    lemma_rights_with(flags_lost_at(from), flags_lost_at(to));
    lemma_rights_without(flags, flags_lost_at(from) | flags_lost_at(to));
}

/// The piece that a promotion tag asks for, if it asks for one.
pub fn promoted_piece(white: bool, tag: u8) -> (r: Option<Piece>)
    ensures
        r == promotion_piece(white, tag as int),
{
    if tag == 1 {
        Some(if white { Piece::WhiteKnight } else { Piece::BlackKnight })
    } else if tag == 2 {
        Some(if white { Piece::WhiteBishop } else { Piece::BlackBishop })
    } else if tag == 4 {
        Some(if white { Piece::WhiteRook } else { Piece::BlackRook })
    } else if tag == 8 {
        Some(if white { Piece::WhiteQueen } else { Piece::BlackQueen })
    } else {
        None
    }
}

impl ChessBoard {
    /// Drops from the castling byte the rights in `lost`.
    fn drop_rights(&mut self, lost: u8)
        ensures
            *final(self) == (ChessBoard {
                castling_rights: old(self).castling_rights & !lost,
                ..*old(self)
            }),
    {
        self.castling_rights = self.castling_rights & !lost;
    }

    /// Moves the white king from e1 to g1 and the rook from h1 to f1. White
    /// loses both castling rights and the en-passant target is unset; the
    /// side to move stays.
    pub fn white_castle_kingside(&mut self)
        ensures
            final(self)@ == (Position {
                board: castled(old(self)@.board, CastleMove::WhiteKingside),
                rights: Rights { white_k: false, white_q: false, ..old(self)@.rights },
                en_passant: None,
                ..old(self)@
            }),
            old(self).disjoint() ==> final(self).disjoint(),
            old(self).castling_rights < 16 ==> final(self).castling_rights < 16,
            final(self).en_passant == 64,
    {
        self.lift(60);
        self.lift(63);
        self.put(62, Piece::WhiteKing);
        self.put(61, Piece::WhiteRook);
        proof {
            lemma_flag_constants();
            lemma_rights_without(self.castling_rights, castling::WHITE_BOTH);
        }
        self.drop_rights(castling::WHITE_BOTH);
        self.en_passant = 64;
        proof {
            assert(self@.board =~= castled(old(self)@.board, CastleMove::WhiteKingside));
        }
    }

    /// Moves the white king from e1 to c1 and the rook from a1 to d1. White
    /// loses both castling rights and the en-passant target is unset; the
    /// side to move stays.
    pub fn white_castle_queenside(&mut self)
        ensures
            final(self)@ == (Position {
                board: castled(old(self)@.board, CastleMove::WhiteQueenside),
                rights: Rights { white_k: false, white_q: false, ..old(self)@.rights },
                en_passant: None,
                ..old(self)@
            }),
            old(self).disjoint() ==> final(self).disjoint(),
            old(self).castling_rights < 16 ==> final(self).castling_rights < 16,
            final(self).en_passant == 64,
    {
        self.lift(60);
        self.lift(56);
        self.put(58, Piece::WhiteKing);
        self.put(59, Piece::WhiteRook);
        proof {
            lemma_flag_constants();
            lemma_rights_without(self.castling_rights, castling::WHITE_BOTH);
        }
        self.drop_rights(castling::WHITE_BOTH);
        self.en_passant = 64;
        proof {
            assert(self@.board =~= castled(old(self)@.board, CastleMove::WhiteQueenside));
        }
    }

    /// Moves the black king from e8 to g8 and the rook from h8 to f8. Black
    /// loses both castling rights and the en-passant target is unset; the
    /// side to move stays.
    pub fn black_castle_kingside(&mut self)
        ensures
            final(self)@ == (Position {
                board: castled(old(self)@.board, CastleMove::BlackKingside),
                rights: Rights { black_k: false, black_q: false, ..old(self)@.rights },
                en_passant: None,
                ..old(self)@
            }),
            old(self).disjoint() ==> final(self).disjoint(),
            old(self).castling_rights < 16 ==> final(self).castling_rights < 16,
            final(self).en_passant == 64,
    {
        self.lift(4);
        self.lift(7);
        self.put(6, Piece::BlackKing);
        self.put(5, Piece::BlackRook);
        proof {
            lemma_flag_constants();
            lemma_rights_without(self.castling_rights, castling::BLACK_BOTH);
        }
        self.drop_rights(castling::BLACK_BOTH);
        self.en_passant = 64;
        proof {
            assert(self@.board =~= castled(old(self)@.board, CastleMove::BlackKingside));
        }
    }

    /// Moves the black king from e8 to c8 and the rook from a8 to d8. Black
    /// loses both castling rights and the en-passant target is unset; the
    /// side to move stays.
    pub fn black_castle_queenside(&mut self)
        ensures
            final(self)@ == (Position {
                board: castled(old(self)@.board, CastleMove::BlackQueenside),
                rights: Rights { black_k: false, black_q: false, ..old(self)@.rights },
                en_passant: None,
                ..old(self)@
            }),
            old(self).disjoint() ==> final(self).disjoint(),
            old(self).castling_rights < 16 ==> final(self).castling_rights < 16,
            final(self).en_passant == 64,
    {
        self.lift(4);
        self.lift(0);
        self.put(2, Piece::BlackKing);
        self.put(3, Piece::BlackRook);
        proof {
            lemma_flag_constants();
            lemma_rights_without(self.castling_rights, castling::BLACK_BOTH);
        }
        self.drop_rights(castling::BLACK_BOTH);
        self.en_passant = 64;
        proof {
            assert(self@.board =~= castled(old(self)@.board, CastleMove::BlackQueenside));
        }
    }

    /// Which castling move `mv` is, if any.
    fn castle_of(&self, mv: ChessMove) -> (r: Option<CastleMove>)
        ensures
            r == self@.castle_kind(mv),
    {
        let from = mv.get_curr_square_as_index();
        let to = mv.get_dest_square_as_index();
        if self.white_to_move && from == 60 {
            if to == 62 || to == 58 {
                match self.piece_on(60) {
                    Some(Piece::WhiteKing) => if to == 62 {
                        Some(CastleMove::WhiteKingside)
                    } else {
                        Some(CastleMove::WhiteQueenside)
                    },
                    _ => None,
                }
            } else {
                None
            }
        } else if !self.white_to_move && from == 4 {
            if to == 6 || to == 2 {
                match self.piece_on(4) {
                    Some(Piece::BlackKing) => if to == 6 {
                        Some(CastleMove::BlackKingside)
                    } else {
                        Some(CastleMove::BlackQueenside)
                    },
                    _ => None,
                }
            } else {
                None
            }
        } else {
            None
        }
    }

    /// Applies a move of one of the mover's pieces.
    pub fn make_move(&mut self, mv: ChessMove)
        requires
            old(self).wf(),
            old(self)@.mover_at(mv.from_sq()),
        ensures
            final(self)@ == old(self)@.after(mv),
            final(self).wf(),
    {
        let from = mv.get_curr_square_as_index();
        let to = mv.get_dest_square_as_index();
        let tag = mv.get_four_msb();
        let white = self.white_to_move;
        let ep = self.en_passant;
        let ghost before = *self;
        match self.castle_of(mv) {
            Some(CastleMove::WhiteKingside) => self.white_castle_kingside(),
            Some(CastleMove::WhiteQueenside) => self.white_castle_queenside(),
            Some(CastleMove::BlackKingside) => self.black_castle_kingside(),
            Some(CastleMove::BlackQueenside) => self.black_castle_queenside(),
            None => {
                let mover = self.piece_on(from);
                let promoted = promoted_piece(white, tag);
                let pawn = match mover {
                    Some(Piece::WhitePawn) => white,
                    Some(Piece::BlackPawn) => !white,
                    _ => false,
                };
                let plain_pawn = pawn && promoted.is_none();
                let double = plain_pawn && if white {
                    48 <= from && from < 56 && to + 16 == from
                } else {
                    8 <= from && from < 16 && to == from + 16
                };
                let en_passant_capture = plain_pawn && ep < 64 && to == ep;
                // The origin holds a piece: the caller has seen to that.
                let placed = match (promoted, mover) {
                    (Some(q), _) => q,
                    (None, Some(p)) => p,
                    (None, None) => Piece::WhitePawn,
                };
                self.lift(from);
                self.put(to, placed);
                if en_passant_capture {
                    if white {
                        self.lift(to + 8);
                    } else {
                        self.lift(to - 8);
                    }
                }
                self.en_passant = if double {
                    (from + to) / 2
                } else {
                    64
                };
            },
        }
        proof {
            lemma_rights_after(before.castling_rights, from as int, to as int);
            lemma_rights_after(self.castling_rights, from as int, to as int);
            lemma_flag_constants();
        }
        let lost = rights_lost_at(from) | rights_lost_at(to);
        self.drop_rights(lost);
        self.white_to_move = !white;
        proof {
            crate::position::lemma_after_valid(before@, mv);
            assert(self@.board =~= before@.after(mv).board);
            assert(self@.rights == before@.after(mv).rights);
            assert(self@.en_passant == before@.after(mv).en_passant);
        }
    }

    /// The position after a move of one of the mover's pieces.
    pub fn with_move(self, mv: ChessMove) -> (r: Self)
        requires
            self.wf(),
            self@.mover_at(mv.from_sq()),
        ensures
            r@ == self@.after(mv),
            r.wf(),
    {
        let mut next = self;
        next.make_move(mv);
        next
    }
}

impl ChessBoard {
    /// Whether a piece of the side to move stands on the square.
    pub fn owns(&self, sq: u16) -> (r: bool)
        requires
            sq < 64,
        ensures
            r == self@.mover_at(sq as int),
    {
        match self.piece_on(sq) {
            Some(piece) => (piece.to_index() < 6) == self.white_to_move,
            None => false,
        }
    }

    /// Applies the move if its origin holds a piece of the side to move, and
    /// tells whether it did; else the position stays as it is.
    pub fn try_move(&mut self, mv: ChessMove) -> (r: bool)
        requires
            old(self).wf(),
        ensures
            final(self).wf(),
            r == old(self)@.mover_at(mv.from_sq()),
            r ==> final(self)@ == old(self)@.after(mv),
            !r ==> *final(self) == *old(self),
    {
        if self.owns(mv.get_curr_square_as_index()) {
            self.make_move(mv);
            true
        } else {
            false
        }
    }

    /// Whether no square is in two of the twelve piece sets.
    pub fn is_disjoint(&self) -> (r: bool)
        ensures
            r == self.disjoint(),
    {
        let mut seen = Bitboard::new(0);
        proof {
            assert forall|sq: int| !#[trigger] seen.has(sq) by {
                crate::bitboard::lemma_bit_of_zero(sq);
            }
        }
        let mut i: usize = 0;
        while i < 12
            invariant
                i <= 12,
                forall|sq: int| #[trigger]
                    seen.has(sq) ==> exists|k: int| 0 <= k < i && self.bitboards[k].has(sq),
                forall|k: int, sq: int|
                    0 <= k < i && #[trigger] self.bitboards[k].has(sq) ==> seen.has(sq),
                forall|a: int, b: int, sq: int|
                    0 <= a < b < i ==> !(#[trigger] self.bitboards[a].has(sq)
                        && #[trigger] self.bitboards[b].has(sq)),
            decreases 12 - i,
        {
            let both = seen.intersect(self.bitboards[i]);
            if !both.is_empty() {
                proof {
                    let sq = choose|sq: int| both.has(sq);
                    assert(seen.has(sq));
                    let k = choose|k: int| 0 <= k < i && self.bitboards[k].has(sq);
                    assert(self.bitboards[k].has(sq) && self.bitboards[i as int].has(sq));
                }
                return false;
            }
            proof {
                assert forall|a: int, sq: int| 0 <= a < i implies !(
                #[trigger] self.bitboards[a].has(sq) && self.bitboards[i as int].has(sq)) by {
                    if self.bitboards[a].has(sq) && self.bitboards[i as int].has(sq) {
                        assert(seen.has(sq));
                        assert(both.has(sq));
                    }
                }
            }
            seen = seen.union(self.bitboards[i]);
            i += 1;
        }
        true
    }

    /// Whether the position is well-formed: the piece sets disjoint, the
    /// castling byte and the en-passant square in range, every castling right
    /// founded on king and rook at home, and the en-passant square behind a
    /// pawn that can have just passed it.
    pub fn is_valid(&self) -> (r: bool)
        ensures
            r == self.wf(),
    {
        if !self.is_disjoint() || self.castling_rights >= 16 || self.en_passant > 64 {
            return false;
        }
        proof {
            lemma_flag_constants();
            self.lemma_at(0);
        }
        let flags = self.castling_rights;
        let white_king = matches!(self.piece_on(60), Some(Piece::WhiteKing));
        let black_king = matches!(self.piece_on(4), Some(Piece::BlackKing));
        if flags & castling::WHITE_K != 0 && !(white_king && matches!(
            self.piece_on(63),
            Some(Piece::WhiteRook)
        )) {
            return false;
        }
        if flags & castling::WHITE_Q != 0 && !(white_king && matches!(
            self.piece_on(56),
            Some(Piece::WhiteRook)
        )) {
            return false;
        }
        if flags & castling::BLACK_K != 0 && !(black_king && matches!(
            self.piece_on(7),
            Some(Piece::BlackRook)
        )) {
            return false;
        }
        if flags & castling::BLACK_Q != 0 && !(black_king && matches!(
            self.piece_on(0),
            Some(Piece::BlackRook)
        )) {
            return false;
        }
        let ep = self.en_passant;
        if ep < 64 {
            if self.white_to_move {
                16 <= ep && ep < 24 && matches!(self.piece_on(ep + 8), Some(Piece::BlackPawn))
            } else {
                40 <= ep && ep < 48 && matches!(self.piece_on(ep - 8), Some(Piece::WhitePawn))
            }
        } else {
            true
        }
    }
}

} // verus!
