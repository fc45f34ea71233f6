//! The twelve kinds of piece and the four castling rights.

use vstd::prelude::*;
use crate::castling;

verus! {

/// A piece of one colour. The order of the variants is the order of the
/// position's twelve piece sets.
#[derive(Clone, Copy, Debug, PartialEq, Eq)]
pub enum Piece {
    WhitePawn,
    WhiteBishop,
    WhiteKnight,
    WhiteRook,
    WhiteKing,
    WhiteQueen,
    BlackPawn,
    BlackBishop,
    BlackKnight,
    BlackRook,
    BlackKing,
    BlackQueen,
}

impl Piece {
    /// The place of the piece among the twelve, from 0 for the white pawn.
    pub open spec fn index(self) -> int {
        match self {
            Piece::WhitePawn => 0,
            Piece::WhiteBishop => 1,
            Piece::WhiteKnight => 2,
            Piece::WhiteRook => 3,
            Piece::WhiteKing => 4,
            Piece::WhiteQueen => 5,
            Piece::BlackPawn => 6,
            Piece::BlackBishop => 7,
            Piece::BlackKnight => 8,
            Piece::BlackRook => 9,
            Piece::BlackKing => 10,
            Piece::BlackQueen => 11,
        }
    }

    /// The piece that stands at place `i` among the twelve.
    pub open spec fn at(i: int) -> Piece {
        if i == 0 {
            Piece::WhitePawn
        } else if i == 1 {
            Piece::WhiteBishop
        } else if i == 2 {
            Piece::WhiteKnight
        } else if i == 3 {
            Piece::WhiteRook
        } else if i == 4 {
            Piece::WhiteKing
        } else if i == 5 {
            Piece::WhiteQueen
        } else if i == 6 {
            Piece::BlackPawn
        } else if i == 7 {
            Piece::BlackBishop
        } else if i == 8 {
            Piece::BlackKnight
        } else if i == 9 {
            Piece::BlackRook
        } else if i == 10 {
            Piece::BlackKing
        } else {
            Piece::BlackQueen
        }
    }

    pub open spec fn is_white(self) -> bool {
        self.index() < 6
    }

    /// The same kind of piece in the other colour.
    pub open spec fn recoloured(self) -> Piece {
        Piece::at((self.index() + 6) % 12)
    }

    /// The letter that stands for the piece in Forsyth–Edwards notation.
    pub open spec fn letter(self) -> char {
        match self {
            Piece::WhitePawn => 'P',
            Piece::WhiteBishop => 'B',
            Piece::WhiteKnight => 'N',
            Piece::WhiteRook => 'R',
            Piece::WhiteKing => 'K',
            Piece::WhiteQueen => 'Q',
            Piece::BlackPawn => 'p',
            Piece::BlackBishop => 'b',
            Piece::BlackKnight => 'n',
            Piece::BlackRook => 'r',
            Piece::BlackKing => 'k',
            Piece::BlackQueen => 'q',
        }
    }

    /// The piece that a letter stands for, if any.
    pub open spec fn of_letter(c: char) -> Option<Piece> {
        if c == 'P' {
            Some(Piece::WhitePawn)
        } else if c == 'B' {
            Some(Piece::WhiteBishop)
        } else if c == 'N' {
            Some(Piece::WhiteKnight)
        } else if c == 'R' {
            Some(Piece::WhiteRook)
        } else if c == 'K' {
            Some(Piece::WhiteKing)
        } else if c == 'Q' {
            Some(Piece::WhiteQueen)
        } else if c == 'p' {
            Some(Piece::BlackPawn)
        } else if c == 'b' {
            Some(Piece::BlackBishop)
        } else if c == 'n' {
            Some(Piece::BlackKnight)
        } else if c == 'r' {
            Some(Piece::BlackRook)
        } else if c == 'k' {
            Some(Piece::BlackKing)
        } else if c == 'q' {
            Some(Piece::BlackQueen)
        } else {
            None
        }
    }

    pub fn to_char(self) -> (c: char)
        ensures
            c == self.letter(),
            Piece::of_letter(c) == Some(self),
    {
        match self {
            Piece::WhitePawn => 'P',
            Piece::WhiteBishop => 'B',
            Piece::WhiteKnight => 'N',
            Piece::WhiteRook => 'R',
            Piece::WhiteKing => 'K',
            Piece::WhiteQueen => 'Q',
            Piece::BlackPawn => 'p',
            Piece::BlackBishop => 'b',
            Piece::BlackKnight => 'n',
            Piece::BlackRook => 'r',
            Piece::BlackKing => 'k',
            Piece::BlackQueen => 'q',
        }
    }

    /// Reads a piece letter.
    pub fn from_char(c: char) -> (r: Option<Piece>)
        ensures
            r == Piece::of_letter(c),
    {
        match c {
            'P' => Some(Piece::WhitePawn),
            'B' => Some(Piece::WhiteBishop),
            'N' => Some(Piece::WhiteKnight),
            'R' => Some(Piece::WhiteRook),
            'K' => Some(Piece::WhiteKing),
            'Q' => Some(Piece::WhiteQueen),
            'p' => Some(Piece::BlackPawn),
            'b' => Some(Piece::BlackBishop),
            'n' => Some(Piece::BlackKnight),
            'r' => Some(Piece::BlackRook),
            'k' => Some(Piece::BlackKing),
            'q' => Some(Piece::BlackQueen),
            _ => None,
        }
    }

    /// The piece that stands at place `i` among the twelve.
    pub fn from_index(i: usize) -> (r: Piece)
        requires
            i < 12,
        ensures
            r == Piece::at(i as int),
            r.index() == i,
    {
        if i == 0 {
            Piece::WhitePawn
        } else if i == 1 {
            Piece::WhiteBishop
        } else if i == 2 {
            Piece::WhiteKnight
        } else if i == 3 {
            Piece::WhiteRook
        } else if i == 4 {
            Piece::WhiteKing
        } else if i == 5 {
            Piece::WhiteQueen
        } else if i == 6 {
            Piece::BlackPawn
        } else if i == 7 {
            Piece::BlackBishop
        } else if i == 8 {
            Piece::BlackKnight
        } else if i == 9 {
            Piece::BlackRook
        } else if i == 10 {
            Piece::BlackKing
        } else {
            Piece::BlackQueen
        }
    }

    /// The place of the piece among the twelve, as an array index.
    pub fn to_index(self) -> (i: usize)
        ensures
            i == self.index(),
            i < 12,
            Piece::at(i as int) == self,
    {
        match self {
            Piece::WhitePawn => 0,
            Piece::WhiteBishop => 1,
            Piece::WhiteKnight => 2,
            Piece::WhiteRook => 3,
            Piece::WhiteKing => 4,
            Piece::WhiteQueen => 5,
            Piece::BlackPawn => 6,
            Piece::BlackBishop => 7,
            Piece::BlackKnight => 8,
            Piece::BlackRook => 9,
            Piece::BlackKing => 10,
            Piece::BlackQueen => 11,
        }
    }
}

impl From<Piece> for u8 {
    fn from(p: Piece) -> (r: u8) {
        match p {
            Piece::WhitePawn => 0,
            Piece::WhiteBishop => 1,
            Piece::WhiteKnight => 2,
            Piece::WhiteRook => 3,
            Piece::WhiteKing => 4,
            Piece::WhiteQueen => 5,
            Piece::BlackPawn => 6,
            Piece::BlackBishop => 7,
            Piece::BlackKnight => 8,
            Piece::BlackRook => 9,
            Piece::BlackKing => 10,
            Piece::BlackQueen => 11,
        }
    }
}

impl vstd::std_specs::convert::FromSpecImpl<Piece> for u8 {
    open spec fn obeys_from_spec() -> bool {
        true
    }

    open spec fn from_spec(p: Piece) -> u8 {
        p.index() as u8
    }
}

impl TryFrom<u8> for Piece {
    type Error = ();

    fn try_from(val: u8) -> (r: Result<Piece, ()>) {
        match val {
            0 => Ok(Piece::WhitePawn),
            1 => Ok(Piece::WhiteBishop),
            2 => Ok(Piece::WhiteKnight),
            3 => Ok(Piece::WhiteRook),
            4 => Ok(Piece::WhiteKing),
            5 => Ok(Piece::WhiteQueen),
            6 => Ok(Piece::BlackPawn),
            7 => Ok(Piece::BlackBishop),
            8 => Ok(Piece::BlackKnight),
            9 => Ok(Piece::BlackRook),
            10 => Ok(Piece::BlackKing),
            11 => Ok(Piece::BlackQueen),
            _ => Err(()),
        }
    }
}

impl vstd::std_specs::convert::TryFromSpecImpl<u8> for Piece {
    open spec fn obeys_try_from_spec() -> bool {
        true
    }

    open spec fn try_from_spec(val: u8) -> Result<Piece, ()> {
        if val < 12 {
            Ok(Piece::at(val as int))
        } else {
            Err(())
        }
    }
}

/// One of the four castling rights.
#[derive(Clone, Copy, Debug, PartialEq, Eq)]
pub enum CastleRights {
    WhiteShort,
    WhiteLong,
    BlackShort,
    BlackLong,
}

impl CastleRights {
    /// The bit that stands for the right in a position's castling byte.
    pub fn flag(self) -> (f: u8)
        ensures
            f == match self {
                CastleRights::WhiteShort => castling::WHITE_K,
                CastleRights::WhiteLong => castling::WHITE_Q,
                CastleRights::BlackShort => castling::BLACK_K,
                CastleRights::BlackLong => castling::BLACK_Q,
            },
    {
        match self {
            CastleRights::WhiteShort => castling::WHITE_K,
            CastleRights::WhiteLong => castling::WHITE_Q,
            CastleRights::BlackShort => castling::BLACK_K,
            CastleRights::BlackLong => castling::BLACK_Q,
        }
    }
}

} // verus!
