//! A move in coordinate notation, packed into sixteen bits.
//!
//! The low six bits hold the destination square, the next six the origin
//! square and the top four a promotion tag: 1 knight, 2 bishop, 4 rook,
//! 8 queen, anything else no promotion.

use vstd::prelude::*;
use crate::interface::{file_to_i8, i8_to_file, i8_to_rank, is_file_char, is_rank_char, rank_to_i8};

verus! {

pub const PROMOTE_KNIGHT: u8 = 0b0001;

pub const PROMOTE_BISHOP: u8 = 0b0010;

pub const PROMOTE_ROOK: u8 = 0b0100;

pub const PROMOTE_QUEEN: u8 = 0b1000;

/// The square named by a file letter and a rank digit: a8 is 0, h1 is 63.
pub open spec fn square_of(file: char, rank: char) -> int {
    (7 - (rank as u32 - '1' as u32)) * 8 + (file as u32 - 'a' as u32)
}

/// The letter of the file of square `sq`.
pub open spec fn file_letter(sq: int) -> char {
    ('a' as u32 + sq % 8) as char
}

/// The digit of the rank of square `sq`.
pub open spec fn rank_digit(sq: int) -> char {
    ('1' as u32 + 7 - sq / 8) as char
}

/// The promotion tag that a letter of coordinate notation stands for, 0 if none.
pub open spec fn tag_of_letter(c: char) -> int {
    if c == 'n' {
        1
    } else if c == 'b' {
        2
    } else if c == 'r' {
        4
    } else if c == 'q' {
        8
    } else {
        0
    }
}

/// The letters that a promotion tag adds to coordinate notation.
pub open spec fn letters_of_tag(tag: int) -> Seq<char> {
    if tag == 1 {
        seq!['n']
    } else if tag == 2 {
        seq!['b']
    } else if tag == 4 {
        seq!['r']
    } else if tag == 8 {
        seq!['q']
    } else {
        Seq::empty()
    }
}

/// Whether `text` names two squares, as in "e2e4" or "e7e8q".
pub open spec fn is_move_text(text: Seq<char>) -> bool {
    &&& text.len() >= 4
    &&& is_file_char(text[0])
    &&& is_rank_char(text[1])
    &&& is_file_char(text[2])
    &&& is_rank_char(text[3])
}

/// The packed value of the move that `text` names. A fifth character counts
/// as a promotion letter only when it is the last one.
pub open spec fn value_of_text(text: Seq<char>) -> int {
    let tag = if text.len() == 5 {
        tag_of_letter(text[4])
    } else {
        0
    };
    tag * 4096 + square_of(text[0], text[1]) * 64 + square_of(text[2], text[3])
}

#[derive(Clone, Copy, Debug, PartialEq, Eq)]
pub struct ChessMove(pub u16);

/// A square as its two characters.
#[derive(Debug, Copy, Clone)]
pub struct SquareChar {
    pub rank: char,
    pub file: char,
}

impl SquareChar {
    pub fn new(rank: char, file: char) -> (r: Self)
        ensures
            r.rank == rank,
            r.file == file,
    {
        Self { rank, file }
    }

    pub open spec fn wf(self) -> bool {
        is_rank_char(self.rank) && is_file_char(self.file)
    }

    /// The square that the two characters name.
    pub open spec fn square(self) -> int {
        square_of(self.file, self.rank)
    }
}

impl ChessMove {
    /// The square the move starts from.
    pub open spec fn from_sq(self) -> int {
        (self.0 as int / 64) % 64
    }

    /// The square the move lands on.
    pub open spec fn to_sq(self) -> int {
        self.0 as int % 64
    }

    /// The promotion tag.
    pub open spec fn tag(self) -> int {
        self.0 as int / 4096
    }

    /// The move in coordinate notation.
    pub open spec fn text(self) -> Seq<char> {
        seq![
            file_letter(self.from_sq()),
            rank_digit(self.from_sq()),
            file_letter(self.to_sq()),
            rank_digit(self.to_sq()),
        ] + letters_of_tag(self.tag())
    }


    /// The move that a packed value stands for.
    pub fn new(u: u16) -> (r: Self)
        ensures
            r.0 == u,
    {
        Self(u)
    }

    /// Packs an origin and a destination. A promotion tag may ride in the
    /// bits of `u_curr` above the sixth.
    pub fn new_with_curr_and_dest(u_curr: u16, u_dest: u16) -> (r: Self)
        requires
            u_curr < 1024,
            u_dest < 64,
        ensures
            r.0 == u_curr * 64 + u_dest,
            r.from_sq() == u_curr % 64,
            r.to_sq() == u_dest,
            r.tag() == u_curr / 64,
    {
        assert(u_curr < 1024 ==> (u_curr << 6) == u_curr * 64) by (bit_vector);
        Self((u_curr << 6) + u_dest)
    }


    /// The plain move from one named square to another.
    pub fn new_with_square(curr: SquareChar, dest: SquareChar) -> (r: Self)
        requires
            curr.wf(),
            dest.wf(),
        ensures
            r.0 == curr.square() * 64 + dest.square(),
            r.from_sq() == curr.square(),
            r.to_sq() == dest.square(),
            r.tag() == 0,
    {
        let u_from: u16 = (8 - rank_to_i8(curr.rank)) as u16 * 8 + file_to_i8(curr.file) as u16 - 1;
        let u_to: u16 = (8 - rank_to_i8(dest.rank)) as u16 * 8 + file_to_i8(dest.file) as u16 - 1;
        Self::new_with_curr_and_dest(u_from, u_to)
    }

    /// Reads a move in coordinate notation, such as "e2e4" or "e7e8q".
    pub fn new_with_str(mv: &str) -> (r: Self)
        requires
            is_move_text(mv@),
        ensures
            r.0 == value_of_text(mv@),
    {
        let chars = crate::text::chars_of(mv);
        Self::of_chars(&chars)
    }

    /// Reads a move in coordinate notation, or tells that the text names no two squares.
    pub fn parse(mv: &str) -> (r: Option<Self>)
        ensures
            r == if is_move_text(mv@) {
                Some(ChessMove(value_of_text(mv@) as u16))
            } else {
                None
            },
    {
        let chars = crate::text::chars_of(mv);
        if chars.len() >= 4 && 'a' <= chars[0] && chars[0] <= 'h' && '1' <= chars[1] && chars[1]
            <= '8' && 'a' <= chars[2] && chars[2] <= 'h' && '1' <= chars[3] && chars[3] <= '8' {
            Some(Self::of_chars(&chars))
        } else {
            None
        }
    }

    /// The move that the characters of a coordinate notation name.
    fn of_chars(chars: &Vec<char>) -> (r: Self)
        requires
            is_move_text(chars@),
        ensures
            r.0 == value_of_text(chars@),
    {
        let curr_sq = SquareChar::new(chars[1], chars[0]);
        let dest_sq = SquareChar::new(chars[3], chars[2]);
        let plain = ChessMove::new_with_square(curr_sq, dest_sq);
        if chars.len() == 5 {
            let letter = chars[4];
            let tag: u16 = if letter == 'n' {
                1
            } else if letter == 'b' {
                2
            } else if letter == 'r' {
                4
            } else if letter == 'q' {
                8
            } else {
                0
            };
            ChessMove::new(tag * 4096 + plain.0)
        } else {
            plain
        }
    }

    /// The move in coordinate notation, as the text protocol of chess engines writes it.
    pub fn to_str(self) -> (r: String)
        ensures
            r@ == self.text(),
    {
        let dest_index = self.get_dest_square_as_index();
        let curr_index = self.get_curr_square_as_index();
        let dest_rank = i8_to_rank((8 - dest_index / 8) as i8);
        let dest_file = i8_to_file((dest_index % 8 + 1) as i8);
        let curr_rank = i8_to_rank((8 - curr_index / 8) as i8);
        let curr_file = i8_to_file((curr_index % 8 + 1) as i8);
        let mut chars: Vec<char> = Vec::new();
        chars.push(curr_file);
        chars.push(curr_rank);
        chars.push(dest_file);
        chars.push(dest_rank);
        let encoding = self.get_four_msb();
        if encoding == 1 {
            chars.push('n');
        } else if encoding == 2 {
            chars.push('b');
        } else if encoding == 4 {
            chars.push('r');
        } else if encoding == 8 {
            chars.push('q');
        }
        proof {
            assert(chars@ =~= self.text());
        }
        crate::text::string_of(&chars)
    }

    pub fn get_curr_square_as_index(&self) -> (r: u16)
        ensures
            r == self.from_sq(),
            r < 64,
    {
        let v = self.0;
        assert((v & 0b0000_111111_000000) >> 6 == (v / 64) % 64) by (bit_vector);
        (self.0 & 0b0000_111111_000000) >> 6
    }

    pub fn get_dest_square_as_index(&self) -> (r: u16)
        ensures
            r == self.to_sq(),
            r < 64,
    {
        let v = self.0;
        assert(v & 0b0000_000000_111111 == v % 64) by (bit_vector);
        self.0 & 0b0000_000000_111111
    }


    /// The promotion tag: the four highest bits of the packed move.
    pub fn get_four_msb(&self) -> (r: u8)
        ensures
            r == self.tag(),
            r < 16,
    {
        let v = self.0;
        assert((v & 0b1111_000000_000000) >> 12 == v / 4096) by (bit_vector);
        ((self.0 & 0b1111_000000_000000) >> 12) as u8
    }

    pub fn to_u16(&self) -> (r: u16)
        ensures
            r == self.0,
    {
        self.0
    }
}

impl core::ops::BitAnd for ChessMove {
    type Output = ChessMove;

    fn bitand(self, rhs: ChessMove) -> (r: ChessMove) {
        ChessMove(self.0 & rhs.0)
    }
}

impl vstd::std_specs::ops::BitAndSpecImpl for ChessMove {
    open spec fn obeys_bitand_spec() -> bool {
        true
    }

    open spec fn bitand_req(self, rhs: ChessMove) -> bool {
        true
    }

    open spec fn bitand_spec(self, rhs: ChessMove) -> ChessMove {
        ChessMove(self.0 & rhs.0)
    }
}

/// The four castling moves. Each is written as the king's own move: e1g1,
/// e1c1, e8g8 and e8c8.
#[derive(Clone, Copy, Debug, PartialEq, Eq)]
pub enum CastleMove {
    WhiteKingside,
    WhiteQueenside,
    BlackKingside,
    BlackQueenside,
}

impl CastleMove {
    pub const WHITE_K: u16 = 0b0000_111100_111110;

    pub const WHITE_Q: u16 = 0b0000_111100_111010;

    pub const BLACK_K: u16 = 0b0000_000100_000110;

    pub const BLACK_Q: u16 = 0b0000_000100_000010;

    /// The king's move that stands for the castling move.
    pub open spec fn king_move(self) -> ChessMove {
        match self {
            CastleMove::WhiteKingside => ChessMove(CastleMove::WHITE_K),
            CastleMove::WhiteQueenside => ChessMove(CastleMove::WHITE_Q),
            CastleMove::BlackKingside => ChessMove(CastleMove::BLACK_K),
            CastleMove::BlackQueenside => ChessMove(CastleMove::BLACK_Q),
        }
    }

    pub fn to_move(self) -> (m: ChessMove)
        ensures
            m == self.king_move(),
            m.tag() == 0,
            m.from_sq() == match self {
                CastleMove::WhiteKingside | CastleMove::WhiteQueenside => 60int,
                CastleMove::BlackKingside | CastleMove::BlackQueenside => 4int,
            },
            m.to_sq() == match self {
                CastleMove::WhiteKingside => 62int,
                CastleMove::WhiteQueenside => 58int,
                CastleMove::BlackKingside => 6int,
                CastleMove::BlackQueenside => 2int,
            },
    {
        match self {
            CastleMove::WhiteKingside => ChessMove(CastleMove::WHITE_K),
            CastleMove::WhiteQueenside => ChessMove(CastleMove::WHITE_Q),
            CastleMove::BlackKingside => ChessMove(CastleMove::BLACK_K),
            CastleMove::BlackQueenside => ChessMove(CastleMove::BLACK_Q),
        }
    }
}

} // verus!
