//! The board as a plain row of 64 characters: a piece letter for each piece
//! and a dot for each empty square, from a8 along each rank to h1.

use vstd::prelude::*;
use crate::bitboard::Bitboard;
use crate::chessmove::{is_move_text, square_of};
use crate::fenstring::FenString;

verus! {

/// Which pieces a set of squares is to hold.
#[derive(Clone, Copy, Debug, PartialEq, Eq)]
pub enum BoardType {
    WhiteAllPieces,
    BlackAllPieces,
}

pub struct SimpleBoard(pub Vec<char>);

impl View for SimpleBoard {
    type V = Seq<char>;

    open spec fn view(&self) -> Seq<char> {
        self.0@
    }
}

impl SimpleBoard {
    /// A board of the given characters, or of none.
    pub fn new(val: Option<Vec<char>>) -> (r: Self)
        ensures
            r@ == match val {
                Some(vec) => vec@,
                None => Seq::<char>::empty(),
            },
    {
        match val {
            Some(vec) => Self(vec),
            None => Self(Vec::new()),
        }
    }

    pub fn as_vec_char(&self) -> (r: &Vec<char>)
        ensures
            r@ == self@,
    {
        &self.0
    }

    pub fn set(&mut self, index: usize, c: char)
        requires
            index < old(self)@.len(),
        ensures
            final(self)@ == old(self)@.update(index as int, c),
    {
        self.0[index] = c;
    }

    pub fn push(&mut self, c: char)
        ensures
            final(self)@ == old(self)@.push(c),
    {
        self.0.push(c);
    }
}

/// A run of `n` dots.
pub open spec fn dots(n: int) -> Seq<char> {
    Seq::new(n as nat, |i: int| '.')
}

/// The first `n` characters of a board part written out square by square:
/// each digit from 1 to 8 becomes that many dots, strokes fall away, and every
/// other character stays.
pub open spec fn written_out(text: Seq<char>, n: int) -> Seq<char>
    decreases n,
{
    if n <= 0 {
        Seq::empty()
    } else {
        let c = text[n - 1];
        written_out(text, n - 1) + if '1' <= c && c <= '8' {
            dots(c as u32 - '0' as u32)
        } else if c == '/' {
            Seq::empty()
        } else {
            seq![c]
        }
    }
}

/// Writes the board part of a notation out square by square.
pub fn fen_to_simple(fen_board: FenString) -> (r: SimpleBoard)
    ensures
        r@ == written_out(fen_board@, fen_board@.len() as int),
{
    let chars = fen_board.chars();
    let mut simple_board = SimpleBoard::new(None);
    let mut i: usize = 0;
    while i < chars.len()
        invariant
            i <= chars.len(),
            chars@ == fen_board@,
            simple_board@ == written_out(chars@, i as int),
        decreases chars.len() - i,
    {
        let c = chars[i];
        let ghost before = simple_board@;
        if '1' <= c && c <= '8' {
            let count = c as u32 - '0' as u32;
            let mut k: u32 = 0;
            while k < count
                invariant
                    k <= count,
                    simple_board@ == before + dots(k as int),
                decreases count - k,
            {
                simple_board.push('.');
                k += 1;
                proof {
                    assert(simple_board@ =~= before + dots(k as int));
                }
            }
        } else if c == '/' {
        } else {
            simple_board.push(c);
        }
        i += 1;
        proof {
            assert(simple_board@ =~= written_out(chars@, i as int));
        }
    }
    simple_board
}

/// Whether a character counts as a piece of the side that the board type names:
/// a capital letter for White, a small letter for Black.
pub open spec fn counts_for(board_type: BoardType, c: char) -> bool {
    match board_type {
        BoardType::WhiteAllPieces => 'A' <= c && c <= 'Z',
        BoardType::BlackAllPieces => 'a' <= c && c <= 'z',
    }
}

/// The squares on which the written-out board holds a piece of one side.
pub fn simple_to_bitboard(board_type: BoardType, simple_board: &SimpleBoard) -> (r: Bitboard)
    requires
        simple_board@.len() >= 64,
    ensures
        forall|sq: int| #[trigger]
            r.has(sq) == (0 <= sq < 64 && counts_for(board_type, simple_board@[sq])),
{
    let mut bitboard = Bitboard::new(0);
    proof {
        assert forall|sq: int| !#[trigger] bitboard.has(sq) by {
            crate::bitboard::lemma_bit_of_zero(sq);
        }
    }
    let cells = simple_board.as_vec_char();
    let mut j: u16 = 0;
    while j < 64
        invariant
            j <= 64,
            cells@ == simple_board@,
            cells@.len() >= 64,
            forall|sq: int| #[trigger]
                bitboard.has(sq) == (0 <= sq < j && counts_for(board_type, cells@[sq])),
        decreases 64 - j,
    {
        let c = cells[j as usize];
        let counts = match board_type {
            BoardType::WhiteAllPieces => 'A' <= c && c <= 'Z',
            BoardType::BlackAllPieces => 'a' <= c && c <= 'z',
        };
        if counts {
            bitboard.set_bit(j);
        }
        j += 1;
    }
    bitboard
}

/// The number of dots with which the first `n` cells of a row end.
pub open spec fn row_gap(cells: Seq<char>, row: int, n: int) -> int
    decreases n,
{
    if n <= 0 {
        0
    } else if cells[row * 8 + n - 1] != '.' {
        0
    } else {
        row_gap(cells, row, n - 1) + 1
    }
}

/// The text for the first `n` cells of a row, up to its last piece.
pub open spec fn row_text(cells: Seq<char>, row: int, n: int) -> Seq<char>
    decreases n,
{
    if n <= 0 {
        Seq::empty()
    } else {
        let c = cells[row * 8 + n - 1];
        if c != '.' {
            row_text(cells, row, n - 1) + crate::fen::gap_text(row_gap(cells, row, n - 1)) + seq![c]
        } else {
            row_text(cells, row, n - 1)
        }
    }
}

/// The text for the first `n` rows, each followed by a stroke.
pub open spec fn rows_text(cells: Seq<char>, n: int) -> Seq<char>
    decreases n,
{
    if n <= 0 {
        Seq::empty()
    } else {
        rows_text(cells, n - 1) + row_text(cells, n - 1, 8) + crate::fen::gap_text(
            row_gap(cells, n - 1, 8),
        ) + seq!['/']
    }
}

/// The board part of the notation for a written-out board: every run of
/// dots in a row becomes its length, and a stroke parts the rows.
pub fn simple_to_fen(simple_board: &Vec<char>) -> (r: FenString)
    requires
        simple_board@.len() >= 64,
    ensures
        r@ == rows_text(simple_board@, 8).drop_last(),
{
    let mut text: Vec<char> = Vec::new();
    let mut i: usize = 0;
    while i < 8
        invariant
            i <= 8,
            simple_board@.len() >= 64,
            text@ == rows_text(simple_board@, i as int),
        decreases 8 - i,
    {
        let ghost before = text@;
        let mut space_counter: u8 = 0;
        let mut j: usize = 0;
        while j < 8
            invariant
                i < 8,
                j <= 8,
                simple_board@.len() >= 64,
                space_counter == row_gap(simple_board@, i as int, j as int),
                space_counter <= j,
                text@ == before + row_text(simple_board@, i as int, j as int),
            decreases 8 - j,
        {
            let c = simple_board[j + 8 * i];
            if c == '.' {
                space_counter += 1;
            } else {
                if space_counter != 0 {
                    text.push((space_counter + 48u8) as char);
                    space_counter = 0;
                }
                text.push(c);
            }
            j += 1;
            proof {
                assert(text@ =~= before + row_text(simple_board@, i as int, j as int));
            }
        }
        if space_counter != 0 {
            text.push((space_counter + 48u8) as char);
        }
        text.push('/');
        i += 1;
        proof {
            assert(text@ =~= rows_text(simple_board@, i as int));
        }
    }
    let _ = text.pop();
    FenString(crate::text::string_of(&text))
}


/// The written-out board after the piece on `from` has been set on `to` and
/// `from` has been emptied.
pub open spec fn shifted(cells: Seq<char>, from: int, to: int) -> Seq<char> {
    cells.update(to, cells[from]).update(from, '.')
}

/// Moves a piece on the board part of a notation, without asking whether
/// the rules allow the move: what stands on the origin is set on the
/// destination. A text that names no two squares gives the empty text.
pub fn make_a_move_testing(fen_board: FenString, mv_string: &str) -> (r: FenString)
    requires
        written_out(fen_board@, fen_board@.len() as int).len() >= 64,
    ensures
        r@ == if is_move_text(mv_string@) {
            rows_text(
                shifted(
                    written_out(fen_board@, fen_board@.len() as int),
                    square_of(mv_string@[0], mv_string@[1]),
                    square_of(mv_string@[2], mv_string@[3]),
                ),
                8,
            ).drop_last()
        } else {
            Seq::<char>::empty()
        },
{
    let chars = crate::text::chars_of(mv_string);
    if !(chars.len() >= 4 && 'a' <= chars[0] && chars[0] <= 'h' && '1' <= chars[1] && chars[1]
        <= '8' && 'a' <= chars[2] && chars[2] <= 'h' && '1' <= chars[3] && chars[3] <= '8') {
        proof {
            reveal_strlit("");
        }
        return FenString::new("");
    }
    let from_sq = crate::chessmove::SquareChar::new(chars[1], chars[0]);
    let to_sq = crate::chessmove::SquareChar::new(chars[3], chars[2]);
    let mv = crate::chessmove::ChessMove::new_with_square(from_sq, to_sq);
    let mut simple_board = fen_to_simple(fen_board);
    let simple_index_from = mv.get_curr_square_as_index() as usize;
    let simple_index_to = mv.get_dest_square_as_index() as usize;
    let pc = simple_board.as_vec_char()[simple_index_from];
    simple_board.set(simple_index_to, pc);
    simple_board.set(simple_index_from, '.');
    simple_to_fen(simple_board.as_vec_char())
}

} // verus!
