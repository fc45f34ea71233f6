//! Reading a position from Forsyth–Edwards notation.
//!
//! The reader is lenient: characters that mean nothing where they stand are
//! passed over, missing fields count as empty, pieces that would fall off the
//! board are left out, and a castling right or an en-passant square that the
//! pieces on the board contradict is dropped. What comes out is always a
//! well-formed position.

use vstd::prelude::*;
use crate::board::{lemma_flag_constants, lemma_rights_with, rights_of, ChessBoard};
use crate::castling;
use crate::piece::Piece;
use crate::position::{Position, Rights};

verus! {

/// The characters that part the fields of the notation.
pub open spec fn is_space(c: char) -> bool {
    c == ' ' || ('\t' <= c && c <= '\r')
}

/// The first place at or after `i` that holds no space, or the end of the text.
pub open spec fn skip_spaces(s: Seq<char>, i: int) -> int
    decreases s.len() - i,
{
    if i < 0 || i >= s.len() {
        s.len() as int
    } else if is_space(s[i]) {
        skip_spaces(s, i + 1)
    } else {
        i
    }
}

/// The first place at or after `i` that holds a space, or the end of the text.
pub open spec fn field_end(s: Seq<char>, i: int) -> int
    decreases s.len() - i,
{
    if i < 0 || i >= s.len() {
        s.len() as int
    } else if is_space(s[i]) {
        i
    } else {
        field_end(s, i + 1)
    }
}

/// Where field `k` of the text starts, fields being counted from 0.
pub open spec fn field_start(s: Seq<char>, k: nat) -> int
    decreases k,
{
    if k == 0 {
        skip_spaces(s, 0)
    } else {
        skip_spaces(s, field_end(s, field_start(s, (k - 1) as nat)))
    }
}

/// Field `k` of the text: the `k`-th run of characters between spaces. A
/// field that the text does not have is empty.
pub open spec fn field(s: Seq<char>, k: nat) -> Seq<char> {
    s.subrange(field_start(s, k), field_end(s, field_start(s, k)))
}

/// Where the reading of the board part stands: the board so far, and the
/// rank and file on which the next piece will be set.
pub struct Placement {
    pub board: Seq<Option<Piece>>,
    pub rank: int,
    pub file: int,
}

pub open spec fn is_digit(c: char) -> bool {
    '0' <= c && c <= '9'
}

/// The reading of the board part after its first `n` characters. A stroke
/// starts the next rank, a digit passes over that many files, a piece letter
/// sets the piece and passes over one file, and any other character is
/// passed over.
pub open spec fn placed(text: Seq<char>, n: int) -> Placement
    decreases n,
{
    if n <= 0 {
        Placement { board: Seq::new(64, |sq: int| None::<Piece>), rank: 0, file: 0 }
    } else {
        let before = placed(text, n - 1);
        let c = text[n - 1];
        if c == '/' {
            Placement { rank: before.rank + 1, file: 0, ..before }
        } else if is_digit(c) {
            Placement { file: before.file + (c as u32 - '0' as u32), ..before }
        } else {
            match Piece::of_letter(c) {
                Some(piece) => {
                    let sq = before.rank * 8 + before.file;
                    Placement {
                        board: if sq < 64 {
                            before.board.update(sq, Some(piece))
                        } else {
                            before.board
                        },
                        file: before.file + 1,
                        ..before
                    }
                },
                None => before,
            }
        }
    }
}

/// The en-passant square that the fourth field names, before it is held
/// against the board: none if the field has fewer than two characters, else
/// the square of its file letter and rank digit, each counting as the first
/// file or the eighth rank if it is no such character.
pub open spec fn named_en_passant(text: Seq<char>) -> Option<int> {
    if text.len() < 2 {
        None
    } else {
        let file = if 'a' <= text[0] && text[0] <= 'h' {
            text[0] as u32 - 'a' as u32
        } else {
            0
        };
        let rank = if '1' <= text[1] && text[1] <= '8' {
            7 - (text[1] as u32 - '1' as u32)
        } else {
            0
        };
        Some(rank * 8 + file)
    }
}

impl Position {
    /// Whether the position may be entered with `ep` as its en-passant square.
    pub open spec fn allows_en_passant(self, ep: int) -> bool {
        if self.white_to_move {
            16 <= ep < 24 && self.at(ep + 8) == Some(Piece::BlackPawn)
        } else {
            40 <= ep < 48 && self.at(ep - 8) == Some(Piece::WhitePawn)
        }
    }

    /// The position without the castling rights whose king or rook is not at
    /// home and without an en-passant square that no pawn can have just passed.
    pub open spec fn normalized(self) -> Position {
        Position {
            rights: Rights {
                white_k: self.rights.white_k && self.at(60) == Some(Piece::WhiteKing) && self.at(63)
                    == Some(Piece::WhiteRook),
                white_q: self.rights.white_q && self.at(60) == Some(Piece::WhiteKing) && self.at(56)
                    == Some(Piece::WhiteRook),
                black_k: self.rights.black_k && self.at(4) == Some(Piece::BlackKing) && self.at(7)
                    == Some(Piece::BlackRook),
                black_q: self.rights.black_q && self.at(4) == Some(Piece::BlackKing) && self.at(0)
                    == Some(Piece::BlackRook),
            },
            en_passant: match self.en_passant {
                Some(ep) => if self.allows_en_passant(ep) {
                    Some(ep)
                } else {
                    None
                },
                None => None,
            },
            ..self
        }
    }
}

/// The position that a text in Forsyth–Edwards notation stands for. Its
/// fields are the board, the side to move (Black if the field is "b", else
/// White), the castling rights (each of the letters K, Q, k, q gives one) and
/// the en-passant square; further fields are not read.
pub open spec fn fen_position(s: Seq<char>) -> Position {
    (Position {
        board: placed(field(s, 0), field(s, 0).len() as int).board,
        white_to_move: field(s, 1) != seq!['b'],
        rights: Rights {
            white_k: field(s, 2).contains('K'),
            white_q: field(s, 2).contains('Q'),
            black_k: field(s, 2).contains('k'),
            black_q: field(s, 2).contains('q'),
        },
        en_passant: named_en_passant(field(s, 3)),
    }).normalized()
}

fn is_space_char(c: char) -> (r: bool)
    ensures
        r == is_space(c),
{
    c == ' ' || ('\t' <= c && c <= '\r')
}

/// The first place at or after `i` that holds no space.
fn skip_spaces_from(chars: &Vec<char>, i: usize) -> (r: usize)
    requires
        i <= chars.len(),
    ensures
        r == skip_spaces(chars@, i as int),
        i <= r <= chars.len(),
{
    let mut j = i;
    while j < chars.len() && is_space_char(chars[j])
        invariant
            i <= j <= chars.len(),
            skip_spaces(chars@, i as int) == skip_spaces(chars@, j as int),
        decreases chars.len() - j,
    {
        j += 1;
    }
    j
}

/// The first place at or after `i` that holds a space.
fn field_end_from(chars: &Vec<char>, i: usize) -> (r: usize)
    requires
        i <= chars.len(),
    ensures
        r == field_end(chars@, i as int),
        i <= r <= chars.len(),
{
    let mut j = i;
    while j < chars.len() && !is_space_char(chars[j])
        invariant
            i <= j <= chars.len(),
            field_end(chars@, i as int) == field_end(chars@, j as int),
        decreases chars.len() - j,
    {
        j += 1;
    }
    j
}


/// Whether character `c` stands somewhere in `s` from place `lo` up to, not including, `hi`.
pub open spec fn occurs(s: Seq<char>, lo: int, hi: int, c: char) -> bool {
    exists|j: int| lo <= j < hi && #[trigger] s[j] == c
}

proof fn lemma_occurs_is_contains(s: Seq<char>, lo: int, hi: int, c: char)
    requires
        0 <= lo <= hi <= s.len(),
    ensures
        occurs(s, lo, hi, c) == s.subrange(lo, hi).contains(c),
{
    let part = s.subrange(lo, hi);
    if occurs(s, lo, hi, c) {
        let j = choose|j: int| lo <= j < hi && #[trigger] s[j] == c;
        assert(part[j - lo] == c);
    }
    if part.contains(c) {
        let i = choose|i: int| 0 <= i < part.len() && part[i] == c;
        assert(s[lo + i] == c);
    }
}

impl ChessBoard {
    /// Whether the given piece stands on the square.
    fn holds(&self, sq: u16, piece: Piece) -> (r: bool)
        requires
            self.disjoint(),
            sq < 64,
        ensures
            r == (self@.at(sq as int) == Some(piece)),
    {
        let index = piece.to_index();
        proof {
            self.lemma_piece_at(index as int, sq as int);
        }
        self.bitboards[index].get_bit(sq)
    }

    /// Sets the pieces that the board part of the notation names.
    fn place_pieces(&mut self, chars: &Vec<char>, start: usize, end: usize)
        requires
            start <= end <= chars.len(),
            old(self).disjoint(),
            forall|sq: int| old(self)@.at(sq) is None,
        ensures
            final(self)@.board == placed(
                chars@.subrange(start as int, end as int),
                end - start,
            ).board,
            final(self).disjoint(),
            final(self).white_to_move == old(self).white_to_move,
            final(self).castling_rights == old(self).castling_rights,
            final(self).en_passant == old(self).en_passant,
    {
        let ghost text = chars@.subrange(start as int, end as int);
        let mut rank: usize = 0;
        let mut file: usize = 0;
        let mut i: usize = start;
        proof {
            assert(self@.board =~= placed(text, 0).board) by {
                assert forall|sq: int| 0 <= sq < 64 implies self@.board[sq] == None::<Piece> by {
                    assert(self@.at(sq) is None);
                }
            }
        }
        while i < end
            invariant
                start <= i <= end <= chars.len(),
                text == chars@.subrange(start as int, end as int),
                self.disjoint(),
                self.white_to_move == old(self).white_to_move,
                self.castling_rights == old(self).castling_rights,
                self.en_passant == old(self).en_passant,
                self@.board == placed(text, i - start).board,
                placed(text, i - start).rank >= 0,
                placed(text, i - start).file >= 0,
                rank == if placed(text, i - start).rank < 64 {
                    placed(text, i - start).rank
                } else {
                    64
                },
                file == if placed(text, i - start).file < 64 {
                    placed(text, i - start).file
                } else {
                    64
                },
            decreases end - i,
        {
            let c = chars[i];
            proof {
                assert(text[i - start] == c);
            }
            if c == '/' {
                if rank < 64 {
                    rank += 1;
                }
                file = 0;
            } else if '0' <= c && c <= '9' {
                let skip = (c as u32 - '0' as u32) as usize;
                file = if file + skip < 64 {
                    file + skip
                } else {
                    64
                };
            } else {
                match Piece::from_char(c) {
                    Some(piece) => {
                        if rank * 8 + file < 64 {
                            self.put((rank * 8 + file) as u16, piece);
                        }
                        if file < 64 {
                            file += 1;
                        }
                    },
                    None => {},
                }
            }
            i += 1;
        }
    }

    /// The castling flags among `flags` whose king and rook stand at home.
    fn founded_rights(&self, flags: u8) -> (r: u8)
        requires
            self.disjoint(),
            flags < 16,
        ensures
            r < 16,
            rights_of(r) == (Position { rights: rights_of(flags), ..self@ }).normalized().rights,
    {
        let white_king_home = self.holds(60, Piece::WhiteKing);
        let black_king_home = self.holds(4, Piece::BlackKing);
        let mut lost: u8 = 0;
        proof {
            lemma_flag_constants();
        }
        if !(white_king_home && self.holds(63, Piece::WhiteRook)) {
            proof {
                lemma_rights_with(lost, castling::WHITE_K);
            }
            lost = lost | castling::WHITE_K;
        }
        if !(white_king_home && self.holds(56, Piece::WhiteRook)) {
            proof {
                lemma_rights_with(lost, castling::WHITE_Q);
            }
            lost = lost | castling::WHITE_Q;
        }
        if !(black_king_home && self.holds(7, Piece::BlackRook)) {
            proof {
                lemma_rights_with(lost, castling::BLACK_K);
            }
            lost = lost | castling::BLACK_K;
        }
        if !(black_king_home && self.holds(0, Piece::BlackRook)) {
            proof {
                lemma_rights_with(lost, castling::BLACK_Q);
            }
            lost = lost | castling::BLACK_Q;
        }
        proof {
            crate::board::lemma_rights_without(flags, lost);
        }
        flags & !lost
    }

    /// The en-passant square `ep` if the position may be entered with it, else 64.
    fn founded_en_passant(&self, ep: u16) -> (r: u16)
        requires
            self.disjoint(),
        ensures
            r <= 64,
            r == if ep < 64 && self@.allows_en_passant(ep as int) {
                ep
            } else {
                64
            },
    {
        let allowed = if self.white_to_move {
            16 <= ep && ep < 24 && self.holds(ep + 8, Piece::BlackPawn)
        } else {
            40 <= ep && ep < 48 && self.holds(ep - 8, Piece::WhitePawn)
        };
        if allowed {
            ep
        } else {
            64
        }
    }

    /// Reads a position from Forsyth–Edwards notation. Whatever the text
    /// holds, the position that comes out is well-formed.
    pub fn from_fen(fen: &str) -> (r: Self)
        ensures
            r.wf(),
            r@ == fen_position(fen@),
    {
        let chars = crate::text::chars_of(fen);
        let s0 = skip_spaces_from(&chars, 0);
        let e0 = field_end_from(&chars, s0);
        let s1 = skip_spaces_from(&chars, e0);
        let e1 = field_end_from(&chars, s1);
        let s2 = skip_spaces_from(&chars, e1);
        let e2 = field_end_from(&chars, s2);
        let s3 = skip_spaces_from(&chars, e2);
        let e3 = field_end_from(&chars, s3);
        proof {
            reveal_with_fuel(field_start, 4);
            assert(field(chars@, 0) == chars@.subrange(s0 as int, e0 as int));
            assert(field(chars@, 1) == chars@.subrange(s1 as int, e1 as int));
            assert(field(chars@, 2) == chars@.subrange(s2 as int, e2 as int));
            assert(field(chars@, 3) == chars@.subrange(s3 as int, e3 as int));
        }
        let mut board = Self::new();
        board.place_pieces(&chars, s0, e0);
        board.white_to_move = read_side(&chars, s1, e1);
        let flags = read_rights(&chars, s2, e2);
        let ep = read_en_passant(&chars, s3, e3);
        let ghost read = Position {
            rights: rights_of(flags),
            en_passant: named_en_passant(field(chars@, 3)),
            ..board@
        };
        board.castling_rights = board.founded_rights(flags);
        board.en_passant = board.founded_en_passant(ep);
        proof {
            let raw = Position {
                board: placed(field(fen@, 0), field(fen@, 0).len() as int).board,
                white_to_move: field(fen@, 1) != seq!['b'],
                rights: Rights {
                    white_k: field(fen@, 2).contains('K'),
                    white_q: field(fen@, 2).contains('Q'),
                    black_k: field(fen@, 2).contains('k'),
                    black_q: field(fen@, 2).contains('q'),
                },
                en_passant: named_en_passant(field(fen@, 3)),
            };
            assert(read.board =~= raw.board);
            assert(read.white_to_move == raw.white_to_move);
            assert(read.rights == raw.rights);
            assert(read.en_passant == raw.en_passant);
            assert(read == raw);
            assert(board@.board =~= read.board);
            assert(board@.rights == read.normalized().rights);
            assert(board@.en_passant == read.normalized().en_passant);
            assert(board@ == read.normalized());
        }
        board
    }
}

/// Whether the side field gives White the move: it does unless it is "b".
fn read_side(chars: &Vec<char>, start: usize, end: usize) -> (r: bool)
    requires
        start <= end <= chars.len(),
    ensures
        r == (chars@.subrange(start as int, end as int) != seq!['b']),
{
    let ghost text = chars@.subrange(start as int, end as int);
    if end - start == 1 && chars[start] == 'b' {
        proof {
            assert(text =~= seq!['b']);
        }
        false
    } else {
        proof {
            if text == seq!['b'] {
                assert(text.len() == 1);
                assert(text[0] == 'b');
            }
        }
        true
    }
}

/// The castling flags that the letters of the castling field give.
fn read_rights(chars: &Vec<char>, start: usize, end: usize) -> (r: u8)
    requires
        start <= end <= chars.len(),
    ensures
        r < 16,
        rights_of(r) == (Rights {
            white_k: chars@.subrange(start as int, end as int).contains('K'),
            white_q: chars@.subrange(start as int, end as int).contains('Q'),
            black_k: chars@.subrange(start as int, end as int).contains('k'),
            black_q: chars@.subrange(start as int, end as int).contains('q'),
        }),
{
    let mut flags: u8 = 0;
    let mut i: usize = start;
    proof {
        lemma_flag_constants();
    }
    while i < end
        invariant
            start <= i <= end <= chars.len(),
            flags < 16,
            rights_of(flags) == (Rights {
                white_k: occurs(chars@, start as int, i as int, 'K'),
                white_q: occurs(chars@, start as int, i as int, 'Q'),
                black_k: occurs(chars@, start as int, i as int, 'k'),
                black_q: occurs(chars@, start as int, i as int, 'q'),
            }),
        decreases end - i,
    {
        let c = chars[i];
        let more: u8 = if c == 'K' {
            castling::WHITE_K
        } else if c == 'Q' {
            castling::WHITE_Q
        } else if c == 'k' {
            castling::BLACK_K
        } else if c == 'q' {
            castling::BLACK_Q
        } else {
            0
        };
        proof {
            lemma_flag_constants();
            lemma_rights_with(flags, more);
            assert(chars@[i as int] == c);
        }
        flags = flags | more;
        i += 1;
    }
    proof {
        lemma_occurs_is_contains(chars@, start as int, end as int, 'K');
        lemma_occurs_is_contains(chars@, start as int, end as int, 'Q');
        lemma_occurs_is_contains(chars@, start as int, end as int, 'k');
        lemma_occurs_is_contains(chars@, start as int, end as int, 'q');
    }
    flags
}

/// The square that the en-passant field names, 64 if it names none.
fn read_en_passant(chars: &Vec<char>, start: usize, end: usize) -> (r: u16)
    requires
        start <= end <= chars.len(),
    ensures
        r <= 64,
        named_en_passant(chars@.subrange(start as int, end as int)) == if r < 64 {
            Some(r as int)
        } else {
            None
        },
{
    if end - start >= 2 {
        let file_char = chars[start];
        let rank_char = chars[start + 1];
        let file: u16 = if 'a' <= file_char && file_char <= 'h' {
            (file_char as u32 - 'a' as u32) as u16
        } else {
            0
        };
        let rank: u16 = if '1' <= rank_char && rank_char <= '8' {
            7 - (rank_char as u32 - '1' as u32) as u16
        } else {
            0
        };
        proof {
            let text = chars@.subrange(start as int, end as int);
            assert(text[0] == file_char && text[1] == rank_char);
        }
        rank * 8 + file
    } else {
        64
    }
}


/// The digit that stands for a number below ten.
pub open spec fn digit_char(n: int) -> char {
    ('0' as u32 + n) as char
}

/// A number below a hundred in decimal digits.
pub open spec fn decimal(n: int) -> Seq<char> {
    if n < 10 {
        seq![digit_char(n)]
    } else {
        seq![digit_char(n / 10), digit_char(n % 10)]
    }
}

/// The digit for a run of empty squares, nothing for no run.
pub open spec fn gap_text(gap: int) -> Seq<char> {
    if gap > 0 {
        seq![digit_char(gap)]
    } else {
        Seq::empty()
    }
}

/// The number of empty squares with which the first `n` files of a rank end.
pub open spec fn rank_gap(board: Seq<Option<Piece>>, rank: int, n: int) -> int
    decreases n,
{
    if n <= 0 {
        0
    } else if board[rank * 8 + n - 1] is Some {
        0
    } else {
        rank_gap(board, rank, n - 1) + 1
    }
}

/// The text for the first `n` files of a rank, up to its last piece: a letter
/// for each piece and a digit for each run of empty squares before a piece.
pub open spec fn rank_pieces(board: Seq<Option<Piece>>, rank: int, n: int) -> Seq<char>
    decreases n,
{
    if n <= 0 {
        Seq::empty()
    } else {
        match board[rank * 8 + n - 1] {
            Some(piece) => rank_pieces(board, rank, n - 1) + gap_text(rank_gap(board, rank, n - 1))
                + seq![piece.letter()],
            None => rank_pieces(board, rank, n - 1),
        }
    }
}

/// The text for the first `n` ranks of the board, with a stroke after each
/// rank but the first rank of the board, which comes last.
pub open spec fn board_text(board: Seq<Option<Piece>>, n: int) -> Seq<char>
    decreases n,
{
    if n <= 0 {
        Seq::empty()
    } else {
        board_text(board, n - 1) + rank_pieces(board, n - 1, 8) + gap_text(
            rank_gap(board, n - 1, 8),
        ) + if n - 1 != 7 {
            seq!['/']
        } else {
            Seq::empty()
        }
    }
}

/// The letters of the castling rights, a dash for none.
pub open spec fn rights_text(r: Rights) -> Seq<char> {
    let letters = (if r.white_k { seq!['K'] } else { Seq::empty() }) + (if r.white_q {
        seq!['Q']
    } else {
        Seq::empty()
    }) + (if r.black_k { seq!['k'] } else { Seq::empty() }) + (if r.black_q {
        seq!['q']
    } else {
        Seq::empty()
    });
    if letters.len() == 0 {
        seq!['-']
    } else {
        letters
    }
}

/// The text that stands for a position: the board, the side to move, the
/// castling rights, the en-passant square as the decimal number of the square
/// or a dash, and the two counters, which are always written as 0 and 1.
pub open spec fn fen_text(p: Position) -> Seq<char> {
    board_text(p.board, 8) + seq![' ', if p.white_to_move { 'w' } else { 'b' }, ' ']
        + rights_text(p.rights) + seq![' '] + (match p.en_passant {
        Some(ep) => decimal(ep),
        None => seq!['-'],
    }) + seq![' ', '0', ' ', '1']
}

fn digit_of(n: u16) -> (c: char)
    requires
        n < 10,
    ensures
        c == digit_char(n as int),
{
    (48u8 + n as u8) as char
}

impl ChessBoard {
    /// Appends the text for one rank of the board.
    fn push_rank(&self, rank: u16, text: &mut Vec<char>)
        requires
            rank < 8,
        ensures
            final(text)@ == old(text)@ + rank_pieces(self@.board, rank as int, 8) + gap_text(
                rank_gap(self@.board, rank as int, 8),
            ),
    {
        let mut empty: u16 = 0;
        let mut file: u16 = 0;
        while file < 8
            invariant
                rank < 8,
                file <= 8,
                empty == rank_gap(self@.board, rank as int, file as int),
                empty <= file,
                text@ == old(text)@ + rank_pieces(self@.board, rank as int, file as int),
            decreases 8 - file,
        {
            let sq = rank * 8 + file;
            proof {
                self.lemma_at(sq as int);
            }
            match self.piece_on(sq) {
                Some(piece) => {
                    if empty > 0 {
                        text.push(digit_of(empty));
                        empty = 0;
                    }
                    text.push(piece.to_char());
                },
                None => {
                    empty += 1;
                },
            }
            file += 1;
            proof {
                assert(text@ =~= old(text)@ + rank_pieces(self@.board, rank as int, file as int));
            }
        }
        if empty > 0 {
            text.push(digit_of(empty));
        }
        proof {
            assert(text@ =~= old(text)@ + rank_pieces(self@.board, rank as int, 8) + gap_text(
                rank_gap(self@.board, rank as int, 8),
            ));
        }
    }

    /// Appends the letters of the castling rights, a dash for none.
    fn push_rights(&self, text: &mut Vec<char>)
        ensures
            final(text)@ == old(text)@ + rights_text(self@.rights),
    {
        let ghost start = text@.len();
        let flags = self.castling_rights;
        let mut any = false;
        if flags & castling::WHITE_K != 0 {
            text.push('K');
            any = true;
        }
        if flags & castling::WHITE_Q != 0 {
            text.push('Q');
            any = true;
        }
        if flags & castling::BLACK_K != 0 {
            text.push('k');
            any = true;
        }
        if flags & castling::BLACK_Q != 0 {
            text.push('q');
            any = true;
        }
        if !any {
            text.push('-');
        }
        proof {
            assert(text@ =~= old(text)@ + rights_text(self@.rights));
        }
    }

    /// Appends the text for the board.
    fn push_board(&self, text: &mut Vec<char>)
        ensures
            final(text)@ == old(text)@ + board_text(self@.board, 8),
    {
        let mut rank: u16 = 0;
        proof {
            assert(text@ =~= old(text)@ + board_text(self@.board, 0));
        }
        while rank < 8
            invariant
                rank <= 8,
                text@ == old(text)@ + board_text(self@.board, rank as int),
            decreases 8 - rank,
        {
            self.push_rank(rank, text);
            if rank != 7 {
                text.push('/');
            }
            rank += 1;
            proof {
                assert(text@ =~= old(text)@ + board_text(self@.board, rank as int));
            }
        }
    }

    /// Appends the number of the en-passant square, a dash for none.
    fn push_en_passant(&self, text: &mut Vec<char>)
        ensures
            final(text)@ == old(text)@ + match self@.en_passant {
                Some(ep) => decimal(ep),
                None => seq!['-'],
            },
    {
        if self.en_passant < 64 {
            if self.en_passant < 10 {
                text.push(digit_of(self.en_passant));
            } else {
                text.push(digit_of(self.en_passant / 10));
                text.push(digit_of(self.en_passant % 10));
            }
            proof {
                assert(text@ =~= old(text)@ + decimal(self.en_passant as int));
            }
        } else {
            text.push('-');
            proof {
                assert(text@ =~= old(text)@ + seq!['-']);
            }
        }
    }

    /// The position as a text: the board, the side to move, the castling
    /// rights, the en-passant square as the decimal number of the square or a
    /// dash, and the two counters, always written as 0 and 1.
    pub fn to_fen(&self) -> (r: String)
        ensures
            r@ == fen_text(self@),
    {
        let mut text: Vec<char> = Vec::new();
        self.push_board(&mut text);
        let ghost board_part = text@;
        text.push(' ');
        text.push(if self.white_to_move { 'w' } else { 'b' });
        text.push(' ');
        let ghost side_part = text@;
        proof {
            assert(side_part =~= board_text(self@.board, 8) + seq![
                ' ',
                if self@.white_to_move { 'w' } else { 'b' },
                ' ',
            ]);
        }
        self.push_rights(&mut text);
        text.push(' ');
        let ghost rights_part = text@;
        proof {
            assert(rights_part =~= side_part + rights_text(self@.rights) + seq![' ']);
        }
        self.push_en_passant(&mut text);
        let ghost square_part = text@;
        text.push(' ');
        text.push('0');
        text.push(' ');
        text.push('1');
        proof {
            assert(text@ =~= square_part + seq![' ', '0', ' ', '1']);
        }
        crate::text::string_of(&text)
    }
}

} // verus!
