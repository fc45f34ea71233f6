//! The squares that each kind of piece reaches from a square.
//!
//! These are questions of geometry and occupancy alone: whether the piece on
//! the far square is friend or foe is the move generator's business.

use vstd::prelude::*;
use crate::bitboard::Bitboard;
use crate::board::ChessBoard;
use crate::interface::abs_diff_u16;
use crate::piece::Piece;
use crate::position::{file_of, king_of, on_board, rank_of, Position};

verus! {

/// Whether the point `(r1, f1)` lies from `(r0, f0)` in the direction
/// `(dr, df)`, any number of steps away but at least one. Each of `dr` and
/// `df` is -1, 0 or 1.
pub open spec fn along(r0: int, f0: int, r1: int, f1: int, dr: int, df: int) -> bool {
    let vr = r1 - r0;
    let vf = f1 - f0;
    &&& dr == 0 ==> vr == 0
    &&& dr > 0 ==> vr > 0
    &&& dr < 0 ==> vr < 0
    &&& df == 0 ==> vf == 0
    &&& df > 0 ==> vf > 0
    &&& df < 0 ==> vf < 0
    &&& dr != 0 && df != 0 ==> (vr == vf || vr == -vf)
}

/// Whether square `b` lies from square `a` in the direction `(dr, df)`.
pub open spec fn ahead(a: int, b: int, dr: int, df: int) -> bool {
    &&& on_board(a)
    &&& on_board(b)
    &&& along(rank_of(a), file_of(a), rank_of(b), file_of(b), dr, df)
}

/// Whether a piece that slides from `from` in the direction `(dr, df)`
/// reaches `to`: `to` lies in that direction and no square between the two is
/// occupied. The first occupied square is reached; nothing behind it is.
pub open spec fn slides(occ: Set<int>, from: int, to: int, dr: int, df: int) -> bool {
    &&& ahead(from, to, dr, df)
    &&& forall|mid: int| #[trigger]
        ahead(from, mid, dr, df) && ahead(mid, to, dr, df) ==> !occ.contains(mid)
}

pub open spec fn rook_reaches(occ: Set<int>, from: int, to: int) -> bool {
    ||| slides(occ, from, to, 0, 1)
    ||| slides(occ, from, to, 0, -1)
    ||| slides(occ, from, to, -1, 0)
    ||| slides(occ, from, to, 1, 0)
}

pub open spec fn bishop_reaches(occ: Set<int>, from: int, to: int) -> bool {
    ||| slides(occ, from, to, -1, 1)
    ||| slides(occ, from, to, 1, 1)
    ||| slides(occ, from, to, -1, -1)
    ||| slides(occ, from, to, 1, -1)
}

pub open spec fn queen_reaches(occ: Set<int>, from: int, to: int) -> bool {
    bishop_reaches(occ, from, to) || rook_reaches(occ, from, to)
}

pub open spec fn distance(a: int, b: int) -> int {
    if a >= b {
        a - b
    } else {
        b - a
    }
}

/// A knight's leap: one rank and two files away, or two ranks and one file.
pub open spec fn knight_reaches(from: int, to: int) -> bool {
    let vr = distance(rank_of(from), rank_of(to));
    let vf = distance(file_of(from), file_of(to));
    &&& on_board(from)
    &&& on_board(to)
    &&& (vr == 1 && vf == 2) || (vr == 2 && vf == 1)
}

/// A king's step: one of the eight neighbouring squares.
pub open spec fn king_reaches(from: int, to: int) -> bool {
    &&& on_board(from)
    &&& on_board(to)
    &&& from != to
    &&& distance(rank_of(from), rank_of(to)) <= 1
    &&& distance(file_of(from), file_of(to)) <= 1
}

/// The two squares on which a pawn captures: one rank forward, one file aside.
pub open spec fn pawn_attacks(white: bool, from: int, to: int) -> bool {
    &&& on_board(from)
    &&& on_board(to)
    &&& rank_of(to) == rank_of(from) + if white { -1int } else { 1int }
    &&& distance(file_of(from), file_of(to)) == 1
}

/// The squares to which a pawn advances: the next square if it is empty, and
/// from the pawn's starting rank the one after it if both are empty.
pub open spec fn pawn_pushes(occ: Set<int>, white: bool, from: int, to: int) -> bool {
    let step = if white { -8int } else { 8int };
    let home = if white { 6int } else { 1int };
    &&& on_board(from)
    &&& on_board(to)
    &&& !occ.contains(from + step)
    &&& to == from + step || (to == from + 2 * step && rank_of(from) == home && !occ.contains(to))
}

/// The squares that a piece of the given kind attacks from `from`.
pub open spec fn piece_attacks(piece: Piece, occ: Set<int>, from: int, to: int) -> bool {
    match piece {
        Piece::WhitePawn => pawn_attacks(true, from, to),
        Piece::BlackPawn => pawn_attacks(false, from, to),
        Piece::WhiteBishop | Piece::BlackBishop => bishop_reaches(occ, from, to),
        Piece::WhiteKnight | Piece::BlackKnight => knight_reaches(from, to),
        Piece::WhiteRook | Piece::BlackRook => rook_reaches(occ, from, to),
        Piece::WhiteKing | Piece::BlackKing => king_reaches(from, to),
        Piece::WhiteQueen | Piece::BlackQueen => queen_reaches(occ, from, to),
    }
}

impl Position {
    /// The squares on which a piece stands.
    pub open spec fn occupancy(self) -> Set<int> {
        Set::new(|sq: int| self.occupied(sq))
    }

    /// Whether some piece of the given colour attacks the square.
    pub open spec fn attacked_by(self, white: bool, to: int) -> bool {
        exists|from: int| #[trigger]
            self.has_colour(white, from) && piece_attacks(
                self.at(from).unwrap(),
                self.occupancy(),
                from,
                to,
            )
    }

    /// Whether a given piece attacks the square from some square that it
    /// stands on and that is not among `skipped`.
    pub open spec fn attacked_by_piece(self, piece: Piece, skipped: Set<int>, to: int) -> bool {
        exists|from: int| #[trigger]
            self.at(from) == Some(piece) && !skipped.contains(from) && piece_attacks(
                piece,
                self.occupancy(),
                from,
                to,
            )
    }

    /// Whether the king of the given colour stands attacked.
    pub open spec fn in_check(self, white: bool) -> bool {
        exists|sq: int| #[trigger]
            self.at(sq) == Some(king_of(white)) && self.attacked_by(!white, sq)
    }
}

/// The facts about one square `(r, f)` on the ray from `from` that carry the
/// walk along the ray one step further.
proof fn lemma_ray_step(occ: Set<int>, from: int, r: int, f: int, dr: int, df: int)
    requires
        on_board(from),
        -1 <= dr <= 1,
        -1 <= df <= 1,
        dr != 0 || df != 0,
        0 <= r < 8,
        0 <= f < 8,
        along(rank_of(from), file_of(from), r, f, dr, df),
        forall|mid: int| #[trigger]
            ahead(from, mid, dr, df) && along(rank_of(mid), file_of(mid), r, f, dr, df)
                ==> !occ.contains(mid),
    ensures
        slides(occ, from, r * 8 + f, dr, df),
        forall|to: int| #[trigger]
            ahead(from, to, dr, df) ==> (along(rank_of(to), file_of(to), r + dr, f + df, dr, df)
                <==> (to == r * 8 + f || along(rank_of(to), file_of(to), r, f, dr, df))),
        forall|to: int| #[trigger]
            ahead(from, to, dr, df) ==> (to == r * 8 + f || along(
                rank_of(to),
                file_of(to),
                r,
                f,
                dr,
                df,
            ) || ahead(r * 8 + f, to, dr, df)),
        occ.contains(r * 8 + f) ==> forall|to: int| #[trigger]
            ahead(from, to, dr, df) && ahead(r * 8 + f, to, dr, df) ==> !slides(
                occ,
                from,
                to,
                dr,
                df,
            ),
{
    let sq = r * 8 + f;
    assert(rank_of(sq) == r && file_of(sq) == f);
    assert(ahead(from, sq, dr, df));
    assert forall|mid: int| #[trigger]
        ahead(from, mid, dr, df) && ahead(mid, sq, dr, df) implies !occ.contains(mid) by {}
    assert forall|to: int| #[trigger] ahead(from, to, dr, df) implies (along(
        rank_of(to),
        file_of(to),
        r + dr,
        f + df,
        dr,
        df,
    ) <==> (to == sq || along(rank_of(to), file_of(to), r, f, dr, df))) by {
        assert(to == rank_of(to) * 8 + file_of(to));
    }
    assert forall|to: int| #[trigger] ahead(from, to, dr, df) implies (to == sq || along(
        rank_of(to),
        file_of(to),
        r,
        f,
        dr,
        df,
    ) || ahead(sq, to, dr, df)) by {
        assert(to == rank_of(to) * 8 + file_of(to));
    }
}

/// Past the edge of the board, every square of the ray lies behind.
proof fn lemma_ray_end(from: int, r: int, f: int, dr: int, df: int)
    requires
        on_board(from),
        -1 <= dr <= 1,
        -1 <= df <= 1,
        dr != 0 || df != 0,
        !(0 <= r < 8 && 0 <= f < 8),
        along(rank_of(from), file_of(from), r, f, dr, df),
    ensures
        forall|to: int| #[trigger]
            ahead(from, to, dr, df) ==> along(rank_of(to), file_of(to), r, f, dr, df),
{
}

/// The squares that a slider reaches from `from` in one direction.
fn ray_mask(occ: Bitboard, from: u16, dr: i8, df: i8) -> (mask: Bitboard)
    requires
        from < 64,
        -1 <= dr <= 1,
        -1 <= df <= 1,
        dr != 0 || df != 0,
    ensures
        forall|to: int| #[trigger] mask.has(to) == slides(occ@, from as int, to, dr as int, df as int),
{
    let mut mask = Bitboard::new(0);
    let r0: i8 = (from / 8) as i8;
    let f0: i8 = (from % 8) as i8;
    let mut r: i8 = r0 + dr;
    let mut f: i8 = f0 + df;
    proof {
        assert forall|to: int| !#[trigger] mask.has(to) by {
            crate::bitboard::lemma_bit_of_zero(to);
        }
    }
    loop
        invariant_except_break
            along(r0 as int, f0 as int, r as int, f as int, dr as int, df as int),
            forall|to: int| #[trigger]
                mask.has(to) == (slides(occ@, from as int, to, dr as int, df as int) && along(
                    rank_of(to),
                    file_of(to),
                    r as int,
                    f as int,
                    dr as int,
                    df as int,
                )),
            forall|mid: int| #[trigger]
                ahead(from as int, mid, dr as int, df as int) && along(
                    rank_of(mid),
                    file_of(mid),
                    r as int,
                    f as int,
                    dr as int,
                    df as int,
                ) ==> !occ@.contains(mid),
        invariant
            from < 64,
            r0 == from / 8,
            f0 == from % 8,
            -1 <= dr <= 1,
            -1 <= df <= 1,
            dr != 0 || df != 0,
            -1 <= r <= 8,
            -1 <= f <= 8,
        ensures
            forall|to: int| #[trigger]
                mask.has(to) == slides(occ@, from as int, to, dr as int, df as int),
        decreases
                if dr != 0 {
                    if dr > 0 {
                        8 - r
                    } else {
                        r + 1
                    }
                } else {
                    if df > 0 {
                        8 - f
                    } else {
                        f + 1
                    }
                },
    {
        if !(0 <= r && r < 8 && 0 <= f && f < 8) {
            proof {
                lemma_ray_end(from as int, r as int, f as int, dr as int, df as int);
            }
            break ;
        }
        let sq: u16 = (r * 8 + f) as u16;
        proof {
            lemma_ray_step(occ@, from as int, r as int, f as int, dr as int, df as int);
        }
        mask.set_bit(sq);
        if occ.get_bit(sq) {
            break ;
        }
        r = r + dr;
        f = f + df;
    }
    mask
}

/// Adds to `mask` the square `offset` away from `from`, unless it lies off
/// the board or more than `reach` files away: a step that runs over the edge
/// of the board comes out on a far file.
fn leap(mask: &mut Bitboard, from: u16, offset: i16, reach: u16)
    requires
        from < 64,
        -64 < offset < 64,
    ensures
        forall|to: int| #[trigger]
            final(mask).has(to) == (old(mask).has(to) || (to == from + offset && on_board(to)
                && distance(file_of(to), file_of(from as int)) <= reach)),
{
    let dest: i16 = from as i16 + offset;
    if 0 <= dest && dest < 64 {
        let dest_index = dest as u16;
        if abs_diff_u16(dest_index & 0b111, from & 0b111) <= reach {
            assert(dest_index & 0b111 == dest_index % 8 && from & 0b111 == from % 8)
                by (bit_vector);
            mask.set_bit(dest_index);
        } else {
            assert(dest_index & 0b111 == dest_index % 8 && from & 0b111 == from % 8)
                by (bit_vector);
        }
    }
}

impl ChessBoard {
    /// The squares to which a white pawn on `sq_index` advances.
    pub fn calc_w_pawn_movemask(&self, sq_index: u16) -> (r: Bitboard)
        requires
            sq_index < 64,
        ensures
            forall|to: int| #[trigger]
                r.has(to) == pawn_pushes(self@.occupancy(), true, sq_index as int, to),
    {
        let mut movemask = Bitboard::new(0);
        let all_pieces = self.get_all_pieces();
        proof {
            assert forall|to: int| !#[trigger] movemask.has(to) by {
                crate::bitboard::lemma_bit_of_zero(to);
            }
        }
        if sq_index >= 8 && !all_pieces.get_bit(sq_index - 8) {
            movemask.set_bit(sq_index - 8);
            if sq_index / 8 == 6 && !all_pieces.get_bit(sq_index - 16) {
                movemask.set_bit(sq_index - 16);
            }
        }
        proof {
            assert(self@.occupancy().contains(sq_index - 8) == all_pieces.has(sq_index - 8));
            assert(self@.occupancy().contains(sq_index - 16) == all_pieces.has(sq_index - 16));
        }
        movemask
    }

    /// The squares on which a white pawn on `sq_index` captures.
    pub fn calc_w_pawn_attackmask(sq_index: u16) -> (r: Bitboard)
        requires
            sq_index < 64,
        ensures
            forall|to: int| #[trigger] r.has(to) == pawn_attacks(true, sq_index as int, to),
    {
        let mut attackmask = Bitboard::new(0);
        proof {
            assert forall|to: int| !#[trigger] attackmask.has(to) by {
                crate::bitboard::lemma_bit_of_zero(to);
            }
        }
        leap(&mut attackmask, sq_index, -7, 1);
        leap(&mut attackmask, sq_index, -9, 1);
        attackmask
    }

    /// The squares to which a black pawn on `sq_index` advances.
    pub fn calc_b_pawn_movemask(&self, sq_index: u16) -> (r: Bitboard)
        requires
            sq_index < 64,
        ensures
            forall|to: int| #[trigger]
                r.has(to) == pawn_pushes(self@.occupancy(), false, sq_index as int, to),
    {
        let mut movemask = Bitboard::new(0);
        let all_pieces = self.get_all_pieces();
        proof {
            assert forall|to: int| !#[trigger] movemask.has(to) by {
                crate::bitboard::lemma_bit_of_zero(to);
            }
        }
        if sq_index < 56 && !all_pieces.get_bit(sq_index + 8) {
            movemask.set_bit(sq_index + 8);
            if sq_index / 8 == 1 && !all_pieces.get_bit(sq_index + 16) {
                movemask.set_bit(sq_index + 16);
            }
        }
        proof {
            assert(self@.occupancy().contains(sq_index + 8) == all_pieces.has(sq_index + 8));
            assert(self@.occupancy().contains(sq_index + 16) == all_pieces.has(sq_index + 16));
        }
        movemask
    }

    /// The squares on which a black pawn on `sq_index` captures.
    pub fn calc_b_pawn_attackmask(sq_index: u16) -> (r: Bitboard)
        requires
            sq_index < 64,
        ensures
            forall|to: int| #[trigger] r.has(to) == pawn_attacks(false, sq_index as int, to),
    {
        let mut attackmask = Bitboard::new(0);
        proof {
            assert forall|to: int| !#[trigger] attackmask.has(to) by {
                crate::bitboard::lemma_bit_of_zero(to);
            }
        }
        leap(&mut attackmask, sq_index, 9, 1);
        leap(&mut attackmask, sq_index, 7, 1);
        attackmask
    }

    /// The squares that a knight on `sq_index` reaches.
    pub fn calc_knight_attackmask(sq_index: u16) -> (r: Bitboard)
        requires
            sq_index < 64,
        ensures
            forall|to: int| #[trigger] r.has(to) == knight_reaches(sq_index as int, to),
    {
        let mut attackmask = Bitboard::new(0);
        proof {
            assert forall|to: int| !#[trigger] attackmask.has(to) by {
                crate::bitboard::lemma_bit_of_zero(to);
            }
        }
        leap(&mut attackmask, sq_index, 6, 2);
        leap(&mut attackmask, sq_index, 10, 2);
        leap(&mut attackmask, sq_index, 15, 2);
        leap(&mut attackmask, sq_index, 17, 2);
        leap(&mut attackmask, sq_index, -6, 2);
        leap(&mut attackmask, sq_index, -10, 2);
        leap(&mut attackmask, sq_index, -15, 2);
        leap(&mut attackmask, sq_index, -17, 2);
        attackmask
    }

    /// The squares that a king on `sq_index` reaches.
    pub fn calc_king_attackmask(sq_index: u16) -> (r: Bitboard)
        requires
            sq_index < 64,
        ensures
            forall|to: int| #[trigger] r.has(to) == king_reaches(sq_index as int, to),
    {
        let mut attackmask = Bitboard::new(0);
        proof {
            assert forall|to: int| !#[trigger] attackmask.has(to) by {
                crate::bitboard::lemma_bit_of_zero(to);
            }
        }
        leap(&mut attackmask, sq_index, 1, 1);
        leap(&mut attackmask, sq_index, 7, 1);
        leap(&mut attackmask, sq_index, 8, 1);
        leap(&mut attackmask, sq_index, 9, 1);
        leap(&mut attackmask, sq_index, -1, 1);
        leap(&mut attackmask, sq_index, -7, 1);
        leap(&mut attackmask, sq_index, -8, 1);
        leap(&mut attackmask, sq_index, -9, 1);
        attackmask
    }
}

/// The squares that a bishop reaches from `from` over the occupancy `occ`.
fn bishop_mask(occ: Bitboard, from: u16) -> (r: Bitboard)
    requires
        from < 64,
    ensures
        forall|to: int| #[trigger] r.has(to) == bishop_reaches(occ@, from as int, to),
{
    ray_mask(occ, from, -1, 1).union(ray_mask(occ, from, 1, 1)).union(
        ray_mask(occ, from, -1, -1),
    ).union(ray_mask(occ, from, 1, -1))
}

/// The squares that a rook reaches from `from` over the occupancy `occ`.
fn rook_mask(occ: Bitboard, from: u16) -> (r: Bitboard)
    requires
        from < 64,
    ensures
        forall|to: int| #[trigger] r.has(to) == rook_reaches(occ@, from as int, to),
{
    ray_mask(occ, from, 0, 1).union(ray_mask(occ, from, 0, -1)).union(
        ray_mask(occ, from, -1, 0),
    ).union(ray_mask(occ, from, 1, 0))
}

impl ChessBoard {
    /// The squares that a bishop on `sq_index` reaches on this board.
    pub fn calc_bishop_attackmask(&self, sq_index: u16) -> (r: Bitboard)
        requires
            sq_index < 64,
        ensures
            forall|to: int| #[trigger]
                r.has(to) == bishop_reaches(self@.occupancy(), sq_index as int, to),
    {
        let occ = self.get_all_pieces();
        assert(occ@ =~= self@.occupancy());
        bishop_mask(occ, sq_index)
    }

    /// The squares that a rook on `sq_index` reaches on this board.
    pub fn calc_rook_attackmask(&self, sq_index: u16) -> (r: Bitboard)
        requires
            sq_index < 64,
        ensures
            forall|to: int| #[trigger]
                r.has(to) == rook_reaches(self@.occupancy(), sq_index as int, to),
    {
        let occ = self.get_all_pieces();
        assert(occ@ =~= self@.occupancy());
        rook_mask(occ, sq_index)
    }

    /// The squares that a queen on `sq_index` reaches on this board.
    pub fn calc_queen_attackmask(&self, sq_index: u16) -> (r: Bitboard)
        requires
            sq_index < 64,
        ensures
            forall|to: int| #[trigger]
                r.has(to) == queen_reaches(self@.occupancy(), sq_index as int, to),
    {
        self.calc_bishop_attackmask(sq_index).union(self.calc_rook_attackmask(sq_index))
    }
}


/// The squares that a piece of the given kind attacks from `from` over the
/// occupancy `occ`.
pub(crate) fn attack_mask(piece: Piece, occ: Bitboard, from: u16) -> (r: Bitboard)
    requires
        from < 64,
    ensures
        forall|to: int| #[trigger] r.has(to) == piece_attacks(piece, occ@, from as int, to),
{
    match piece {
        Piece::WhitePawn => ChessBoard::calc_w_pawn_attackmask(from),
        Piece::BlackPawn => ChessBoard::calc_b_pawn_attackmask(from),
        Piece::WhiteBishop | Piece::BlackBishop => bishop_mask(occ, from),
        Piece::WhiteKnight | Piece::BlackKnight => ChessBoard::calc_knight_attackmask(from),
        Piece::WhiteRook | Piece::BlackRook => rook_mask(occ, from),
        Piece::WhiteKing | Piece::BlackKing => ChessBoard::calc_king_attackmask(from),
        Piece::WhiteQueen | Piece::BlackQueen => bishop_mask(occ, from).union(
            rook_mask(occ, from),
        ),
    }
}

/// Taking one more square of a piece into account adds what the piece attacks from there.
proof fn lemma_attacked_by_piece_step(
    p: Position,
    piece: Piece,
    skipped: Set<int>,
    sq: int,
    to: int,
)
    requires
        p.at(sq) == Some(piece),
    ensures
        p.attacked_by_piece(piece, skipped.remove(sq), to) == (p.attacked_by_piece(
            piece,
            skipped,
            to,
        ) || piece_attacks(piece, p.occupancy(), sq, to)),
{
    if p.attacked_by_piece(piece, skipped.remove(sq), to) {
        let w = choose|from: int| #[trigger]
            p.at(from) == Some(piece) && !skipped.remove(sq).contains(from) && piece_attacks(
                piece,
                p.occupancy(),
                from,
                to,
            );
        if w != sq {
            assert(p.at(w) == Some(piece) && !skipped.contains(w));
        }
    }
    if p.attacked_by_piece(piece, skipped, to) {
        let w = choose|from: int| #[trigger]
            p.at(from) == Some(piece) && !skipped.contains(from) && piece_attacks(
                piece,
                p.occupancy(),
                from,
                to,
            );
        assert(p.at(w) == Some(piece) && !skipped.remove(sq).contains(w));
    }
    if piece_attacks(piece, p.occupancy(), sq, to) {
        assert(p.at(sq) == Some(piece) && !skipped.remove(sq).contains(sq));
    }
}

/// What one kind of piece attacks, its colour attacks.
proof fn lemma_attacked_by_one_kind(p: Position, piece: Piece, to: int)
    ensures
        p.attacked_by_piece(piece, Set::empty(), to) ==> p.attacked_by(piece.is_white(), to),
{
    let none = Set::<int>::empty();
    if p.attacked_by_piece(piece, none, to) {
        let w = choose|from: int| #[trigger]
            p.at(from) == Some(piece) && !none.contains(from) && piece_attacks(
                piece,
                p.occupancy(),
                from,
                to,
            );
        assert(p.has_colour(piece.is_white(), w));
    }
}

/// A square is attacked by a colour exactly when one of its six kinds of piece attacks it.
pub proof fn lemma_attacked_by_kinds(p: Position, white: bool, to: int)
    ensures
        p.attacked_by(white, to) == {
            let shift = if white { 0int } else { 6int };
            ||| p.attacked_by_piece(Piece::at(shift), Set::empty(), to)
            ||| p.attacked_by_piece(Piece::at(shift + 1), Set::empty(), to)
            ||| p.attacked_by_piece(Piece::at(shift + 2), Set::empty(), to)
            ||| p.attacked_by_piece(Piece::at(shift + 3), Set::empty(), to)
            ||| p.attacked_by_piece(Piece::at(shift + 4), Set::empty(), to)
            ||| p.attacked_by_piece(Piece::at(shift + 5), Set::empty(), to)
        },
{
    let shift = if white { 0int } else { 6int };
    let none = Set::<int>::empty();
    if p.attacked_by(white, to) {
        let w = choose|from: int| #[trigger]
            p.has_colour(white, from) && piece_attacks(
                p.at(from).unwrap(),
                p.occupancy(),
                from,
                to,
            );
        let piece = p.at(w).unwrap();
        assert(p.at(w) == Some(piece) && !none.contains(w));
        assert(p.attacked_by_piece(piece, none, to));
        assert(piece == Piece::at(piece.index()));
    }
    lemma_attacked_by_one_kind(p, Piece::at(shift), to);
    lemma_attacked_by_one_kind(p, Piece::at(shift + 1), to);
    lemma_attacked_by_one_kind(p, Piece::at(shift + 2), to);
    lemma_attacked_by_one_kind(p, Piece::at(shift + 3), to);
    lemma_attacked_by_one_kind(p, Piece::at(shift + 4), to);
    lemma_attacked_by_one_kind(p, Piece::at(shift + 5), to);
}

impl ChessBoard {
    /// Adds to `acc` the squares that the pieces of one kind attack.
    fn add_attacks(&self, acc: &mut Bitboard, piece: Piece, occ: Bitboard)
        requires
            self.disjoint(),
            occ@ == self@.occupancy(),
        ensures
            forall|to: int| #[trigger]
                final(acc).has(to) == (old(acc).has(to) || self@.attacked_by_piece(
                    piece,
                    Set::empty(),
                    to,
                )),
    {
        let index = piece.to_index();
        let mut it = self.bitboards[index].iter();
        proof {
            assert forall|sq: int| #[trigger] it.has(sq) implies self@.at(sq) == Some(piece) by {
                self.lemma_piece_at(index as int, sq);
            }
            assert forall|to: int| !self@.attacked_by_piece(piece, it@, to) by {
                if self@.attacked_by_piece(piece, it@, to) {
                    let w = choose|from: int| #[trigger]
                        self@.at(from) == Some(piece) && !it@.contains(from) && piece_attacks(
                            piece,
                            self@.occupancy(),
                            from,
                            to,
                        );
                    self.lemma_piece_at(index as int, w);
                }
            }
        }
        loop
            invariant_except_break
                forall|sq: int| #[trigger] it.has(sq) ==> self@.at(sq) == Some(piece),
                forall|to: int| #[trigger]
                    acc.has(to) == (old(acc).has(to) || self@.attacked_by_piece(piece, it@, to)),
            invariant
                self.disjoint(),
                occ@ == self@.occupancy(),
                index == piece.index(),
            ensures
                forall|to: int| #[trigger]
                    acc.has(to) == (old(acc).has(to) || self@.attacked_by_piece(
                        piece,
                        Set::empty(),
                        to,
                    )),
            decreases it.bits,
        {
            let ghost before = it;
            let ghost acc_before = *acc;
            match it.next() {
                None => {
                    proof {
                        assert(it@ =~= Set::<int>::empty());
                    }
                    break ;
                },
                Some(sq) => {
                    let mask = attack_mask(piece, occ, sq);
                    *acc = acc.union(mask);
                    proof {
                        assert forall|to: int| #[trigger]
                            acc.has(to) == (old(acc).has(to) || self@.attacked_by_piece(
                                piece,
                                it@,
                                to,
                            )) by {
                            lemma_attacked_by_piece_step(self@, piece, before@, sq as int, to);
                        }
                    }
                },
            }
        }
    }

    /// The squares that White attacks: those on which a black piece could be
    /// captured if it stood there.
    pub fn calc_w_attackmask(&self) -> (r: Bitboard)
        requires
            self.disjoint(),
        ensures
            forall|to: int| #[trigger] r.has(to) == self@.attacked_by(true, to),
    {
        let occ = self.get_all_pieces();
        assert(occ@ =~= self@.occupancy());
        let mut attackmask = Bitboard::new(0);
        proof {
            assert forall|to: int| !#[trigger] attackmask.has(to) by {
                crate::bitboard::lemma_bit_of_zero(to);
            }
        }
        self.add_attacks(&mut attackmask, Piece::WhitePawn, occ);
        self.add_attacks(&mut attackmask, Piece::WhiteBishop, occ);
        self.add_attacks(&mut attackmask, Piece::WhiteKnight, occ);
        self.add_attacks(&mut attackmask, Piece::WhiteRook, occ);
        self.add_attacks(&mut attackmask, Piece::WhiteQueen, occ);
        self.add_attacks(&mut attackmask, Piece::WhiteKing, occ);
        proof {
            assert forall|to: int| #[trigger] attackmask.has(to) == self@.attacked_by(
                true,
                to,
            ) by {
                lemma_attacked_by_kinds(self@, true, to);
            }
        }
        attackmask
    }

    /// The squares that Black attacks.
    pub fn calc_b_attackmask(&self) -> (r: Bitboard)
        requires
            self.disjoint(),
        ensures
            forall|to: int| #[trigger] r.has(to) == self@.attacked_by(false, to),
    {
        let occ = self.get_all_pieces();
        assert(occ@ =~= self@.occupancy());
        let mut attackmask = Bitboard::new(0);
        proof {
            assert forall|to: int| !#[trigger] attackmask.has(to) by {
                crate::bitboard::lemma_bit_of_zero(to);
            }
        }
        self.add_attacks(&mut attackmask, Piece::BlackPawn, occ);
        self.add_attacks(&mut attackmask, Piece::BlackBishop, occ);
        self.add_attacks(&mut attackmask, Piece::BlackKnight, occ);
        self.add_attacks(&mut attackmask, Piece::BlackRook, occ);
        self.add_attacks(&mut attackmask, Piece::BlackQueen, occ);
        self.add_attacks(&mut attackmask, Piece::BlackKing, occ);
        proof {
            assert forall|to: int| #[trigger] attackmask.has(to) == self@.attacked_by(
                false,
                to,
            ) by {
                lemma_attacked_by_kinds(self@, false, to);
            }
        }
        attackmask
    }

    /// Whether the king of the given colour stands attacked.
    pub fn king_attacked(&self, white: bool) -> (r: bool)
        requires
            self.disjoint(),
        ensures
            r == self@.in_check(white),
    {
        let king = if white {
            self.bitboards[4]
        } else {
            self.bitboards[10]
        };
        let attackmask = if white {
            self.calc_b_attackmask()
        } else {
            self.calc_w_attackmask()
        };
        let hit = king.intersect(attackmask);
        proof {
            let index = if white { 4int } else { 10int };
            if self@.in_check(white) {
                let sq = choose|sq: int| #[trigger]
                    self@.at(sq) == Some(king_of(white)) && self@.attacked_by(
                        !white,
                        sq,
                    );
                self.lemma_piece_at(index, sq);
                assert(hit.has(sq));
            }
            if exists|sq: int| hit.has(sq) {
                let sq = choose|sq: int| hit.has(sq);
                self.lemma_piece_at(index, sq);
                assert(self@.at(sq) == Some(king_of(white)));
            }
        }
        !hit.is_empty()
    }
}

} // verus!
