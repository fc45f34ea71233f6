//! The moves of a position: what each piece may do by the rules of movement,
//! and which of those moves leave the mover's king safe.

use vstd::prelude::*;
use crate::bitboard::Bitboard;
use crate::board::ChessBoard;
use crate::castling;
use crate::chessmove::{CastleMove, ChessMove};
use crate::movemasks::{distance, king_reaches, pawn_attacks, pawn_pushes, piece_attacks};
use crate::piece::Piece;
use crate::position::{file_of, king_of, on_board, pawn_of, promotion_piece, rank_of, Position};

verus! {

/// The move from `from` to `to` under the promotion tag `tag`.
pub open spec fn packed(from: int, to: int, tag: int) -> ChessMove {
    ChessMove((tag * 4096 + from * 64 + to) as u16)
}

/// The moves that take a piece from `from` onto `to`: one plain move, or in
/// place of it the four promotions, to knight, bishop, rook and queen.
pub open spec fn moves_onto(from: int, to: int, promote: bool) -> Seq<ChessMove> {
    if promote {
        seq![packed(from, to, 1), packed(from, to, 2), packed(from, to, 4), packed(from, to, 8)]
    } else {
        seq![packed(from, to, 0)]
    }
}

/// The moves from `from` onto the squares of `targets` below `n`, lowest
/// square first. A move onto the rank `last_rank` promotes.
pub open spec fn moves_to(from: int, targets: Set<int>, last_rank: int, n: int) -> Seq<ChessMove>
    decreases n,
{
    if n <= 0 {
        Seq::empty()
    } else {
        moves_to(from, targets, last_rank, n - 1) + if targets.contains(n - 1) {
            moves_onto(from, n - 1, rank_of(n - 1) == last_rank)
        } else {
            Seq::empty()
        }
    }
}

/// Squares that hold no target add no move.
pub proof fn lemma_moves_to_gap(from: int, targets: Set<int>, last_rank: int, lo: int, hi: int)
    requires
        0 <= lo <= hi,
        forall|sq: int| lo <= sq < hi ==> !targets.contains(sq),
    ensures
        moves_to(from, targets, last_rank, hi) == moves_to(from, targets, last_rank, lo),
    decreases hi - lo,
{
    if lo < hi {
        lemma_moves_to_gap(from, targets, last_rank, lo, hi - 1);
        assert(moves_to(from, targets, last_rank, hi) =~= moves_to(
            from,
            targets,
            last_rank,
            hi - 1,
        ));
    }
}

/// A packed move holds the two squares and the tag that it was made of.
pub proof fn lemma_packed_squares(from: int, to: int, tag: int)
    requires
        0 <= from < 64,
        0 <= to < 64,
        0 <= tag < 16,
    ensures
        packed(from, to, tag).from_sq() == from,
        packed(from, to, tag).to_sq() == to,
        packed(from, to, tag).tag() == tag,
{
    assert(packed(from, to, tag).0 == tag * 4096 + from * 64 + to);
}

/// Every move onto a set of targets starts from `from` and lands on a target.
pub proof fn lemma_moves_to_members(
    from: int,
    targets: Set<int>,
    last_rank: int,
    n: int,
    i: int,
)
    requires
        0 <= from < 64,
        0 <= n <= 64,
        0 <= i < moves_to(from, targets, last_rank, n).len(),
    ensures
        moves_to(from, targets, last_rank, n)[i].from_sq() == from,
        targets.contains(moves_to(from, targets, last_rank, n)[i].to_sq()),
        0 <= moves_to(from, targets, last_rank, n)[i].to_sq() < n,
        (rank_of(moves_to(from, targets, last_rank, n)[i].to_sq()) == last_rank) == (
        promotion_piece(true, moves_to(from, targets, last_rank, n)[i].tag())
            is Some),
    decreases n,
{
    if n > 0 {
        let rest = moves_to(from, targets, last_rank, n - 1);
        if i < rest.len() {
            lemma_moves_to_members(from, targets, last_rank, n - 1, i);
        } else {
            let to = n - 1;
            lemma_packed_squares(from, to, 0);
            lemma_packed_squares(from, to, 1);
            lemma_packed_squares(from, to, 2);
            lemma_packed_squares(from, to, 4);
            lemma_packed_squares(from, to, 8);
            let onto = moves_onto(from, to, rank_of(to) == last_rank);
            let k = i - rest.len();
            assert(moves_to(from, targets, last_rank, n)[i] == onto[k]);
        }
    }
}

/// Appends the moves from `from` onto the squares of `targets`.
fn push_moves(moves: &mut Vec<ChessMove>, from: u16, targets: Bitboard, last_rank: u16)
    requires
        from < 64,
    ensures
        final(moves)@ == old(moves)@ + moves_to(from as int, targets@, last_rank as int, 64),
{
    let mut it = targets.iter();
    let ghost mut done: int = 0;
    loop
        invariant_except_break
            0 <= done <= 64,
            forall|sq: int| #[trigger] it.has(sq) == (targets.has(sq) && sq >= done),
            moves@ == old(moves)@ + moves_to(from as int, targets@, last_rank as int, done),
        invariant
            from < 64,
        ensures
            moves@ == old(moves)@ + moves_to(from as int, targets@, last_rank as int, 64),
        decreases it.bits,
    {
        let ghost left = it;
        match it.next() {
            None => {
                proof {
                    assert forall|sq: int| done <= sq < 64 implies !targets@.contains(sq) by {
                        assert(!left.has(sq));
                    }
                    lemma_moves_to_gap(from as int, targets@, last_rank as int, done, 64);
                }
                break ;
            },
            Some(to) => {
                let ghost so_far = moves@;
                proof {
                    assert forall|sq: int| done <= sq < to implies !targets@.contains(sq) by {
                        assert(!left.has(sq));
                    }
                    lemma_moves_to_gap(from as int, targets@, last_rank as int, done, to as int);
                }
                if to / 8 == last_rank {
                    moves.push(ChessMove::new_with_curr_and_dest(64 + from, to));
                    moves.push(ChessMove::new_with_curr_and_dest(128 + from, to));
                    moves.push(ChessMove::new_with_curr_and_dest(256 + from, to));
                    moves.push(ChessMove::new_with_curr_and_dest(512 + from, to));
                } else {
                    moves.push(ChessMove::new_with_curr_and_dest(from, to));
                }
                proof {
                    done = to + 1;
                    assert(moves@ =~= so_far + moves_onto(
                        from as int,
                        to as int,
                        rank_of(to as int) == last_rank,
                    ));
                    assert(moves@ =~= old(moves)@ + moves_to(
                        from as int,
                        targets@,
                        last_rank as int,
                        done,
                    ));
                }
            },
        }
    }
}


/// The rank on which the pawns of a colour promote.
pub open spec fn last_rank_of(white: bool) -> int {
    if white {
        0
    } else {
        7
    }
}

/// The castling move that a castling flag stands for.
pub open spec fn castle_of_flag(side: u8) -> CastleMove {
    if side == castling::WHITE_K {
        CastleMove::WhiteKingside
    } else if side == castling::WHITE_Q {
        CastleMove::WhiteQueenside
    } else if side == castling::BLACK_K {
        CastleMove::BlackKingside
    } else {
        CastleMove::BlackQueenside
    }
}

impl Position {
    /// Where a knight, bishop, rook or queen on `from` may go: the squares it
    /// attacks that hold no piece of its own colour.
    pub open spec fn step_targets(self, piece: Piece, from: int) -> Set<int> {
        Set::new(
            |to: int|
                piece_attacks(piece, self.occupancy(), from, to) && !self.has_colour(
                    piece.is_white(),
                    to,
                ),
        )
    }

    /// Where a king on `from` may step: the neighbouring squares that hold no
    /// piece of its own colour and that the other side does not attack.
    pub open spec fn king_targets(self, white: bool, from: int) -> Set<int> {
        Set::new(
            |to: int|
                king_reaches(from, to) && !self.has_colour(white, to) && !self.attacked_by(
                    !white,
                    to,
                ),
        )
    }

    /// Where a pawn on `from` may advance.
    pub open spec fn push_targets(self, white: bool, from: int) -> Set<int> {
        Set::new(|to: int| pawn_pushes(self.occupancy(), white, from, to))
    }

    /// Where a pawn on `from` may capture: the squares it attacks that hold an
    /// enemy piece or are the en-passant target.
    pub open spec fn capture_targets(self, white: bool, from: int) -> Set<int> {
        Set::new(
            |to: int|
                pawn_attacks(white, from, to) && (self.has_colour(!white, to) || self.en_passant
                    == Some(to)),
        )
    }

    /// Whether a castling move is barred: the king stands in check, the right
    /// is gone, a square between king and rook is occupied, or a square that
    /// the king crosses or lands on is attacked.
    pub open spec fn castling_blocked(self, kind: CastleMove) -> bool {
        match kind {
            CastleMove::WhiteKingside => {
                ||| self.in_check(true)
                ||| !self.rights.white_k
                ||| self.occupied(61)
                ||| self.occupied(62)
                ||| self.attacked_by(false, 61)
                ||| self.attacked_by(false, 62)
            },
            CastleMove::WhiteQueenside => {
                ||| self.in_check(true)
                ||| !self.rights.white_q
                ||| self.occupied(59)
                ||| self.occupied(58)
                ||| self.occupied(57)
                ||| self.attacked_by(false, 59)
                ||| self.attacked_by(false, 58)
            },
            CastleMove::BlackKingside => {
                ||| self.in_check(false)
                ||| !self.rights.black_k
                ||| self.occupied(5)
                ||| self.occupied(6)
                ||| self.attacked_by(true, 5)
                ||| self.attacked_by(true, 6)
            },
            CastleMove::BlackQueenside => {
                ||| self.in_check(false)
                ||| !self.rights.black_q
                ||| self.occupied(3)
                ||| self.occupied(2)
                ||| self.occupied(1)
                ||| self.attacked_by(true, 3)
                ||| self.attacked_by(true, 2)
            },
        }
    }

    /// The castling moves of a colour that are not barred, kingside first.
    pub open spec fn castle_moves(self, white: bool) -> Seq<ChessMove> {
        let short = if white {
            CastleMove::WhiteKingside
        } else {
            CastleMove::BlackKingside
        };
        let long = if white {
            CastleMove::WhiteQueenside
        } else {
            CastleMove::BlackQueenside
        };
        (if self.castling_blocked(short) {
            Seq::empty()
        } else {
            seq![short.king_move()]
        }) + (if self.castling_blocked(long) {
            Seq::empty()
        } else {
            seq![long.king_move()]
        })
    }

    /// The moves of a piece that stands on `from`. A pawn advances before it
    /// captures; a king steps before it castles.
    pub open spec fn moves_from(self, piece: Piece, from: int) -> Seq<ChessMove> {
        let white = piece.is_white();
        match piece {
            Piece::WhitePawn | Piece::BlackPawn => moves_to(
                from,
                self.push_targets(white, from),
                last_rank_of(white),
                64,
            ) + moves_to(from, self.capture_targets(white, from), last_rank_of(white), 64),
            Piece::WhiteKing | Piece::BlackKing => moves_to(
                from,
                self.king_targets(white, from),
                8,
                64,
            ) + self.castle_moves(white),
            _ => moves_to(from, self.step_targets(piece, from), 8, 64),
        }
    }

    /// The moves of the pieces of one kind that stand on squares below `n`,
    /// lowest square first.
    pub open spec fn piece_moves(self, piece: Piece, n: int) -> Seq<ChessMove>
        decreases n,
    {
        if n <= 0 {
            Seq::empty()
        } else {
            self.piece_moves(piece, n - 1) + if self.at(n - 1) == Some(piece) {
                self.moves_from(piece, n - 1)
            } else {
                Seq::empty()
            }
        }
    }

    /// The moves of a colour by the rules of movement alone: pawns first, then
    /// bishops, knights, rooks, the king and queens.
    pub open spec fn side_moves(self, white: bool) -> Seq<ChessMove> {
        let shift = if white {
            0int
        } else {
            6int
        };
        self.piece_moves(Piece::at(shift), 64) + self.piece_moves(Piece::at(shift + 1), 64)
            + self.piece_moves(Piece::at(shift + 2), 64) + self.piece_moves(
            Piece::at(shift + 3),
            64,
        ) + self.piece_moves(Piece::at(shift + 4), 64) + self.piece_moves(
            Piece::at(shift + 5),
            64,
        )
    }

    /// Whether a move leaves the mover's own king unattacked.
    pub open spec fn is_safe(self, m: ChessMove) -> bool {
        !self.after(m).in_check(self.white_to_move)
    }

    /// Those of the first `n` of `moves` that leave the mover's king unattacked.
    pub open spec fn safe_among(self, moves: Seq<ChessMove>, n: int) -> Seq<ChessMove>
        decreases n,
    {
        if n <= 0 {
            Seq::empty()
        } else {
            self.safe_among(moves, n - 1) + if self.is_safe(moves[n - 1]) {
                seq![moves[n - 1]]
            } else {
                Seq::empty()
            }
        }
    }

    /// The legal moves: the moves of the side to move that leave its king unattacked.
    pub open spec fn legal_moves(self) -> Seq<ChessMove> {
        self.safe_among(
            self.side_moves(self.white_to_move),
            self.side_moves(self.white_to_move).len() as int,
        )
    }
}

/// Every move of a piece on `from` starts from `from`, or is a castling move
/// of the king that stands on its home square.
pub proof fn lemma_moves_from_origin(p: Position, piece: Piece, from: int, i: int)
    requires
        p.valid(),
        0 <= from < 64,
        p.at(from) == Some(piece),
        0 <= i < p.moves_from(piece, from).len(),
    ensures
        p.at(p.moves_from(piece, from)[i].from_sq()) == Some(piece),
{
    let white = piece.is_white();
    match piece {
        Piece::WhitePawn | Piece::BlackPawn => {
            let pushes = moves_to(from, p.push_targets(white, from), last_rank_of(white), 64);
            let captures = moves_to(from, p.capture_targets(white, from), last_rank_of(white), 64);
            if i < pushes.len() {
                lemma_moves_to_members(from, p.push_targets(white, from), last_rank_of(white), 64, i);
            } else {
                lemma_moves_to_members(
                    from,
                    p.capture_targets(white, from),
                    last_rank_of(white),
                    64,
                    i - pushes.len(),
                );
            }
        },
        Piece::WhiteKing | Piece::BlackKing => {
            let steps = moves_to(from, p.king_targets(white, from), 8, 64);
            if i < steps.len() {
                lemma_moves_to_members(from, p.king_targets(white, from), 8, 64, i);
            } else {
                assert(ChessMove(CastleMove::WHITE_K).from_sq() == 60);
                assert(ChessMove(CastleMove::WHITE_Q).from_sq() == 60);
                assert(ChessMove(CastleMove::BLACK_K).from_sq() == 4);
                assert(ChessMove(CastleMove::BLACK_Q).from_sq() == 4);
            }
        },
        _ => {
            lemma_moves_to_members(from, p.step_targets(piece, from), 8, 64, i);
        },
    }
}

/// Every move of a kind of piece starts from a square that holds such a piece.
pub proof fn lemma_piece_moves_origin(p: Position, piece: Piece, n: int, i: int)
    requires
        p.valid(),
        0 <= n <= 64,
        0 <= i < p.piece_moves(piece, n).len(),
    ensures
        p.at(p.piece_moves(piece, n)[i].from_sq()) == Some(piece),
    decreases n,
{
    if n > 0 {
        let rest = p.piece_moves(piece, n - 1);
        if i < rest.len() {
            lemma_piece_moves_origin(p, piece, n - 1, i);
        } else {
            lemma_moves_from_origin(p, piece, n - 1, i - rest.len());
        }
    }
}

/// Every move of a colour starts from a square that holds a piece of that colour.
pub proof fn lemma_side_moves_origin(p: Position, white: bool, i: int)
    requires
        p.valid(),
        0 <= i < p.side_moves(white).len(),
    ensures
        p.has_colour(white, p.side_moves(white)[i].from_sq()),
{
    let shift = if white { 0int } else { 6int };
    let a = p.piece_moves(Piece::at(shift), 64);
    let b = p.piece_moves(Piece::at(shift + 1), 64);
    let c = p.piece_moves(Piece::at(shift + 2), 64);
    let d = p.piece_moves(Piece::at(shift + 3), 64);
    let e = p.piece_moves(Piece::at(shift + 4), 64);
    let f = p.piece_moves(Piece::at(shift + 5), 64);
    if i < a.len() {
        lemma_piece_moves_origin(p, Piece::at(shift), 64, i);
    } else if i < a.len() + b.len() {
        lemma_piece_moves_origin(p, Piece::at(shift + 1), 64, i - a.len());
    } else if i < a.len() + b.len() + c.len() {
        lemma_piece_moves_origin(p, Piece::at(shift + 2), 64, i - a.len() - b.len());
    } else if i < a.len() + b.len() + c.len() + d.len() {
        lemma_piece_moves_origin(p, Piece::at(shift + 3), 64, i - a.len() - b.len() - c.len());
    } else if i < a.len() + b.len() + c.len() + d.len() + e.len() {
        lemma_piece_moves_origin(
            p,
            Piece::at(shift + 4),
            64,
            i - a.len() - b.len() - c.len() - d.len(),
        );
    } else {
        lemma_piece_moves_origin(
            p,
            Piece::at(shift + 5),
            64,
            i - a.len() - b.len() - c.len() - d.len() - e.len(),
        );
    }
}

/// Every legal move is one of the moves of the side to move and leaves its
/// king unattacked.
pub proof fn lemma_safe_among_members(p: Position, moves: Seq<ChessMove>, n: int, i: int)
    requires
        0 <= n <= moves.len(),
        0 <= i < p.safe_among(moves, n).len(),
    ensures
        p.is_safe(p.safe_among(moves, n)[i]),
        exists|k: int| 0 <= k < n && moves[k] == p.safe_among(moves, n)[i],
    decreases n,
{
    if n > 0 {
        let rest = p.safe_among(moves, n - 1);
        if i < rest.len() {
            lemma_safe_among_members(p, moves, n - 1, i);
            let k = choose|k: int| 0 <= k < n - 1 && moves[k] == rest[i];
            assert(0 <= k < n && moves[k] == p.safe_among(moves, n)[i]);
        } else {
            assert(moves[n - 1] == p.safe_among(moves, n)[i]);
        }
    }
}

/// Squares that do not hold the piece add no move.
pub proof fn lemma_piece_moves_gap(p: Position, piece: Piece, lo: int, hi: int)
    requires
        0 <= lo <= hi,
        forall|sq: int| lo <= sq < hi ==> p.at(sq) != Some(piece),
    ensures
        p.piece_moves(piece, hi) == p.piece_moves(piece, lo),
    decreases hi - lo,
{
    if lo < hi {
        lemma_piece_moves_gap(p, piece, lo, hi - 1);
        assert(p.piece_moves(piece, hi) =~= p.piece_moves(piece, hi - 1));
    }
}

impl ChessBoard {
    /// Whether a castling move is barred, given the squares that the other side attacks.
    fn castle_barred(&self, kind: CastleMove, attacked: Bitboard) -> (r: bool)
        requires
            self.disjoint(),
            forall|to: int| #[trigger]
                attacked.has(to) == self@.attacked_by(
                    match kind {
                        CastleMove::WhiteKingside | CastleMove::WhiteQueenside => false,
                        _ => true,
                    },
                    to,
                ),
        ensures
            r == self@.castling_blocked(kind),
    {
        let white = match kind {
            CastleMove::WhiteKingside | CastleMove::WhiteQueenside => true,
            _ => false,
        };
        let king = if white {
            self.bitboards[4]
        } else {
            self.bitboards[10]
        };
        let hit = king.intersect(attacked);
        let barred = self.get_all_pieces().union(attacked);
        proof {
            let index = if white { 4int } else { 10int };
            if self@.in_check(white) {
                let sq = choose|sq: int| #[trigger]
                    self@.at(sq) == Some(king_of(white)) && self@.attacked_by(!white, sq);
                self.lemma_piece_at(index, sq);
                assert(hit.has(sq));
            }
            if exists|sq: int| hit.has(sq) {
                let sq = choose|sq: int| hit.has(sq);
                self.lemma_piece_at(index, sq);
                assert(self@.at(sq) == Some(king_of(white)));
            }
            crate::board::lemma_flag_constants();
        }
        let occ = self.get_all_pieces();
        let flags = self.castling_rights;
        match kind {
            CastleMove::WhiteKingside => !hit.is_empty() || flags & castling::WHITE_K == 0
                || barred.get_bit(61) || barred.get_bit(62),
            CastleMove::WhiteQueenside => !hit.is_empty() || flags & castling::WHITE_Q == 0
                || barred.get_bit(59) || barred.get_bit(58) || occ.get_bit(57),
            CastleMove::BlackKingside => !hit.is_empty() || flags & castling::BLACK_K == 0
                || barred.get_bit(5) || barred.get_bit(6),
            CastleMove::BlackQueenside => !hit.is_empty() || flags & castling::BLACK_Q == 0
                || barred.get_bit(3) || barred.get_bit(2) || occ.get_bit(1),
        }
    }

    /// Whether the castling move that the flag `side` stands for is barred:
    /// the king stands in check, the right is gone, a square between king and
    /// rook is occupied, or a square that the king crosses or lands on is
    /// attacked.
    pub fn castling_blocked(&self, side: u8) -> (r: bool)
        requires
            self.disjoint(),
            side == castling::WHITE_K || side == castling::WHITE_Q || side == castling::BLACK_K
                || side == castling::BLACK_Q,
        ensures
            r == self@.castling_blocked(castle_of_flag(side)),
    {
        if side == castling::WHITE_K {
            let attacked = self.calc_b_attackmask();
            self.castle_barred(CastleMove::WhiteKingside, attacked)
        } else if side == castling::WHITE_Q {
            let attacked = self.calc_b_attackmask();
            self.castle_barred(CastleMove::WhiteQueenside, attacked)
        } else if side == castling::BLACK_K {
            let attacked = self.calc_w_attackmask();
            self.castle_barred(CastleMove::BlackKingside, attacked)
        } else {
            let attacked = self.calc_w_attackmask();
            self.castle_barred(CastleMove::BlackQueenside, attacked)
        }
    }
}


impl ChessBoard {
    /// Appends the moves of a piece that stands on `from`.
    fn add_moves_from(&self, piece: Piece, from: u16, moves: &mut Vec<ChessMove>)
        requires
            self.disjoint(),
            from < 64,
        ensures
            final(moves)@ == old(moves)@ + self@.moves_from(piece, from as int),
    {
        let occ = self.get_all_pieces();
        let white_pieces = self.get_w_pieces();
        let black_pieces = self.get_b_pieces();
        proof {
            assert(occ@ =~= self@.occupancy());
        }
        match piece {
            Piece::WhitePawn => {
                let pushes = self.calc_w_pawn_movemask(from);
                let aims = if self.en_passant < 64 {
                    black_pieces.union(Bitboard::single(self.en_passant))
                } else {
                    black_pieces
                };
                let captures = Self::calc_w_pawn_attackmask(from).intersect(aims);
                proof {
                    assert(pushes@ =~= self@.push_targets(true, from as int));
                    assert(captures@ =~= self@.capture_targets(true, from as int));
                }
                let ghost start = moves@;
                push_moves(moves, from, pushes, 0);
                push_moves(moves, from, captures, 0);
                proof {
                    assert(moves@ =~= start + self@.moves_from(piece, from as int));
                }
            },
            Piece::BlackPawn => {
                let pushes = self.calc_b_pawn_movemask(from);
                let aims = if self.en_passant < 64 {
                    white_pieces.union(Bitboard::single(self.en_passant))
                } else {
                    white_pieces
                };
                let captures = Self::calc_b_pawn_attackmask(from).intersect(aims);
                proof {
                    assert(pushes@ =~= self@.push_targets(false, from as int));
                    assert(captures@ =~= self@.capture_targets(false, from as int));
                }
                let ghost start = moves@;
                push_moves(moves, from, pushes, 7);
                push_moves(moves, from, captures, 7);
                proof {
                    assert(moves@ =~= start + self@.moves_from(piece, from as int));
                }
            },
            Piece::WhiteKing => {
                let attacked = self.calc_b_attackmask();
                let steps = Self::calc_king_attackmask(from).intersect(
                    white_pieces.union(attacked).complement(),
                );
                proof {
                    assert(steps@ =~= self@.king_targets(true, from as int));
                }
                let ghost start = moves@;
                push_moves(moves, from, steps, 8);
                if !self.castle_barred(CastleMove::WhiteKingside, attacked) {
                    moves.push(CastleMove::WhiteKingside.to_move());
                }
                if !self.castle_barred(CastleMove::WhiteQueenside, attacked) {
                    moves.push(CastleMove::WhiteQueenside.to_move());
                }
                proof {
                    assert(moves@ =~= start + self@.moves_from(piece, from as int));
                }
            },
            Piece::BlackKing => {
                let attacked = self.calc_w_attackmask();
                let steps = Self::calc_king_attackmask(from).intersect(
                    black_pieces.union(attacked).complement(),
                );
                proof {
                    assert(steps@ =~= self@.king_targets(false, from as int));
                }
                let ghost start = moves@;
                push_moves(moves, from, steps, 8);
                if !self.castle_barred(CastleMove::BlackKingside, attacked) {
                    moves.push(CastleMove::BlackKingside.to_move());
                }
                if !self.castle_barred(CastleMove::BlackQueenside, attacked) {
                    moves.push(CastleMove::BlackQueenside.to_move());
                }
                proof {
                    assert(moves@ =~= start + self@.moves_from(piece, from as int));
                }
            },
            Piece::WhiteBishop | Piece::WhiteKnight | Piece::WhiteRook | Piece::WhiteQueen => {
                let steps = crate::movemasks::attack_mask(piece, occ, from).intersect(
                    white_pieces.complement(),
                );
                proof {
                    assert(steps@ =~= self@.step_targets(piece, from as int));
                }
                push_moves(moves, from, steps, 8);
            },
            Piece::BlackBishop | Piece::BlackKnight | Piece::BlackRook | Piece::BlackQueen => {
                let steps = crate::movemasks::attack_mask(piece, occ, from).intersect(
                    black_pieces.complement(),
                );
                proof {
                    assert(steps@ =~= self@.step_targets(piece, from as int));
                }
                push_moves(moves, from, steps, 8);
            },
        }
    }

    /// Appends the moves of all pieces of one kind, lowest square first.
    fn add_piece_moves(&self, piece: Piece, moves: &mut Vec<ChessMove>)
        requires
            self.disjoint(),
        ensures
            final(moves)@ == old(moves)@ + self@.piece_moves(piece, 64),
    {
        let index = piece.to_index();
        let mut it = self.bitboards[index].iter();
        let ghost mut done: int = 0;
        loop
            invariant_except_break
                0 <= done <= 64,
                forall|sq: int| #[trigger] it.has(sq) == (self.bitboards[index as int].has(sq) && sq
                    >= done),
                moves@ == old(moves)@ + self@.piece_moves(piece, done),
            invariant
                self.disjoint(),
                index == piece.index(),
            ensures
                moves@ == old(moves)@ + self@.piece_moves(piece, 64),
            decreases it.bits,
        {
            let ghost left = it;
            match it.next() {
                None => {
                    proof {
                        assert forall|sq: int| done <= sq < 64 implies self@.at(sq) != Some(
                            piece,
                        ) by {
                            self.lemma_piece_at(index as int, sq);
                            assert(!left.has(sq));
                        }
                        lemma_piece_moves_gap(self@, piece, done, 64);
                    }
                    break ;
                },
                Some(from) => {
                    let ghost so_far = moves@;
                    proof {
                        assert forall|sq: int| done <= sq < from implies self@.at(sq) != Some(
                            piece,
                        ) by {
                            self.lemma_piece_at(index as int, sq);
                            assert(!left.has(sq));
                        }
                        lemma_piece_moves_gap(self@, piece, done, from as int);
                        self.lemma_piece_at(index as int, from as int);
                    }
                    self.add_moves_from(piece, from, moves);
                    proof {
                        done = from + 1;
                        assert(moves@ =~= old(moves)@ + self@.piece_moves(piece, done));
                    }
                },
            }
        }
    }

    /// The legal moves of the side to move: the moves of its pieces by the
    /// rules of movement, each tried on a copy of the position and kept only
    /// if it leaves the mover's own king unattacked.
    pub fn all_possible_moves(&self) -> (r: Vec<ChessMove>)
        requires
            self.wf(),
        ensures
            r@ == self@.legal_moves(),
            forall|i: int|
                0 <= i < r.len() ==> self@.mover_at((#[trigger] r[i]).from_sq()) && self@.is_safe(
                    r[i],
                ),
    {
        let white = self.white_to_move;
        let mut all_moves: Vec<ChessMove> = Vec::new();
        if white {
            self.add_piece_moves(Piece::WhitePawn, &mut all_moves);
            self.add_piece_moves(Piece::WhiteBishop, &mut all_moves);
            self.add_piece_moves(Piece::WhiteKnight, &mut all_moves);
            self.add_piece_moves(Piece::WhiteRook, &mut all_moves);
            self.add_piece_moves(Piece::WhiteKing, &mut all_moves);
            self.add_piece_moves(Piece::WhiteQueen, &mut all_moves);
        } else {
            self.add_piece_moves(Piece::BlackPawn, &mut all_moves);
            self.add_piece_moves(Piece::BlackBishop, &mut all_moves);
            self.add_piece_moves(Piece::BlackKnight, &mut all_moves);
            self.add_piece_moves(Piece::BlackRook, &mut all_moves);
            self.add_piece_moves(Piece::BlackKing, &mut all_moves);
            self.add_piece_moves(Piece::BlackQueen, &mut all_moves);
        }
        proof {
            assert(all_moves@ =~= self@.side_moves(white));
        }
        let mut res: Vec<ChessMove> = Vec::new();
        let mut i: usize = 0;
        while i < all_moves.len()
            invariant
                self.wf(),
                white == self.white_to_move,
                all_moves@ == self@.side_moves(white),
                i <= all_moves.len(),
                res@ == self@.safe_among(all_moves@, i as int),
                forall|k: int|
                    0 <= k < res.len() ==> self@.mover_at((#[trigger] res[k]).from_sq())
                        && self@.is_safe(res[k]),
            decreases all_moves.len() - i,
        {
            let mv = all_moves[i];
            proof {
                lemma_side_moves_origin(self@, white, i as int);
            }
            let new_board = self.with_move(mv);
            let ghost kept = res@;
            if !new_board.king_attacked(white) {
                res.push(mv);
            }
            i += 1;
            proof {
                assert(res@ =~= self@.safe_among(all_moves@, i as int));
            }
        }
        res
    }

    /// The moves of one kind of piece, in a list of their own.
    fn moves_of(&self, piece: Piece) -> (r: Vec<ChessMove>)
        requires
            self.disjoint(),
        ensures
            r@ == self@.piece_moves(piece, 64),
    {
        let mut moves: Vec<ChessMove> = Vec::new();
        self.add_piece_moves(piece, &mut moves);
        proof {
            assert(moves@ =~= self@.piece_moves(piece, 64));
        }
        moves
    }

    /// The advances and captures of the white pawns, promotions among them.
    pub fn w_pawn_moves(&self) -> (r: Vec<ChessMove>)
        requires
            self.disjoint(),
        ensures
            r@ == self@.piece_moves(Piece::WhitePawn, 64),
    {
        self.moves_of(Piece::WhitePawn)
    }

    /// The advances and captures of the black pawns, promotions among them.
    pub fn b_pawn_moves(&self) -> (r: Vec<ChessMove>)
        requires
            self.disjoint(),
        ensures
            r@ == self@.piece_moves(Piece::BlackPawn, 64),
    {
        self.moves_of(Piece::BlackPawn)
    }


    /// The moves of the white bishops onto squares that hold no white piece.
    pub fn w_bishop_moves(&self) -> (r: Vec<ChessMove>)
        requires
            self.disjoint(),
        ensures
            r@ == self@.piece_moves(Piece::WhiteBishop, 64),
    {
        self.moves_of(Piece::WhiteBishop)
    }


    /// The moves of the black bishops onto squares that hold no black piece.
    pub fn b_bishop_moves(&self) -> (r: Vec<ChessMove>)
        requires
            self.disjoint(),
        ensures
            r@ == self@.piece_moves(Piece::BlackBishop, 64),
    {
        self.moves_of(Piece::BlackBishop)
    }


    /// The moves of the white knights onto squares that hold no white piece.
    pub fn w_knight_moves(&self) -> (r: Vec<ChessMove>)
        requires
            self.disjoint(),
        ensures
            r@ == self@.piece_moves(Piece::WhiteKnight, 64),
    {
        self.moves_of(Piece::WhiteKnight)
    }


    /// The moves of the black knights onto squares that hold no black piece.
    pub fn b_knight_moves(&self) -> (r: Vec<ChessMove>)
        requires
            self.disjoint(),
        ensures
            r@ == self@.piece_moves(Piece::BlackKnight, 64),
    {
        self.moves_of(Piece::BlackKnight)
    }


    /// The moves of the white rooks onto squares that hold no white piece.
    pub fn w_rook_moves(&self) -> (r: Vec<ChessMove>)
        requires
            self.disjoint(),
        ensures
            r@ == self@.piece_moves(Piece::WhiteRook, 64),
    {
        self.moves_of(Piece::WhiteRook)
    }


    /// The moves of the black rooks onto squares that hold no black piece.
    pub fn b_rook_moves(&self) -> (r: Vec<ChessMove>)
        requires
            self.disjoint(),
        ensures
            r@ == self@.piece_moves(Piece::BlackRook, 64),
    {
        self.moves_of(Piece::BlackRook)
    }

    /// The steps of the white king onto squares that Black does not attack,
    /// and the castling moves that are not barred.
    pub fn w_king_moves(&self) -> (r: Vec<ChessMove>)
        requires
            self.disjoint(),
        ensures
            r@ == self@.piece_moves(Piece::WhiteKing, 64),
    {
        self.moves_of(Piece::WhiteKing)
    }

    /// The steps of the black king onto squares that White does not attack,
    /// and the castling moves that are not barred.
    pub fn b_king_moves(&self) -> (r: Vec<ChessMove>)
        requires
            self.disjoint(),
        ensures
            r@ == self@.piece_moves(Piece::BlackKing, 64),
    {
        self.moves_of(Piece::BlackKing)
    }


    /// The moves of the white queens onto squares that hold no white piece.
    pub fn w_queen_moves(&self) -> (r: Vec<ChessMove>)
        requires
            self.disjoint(),
        ensures
            r@ == self@.piece_moves(Piece::WhiteQueen, 64),
    {
        self.moves_of(Piece::WhiteQueen)
    }


    /// The moves of the black queens onto squares that hold no black piece.
    pub fn b_queen_moves(&self) -> (r: Vec<ChessMove>)
        requires
            self.disjoint(),
        ensures
            r@ == self@.piece_moves(Piece::BlackQueen, 64),
    {
        self.moves_of(Piece::BlackQueen)
    }
}


/// An element of two lists set end to end is an element of one of the two.
pub proof fn lemma_concat_contains(a: Seq<ChessMove>, b: Seq<ChessMove>, x: ChessMove)
    ensures
        (a + b).contains(x) == (a.contains(x) || b.contains(x)),
{
    if (a + b).contains(x) {
        let i = choose|i: int| 0 <= i < (a + b).len() && (a + b)[i] == x;
        if i < a.len() {
            assert(a[i] == x);
        } else {
            assert(b[i - a.len()] == x);
        }
    }
    if a.contains(x) {
        let i = choose|i: int| 0 <= i < a.len() && a[i] == x;
        assert((a + b)[i] == x);
    }
    if b.contains(x) {
        let i = choose|i: int| 0 <= i < b.len() && b[i] == x;
        assert((a + b)[a.len() + i] == x);
    }
}

/// Whether `x` is one of the moves from `from` onto some target below `n`.
pub open spec fn moves_onto_some(
    from: int,
    targets: Set<int>,
    last_rank: int,
    n: int,
    x: ChessMove,
) -> bool {
    exists|to: int|
        0 <= to < n && #[trigger] targets.contains(to) && moves_onto(
            from,
            to,
            rank_of(to) == last_rank,
        ).contains(x)
}

/// The moves onto a set of targets are the moves onto each of the targets.
pub proof fn lemma_moves_to_contains(
    from: int,
    targets: Set<int>,
    last_rank: int,
    n: int,
    x: ChessMove,
)
    requires
        0 <= n,
    ensures
        moves_to(from, targets, last_rank, n).contains(x) == moves_onto_some(
            from,
            targets,
            last_rank,
            n,
            x,
        ),
    decreases n,
{
    if n > 0 {
        let rest = moves_to(from, targets, last_rank, n - 1);
        let last = if targets.contains(n - 1) {
            moves_onto(from, n - 1, rank_of(n - 1) == last_rank)
        } else {
            Seq::empty()
        };
        lemma_moves_to_contains(from, targets, last_rank, n - 1, x);
        lemma_concat_contains(rest, last, x);
        if moves_onto_some(from, targets, last_rank, n - 1, x) {
            let to = choose|to: int|
                0 <= to < n - 1 && #[trigger] targets.contains(to) && moves_onto(
                    from,
                    to,
                    rank_of(to) == last_rank,
                ).contains(x);
            assert(0 <= to < n && targets.contains(to));
        }
        if last.contains(x) {
            assert(0 <= n - 1 < n && targets.contains(n - 1));
        }
        if moves_onto_some(from, targets, last_rank, n, x) {
            let to = choose|to: int|
                0 <= to < n && #[trigger] targets.contains(to) && moves_onto(
                    from,
                    to,
                    rank_of(to) == last_rank,
                ).contains(x);
            if to < n - 1 {
                assert(0 <= to < n - 1 && targets.contains(to));
            }
        }
    }
}

impl Position {
    /// Whether `x` is one of the moves of a piece of the given kind that
    /// stands on some square below `n`.
    pub open spec fn moves_from_some(self, piece: Piece, n: int, x: ChessMove) -> bool {
        exists|sq: int|
            0 <= sq < n && #[trigger] self.at(sq) == Some(piece) && self.moves_from(
                piece,
                sq,
            ).contains(x)
    }
}

/// The moves of a kind of piece are the moves of each piece of the kind.
pub proof fn lemma_piece_moves_contains(p: Position, piece: Piece, n: int, x: ChessMove)
    requires
        0 <= n,
    ensures
        p.piece_moves(piece, n).contains(x) == p.moves_from_some(piece, n, x),
    decreases n,
{
    if n > 0 {
        let rest = p.piece_moves(piece, n - 1);
        let last = if p.at(n - 1) == Some(piece) {
            p.moves_from(piece, n - 1)
        } else {
            Seq::empty()
        };
        lemma_piece_moves_contains(p, piece, n - 1, x);
        lemma_concat_contains(rest, last, x);
        if p.moves_from_some(piece, n - 1, x) {
            let sq = choose|sq: int|
                0 <= sq < n - 1 && #[trigger] p.at(sq) == Some(piece) && p.moves_from(
                    piece,
                    sq,
                ).contains(x);
            assert(0 <= sq < n && p.at(sq) == Some(piece));
        }
        if last.contains(x) {
            assert(0 <= n - 1 < n && p.at(n - 1) == Some(piece));
        }
        if p.moves_from_some(piece, n, x) {
            let sq = choose|sq: int|
                0 <= sq < n && #[trigger] p.at(sq) == Some(piece) && p.moves_from(
                    piece,
                    sq,
                ).contains(x);
            if sq < n - 1 {
                assert(0 <= sq < n - 1 && p.at(sq) == Some(piece));
            }
        }
    }
}

/// Every legal move leaves the king of the side that made it unattacked.
pub proof fn lemma_legal_moves_are_safe(p: Position, i: int)
    requires
        0 <= i < p.legal_moves().len(),
    ensures
        !p.after(p.legal_moves()[i]).in_check(p.white_to_move),
{
    let moves = p.side_moves(p.white_to_move);
    lemma_safe_among_members(p, moves, moves.len() as int, i);
}


/// Whether a castling move is White's.
pub open spec fn castles_white(kind: CastleMove) -> bool {
    kind == CastleMove::WhiteKingside || kind == CastleMove::WhiteQueenside
}

/// No step of a king is a castling move: a step never crosses two files.
proof fn lemma_steps_are_no_castling(p: Position, white: bool, from: int, kind: CastleMove)
    requires
        0 <= from < 64,
    ensures
        !moves_to(from, p.king_targets(white, from), 8, 64).contains(kind.king_move()),
{
    let x = kind.king_move();
    let targets = p.king_targets(white, from);
    lemma_moves_to_contains(from, targets, 8, 64, x);
    if moves_onto_some(from, targets, 8, 64, x) {
        let to = choose|to: int|
            0 <= to < 64 && #[trigger] targets.contains(to) && moves_onto(
                from,
                to,
                rank_of(to) == 8,
            ).contains(x);
        lemma_packed_squares(from, to, 0);
        assert(moves_onto(from, to, false)[0] == x);
        assert(x.from_sq() == from && x.to_sq() == to);
        assert(king_reaches(from, to));
        assert(ChessMove(CastleMove::WHITE_K).from_sq() == 60 && ChessMove(
            CastleMove::WHITE_K,
        ).to_sq() == 62);
        assert(ChessMove(CastleMove::WHITE_Q).from_sq() == 60 && ChessMove(
            CastleMove::WHITE_Q,
        ).to_sq() == 58);
        assert(ChessMove(CastleMove::BLACK_K).from_sq() == 4 && ChessMove(
            CastleMove::BLACK_K,
        ).to_sq() == 6);
        assert(ChessMove(CastleMove::BLACK_Q).from_sq() == 4 && ChessMove(
            CastleMove::BLACK_Q,
        ).to_sq() == 2);
    }
}

/// In a valid position the moves of a king hold a castling move exactly
/// when that move is not barred: the king is not in check, the right is
/// there, the squares between king and rook are empty, and no square that
/// the king crosses or lands on is attacked.
pub proof fn lemma_castling_iff_not_barred(p: Position, kind: CastleMove)
    requires
        p.valid(),
    ensures
        p.piece_moves(king_of(castles_white(kind)), 64).contains(kind.king_move())
            == !p.castling_blocked(kind),
{
    let white = castles_white(kind);
    let king = king_of(white);
    let x = kind.king_move();
    let home = if white { 60int } else { 4int };
    lemma_piece_moves_contains(p, king, 64, x);
    assert(CastleMove::WhiteKingside.king_move() != CastleMove::WhiteQueenside.king_move());
    assert(CastleMove::BlackKingside.king_move() != CastleMove::BlackQueenside.king_move());
    if p.moves_from_some(king, 64, x) {
        let sq = choose|sq: int|
            0 <= sq < 64 && #[trigger] p.at(sq) == Some(king) && p.moves_from(king, sq).contains(
                x,
            );
        let steps = moves_to(sq, p.king_targets(white, sq), 8, 64);
        lemma_concat_contains(steps, p.castle_moves(white), x);
        lemma_steps_are_no_castling(p, white, sq, kind);
        assert(p.castle_moves(white).contains(x));
        let i = choose|i: int| 0 <= i < p.castle_moves(white).len() && p.castle_moves(white)[i] == x;
        assert(!p.castling_blocked(kind));
    }
    if !p.castling_blocked(kind) {
        assert(p.at(home) == Some(king));
        let steps = moves_to(home, p.king_targets(white, home), 8, 64);
        lemma_concat_contains(steps, p.castle_moves(white), x);
        let castles = p.castle_moves(white);
        assert(castles.contains(x)) by {
            if kind == CastleMove::WhiteKingside || kind == CastleMove::BlackKingside {
                assert(castles[0] == x);
            } else {
                assert(castles[castles.len() - 1] == x);
            }
        }
        assert(0 <= home < 64 && p.at(home) == Some(king) && p.moves_from(king, home).contains(x));
    }
}


/// Where a pawn move of the list lands decides whether it promotes: a move
/// onto the last rank carries a promotion, and no other pawn move does.
pub proof fn lemma_pawn_promotes_on_last_rank(p: Position, white: bool, x: ChessMove)
    requires
        p.piece_moves(pawn_of(white), 64).contains(x),
    ensures
        (rank_of(x.to_sq()) == last_rank_of(white)) == (promotion_piece(
            white,
            x.tag(),
        ) is Some),
{
    let pawn = pawn_of(white);
    lemma_piece_moves_contains(p, pawn, 64, x);
    let sq = choose|sq: int|
        0 <= sq < 64 && #[trigger] p.at(sq) == Some(pawn) && p.moves_from(pawn, sq).contains(x);
    let pushes = moves_to(sq, p.push_targets(white, sq), last_rank_of(white), 64);
    let captures = moves_to(sq, p.capture_targets(white, sq), last_rank_of(white), 64);
    lemma_concat_contains(pushes, captures, x);
    let targets = if pushes.contains(x) {
        p.push_targets(white, sq)
    } else {
        p.capture_targets(white, sq)
    };
    lemma_moves_to_contains(sq, targets, last_rank_of(white), 64, x);
    let to = choose|to: int|
        0 <= to < 64 && #[trigger] targets.contains(to) && moves_onto(
            sq,
            to,
            rank_of(to) == last_rank_of(white),
        ).contains(x);
    let onto = moves_onto(sq, to, rank_of(to) == last_rank_of(white));
    let k = choose|k: int| 0 <= k < onto.len() && onto[k] == x;
    lemma_packed_squares(sq, to, 0);
    lemma_packed_squares(sq, to, 1);
    lemma_packed_squares(sq, to, 2);
    lemma_packed_squares(sq, to, 4);
    lemma_packed_squares(sq, to, 8);
}

/// Promotions come in fours: where the pawn moves hold one move onto a square
/// of the last rank, they hold the promotions to knight, bishop, rook and
/// queen from the same origin onto that square, and no plain move.
pub proof fn lemma_promotions_come_in_fours(p: Position, white: bool, x: ChessMove)
    requires
        p.piece_moves(pawn_of(white), 64).contains(x),
        rank_of(x.to_sq()) == last_rank_of(white),
    ensures
        p.piece_moves(pawn_of(white), 64).contains(packed(x.from_sq(), x.to_sq(), 1)),
        p.piece_moves(pawn_of(white), 64).contains(packed(x.from_sq(), x.to_sq(), 2)),
        p.piece_moves(pawn_of(white), 64).contains(packed(x.from_sq(), x.to_sq(), 4)),
        p.piece_moves(pawn_of(white), 64).contains(packed(x.from_sq(), x.to_sq(), 8)),
        !p.piece_moves(pawn_of(white), 64).contains(packed(x.from_sq(), x.to_sq(), 0)),
{
    let pawn = pawn_of(white);
    let list = p.piece_moves(pawn, 64);
    lemma_piece_moves_contains(p, pawn, 64, x);
    let sq = choose|sq: int|
        0 <= sq < 64 && #[trigger] p.at(sq) == Some(pawn) && p.moves_from(pawn, sq).contains(x);
    let pushes = moves_to(sq, p.push_targets(white, sq), last_rank_of(white), 64);
    let captures = moves_to(sq, p.capture_targets(white, sq), last_rank_of(white), 64);
    lemma_concat_contains(pushes, captures, x);
    let targets = if pushes.contains(x) {
        p.push_targets(white, sq)
    } else {
        p.capture_targets(white, sq)
    };
    lemma_moves_to_contains(sq, targets, last_rank_of(white), 64, x);
    let to = choose|to: int|
        0 <= to < 64 && #[trigger] targets.contains(to) && moves_onto(
            sq,
            to,
            rank_of(to) == last_rank_of(white),
        ).contains(x);
    let onto = moves_onto(sq, to, rank_of(to) == last_rank_of(white));
    let k = choose|k: int| 0 <= k < onto.len() && onto[k] == x;
    lemma_packed_squares(sq, to, 0);
    lemma_packed_squares(sq, to, 1);
    lemma_packed_squares(sq, to, 2);
    lemma_packed_squares(sq, to, 4);
    lemma_packed_squares(sq, to, 8);
    assert(x.from_sq() == sq && x.to_sq() == to);
    assert(onto == moves_onto(sq, to, true));
    assert(onto[0] == packed(sq, to, 1) && onto[1] == packed(sq, to, 2) && onto[2] == packed(
        sq,
        to,
        4,
    ) && onto[3] == packed(sq, to, 8));
    assert forall|tag: int| tag == 1 || tag == 2 || tag == 4 || tag == 8 implies list.contains(
        #[trigger] packed(sq, to, tag),
    ) by {
        let y = packed(sq, to, tag);
        assert(onto.contains(y));
        assert(moves_onto_some(sq, targets, last_rank_of(white), 64, y));
        lemma_moves_to_contains(sq, targets, last_rank_of(white), 64, y);
        lemma_concat_contains(pushes, captures, y);
        assert(p.moves_from(pawn, sq).contains(y));
        assert(p.moves_from_some(pawn, 64, y));
        lemma_piece_moves_contains(p, pawn, 64, y);
    }
    if list.contains(packed(sq, to, 0)) {
        lemma_pawn_promotes_on_last_rank(p, white, packed(sq, to, 0));
    }
}


/// After a pawn has advanced two squares, the square that it passed is a
/// capture target of every enemy pawn that stands beside it.
pub proof fn lemma_en_passant_offered(p: Position, m: ChessMove, beside: int)
    requires
        p.valid(),
        p.is_double_push(m),
        on_board(beside),
        rank_of(beside) == rank_of(m.to_sq()),
        distance(file_of(beside), file_of(m.to_sq())) == 1,
    ensures
        p.after(m).capture_targets(!p.white_to_move, beside).contains(
            (m.from_sq() + m.to_sq()) / 2,
        ),
{
    let passed = (m.from_sq() + m.to_sq()) / 2;
    assert(p.after(m).en_passant == Some(passed));
    assert(pawn_attacks(!p.white_to_move, beside, passed));
}


/// Two lists without repeats that share no element make a list without repeats.
proof fn lemma_concat_no_duplicates(a: Seq<ChessMove>, b: Seq<ChessMove>)
    requires
        a.no_duplicates(),
        b.no_duplicates(),
        forall|x: ChessMove| !(a.contains(x) && b.contains(x)),
    ensures
        (a + b).no_duplicates(),
{
    let c = a + b;
    assert forall|i: int, j: int| 0 <= i < c.len() && 0 <= j < c.len() && i != j implies c[i]
        != c[j] by {
        if i < a.len() && j < a.len() {
        } else if i >= a.len() && j >= a.len() {
            assert(b[i - a.len()] != b[j - a.len()]);
        } else if i < a.len() {
            assert(a.contains(a[i]) && b.contains(b[j - a.len()]));
        } else {
            assert(a.contains(a[j]) && b.contains(b[i - a.len()]));
        }
    }
}

/// The moves from one square onto a set of targets hold no move twice.
proof fn lemma_moves_to_no_duplicates(from: int, targets: Set<int>, last_rank: int, n: int)
    requires
        0 <= from < 64,
        0 <= n <= 64,
    ensures
        moves_to(from, targets, last_rank, n).no_duplicates(),
    decreases n,
{
    if n > 0 {
        let rest = moves_to(from, targets, last_rank, n - 1);
        let to = n - 1;
        let last = if targets.contains(to) {
            moves_onto(from, to, rank_of(to) == last_rank)
        } else {
            Seq::empty()
        };
        lemma_moves_to_no_duplicates(from, targets, last_rank, n - 1);
        lemma_packed_squares(from, to, 0);
        lemma_packed_squares(from, to, 1);
        lemma_packed_squares(from, to, 2);
        lemma_packed_squares(from, to, 4);
        lemma_packed_squares(from, to, 8);
        assert(last.no_duplicates());
        assert forall|x: ChessMove| !(rest.contains(x) && last.contains(x)) by {
            if rest.contains(x) && last.contains(x) {
                let i = choose|i: int| 0 <= i < rest.len() && rest[i] == x;
                lemma_moves_to_members(from, targets, last_rank, n - 1, i);
                let k = choose|k: int| 0 <= k < last.len() && last[k] == x;
                assert(x.to_sq() == to);
            }
        }
        lemma_concat_no_duplicates(rest, last);
    }
}

/// The moves of the pawns hold no move twice. With the four promotions
/// being there wherever one is, a pawn that can reach a square of the last
/// rank has exactly four moves onto it.
pub proof fn lemma_pawn_moves_no_duplicates(p: Position, white: bool, n: int)
    requires
        0 <= n <= 64,
    ensures
        p.piece_moves(pawn_of(white), n).no_duplicates(),
    decreases n,
{
    if n > 0 {
        let pawn = pawn_of(white);
        let sq = n - 1;
        let rest = p.piece_moves(pawn, n - 1);
        lemma_pawn_moves_no_duplicates(p, white, n - 1);
        if p.at(sq) == Some(pawn) {
            let pushes = moves_to(sq, p.push_targets(white, sq), last_rank_of(white), 64);
            let captures = moves_to(sq, p.capture_targets(white, sq), last_rank_of(white), 64);
            lemma_moves_to_no_duplicates(sq, p.push_targets(white, sq), last_rank_of(white), 64);
            lemma_moves_to_no_duplicates(sq, p.capture_targets(white, sq), last_rank_of(white), 64);
            assert forall|x: ChessMove| !(pushes.contains(x) && captures.contains(x)) by {
                if pushes.contains(x) && captures.contains(x) {
                    let i = choose|i: int| 0 <= i < pushes.len() && pushes[i] == x;
                    let j = choose|j: int| 0 <= j < captures.len() && captures[j] == x;
                    lemma_moves_to_members(
                        sq,
                        p.push_targets(white, sq),
                        last_rank_of(white),
                        64,
                        i,
                    );
                    lemma_moves_to_members(
                        sq,
                        p.capture_targets(white, sq),
                        last_rank_of(white),
                        64,
                        j,
                    );
                    assert(pawn_pushes(p.occupancy(), white, sq, x.to_sq()));
                    assert(pawn_attacks(white, sq, x.to_sq()));
                }
            }
            lemma_concat_no_duplicates(pushes, captures);
            let last = p.moves_from(pawn, sq);
            assert(last == pushes + captures);
            assert forall|x: ChessMove| !(rest.contains(x) && last.contains(x)) by {
                if rest.contains(x) && last.contains(x) {
                    lemma_piece_moves_contains(p, pawn, n - 1, x);
                    let other = choose|other: int|
                        0 <= other < n - 1 && #[trigger] p.at(other) == Some(pawn) && p.moves_from(
                            pawn,
                            other,
                        ).contains(x);
                    lemma_pawn_moves_start(p, white, other, x);
                    lemma_pawn_moves_start(p, white, sq, x);
                }
            }
            lemma_concat_no_duplicates(rest, last);
        } else {
            assert(p.piece_moves(pawn, n) =~= rest);
        }
    }
}

/// A move of the pawn on `sq` starts from `sq`.
proof fn lemma_pawn_moves_start(p: Position, white: bool, sq: int, x: ChessMove)
    requires
        0 <= sq < 64,
        p.moves_from(pawn_of(white), sq).contains(x),
    ensures
        x.from_sq() == sq,
{
    let pushes = moves_to(sq, p.push_targets(white, sq), last_rank_of(white), 64);
    let captures = moves_to(sq, p.capture_targets(white, sq), last_rank_of(white), 64);
    lemma_concat_contains(pushes, captures, x);
    if pushes.contains(x) {
        let i = choose|i: int| 0 <= i < pushes.len() && pushes[i] == x;
        lemma_moves_to_members(sq, p.push_targets(white, sq), last_rank_of(white), 64, i);
    } else {
        let j = choose|j: int| 0 <= j < captures.len() && captures[j] == x;
        lemma_moves_to_members(sq, p.capture_targets(white, sq), last_rank_of(white), 64, j);
    }
}

} // verus!
