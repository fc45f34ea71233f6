use adam_chess::bitboard::Bitboard;
use adam_chess::board::ChessBoard;

fn squares(bb: Bitboard) -> Vec<u16> {
    let mut out = Vec::new();
    let mut it = bb.iter();
    while let Some(sq) = it.next() {
        out.push(sq);
    }
    out
}

#[test]
fn knight_in_the_corner_and_in_the_middle() {
    assert_eq!(squares(ChessBoard::calc_knight_attackmask(0)), vec![10, 17]);
    assert_eq!(squares(ChessBoard::calc_knight_attackmask(63)), vec![46, 53]);
    assert_eq!(squares(ChessBoard::calc_knight_attackmask(7)), vec![13, 22]);
    assert_eq!(
        squares(ChessBoard::calc_knight_attackmask(27)),
        vec![10, 12, 17, 21, 33, 37, 42, 44]
    );
}

#[test]
fn king_on_the_edge_does_not_wrap() {
    assert_eq!(squares(ChessBoard::calc_king_attackmask(0)), vec![1, 8, 9]);
    assert_eq!(squares(ChessBoard::calc_king_attackmask(7)), vec![6, 14, 15]);
    assert_eq!(squares(ChessBoard::calc_king_attackmask(56)), vec![48, 49, 57]);
    assert_eq!(squares(ChessBoard::calc_king_attackmask(63)), vec![54, 55, 62]);
    assert_eq!(squares(ChessBoard::calc_king_attackmask(31)), vec![22, 23, 30, 38, 39]);
    assert_eq!(
        squares(ChessBoard::calc_king_attackmask(36)),
        vec![27, 28, 29, 35, 37, 43, 44, 45]
    );
}

#[test]
fn pawn_attacks_are_clipped_at_the_edge() {
    assert_eq!(squares(ChessBoard::calc_w_pawn_attackmask(52)), vec![43, 45]);
    assert_eq!(squares(ChessBoard::calc_w_pawn_attackmask(48)), vec![41]);
    assert_eq!(squares(ChessBoard::calc_w_pawn_attackmask(55)), vec![46]);
    assert_eq!(squares(ChessBoard::calc_b_pawn_attackmask(12)), vec![19, 21]);
    assert_eq!(squares(ChessBoard::calc_b_pawn_attackmask(8)), vec![17]);
    assert_eq!(squares(ChessBoard::calc_b_pawn_attackmask(15)), vec![22]);
    assert_eq!(squares(ChessBoard::calc_w_pawn_attackmask(3)), Vec::<u16>::new());
    assert_eq!(squares(ChessBoard::calc_b_pawn_attackmask(60)), Vec::<u16>::new());
}

#[test]
fn pawn_pushes_stop_at_any_piece() {
    let start = ChessBoard::starting_position();
    assert_eq!(squares(start.calc_w_pawn_movemask(52)), vec![36, 44]);
    assert_eq!(squares(start.calc_b_pawn_movemask(12)), vec![20, 28]);
    let blocked = ChessBoard::from_fen("8/8/8/8/8/4p3/4P3/8 w - - 0 1");
    assert_eq!(squares(blocked.calc_w_pawn_movemask(52)), Vec::<u16>::new());
    let half = ChessBoard::from_fen("8/8/8/8/4p3/8/4P3/8 w - - 0 1");
    assert_eq!(squares(half.calc_w_pawn_movemask(52)), vec![44]);
    let later = ChessBoard::from_fen("8/8/8/8/8/4P3/8/8 w - - 0 1");
    assert_eq!(squares(later.calc_w_pawn_movemask(44)), vec![36]);
}

#[test]
fn rook_rays_end_on_the_first_piece() {
    let empty = ChessBoard::from_fen("8/8/8/8/3R4/8/8/8 w - - 0 1");
    assert_eq!(
        squares(empty.calc_rook_attackmask(35)),
        vec![3, 11, 19, 27, 32, 33, 34, 36, 37, 38, 39, 43, 51, 59]
    );
    let blocked = ChessBoard::from_fen("8/8/3p4/8/1P1R1n2/8/8/8 w - - 0 1");
    assert_eq!(squares(blocked.calc_rook_attackmask(35)), vec![19, 27, 33, 34, 36, 37, 43, 51, 59]);
}

#[test]
fn bishop_rays_end_on_the_first_piece_and_at_the_edge() {
    let empty = ChessBoard::from_fen("8/8/8/8/3B4/8/8/8 w - - 0 1");
    assert_eq!(
        squares(empty.calc_bishop_attackmask(35)),
        vec![7, 8, 14, 17, 21, 26, 28, 42, 44, 49, 53, 56, 62]
    );
    let blocked = ChessBoard::from_fen("8/8/1p3P2/8/3B4/8/8/8 w - - 0 1");
    assert_eq!(squares(blocked.calc_bishop_attackmask(35)), vec![17, 21, 26, 28, 42, 44, 49, 53, 56, 62]);
    let corner = ChessBoard::from_fen("B7/8/8/8/8/8/8/8 w - - 0 1");
    assert_eq!(squares(corner.calc_bishop_attackmask(0)), vec![9, 18, 27, 36, 45, 54, 63]);
}

#[test]
fn queen_is_rook_and_bishop_together() {
    let board = ChessBoard::from_fen("8/8/1p3P2/8/1P1Q1n2/8/8/8 w - - 0 1");
    let queen = board.calc_queen_attackmask(35);
    let both = board.calc_rook_attackmask(35).union(board.calc_bishop_attackmask(35));
    assert_eq!(queen, both);
    assert_eq!(squares(queen).len(), 21);
}

#[test]
fn attack_masks_of_the_starting_position() {
    let start = ChessBoard::starting_position();
    assert_eq!(start.calc_w_attackmask().to_u64(), 0x0000_0000_00FF_FF7E);
    assert_eq!(start.calc_b_attackmask().to_u64(), 0x7EFF_FF00_0000_0000);
    assert!(!start.king_attacked(true));
    assert!(!start.king_attacked(false));
}

#[test]
fn king_attacked_sees_a_check() {
    let board = ChessBoard::from_fen("4k3/8/8/8/8/8/8/4RK2 b - - 0 1");
    assert!(board.king_attacked(false));
    assert!(!board.king_attacked(true));
}
