use adam_chess::board::ChessBoard;
use adam_chess::castling;
use adam_chess::chessmove::{CastleMove, ChessMove};
use adam_chess::piece::Piece;

fn texts(moves: &[ChessMove]) -> Vec<String> {
    moves.iter().map(|m| m.to_str()).collect()
}

fn play(board: &mut ChessBoard, line: &[&str]) {
    for text in line {
        let mv = ChessMove::new_with_str(text);
        assert!(board.all_possible_moves().contains(&mv), "{} is not legal", text);
        board.make_move(mv);
        assert!(board.is_valid());
    }
}

#[test]
fn twenty_moves_from_the_start_in_generation_order() {
    let start = ChessBoard::starting_position();
    let moves = start.all_possible_moves();
    assert_eq!(
        texts(&moves),
        vec![
            "a2a4", "a2a3", "b2b4", "b2b3", "c2c4", "c2c3", "d2d4", "d2d3", "e2e4", "e2e3", "f2f4",
            "f2f3", "g2g4", "g2g3", "h2h4", "h2h3", "b1a3", "b1c3", "g1f3", "g1h3",
        ]
    );
}

#[test]
fn no_castling_from_the_start() {
    let start = ChessBoard::starting_position();
    assert!(start.castling_blocked(castling::WHITE_K));
    assert!(start.castling_blocked(castling::WHITE_Q));
    assert!(start.castling_blocked(castling::BLACK_K));
    assert!(start.castling_blocked(castling::BLACK_Q));
    let moves = start.all_possible_moves();
    assert!(!moves.contains(&CastleMove::WhiteKingside.to_move()));
    assert!(!moves.contains(&CastleMove::WhiteQueenside.to_move()));
    assert_eq!(start.w_king_moves().len(), 0);
}

#[test]
fn castling_with_the_way_cleared() {
    let board = ChessBoard::from_fen("r3k2r/pppppppp/8/8/8/8/PPPPPPPP/R3K2R w KQkq - 0 1");
    assert!(!board.castling_blocked(castling::WHITE_K));
    assert!(!board.castling_blocked(castling::WHITE_Q));
    assert!(!board.castling_blocked(castling::BLACK_K));
    assert!(!board.castling_blocked(castling::BLACK_Q));
    let moves = board.all_possible_moves();
    assert!(moves.contains(&CastleMove::WhiteKingside.to_move()));
    assert!(moves.contains(&CastleMove::WhiteQueenside.to_move()));
    assert_eq!(texts(&board.w_king_moves()), vec!["e1d1", "e1f1", "e1g1", "e1c1"]);
    assert_eq!(texts(&board.b_king_moves()), vec!["e8d8", "e8f8", "e8g8", "e8c8"]);
}

#[test]
fn castling_queenside_needs_b1_empty_but_not_safe() {
    let occupied = ChessBoard::from_fen("4k3/8/8/8/8/8/8/RN2K3 w Q - 0 1");
    assert!(occupied.castling_blocked(castling::WHITE_Q));
    let attacked = ChessBoard::from_fen("1r2k3/8/8/8/8/8/8/R3K3 w Q - 0 1");
    assert!(!attacked.castling_blocked(castling::WHITE_Q));
    assert!(attacked.all_possible_moves().contains(&CastleMove::WhiteQueenside.to_move()));
}

#[test]
fn castling_through_an_attacked_square_is_barred() {
    // The rook on f8 attacks f1, which the king crosses; g1 itself is safe.
    let board = ChessBoard::from_fen("4kr2/8/8/8/8/8/8/R3K2R w KQ - 0 1");
    assert!(board.castling_blocked(castling::WHITE_K));
    assert!(!board.castling_blocked(castling::WHITE_Q));
    let moves = board.all_possible_moves();
    assert!(!moves.contains(&CastleMove::WhiteKingside.to_move()));
    assert!(moves.contains(&CastleMove::WhiteQueenside.to_move()));
}

#[test]
fn castling_out_of_check_is_barred() {
    let board = ChessBoard::from_fen("4r1k1/8/8/8/8/8/8/R3K2R w KQ - 0 1");
    assert!(board.castling_blocked(castling::WHITE_K));
    assert!(board.castling_blocked(castling::WHITE_Q));
}

#[test]
fn castling_without_the_right_is_barred() {
    let board = ChessBoard::from_fen("r3k2r/8/8/8/8/8/8/R3K2R w Kq - 0 1");
    assert!(!board.castling_blocked(castling::WHITE_K));
    assert!(board.castling_blocked(castling::WHITE_Q));
    assert!(board.castling_blocked(castling::BLACK_K));
    assert!(!board.castling_blocked(castling::BLACK_Q));
}

#[test]
fn castling_moves_king_and_rook() {
    let mut white = ChessBoard::from_fen("r3k2r/8/8/8/8/8/8/R3K2R w KQkq - 0 1");
    white.make_move(CastleMove::WhiteQueenside.to_move());
    assert_eq!(white, ChessBoard::from_fen("r3k2r/8/8/8/8/8/8/2KR3R b kq - 1 1"));
    let mut black = ChessBoard::from_fen("r3k2r/8/8/8/8/8/8/R3K2R b KQkq - 0 1");
    black.make_move(CastleMove::BlackKingside.to_move());
    assert_eq!(black, ChessBoard::from_fen("r4rk1/8/8/8/8/8/8/R3K2R w KQ - 1 2"));
    let mut long = ChessBoard::from_fen("r3k2r/8/8/8/8/8/8/R3K2R b KQkq - 0 1");
    long.make_move(CastleMove::BlackQueenside.to_move());
    assert_eq!(long, ChessBoard::from_fen("2kr3r/8/8/8/8/8/8/R3K2R w KQ - 1 2"));
}

#[test]
fn the_castle_functions_leave_the_side_to_move() {
    let mut board = ChessBoard::from_fen("r3k2r/8/8/8/8/8/8/R3K2R w KQkq - 0 1");
    board.white_castle_kingside();
    assert!(board.get_white_to_move());
    assert_eq!(board.get_castling_rights(), castling::BLACK_BOTH);
    assert_eq!(board.piece_on(62), Some(Piece::WhiteKing));
    assert_eq!(board.piece_on(61), Some(Piece::WhiteRook));
    assert_eq!(board.piece_on(60), None);
    assert_eq!(board.piece_on(63), None);
    board.black_castle_queenside();
    assert_eq!(board.get_castling_rights(), 0);
    assert_eq!(board.piece_on(2), Some(Piece::BlackKing));
    assert_eq!(board.piece_on(3), Some(Piece::BlackRook));
    let mut other = ChessBoard::from_fen("r3k2r/8/8/8/8/8/8/R3K2R w KQkq - 0 1");
    other.white_castle_queenside();
    other.black_castle_kingside();
    assert_eq!(other.to_fen(), "r4rk1/8/8/8/8/8/8/2KR3R w - - 0 1");
}

#[test]
fn rights_go_with_rook_and_king() {
    let mut board = ChessBoard::from_fen("r3k2r/8/8/8/8/8/8/R3K2R w KQkq - 0 1");
    play(&mut board, &["h1g1"]);
    assert_eq!(board.get_castling_rights(), castling::WHITE_Q | castling::BLACK_BOTH);
    play(&mut board, &["a8b8"]);
    assert_eq!(board.get_castling_rights(), castling::WHITE_Q | castling::BLACK_K);
    play(&mut board, &["e1e2"]);
    assert_eq!(board.get_castling_rights(), castling::BLACK_K);
    play(&mut board, &["e8e7"]);
    assert_eq!(board.get_castling_rights(), 0);
    play(&mut board, &["e2e1", "e7e8"]);
    assert_eq!(board.get_castling_rights(), 0);
}

#[test]
fn a_captured_rook_takes_its_right_along() {
    let mut board = ChessBoard::from_fen("r3k2r/8/8/8/8/8/6b1/R3K2R b KQkq - 0 1");
    play(&mut board, &["g2h1"]);
    assert_eq!(board.get_castling_rights(), castling::WHITE_Q | castling::BLACK_BOTH);
}

#[test]
fn en_passant_lasts_one_move() {
    let mut board = ChessBoard::starting_position();
    play(&mut board, &["e2e4"]);
    assert_eq!(board.get_en_passant(), 44);
    play(&mut board, &["a7a6"]);
    assert_eq!(board.get_en_passant(), 64);
    play(&mut board, &["e4e5", "d7d5"]);
    assert_eq!(board.get_en_passant(), 19);
    assert!(board.all_possible_moves().contains(&ChessMove::new_with_str("e5d6")));
    let mut used = board;
    play(&mut used, &["e5d6"]);
    assert_eq!(used.get_en_passant(), 64);
    assert_eq!(used.piece_on(19), Some(Piece::WhitePawn));
    assert_eq!(used.piece_on(27), None);
    assert_eq!(used.piece_on(28), None);
    let mut unused = board;
    play(&mut unused, &["h2h3"]);
    assert_eq!(unused.get_en_passant(), 64);
    play(&mut unused, &["h7h6"]);
    assert!(!unused.all_possible_moves().contains(&ChessMove::new_with_str("e5d6")));
}

#[test]
fn black_captures_en_passant() {
    let mut board = ChessBoard::from_fen("4k3/8/8/8/3p4/8/4P3/4K3 w - - 0 1");
    play(&mut board, &["e2e4"]);
    assert_eq!(board.get_en_passant(), 44);
    play(&mut board, &["d4e3"]);
    assert_eq!(board.to_fen(), "4k3/8/8/8/8/4p3/8/4K3 w - - 0 1");
}

#[test]
fn a_pawn_on_the_seventh_promotes_in_four_ways() {
    let board = ChessBoard::from_fen("1n2k3/P7/8/8/8/8/8/4K3 w - - 0 1");
    assert_eq!(
        texts(&board.w_pawn_moves()),
        vec!["a7a8n", "a7a8b", "a7a8r", "a7a8q", "a7b8n", "a7b8b", "a7b8r", "a7b8q"]
    );
    let black = ChessBoard::from_fen("4k3/8/8/8/8/8/7p/4K3 b - - 0 1");
    assert_eq!(texts(&black.b_pawn_moves()), vec!["h2h1n", "h2h1b", "h2h1r", "h2h1q"]);
}

#[test]
fn promotion_sets_the_new_piece() {
    let mut board = ChessBoard::from_fen("1n2k3/P7/8/8/8/8/8/4K3 w - - 0 1");
    board.make_move(ChessMove::new_with_str("a7b8q"));
    assert_eq!(board.to_fen(), "1Q2k3/8/8/8/8/8/8/4K3 b - - 0 1");
    let mut under = ChessBoard::from_fen("4k3/8/8/8/8/8/7p/4K3 b - - 0 1");
    under.make_move(ChessMove::new_with_str("h2h1n"));
    assert_eq!(under.to_fen(), "4k3/8/8/8/8/8/8/4K2n w - - 0 1");
}

#[test]
fn a_pinned_piece_may_not_leave_the_line() {
    let board = ChessBoard::from_fen("4r1k1/8/8/8/8/8/4N3/4K3 w - - 0 1");
    let moves = texts(&board.all_possible_moves());
    assert!(moves.iter().all(|m| !m.starts_with("e2")));
    assert_eq!(moves, vec!["e1d2", "e1f2", "e1d1", "e1f1"]);
    assert_eq!(board.w_knight_moves().len(), 6);
}

#[test]
fn legal_moves_leave_the_own_king_safe() {
    let board = ChessBoard::from_fen(
        "r3k2r/p1ppqpb1/bn2pnp1/3PN3/1p2P3/2N2Q1p/PPPBBPPP/R3K2R w KQkq - 0 1",
    );
    for mv in board.all_possible_moves() {
        let next = board.with_move(mv);
        assert!(!next.king_attacked(true));
        assert!(next.is_valid());
        assert!(next.is_disjoint());
    }
}

#[test]
fn checkmate_and_stalemate_leave_no_move() {
    let mate = ChessBoard::from_fen("7k/5Q2/6K1/8/8/8/8/8 b - - 0 1");
    let mate = mate.with_move(ChessMove::new_with_str("h8g8"));
    let mated = ChessBoard::from_fen("6k1/6Q1/6K1/8/8/8/8/8 b - - 0 1");
    assert_eq!(mated.all_possible_moves().len(), 0);
    assert!(mated.king_attacked(false));
    let stale = ChessBoard::from_fen("7k/5Q2/6K1/8/8/8/8/8 b - - 0 1");
    assert_eq!(stale.all_possible_moves().len(), 0);
    assert!(!stale.king_attacked(false));
    assert!(mate.is_disjoint());
}

#[test]
fn try_move_asks_for_a_piece_of_the_mover() {
    let mut board = ChessBoard::starting_position();
    let before = board;
    assert!(!board.try_move(ChessMove::new_with_str("e7e5")));
    assert_eq!(board, before);
    assert!(!board.try_move(ChessMove::new_with_str("e4e5")));
    assert_eq!(board, before);
    assert!(board.owns(52));
    assert!(!board.owns(12));
    assert!(!board.owns(30));
    assert!(board.try_move(ChessMove::new_with_str("e2e4")));
    assert_eq!(board.piece_on(36), Some(Piece::WhitePawn));
    assert!(board.owns(12));
}

#[test]
fn validity_is_checked() {
    let mut board = ChessBoard::starting_position();
    assert!(board.is_valid());
    board.set_en_passant(44);
    assert!(!board.is_valid());
    board.set_en_passant(64);
    assert!(board.is_valid());
    board.set_castling_rights(0x1f);
    assert!(!board.is_valid());
    board.set_castling_rights(castling::ALL);
    let pawns = board.get_bitboard(0).unwrap();
    board.set_bitboard(6, pawns);
    assert!(!board.is_disjoint());
    assert!(!board.is_valid());
    let empty = ChessBoard::new();
    assert!(empty.is_disjoint());
    assert!(!empty.is_valid());
}
