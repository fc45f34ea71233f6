use adam_chess::board::ChessBoard;
use adam_chess::perft::{count_positions, perft_divide};

#[test]
fn perft_depth_3_and_4() {
    let board = ChessBoard::starting_position();
    assert_eq!(count_positions(board, 3), 8902);
    assert_eq!(count_positions(board, 4), 197_281);
}

#[test]
fn perft_below_one_ply_counts_the_position_itself() {
    let board = ChessBoard::starting_position();
    assert_eq!(count_positions(board, 0), 1);
    assert_eq!(count_positions(board, -3), 1);
}

#[test]
fn perft_with_castling_and_pins() {
    let board = ChessBoard::from_fen(
        "r3k2r/p1ppqpb1/bn2pnp1/3PN3/1p2P3/2N2Q1p/PPPBBPPP/R3K2R w KQkq - 0 1",
    );
    assert_eq!(count_positions(board, 1), 48);
    assert_eq!(count_positions(board, 2), 2039);
    assert_eq!(count_positions(board, 3), 97_862);
}

#[test]
fn perft_with_en_passant_pins() {
    let board = ChessBoard::from_fen("8/2p5/3p4/KP5r/1R3p1k/8/4P1P1/8 w - - 0 1");
    assert_eq!(count_positions(board, 1), 14);
    assert_eq!(count_positions(board, 2), 191);
    assert_eq!(count_positions(board, 3), 2812);
    assert_eq!(count_positions(board, 4), 43_238);
}

#[test]
fn perft_with_promotions() {
    let board = ChessBoard::from_fen(
        "r3k2r/Pppp1ppp/1b3nbN/nP6/BBP1P3/q4N2/Pp1P2PP/R2Q1RK1 w kq - 0 1",
    );
    assert_eq!(count_positions(board, 1), 6);
    assert_eq!(count_positions(board, 2), 264);
    assert_eq!(count_positions(board, 3), 9467);
}

#[test]
fn perft_with_promotion_and_castling_rights() {
    let board = ChessBoard::from_fen("rnbq1k1r/pp1Pbppp/2p5/8/2B5/8/PPP1NnPP/RNBQK2R w KQ - 1 8");
    assert_eq!(count_positions(board, 1), 44);
    assert_eq!(count_positions(board, 2), 1486);
    assert_eq!(count_positions(board, 3), 62_379);
}

#[test]
fn perft_divide_sums_to_the_count() {
    let board = ChessBoard::starting_position();
    let parts = perft_divide(board, 3);
    assert_eq!(parts.len(), 20);
    let mut sum = 0u64;
    for (mv, count) in &parts {
        assert_eq!(*count, count_positions(board.with_move(*mv), 2));
        sum += count;
    }
    assert_eq!(sum, 8902);
    assert_eq!(parts[0].0.to_str(), "a2a4");
    assert_eq!(parts[0].1, 420);
}
