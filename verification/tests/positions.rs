use adam_chess::board::ChessBoard;
use adam_chess::chessmove::ChessMove;

#[test]
fn from_fen_is_starting_pos() {
    let start_board = ChessBoard::starting_position();
    let fen_board = ChessBoard::from_fen("rnbqkbnr/pppppppp/8/8/8/8/PPPPPPPP/RNBQKBNR w KQkq - 0 1");
    assert_eq!(start_board, fen_board);
}

#[test]
fn a_couple_moves() {
    let mut start_board = ChessBoard::starting_position();
    start_board.make_move(ChessMove::new_with_str("e2e4"));
    start_board.make_move(ChessMove::new_with_str("e7e5"));
    start_board.make_move(ChessMove::new_with_str("g1f3"));
    start_board.make_move(ChessMove::new_with_str("b8c6"));
    start_board.make_move(ChessMove::new_with_str("f1c4"));
    start_board.make_move(ChessMove::new_with_str("d8f6"));
    start_board.make_move(ChessMove::new_with_str("e1g1"));
    let fen_board = ChessBoard::from_fen("r1b1kbnr/pppp1ppp/2n2q2/4p3/2B1P3/5N2/PPPP1PPP/RNBQ1RK1 b kq - 5 4");
    assert_eq!(start_board, fen_board);
}

#[test]
fn to_fen_of_the_starting_position() {
    let board = ChessBoard::starting_position();
    assert_eq!(board.to_fen(), "rnbqkbnr/pppppppp/8/8/8/8/PPPPPPPP/RNBQKBNR w KQkq - 0 1");
}
