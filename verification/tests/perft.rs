use adam_chess::board::ChessBoard;
use adam_chess::perft::count_positions;

#[test]
fn perft_depth_1() {
    let board = ChessBoard::starting_position();
    assert_eq!(count_positions(board, 1), 20);
}

#[test]
fn perft_depth_2() {
    let board = ChessBoard::starting_position();
    assert_eq!(count_positions(board, 2), 400);
}

#[test]
fn perft_depth_5() {
    let board = ChessBoard::starting_position();
    assert_eq!(count_positions(board, 5), 4_865_609);
}
