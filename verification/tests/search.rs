use adam_chess::board::ChessBoard;
use adam_chess::chessmove::ChessMove;
use adam_chess::evaluation::{evaluate_position, piece_square_value, KING_MISSING};
use adam_chess::piece::Piece;

#[test]
fn the_starting_position_is_level() {
    let start = ChessBoard::starting_position();
    assert_eq!(start.evaluate_position(), 0);
    assert_eq!(evaluate_position(start), 0);
}

#[test]
fn values_of_single_pieces() {
    assert_eq!(piece_square_value(Piece::WhitePawn, 52), 100 - 20);
    assert_eq!(piece_square_value(Piece::WhitePawn, 12), 100 + 50);
    assert_eq!(piece_square_value(Piece::BlackPawn, 12), -(100 - 20));
    assert_eq!(piece_square_value(Piece::WhiteKnight, 0), 320 - 50);
    assert_eq!(piece_square_value(Piece::WhiteKnight, 35), 320 + 20);
    assert_eq!(piece_square_value(Piece::BlackKnight, 63), -(320 - 50));
    assert_eq!(piece_square_value(Piece::WhiteBishop, 42), 330 + 10);
    assert_eq!(piece_square_value(Piece::WhiteRook, 9), 500 + 10);
    assert_eq!(piece_square_value(Piece::BlackRook, 49), -(500 + 10));
    assert_eq!(piece_square_value(Piece::WhiteQueen, 59), 900 - 5);
    assert_eq!(piece_square_value(Piece::WhiteKing, 62), 20000 + 30);
    assert_eq!(piece_square_value(Piece::BlackKing, 6), -(20000 + 30));
}

#[test]
fn the_score_is_the_sum_over_the_pieces() {
    let board = ChessBoard::from_fen("4k3/8/8/8/3N4/8/4P3/4K3 w - - 0 1");
    // Kings on e1 and e8 cancel; knight on d4 is 320 + 20, pawn on e2 is 100 - 20.
    assert_eq!(board.evaluate_position(), 340 + 80);
    let black = ChessBoard::from_fen("4k3/4p3/8/3n4/8/8/8/4K3 w - - 0 1");
    assert_eq!(black.evaluate_position(), -(340 + 80));
}

#[test]
fn a_missing_king_shows_in_the_score() {
    let no_black_king = ChessBoard::from_fen("8/8/8/8/8/8/8/4K3 w - - 0 1");
    assert!(no_black_king.evaluate_position() > KING_MISSING);
    let no_white_king = ChessBoard::from_fen("4k3/8/8/8/8/8/8/8 w - - 0 1");
    assert!(no_white_king.evaluate_position() < -KING_MISSING);
}

#[test]
fn minimax_at_depth_zero_is_the_score() {
    let board = ChessBoard::from_fen("4k3/8/8/8/3N4/8/4P3/4K3 w - - 0 1");
    assert_eq!(board.minimax(0), 420);
}

#[test]
fn minimax_takes_the_best_for_the_mover() {
    // White to move can take the queen on d5 with the pawn on e4.
    let board = ChessBoard::from_fen("4k3/8/8/3q4/4P3/8/8/4K3 w - - 0 1");
    let mut best = i32::MIN;
    for mv in board.all_possible_moves() {
        best = best.max(board.with_move(mv).evaluate_position());
    }
    assert_eq!(board.minimax(1), best);
    let taken = board.with_move(ChessMove::new_with_str("e4d5"));
    assert_eq!(best, taken.evaluate_position());
    // Black to move seeks the lowest score.
    let black = ChessBoard::from_fen("4k3/8/8/3q4/4P3/8/8/4K3 b - - 0 1");
    let mut worst = i32::MAX;
    for mv in black.all_possible_moves() {
        worst = worst.min(black.with_move(mv).evaluate_position());
    }
    assert_eq!(black.minimax(1), worst);
}

#[test]
fn minimax_without_a_move_is_the_worst_for_the_mover() {
    let black_mated = ChessBoard::from_fen("6k1/6Q1/6K1/8/8/8/8/8 b - - 0 1");
    assert_eq!(black_mated.minimax(1), i32::MAX);
    assert_eq!(black_mated.minimax(3), i32::MAX);
    let white_mated = ChessBoard::from_fen("8/8/8/8/8/6k1/6q1/6K1 w - - 0 1");
    assert_eq!(white_mated.minimax(2), i32::MIN);
}

#[test]
fn best_move_takes_the_queen() {
    let board = ChessBoard::from_fen("4k3/8/8/3q4/4P3/8/8/4K3 w - - 0 1");
    assert_eq!(board.best_mv(0).map(|m| m.to_str()), Some("e4d5".to_string()));
    assert_eq!(board.best_mv(1).map(|m| m.to_str()), Some("e4d5".to_string()));
}

#[test]
fn best_move_leaves_the_other_side_without_a_move() {
    // A position without a move is worth the most to the side that brought it
    // about, be it mate or stalemate.
    let board = ChessBoard::from_fen("6k1/8/6K1/8/8/8/8/5Q2 w - - 0 1");
    let best = board.best_mv(1).unwrap();
    let after = board.with_move(best);
    assert_eq!(after.all_possible_moves().len(), 0);
    assert_eq!(after.minimax(1), i32::MAX);
}

#[test]
fn best_move_keeps_the_first_of_equals() {
    // At depth 0 from the start the best score is shared; the first in
    // generation order among the best is kept.
    let start = ChessBoard::starting_position();
    let moves = start.all_possible_moves();
    let mut first_best = moves[0];
    let mut best = start.with_move(moves[0]).evaluate_position();
    for mv in &moves[1..] {
        let value = start.with_move(*mv).evaluate_position();
        if value > best {
            best = value;
            first_best = *mv;
        }
    }
    assert_eq!(start.best_mv(0), Some(first_best));
    let kings = ChessBoard::from_fen("4k3/8/8/8/8/8/8/K7 b - - 0 1");
    let replies = kings.all_possible_moves();
    let mut lowest = kings.with_move(replies[0]).evaluate_position();
    let mut first_lowest = replies[0];
    for mv in &replies[1..] {
        let value = kings.with_move(*mv).evaluate_position();
        if value < lowest {
            lowest = value;
            first_lowest = *mv;
        }
    }
    assert_eq!(kings.best_mv(0), Some(first_lowest));
}

#[test]
fn best_move_is_the_same_every_time() {
    let board = ChessBoard::from_fen(
        "r3k2r/p1ppqpb1/bn2pnp1/3PN3/1p2P3/2N2Q1p/PPPBBPPP/R3K2R w KQkq - 0 1",
    );
    let first = board.best_mv(1);
    assert!(first.is_some());
    for _ in 0..3 {
        assert_eq!(board.best_mv(1), first);
    }
    let start = ChessBoard::starting_position();
    assert_eq!(start.best_mv(2), start.best_mv(2));
}

#[test]
fn best_move_without_a_legal_move_is_none() {
    let mated = ChessBoard::from_fen("6k1/6Q1/6K1/8/8/8/8/8 b - - 0 1");
    assert_eq!(mated.best_mv(2), None);
    let stale = ChessBoard::from_fen("7k/5Q2/6K1/8/8/8/8/8 b - - 0 1");
    assert_eq!(stale.best_mv(0), None);
}

#[test]
fn a_random_move_is_a_legal_move() {
    let board = ChessBoard::starting_position();
    let legal = board.all_possible_moves();
    for _ in 0..20 {
        let pick = board.random_move().unwrap();
        assert!(legal.contains(&pick));
    }
    let mut played = board;
    let mv = played.make_random_move().unwrap();
    assert_eq!(played, board.with_move(mv));
    let mut mated = ChessBoard::from_fen("6k1/6Q1/6K1/8/8/8/8/8 b - - 0 1");
    let before = mated;
    assert_eq!(mated.random_move(), None);
    assert_eq!(mated.make_random_move(), None);
    assert_eq!(mated, before);
}
