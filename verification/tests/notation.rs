use adam_chess::board::ChessBoard;
use adam_chess::castling;
use adam_chess::chessmove::{CastleMove, ChessMove, SquareChar};
use adam_chess::display::parse_fen_pieces_to_board;
use adam_chess::fenstring::FenString;
use adam_chess::interface::{abs_diff_u16, file_to_i8, i8_to_file, i8_to_rank, rank_to_i8};
use adam_chess::piece::{CastleRights, Piece};
use adam_chess::simple::{
    fen_to_simple, make_a_move_testing, simple_to_bitboard, simple_to_fen, BoardType, SimpleBoard,
};

#[test]
fn letters_and_numbers_of_files_and_ranks() {
    assert_eq!(file_to_i8('a'), 1);
    assert_eq!(file_to_i8('h'), 8);
    assert_eq!(rank_to_i8('1'), 1);
    assert_eq!(rank_to_i8('8'), 8);
    assert_eq!(i8_to_file(1), 'a');
    assert_eq!(i8_to_file(5), 'e');
    assert_eq!(i8_to_rank(2), '2');
    assert_eq!(i8_to_rank(8), '8');
    assert_eq!(abs_diff_u16(3, 10), 7);
    assert_eq!(abs_diff_u16(10, 3), 7);
    assert_eq!(abs_diff_u16(4, 4), 0);
    assert_eq!(abs_diff_u16(0, u16::MAX), u16::MAX);
}

#[test]
fn a_move_packs_origin_destination_and_tag() {
    let mv = ChessMove::new_with_str("e2e4");
    assert_eq!(mv.to_u16(), 52 * 64 + 36);
    assert_eq!(mv.get_curr_square_as_index(), 52);
    assert_eq!(mv.get_dest_square_as_index(), 36);
    assert_eq!(mv.get_four_msb(), 0);
    let corner = ChessMove::new_with_str("a8h1");
    assert_eq!(corner.to_u16(), 63);
    let back = ChessMove::new_with_str("h1a8");
    assert_eq!(back.to_u16(), 63 * 64);
    assert_eq!(ChessMove::new_with_curr_and_dest(12, 4).to_u16(), 12 * 64 + 4);
    assert_eq!(ChessMove::new_with_curr_and_dest(512 + 12, 4).get_four_msb(), 8);
    assert_eq!(ChessMove::new(0xffff).get_curr_square_as_index(), 63);
    let squares = ChessMove::new_with_square(SquareChar::new('7', 'e'), SquareChar::new('8', 'd'));
    assert_eq!(squares.to_str(), "e7d8");
    assert_eq!((ChessMove::new(0b1111_0000) & ChessMove::new(0b1010_1010)).to_u16(), 0b1010_0000);
}

#[test]
fn promotion_letters() {
    assert_eq!(ChessMove::new_with_str("e7e8n").get_four_msb(), 1);
    assert_eq!(ChessMove::new_with_str("e7e8b").get_four_msb(), 2);
    assert_eq!(ChessMove::new_with_str("e7e8r").get_four_msb(), 4);
    assert_eq!(ChessMove::new_with_str("e7e8q").get_four_msb(), 8);
    assert_eq!(ChessMove::new_with_str("e7e8q").to_u16(), 8 * 4096 + 12 * 64 + 4);
    assert_eq!(ChessMove::new_with_str("e7e8x").get_four_msb(), 0);
    assert_eq!(ChessMove::new_with_str("e7e8\n").to_u16(), 12 * 64 + 4);
    // A fifth character counts only when it is the last.
    assert_eq!(ChessMove::new_with_str("e7e8qq").get_four_msb(), 0);
    for text in ["e7e8n", "e7e8b", "e7e8r", "e7e8q", "a1h8", "h2h1q"] {
        assert_eq!(ChessMove::new_with_str(text).to_str(), text);
    }
    assert_eq!(ChessMove::new(3 * 4096 + 52 * 64 + 36).to_str(), "e2e4");
}

#[test]
fn parse_tells_what_is_no_move() {
    assert_eq!(ChessMove::parse("e2e4"), Some(ChessMove::new(52 * 64 + 36)));
    assert_eq!(ChessMove::parse("e7e8q"), Some(ChessMove::new_with_str("e7e8q")));
    assert_eq!(ChessMove::parse(""), None);
    assert_eq!(ChessMove::parse("e2e"), None);
    assert_eq!(ChessMove::parse("i2e4"), None);
    assert_eq!(ChessMove::parse("e9e4"), None);
    assert_eq!(ChessMove::parse("e2e0"), None);
    assert_eq!(ChessMove::parse("E2E4"), None);
    assert_eq!(ChessMove::parse("quit"), None);
}

#[test]
fn castling_moves_are_king_moves() {
    assert_eq!(CastleMove::WhiteKingside.to_move(), ChessMove::new_with_str("e1g1"));
    assert_eq!(CastleMove::WhiteQueenside.to_move(), ChessMove::new_with_str("e1c1"));
    assert_eq!(CastleMove::BlackKingside.to_move(), ChessMove::new_with_str("e8g8"));
    assert_eq!(CastleMove::BlackQueenside.to_move(), ChessMove::new_with_str("e8c8"));
    assert_eq!(CastleMove::WHITE_K, 0b0000_111100_111110);
    assert_eq!(CastleMove::BLACK_Q, 0b0000_000100_000010);
}

#[test]
fn pieces_letters_and_places() {
    let all = [
        (Piece::WhitePawn, 'P'),
        (Piece::WhiteBishop, 'B'),
        (Piece::WhiteKnight, 'N'),
        (Piece::WhiteRook, 'R'),
        (Piece::WhiteKing, 'K'),
        (Piece::WhiteQueen, 'Q'),
        (Piece::BlackPawn, 'p'),
        (Piece::BlackBishop, 'b'),
        (Piece::BlackKnight, 'n'),
        (Piece::BlackRook, 'r'),
        (Piece::BlackKing, 'k'),
        (Piece::BlackQueen, 'q'),
    ];
    for (i, (piece, letter)) in all.iter().enumerate() {
        assert_eq!(piece.to_char(), *letter);
        assert_eq!(Piece::from_char(*letter), Some(*piece));
        assert_eq!(piece.to_index(), i);
        assert_eq!(Piece::from_index(i), *piece);
        assert_eq!(u8::from(*piece), i as u8);
        assert_eq!(Piece::try_from(i as u8), Ok(*piece));
    }
    assert_eq!(Piece::try_from(12u8), Err(()));
    assert_eq!(Piece::try_from(255u8), Err(()));
    assert_eq!(Piece::from_char('x'), None);
    assert_eq!(Piece::from_char('1'), None);
    assert_eq!(CastleRights::WhiteShort.flag(), castling::WHITE_K);
    assert_eq!(CastleRights::WhiteLong.flag(), castling::WHITE_Q);
    assert_eq!(CastleRights::BlackShort.flag(), castling::BLACK_K);
    assert_eq!(CastleRights::BlackLong.flag(), castling::BLACK_Q);
}

#[test]
fn fields_of_the_notation() {
    let board = ChessBoard::from_fen("8/8/8/8/4P3/8/8/4K2k b - e3 0 1");
    assert!(!board.get_white_to_move());
    assert_eq!(board.get_en_passant(), 44);
    assert_eq!(board.get_castling_rights(), 0);
    assert_eq!(board.piece_on(36), Some(Piece::WhitePawn));
    assert_eq!(board.piece_on(60), Some(Piece::WhiteKing));
    assert_eq!(board.piece_on(63), Some(Piece::BlackKing));
    assert_eq!(board.get_all_pieces().to_u64().count_ones(), 3);
    let spaced = ChessBoard::from_fen("  8/8/8/8/4P3/8/8/4K2k \t b  -   e3\n");
    assert_eq!(spaced, board);
}

#[test]
fn the_reader_is_lenient() {
    let empty = ChessBoard::from_fen("");
    assert_eq!(empty.get_all_pieces().to_u64(), 0);
    assert!(empty.get_white_to_move());
    assert_eq!(empty.get_castling_rights(), 0);
    assert_eq!(empty.get_en_passant(), 64);
    assert!(empty.is_valid());
    let board_only = ChessBoard::from_fen("4k3/8/8/8/8/8/8/4K3");
    assert!(board_only.get_white_to_move());
    assert_eq!(board_only.piece_on(4), Some(Piece::BlackKing));
    let odd = ChessBoard::from_fen("4k?3/8/8/8/8/8/8/4K3 x");
    assert_eq!(odd, board_only);
    // Pieces past the end of the board are left out.
    let long = ChessBoard::from_fen("8/8/8/8/8/8/8/7K/Q w");
    assert_eq!(long.get_all_pieces().to_u64(), 1);
    let wide = ChessBoard::from_fen("9P/8/8/8/8/8/8/8 w");
    assert_eq!(wide.piece_on(9), Some(Piece::WhitePawn));
    // A later piece on the same square takes its place.
    let twice = ChessBoard::from_fen("8P/Q7/8/8/8/8/8/8 w");
    assert_eq!(twice.piece_on(8), Some(Piece::WhiteQueen));
    assert!(twice.is_disjoint());
}

#[test]
fn unfounded_rights_and_squares_are_dropped() {
    let no_rooks = ChessBoard::from_fen("4k3/8/8/8/8/8/8/4K3 w KQkq - 0 1");
    assert_eq!(no_rooks.get_castling_rights(), 0);
    let some = ChessBoard::from_fen("r3k3/8/8/8/8/8/8/4K2R w KQkq - 0 1");
    assert_eq!(some.get_castling_rights(), castling::WHITE_K | castling::BLACK_Q);
    let king_away = ChessBoard::from_fen("r3k2r/8/8/8/8/8/8/R2K3R w KQkq - 0 1");
    assert_eq!(king_away.get_castling_rights(), castling::BLACK_BOTH);
    let wrong_side = ChessBoard::from_fen("4k3/8/8/8/4P3/8/8/4K3 w - e3 0 1");
    assert_eq!(wrong_side.get_en_passant(), 64);
    let no_pawn = ChessBoard::from_fen("4k3/8/8/8/8/8/8/4K3 b - e3 0 1");
    assert_eq!(no_pawn.get_en_passant(), 64);
    let black_pawn = ChessBoard::from_fen("4k3/8/8/3p4/8/8/8/4K3 w - d6 0 1");
    assert_eq!(black_pawn.get_en_passant(), 19);
    let short = ChessBoard::from_fen("4k3/8/8/3p4/8/8/8/4K3 w - d 0 1");
    assert_eq!(short.get_en_passant(), 64);
    for board in [no_rooks, some, king_away, wrong_side, no_pawn, black_pawn, short] {
        assert!(board.is_valid());
    }
}

#[test]
fn the_writer_counts_empty_squares() {
    let board = ChessBoard::from_fen("r1b1kbnr/pppp1ppp/2n2q2/4p3/2B1P3/5N2/PPPP1PPP/RNBQ1RK1 b kq - 5 4");
    assert_eq!(
        board.to_fen(),
        "r1b1kbnr/pppp1ppp/2n2q2/4p3/2B1P3/5N2/PPPP1PPP/RNBQ1RK1 b kq - 0 1"
    );
    assert_eq!(ChessBoard::new().to_fen(), "8/8/8/8/8/8/8/8 w KQkq - 0 1");
    assert_eq!(ChessBoard::from_fen("").to_fen(), "8/8/8/8/8/8/8/8 w - - 0 1");
}

#[test]
fn the_writer_gives_the_en_passant_square_as_a_number() {
    let mut board = ChessBoard::starting_position();
    board.make_move(ChessMove::new_with_str("e2e4"));
    assert_eq!(
        board.to_fen(),
        "rnbqkbnr/pppppppp/8/8/4P3/8/PPPP1PPP/RNBQKBNR b KQkq 44 0 1"
    );
    let mut low = ChessBoard::from_fen("4k3/8/8/8/8/8/8/4K3 w - - 0 1");
    low.set_en_passant(7);
    assert_eq!(low.to_fen(), "4k3/8/8/8/8/8/8/4K3 w - 7 0 1");
}

#[test]
fn getters_and_setters() {
    let mut board = ChessBoard::new();
    assert!(board.get_white_to_move());
    board.set_white_to_move(false);
    assert!(!board.get_white_to_move());
    board.set_castling_rights(castling::WHITE_Q);
    assert_eq!(board.get_castling_rights(), 2);
    board.set_en_passant(20);
    assert_eq!(board.get_en_passant(), 20);
    let start = ChessBoard::starting_position();
    assert_eq!(board.get_bitboard(12), None);
    assert_eq!(start.get_bitboard(4).unwrap().to_u64(), 0x08);
    board.set_bitboard(4, start.get_bitboard(4).unwrap());
    assert_eq!(board.piece_on(60), Some(Piece::WhiteKing));
    let before = board;
    board.set_bitboard(12, start.get_bitboard(0).unwrap());
    assert_eq!(board, before);
    board.set_bitboards(*start.get_bitboards());
    assert_eq!(board.get_all_pieces(), start.get_all_pieces());
    assert_eq!(start.get_all_pieces().to_u64(), 0xffff_0000_0000_ffff);
    assert_eq!(start.get_w_pieces().to_u64(), 0x0000_0000_0000_ffff);
    assert_eq!(start.get_b_pieces().to_u64(), 0xffff_0000_0000_0000);
    let mut lifted = start;
    lifted.lift(60);
    assert_eq!(lifted.piece_on(60), None);
    lifted.put(0, Piece::WhiteQueen);
    assert_eq!(lifted.piece_on(0), Some(Piece::WhiteQueen));
    assert!(lifted.is_disjoint());
}

#[test]
fn fen_strings() {
    let mut fen = FenString::new("8/8 w - -");
    assert_eq!(fen.as_str(), "8/8 w - -");
    assert_eq!(fen.get_pieces_part(), "8/8");
    assert_eq!(fen.chars(), vec!['8', '/', '8', ' ', 'w', ' ', '-', ' ', '-']);
    fen.push('x');
    assert_eq!(fen.as_str(), "8/8 w - -x");
    fen.pop();
    fen.pop();
    assert_eq!(fen.as_str(), "8/8 w - ");
    let mut empty = FenString::new("");
    empty.pop();
    assert_eq!(empty.as_str(), "");
    assert_eq!(empty.get_pieces_part(), "");
    assert_eq!(FenString::new("rnbq").get_pieces_part(), "rnbq");
    assert_eq!(FenString::new(" w").get_pieces_part(), "");
}

#[test]
fn simple_boards() {
    let mut board = SimpleBoard::new(None);
    assert_eq!(board.as_vec_char().len(), 0);
    board.push('a');
    board.push('b');
    board.set(0, 'c');
    assert_eq!(board.as_vec_char(), &vec!['c', 'b']);
    let given = SimpleBoard::new(Some(vec!['x']));
    assert_eq!(given.as_vec_char(), &vec!['x']);
}

#[test]
fn the_board_part_written_out_and_back() {
    let start = "rnbqkbnr/pppppppp/8/8/8/8/PPPPPPPP/RNBQKBNR";
    let simple = fen_to_simple(FenString::new(start));
    let cells: String = simple.as_vec_char().iter().collect();
    assert_eq!(cells, "rnbqkbnrpppppppp................................PPPPPPPPRNBQKBNR");
    assert_eq!(simple_to_fen(simple.as_vec_char()).as_str(), start);
    let white = simple_to_bitboard(BoardType::WhiteAllPieces, &simple);
    let black = simple_to_bitboard(BoardType::BlackAllPieces, &simple);
    assert_eq!(white.to_u64(), 0x0000_0000_0000_ffff);
    assert_eq!(black.to_u64(), 0xffff_0000_0000_0000);
    let mixed = "r1b1kbnr/pppp1ppp/2n2q2/4p3/2B1P3/5N2/PPPP1PPP/RNBQ1RK1";
    assert_eq!(simple_to_fen(fen_to_simple(FenString::new(mixed)).as_vec_char()).as_str(), mixed);
    // A nought and a nine stay as they are.
    assert_eq!(fen_to_simple(FenString::new("09")).as_vec_char(), &vec!['0', '9']);
}

#[test]
fn a_move_on_the_text() {
    let start = FenString::new("rnbqkbnr/pppppppp/8/8/8/8/PPPPPPPP/RNBQKBNR");
    let after = make_a_move_testing(start, "e2e4");
    assert_eq!(after.as_str(), "rnbqkbnr/pppppppp/8/8/4P3/8/PPPP1PPP/RNBQKBNR");
    let capture = make_a_move_testing(after, "e4d7");
    assert_eq!(capture.as_str(), "rnbqkbnr/pppPpppp/8/8/8/8/PPPP1PPP/RNBQKBNR");
    let none = make_a_move_testing(capture, "z9e4");
    assert_eq!(none.as_str(), "");
    let start = FenString::new("rnbqkbnr/pppppppp/8/8/8/8/PPPPPPPP/RNBQKBNR");
    assert_eq!(make_a_move_testing(start, "e2").as_str(), "");
}

#[test]
fn rows_for_display() {
    let rows = parse_fen_pieces_to_board("rnbqkbnr/pppppppp/8/8/8/8/PPPPPPPP/RNBQKBNR");
    assert_eq!(rows.len(), 8);
    assert_eq!(rows[0], vec!['r', 'n', 'b', 'q', 'k', 'b', 'n', 'r']);
    assert_eq!(rows[2], vec!['·'; 8]);
    assert_eq!(rows[7], vec!['R', 'N', 'B', 'Q', 'K', 'B', 'N', 'R']);
    let mixed = parse_fen_pieces_to_board("2n2q2/4p3");
    assert_eq!(mixed, vec![
        vec!['·', '·', 'n', '·', '·', 'q', '·', '·'],
        vec!['·', '·', '·', '·', 'p', '·', '·', '·'],
    ]);
    assert_eq!(parse_fen_pieces_to_board(""), vec![Vec::<char>::new()]);
    assert_eq!(parse_fen_pieces_to_board("/"), vec![Vec::<char>::new(), Vec::<char>::new()]);
    assert_eq!(parse_fen_pieces_to_board("0x"), vec![vec!['x']]);
}
