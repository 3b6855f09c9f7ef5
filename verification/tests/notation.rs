use chess::helpers::{
    board_to_fen, castle_rights_to_fen, parse_counter_field, parse_en_passant_fen,
    populate_board_from_fen, square_to_tuple, tuple_to_square,
};
use chess::{Board, CastleRights, Color, Piece, PieceKind};

const START: &str = "rnbqkbnr/pppppppp/8/8/8/8/PPPPPPPP/RNBQKBNR w KQkq - 0 1";

fn rights(wk: bool, wq: bool, bk: bool, bq: bool) -> CastleRights {
    CastleRights {
        white_king_side: wk,
        white_queen_side: wq,
        black_king_side: bk,
        black_queen_side: bq,
    }
}

#[test]
fn opening_record_is_read_onto_the_right_squares() {
    let b = Board::from_fen(START).unwrap();
    assert_eq!(b.board[0][0], Some(Piece::new(PieceKind::Rook, Color::White)));
    assert_eq!(b.board[0][3], Some(Piece::new(PieceKind::Queen, Color::White)));
    assert_eq!(b.board[0][4], Some(Piece::new(PieceKind::King, Color::White)));
    assert_eq!(b.board[1][7], Some(Piece::new(PieceKind::Pawn, Color::White)));
    assert_eq!(b.board[7][3], Some(Piece::new(PieceKind::Queen, Color::Black)));
    assert_eq!(b.board[7][4], Some(Piece::new(PieceKind::King, Color::Black)));
    assert_eq!(b.board[7][6], Some(Piece::new(PieceKind::Knight, Color::Black)));
    assert_eq!(b.board[3][3], None);
    assert_eq!(b.player_turn, Color::White);
    assert_eq!(b.castle_rights, rights(true, true, true, true));
    assert_eq!(b.en_passant_square, None);
    assert_eq!(b.num_half_moves, 0);
    assert_eq!(b.num_moves, 1);
}

#[test]
fn records_are_written_as_they_were_read() {
    for fen in [
        START,
        "r3k2r/p1ppqpb1/bn2pnp1/3PN3/1p2P3/2N2Q1p/PPPBBPPP/R3K2R w KQkq - 0 1",
        "8/2p5/3p4/KP5r/1R3p1k/8/4P1P1/8 b - - 12 47",
        "rnbqkbnr/pppp1ppp/8/4p3/4P3/8/PPPP1PPP/RNBQKBNR w Kq e6 0 2",
        "8/8/8/8/8/8/8/8 w - - 0 0",
        "k6K/3P4/8/8/8/8/6rp/8 b - - 0 1",
    ] {
        let b = Board::from_fen(fen).unwrap();
        assert_eq!(b.to_fen(), fen);
        let again = Board::from_fen(&b.to_fen()).unwrap();
        assert_eq!(again.to_fen(), fen);
        assert_eq!(again.board, b.board);
    }
}

#[test]
fn counters_are_written_in_decimal() {
    let mut b = Board::from_fen(START).unwrap();
    b.num_half_moves = 0;
    b.num_moves = 1203;
    assert!(b.to_fen().ends_with(" 0 1203"));
    b.num_half_moves = 90;
    b.num_moves = usize::MAX;
    let fen = b.to_fen();
    assert!(fen.ends_with(&format!(" 90 {}", usize::MAX)));
    assert_eq!(Board::from_fen(&fen).unwrap().num_moves, usize::MAX);
}

#[test]
fn malformed_records_are_refused() {
    for fen in [
        "",
        "rnbqkbnr/pppppppp/8/8/8/8/PPPPPPPP/RNBQKBNR w KQkq - 0",
        "rnbqkbnr/pppppppp/8/8/8/8/PPPPPPPP/RNBQKBNR  w KQkq - 0 1",
        "rnbqkbnr/pppppppp/8/8/8/8/PPPPPPPP w KQkq - 0 1",
        "rnbqkbnr/pppppppp/8/8/8/8/PPPPPPPP/RNBQKBNR/8 w KQkq - 0 1",
        "rnbqkbnr/pppppppp/9/8/8/8/PPPPPPPP/RNBQKBNR w KQkq - 0 1",
        "rnbqkbnr/pppppppp/7/8/8/8/PPPPPPPP/RNBQKBNR w KQkq - 0 1",
        "rnbqkbnr/ppppppppp/8/8/8/8/PPPPPPPP/RNBQKBNR w KQkq - 0 1",
        "rnbqkbnr/pppppppp/44p/8/8/8/PPPPPPPP/RNBQKBNR w KQkq - 0 1",
        "rnbqkbnr/pppppppx/8/8/8/8/PPPPPPPP/RNBQKBNR w KQkq - 0 1",
        "rnbqkbnr/pppppppp/8/8/8/8/PPPPPPPP/RNBQKBNR x KQkq - 0 1",
        "rnbqkbnr/pppppppp/8/8/8/8/PPPPPPPP/RNBQKBNR ww KQkq - 0 1",
        "rnbqkbnr/pppppppp/8/8/8/8/PPPPPPPP/RNBQKBNR w KXkq - 0 1",
        "rnbqkbnr/pppppppp/8/8/8/8/PPPPPPPP/RNBQKBNR w KQkq - x 1",
        "rnbqkbnr/pppppppp/8/8/8/8/PPPPPPPP/RNBQKBNR w KQkq - 0 -1",
        "rnbqkbnr/pppppppp/8/8/8/8/PPPPPPPP/RNBQKBNR w KQkq - 0 99999999999999999999999999",
    ] {
        assert!(Board::from_fen(fen).is_none(), "{}", fen);
    }
}

#[test]
fn lenient_fields_are_read() {
    // A run of empty squares may be split, fields after the sixth are not
    // read, a counter may carry a plus sign and leading zeros, and an
    // en-passant field that names no square stands for none.
    let b = Board::from_fen("44/8/8/8/8/8/8/8 b -KQ none +07 012 and more").unwrap();
    assert_eq!(b.player_turn, Color::Black);
    assert_eq!(b.castle_rights, rights(false, false, false, false));
    assert_eq!(b.en_passant_square, None);
    assert_eq!(b.num_half_moves, 7);
    assert_eq!(b.num_moves, 12);
    assert_eq!(b.to_fen(), "8/8/8/8/8/8/8/8 b - - 7 12");
}

#[test]
fn placement_is_put_onto_a_board() {
    let mut grid = [[None; 8]; 8];
    assert!(populate_board_from_fen(&mut grid, "k6K/3P4/8/8/8/8/6rp/8"));
    assert_eq!(grid[7][0], Some(Piece::new(PieceKind::King, Color::Black)));
    assert_eq!(grid[7][7], Some(Piece::new(PieceKind::King, Color::White)));
    assert_eq!(grid[6][3], Some(Piece::new(PieceKind::Pawn, Color::White)));
    assert_eq!(grid[1][6], Some(Piece::new(PieceKind::Rook, Color::Black)));
    assert_eq!(grid[1][7], Some(Piece::new(PieceKind::Pawn, Color::Black)));
    assert_eq!(board_to_fen(grid), "k6K/3P4/8/8/8/8/6rp/8");
    // What stood on a square that the field passes over stays.
    assert!(populate_board_from_fen(&mut grid, "8/8/8/8/8/8/8/Q7"));
    assert_eq!(grid[0][0], Some(Piece::new(PieceKind::Queen, Color::White)));
    assert_eq!(grid[7][0], Some(Piece::new(PieceKind::King, Color::Black)));
}

#[test]
fn refused_placement_leaves_the_board_alone() {
    let mut grid = [[None; 8]; 8];
    assert!(populate_board_from_fen(&mut grid, "k6K/3P4/8/8/8/8/6rp/8"));
    let before = grid;
    assert!(!populate_board_from_fen(&mut grid, "QQQQQQQQ/8/8/8/8/8/8"));
    assert!(!populate_board_from_fen(&mut grid, "QQQQQQQQ/8/8/8/8/8/8/7"));
    assert!(!populate_board_from_fen(&mut grid, "QQQQQQQQ/8/8/8/8/8/8/8/"));
    assert!(!populate_board_from_fen(&mut grid, "QQQQQQQQQ/8/8/8/8/8/8/8"));
    assert!(!populate_board_from_fen(&mut grid, "QQQQ0QQQQ/8/8/8/8/8/8/8"));
    assert_eq!(grid, before);
}

#[test]
fn empty_placement_is_eight_eights() {
    assert_eq!(board_to_fen([[None; 8]; 8]), "8/8/8/8/8/8/8/8");
}

#[test]
fn castling_field_is_written() {
    assert_eq!(castle_rights_to_fen(&rights(true, true, true, true)), "KQkq");
    assert_eq!(castle_rights_to_fen(&rights(false, false, false, false)), "-");
    assert_eq!(castle_rights_to_fen(&rights(true, false, false, true)), "Kq");
    assert_eq!(castle_rights_to_fen(&rights(false, true, true, false)), "Qk");
}

#[test]
fn castling_field_is_read() {
    assert_eq!(CastleRights::from_fen("KQkq"), Some(rights(true, true, true, true)));
    assert_eq!(CastleRights::from_fen("-"), Some(rights(false, false, false, false)));
    assert_eq!(CastleRights::from_fen(""), Some(rights(false, false, false, false)));
    assert_eq!(CastleRights::from_fen("qK"), Some(rights(true, false, false, true)));
    assert_eq!(CastleRights::from_fen("Q-k"), Some(rights(false, true, false, false)));
    assert_eq!(CastleRights::from_fen("KQx"), None);
    assert_eq!(CastleRights::from_fen("x-"), None);
}

#[test]
fn squares_are_named() {
    assert_eq!(tuple_to_square(Some((0, 0))), "a1");
    assert_eq!(tuple_to_square(Some((2, 4))), "e3");
    assert_eq!(tuple_to_square(Some((7, 7))), "h8");
    assert_eq!(tuple_to_square(None), "-");
}

#[test]
fn square_names_are_read() {
    assert_eq!(square_to_tuple("a1"), Ok((0, 0)));
    assert_eq!(square_to_tuple("e3"), Ok((2, 4)));
    assert_eq!(square_to_tuple("H8"), Ok((7, 7)));
    assert_eq!(square_to_tuple("b7 and more"), Ok((6, 1)));
    for bad in ["", "a", "i1", "a0", "a9", "1a", "-", " a1"] {
        assert_eq!(square_to_tuple(bad), Err("Invalid Input".to_string()), "{}", bad);
    }
}

#[test]
fn square_names_come_back() {
    for row in 0..8 {
        for column in 0..8 {
            let name = tuple_to_square(Some((row, column)));
            assert_eq!(square_to_tuple(&name), Ok((row, column)));
            assert_eq!(parse_en_passant_fen(&name), Some((row, column)));
        }
    }
    assert_eq!(parse_en_passant_fen("-"), None);
    assert_eq!(parse_en_passant_fen("z9"), None);
}

#[test]
fn counter_fields_are_read() {
    assert_eq!(parse_counter_field("0"), Some(0));
    assert_eq!(parse_counter_field("100"), Some(100));
    assert_eq!(parse_counter_field("+42"), Some(42));
    assert_eq!(parse_counter_field("007"), Some(7));
    assert_eq!(parse_counter_field(&usize::MAX.to_string()), Some(usize::MAX));
    assert_eq!(parse_counter_field(&format!("{}0", usize::MAX)), None);
    assert_eq!(parse_counter_field("18446744073709551616"), "18446744073709551616".parse().ok());
    for bad in ["", "+", "-1", "1+", "++1", "12a", " 1"] {
        assert_eq!(parse_counter_field(bad), None, "{}", bad);
        assert!(bad.parse::<usize>().is_err());
    }
}
