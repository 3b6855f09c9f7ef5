use chess::frontend::{handle_move_input, piece_char_symbol, render};
use chess::{Board, Color, Piece, PieceKind, UserMove};

#[test]
fn two_words_ask_for_a_move() {
    assert_eq!(handle_move_input(&vec!["A2", "a4\n"]), Ok(UserMove::new((1, 0), (3, 0), None)));
    assert_eq!(handle_move_input(&vec!["\th8", " \n g1"]), Ok(UserMove::new((7, 7), (0, 6), None)));
}

#[test]
fn three_words_ask_for_a_promotion() {
    for (word, kind) in [
        ("q\n", Some(PieceKind::Queen)),
        ("Rook", Some(PieceKind::Rook)),
        ("b", Some(PieceKind::Bishop)),
        ("N", Some(PieceKind::Knight)),
        ("k", None),
        ("", None),
        ("\n", None),
    ] {
        assert_eq!(
            handle_move_input(&vec!["e7", "e8", word]),
            Ok(UserMove::new((6, 4), (7, 4), kind)),
            "{:?}",
            word
        );
    }
}

#[test]
fn other_input_is_invalid() {
    let invalid = Err("Invalid Input".to_string());
    assert_eq!(handle_move_input(&vec![]), invalid);
    assert_eq!(handle_move_input(&vec!["a2"]), invalid);
    assert_eq!(handle_move_input(&vec!["a2", "a3", "q", "x"]), invalid);
    assert_eq!(handle_move_input(&vec!["a2", "a9"]), invalid);
    assert_eq!(handle_move_input(&vec!["j2", "a3"]), invalid);
    assert_eq!(handle_move_input(&vec![" a2", "a3", "q"]), invalid);
    assert_eq!(handle_move_input(&vec!["a2", "", "q"]), invalid);
}

#[test]
fn pieces_have_figurines() {
    assert_eq!(piece_char_symbol(&Piece::new(PieceKind::King, Color::White)), '♔');
    assert_eq!(piece_char_symbol(&Piece::new(PieceKind::Queen, Color::White)), '♕');
    assert_eq!(piece_char_symbol(&Piece::new(PieceKind::Rook, Color::White)), '♖');
    assert_eq!(piece_char_symbol(&Piece::new(PieceKind::Bishop, Color::White)), '♗');
    assert_eq!(piece_char_symbol(&Piece::new(PieceKind::Knight, Color::White)), '♘');
    assert_eq!(piece_char_symbol(&Piece::new(PieceKind::Pawn, Color::White)), '♙');
    assert_eq!(piece_char_symbol(&Piece::new(PieceKind::King, Color::Black)), '♚');
    assert_eq!(piece_char_symbol(&Piece::new(PieceKind::Queen, Color::Black)), '♛');
    assert_eq!(piece_char_symbol(&Piece::new(PieceKind::Rook, Color::Black)), '♜');
    assert_eq!(piece_char_symbol(&Piece::new(PieceKind::Bishop, Color::Black)), '♝');
    assert_eq!(piece_char_symbol(&Piece::new(PieceKind::Knight, Color::Black)), '♞');
    assert_eq!(piece_char_symbol(&Piece::new(PieceKind::Pawn, Color::Black)), '♟');
}

#[test]
fn board_is_drawn_from_the_eighth_rank_down() {
    let b = Board::from_fen("rnbqkbnr/pppppppp/8/8/8/8/PPPPPPPP/RNBQKBNR w KQkq - 0 1").unwrap();
    let expected = concat_lines(&[
        " 8  ♜  ♞  ♝  ♛  ♚  ♝  ♞  ♜ ",
        " 7  ♟  ♟  ♟  ♟  ♟  ♟  ♟  ♟ ",
        " 6  ·  ·  ·  ·  ·  ·  ·  · ",
        " 5  ·  ·  ·  ·  ·  ·  ·  · ",
        " 4  ·  ·  ·  ·  ·  ·  ·  · ",
        " 3  ·  ·  ·  ·  ·  ·  ·  · ",
        " 2  ♙  ♙  ♙  ♙  ♙  ♙  ♙  ♙ ",
        " 1  ♖  ♘  ♗  ♕  ♔  ♗  ♘  ♖ ",
        "    A  B  C  D  E  F  G  H ",
    ]);
    assert_eq!(render(&b), expected);
}

fn concat_lines(lines: &[&str]) -> String {
    let mut text = String::new();
    for line in lines {
        text.push_str(line);
        text.push('\n');
    }
    text
}
