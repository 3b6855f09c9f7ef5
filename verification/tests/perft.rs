use chess::{Board, MoveOutcome, PieceKind, UserMove};

/// The number of lines of play of the given length, a promotion counting
/// once whatever the piece.
fn lines_of_play(board: &Board, depth: usize) -> u64 {
    if depth == 0 {
        return 1;
    }
    let mut count = 0;
    for m in board.valid_moves() {
        let mut next = *board;
        let mut outcome = next.make_move(&UserMove::new(m.origin, m.destination, None));
        if outcome == MoveOutcome::PromotionNotProvided {
            let choice = Some(PieceKind::Queen);
            outcome = next.make_move(&UserMove::new(m.origin, m.destination, choice));
        }
        assert_eq!(outcome, MoveOutcome::Success);
        count += lines_of_play(&next, depth - 1);
    }
    count
}

#[test]
fn lines_of_play_from_the_opening_position() {
    let b = Board::from_fen("rnbqkbnr/pppppppp/8/8/8/8/PPPPPPPP/RNBQKBNR w KQkq - 0 1").unwrap();
    assert_eq!(lines_of_play(&b, 1), 20);
    assert_eq!(lines_of_play(&b, 2), 400);
    assert_eq!(lines_of_play(&b, 3), 8902);
}

#[test]
fn lines_of_play_from_a_middle_game() {
    let b = Board::from_fen(
        "r3k2r/p1ppqpb1/bn2pnp1/3PN3/1p2P3/2N2Q1p/PPPBBPPP/R3K2R w KQkq - 0 1",
    )
    .unwrap();
    assert_eq!(lines_of_play(&b, 1), 48);
    assert_eq!(lines_of_play(&b, 2), 2039);
}

#[test]
fn lines_of_play_from_an_end_game_with_en_passant() {
    let b = Board::from_fen("8/2p5/3p4/KP5r/1R3p1k/8/4P1P1/8 w - - 0 1").unwrap();
    assert_eq!(lines_of_play(&b, 1), 14);
    assert_eq!(lines_of_play(&b, 2), 191);
    assert_eq!(lines_of_play(&b, 3), 2812);
}
