use chess::moves::{castle_moves, pawn_attacking_moves, pawn_moves};
use chess::{Board, Color, MoveOutcome, Piece, PieceKind, SideEffect, UserMove};

fn board(fen: &str) -> Board {
    Board::from_fen(fen).expect("a well-formed record")
}

fn request(origin: (usize, usize), destination: (usize, usize)) -> UserMove {
    UserMove::new(origin, destination, None)
}

fn has_move(board: &Board, origin: (usize, usize), destination: (usize, usize)) -> bool {
    board.valid_moves().iter().any(|m| m.origin == origin && m.destination == destination)
}

#[test]
fn double_push_sets_the_en_passant_target() {
    let mut b = board("4k3/8/8/8/3p4/8/4P3/4K3 w - - 0 1");
    assert_eq!(b.make_move(&request((1, 4), (3, 4))), MoveOutcome::Success);
    assert_eq!(b.en_passant_square, Some((2, 4)));
    assert_eq!(b.to_fen(), "4k3/8/8/8/3pP3/8/8/4K3 b - e3 0 1");
}

#[test]
fn en_passant_takes_the_pawn_from_its_landing_square() {
    let mut b = board("4k3/8/8/8/3p4/8/4P3/4K3 w - - 0 1");
    assert_eq!(b.make_move(&request((1, 4), (3, 4))), MoveOutcome::Success);
    let captures = pawn_attacking_moves(&b, &Color::Black, (3, 3));
    assert_eq!(captures.len(), 1);
    assert_eq!(captures[0].piece_move.destination, (2, 4));
    assert_eq!(
        captures[0].side_effects,
        vec![SideEffect::PawnMove, SideEffect::EnPassantTake((3, 4))]
    );
    assert_eq!(b.make_move(&request((3, 3), (2, 4))), MoveOutcome::Success);
    assert_eq!(b.board[3][4], None);
    assert_eq!(b.board[3][3], None);
    assert_eq!(b.board[2][4], Some(Piece::new(PieceKind::Pawn, Color::Black)));
    assert_eq!(b.en_passant_square, None);
    assert_eq!(b.to_fen(), "4k3/8/8/8/8/4p3/8/4K3 w - - 0 2");
}

#[test]
fn en_passant_is_gone_after_one_move() {
    let mut b = board("4k3/8/8/8/3p4/8/4P3/4K3 w - - 0 1");
    assert_eq!(b.make_move(&request((1, 4), (3, 4))), MoveOutcome::Success);
    assert_eq!(b.make_move(&request((7, 4), (7, 3))), MoveOutcome::Success);
    assert_eq!(b.en_passant_square, None);
    assert_eq!(b.make_move(&request((0, 4), (0, 3))), MoveOutcome::Success);
    assert!(!has_move(&b, (3, 3), (2, 4)));
}

#[test]
fn en_passant_target_is_read_from_the_record() {
    let b = board("4k3/8/8/8/3pP3/8/8/4K3 b - e3 0 1");
    assert_eq!(b.en_passant_square, Some((2, 4)));
    assert!(has_move(&b, (3, 3), (2, 4)));
}

#[test]
fn pawn_advances() {
    let b = board("4k3/8/8/8/8/2n5/1PP1P3/4K3 w - - 0 1");
    let free = pawn_moves(&b, &Color::White, (1, 4));
    assert_eq!(free.len(), 2);
    assert_eq!(free[0].piece_move.destination, (2, 4));
    assert_eq!(free[0].side_effects, vec![SideEffect::PawnMove]);
    assert_eq!(free[1].piece_move.destination, (3, 4));
    assert_eq!(
        free[1].side_effects,
        vec![SideEffect::PawnMove, SideEffect::DoublePawnMove((2, 4))]
    );
    // A pawn does not jump over the knight in front of it.
    assert_eq!(pawn_moves(&b, &Color::White, (1, 2)).len(), 0);
    let captures = pawn_attacking_moves(&b, &Color::White, (1, 1));
    assert_eq!(captures.len(), 1);
    assert_eq!(captures[0].piece_move.destination, (2, 2));
    assert_eq!(
        captures[0].side_effects,
        vec![
            SideEffect::PawnMove,
            SideEffect::PieceTaken(Piece::new(PieceKind::Knight, Color::Black))
        ]
    );
}

#[test]
fn pawn_does_not_take_its_own_side() {
    let b = board("4k3/8/8/8/8/2N5/1P6/4K3 w - - 0 1");
    assert_eq!(pawn_attacking_moves(&b, &Color::White, (1, 1)).len(), 0);
}

#[test]
fn pawn_on_its_last_row_has_no_move() {
    let b = board("P3k3/8/8/8/8/8/8/4K3 w - - 0 1");
    assert_eq!(pawn_moves(&b, &Color::White, (7, 0)).len(), 0);
    assert_eq!(pawn_attacking_moves(&b, &Color::White, (7, 0)).len(), 0);
}

#[test]
fn castling_king_side() {
    let mut b = board("r3k2r/8/8/8/8/8/8/R3K2R w KQkq - 0 1");
    let moves = castle_moves(&b, &Color::White, (0, 4));
    assert_eq!(moves.len(), 2);
    assert_eq!(moves[0].piece_move.destination, (0, 6));
    assert_eq!(moves[0].side_effects, vec![SideEffect::Castle((0, 7), (0, 5), Color::White)]);
    assert_eq!(moves[1].piece_move.destination, (0, 2));
    assert_eq!(moves[1].side_effects, vec![SideEffect::Castle((0, 0), (0, 3), Color::White)]);
    assert_eq!(b.make_move(&request((0, 4), (0, 6))), MoveOutcome::Success);
    assert_eq!(b.board[0][6], Some(Piece::new(PieceKind::King, Color::White)));
    assert_eq!(b.board[0][5], Some(Piece::new(PieceKind::Rook, Color::White)));
    assert_eq!(b.board[0][4], None);
    assert_eq!(b.board[0][7], None);
    assert!(!b.castle_rights.white_king_side);
    assert!(!b.castle_rights.white_queen_side);
    assert!(b.castle_rights.black_king_side);
    assert!(b.castle_rights.black_queen_side);
    assert_eq!(b.to_fen(), "r3k2r/8/8/8/8/8/8/R4RK1 b kq - 1 1");
}

#[test]
fn castling_queen_side_for_black() {
    let mut b = board("r3k2r/8/8/8/8/8/8/R3K2R b KQkq - 0 1");
    assert_eq!(b.make_move(&request((7, 4), (7, 2))), MoveOutcome::Success);
    assert_eq!(b.board[7][2], Some(Piece::new(PieceKind::King, Color::Black)));
    assert_eq!(b.board[7][3], Some(Piece::new(PieceKind::Rook, Color::Black)));
    assert_eq!(b.board[7][0], None);
    assert!(!b.castle_rights.black_king_side);
    assert!(!b.castle_rights.black_queen_side);
    assert_eq!(b.to_fen(), "2kr3r/8/8/8/8/8/8/R3K2R w KQ - 1 2");
}

#[test]
fn castling_needs_the_right() {
    let b = board("r3k2r/8/8/8/8/8/8/R3K2R w Qkq - 0 1");
    assert!(!has_move(&b, (0, 4), (0, 6)));
    assert!(has_move(&b, (0, 4), (0, 2)));
    let none = board("r3k2r/8/8/8/8/8/8/R3K2R w - - 0 1");
    assert_eq!(castle_moves(&none, &Color::White, (0, 4)).len(), 0);
}

#[test]
fn castling_needs_empty_squares_between() {
    let b = board("r3k2r/8/8/8/8/8/8/RN2K1NR w KQkq - 0 1");
    assert_eq!(castle_moves(&b, &Color::White, (0, 4)).len(), 0);
    // On the queen's side the square next to the rook counts too.
    let c = board("r3k2r/8/8/8/8/8/8/R3KB1R w KQkq - 0 1");
    let moves = castle_moves(&c, &Color::White, (0, 4));
    assert_eq!(moves.len(), 1);
    assert_eq!(moves[0].piece_move.destination, (0, 2));
}

#[test]
fn castling_is_refused_through_an_attacked_square() {
    // The rook on f8 attacks f1, which the king would pass.
    let b = board("4kr2/8/8/8/8/8/8/R3K2R w KQ - 0 1");
    assert!(!has_move(&b, (0, 4), (0, 6)));
    assert!(has_move(&b, (0, 4), (0, 2)));
    // The rook on g8 attacks g1, on which the king would land.
    let c = board("4k1r1/8/8/8/8/8/8/R3K2R w KQ - 0 1");
    assert!(!has_move(&c, (0, 4), (0, 6)));
    assert!(has_move(&c, (0, 4), (0, 2)));
}

#[test]
fn castling_is_refused_out_of_check() {
    let b = board("4r1k1/8/8/8/8/8/8/R3K2R w KQ - 0 1");
    assert_eq!(castle_moves(&b, &Color::White, (0, 4)).len(), 0);
}

#[test]
fn castling_queen_side_is_allowed_with_the_rooks_neighbour_attacked() {
    // The rook on b8 attacks b1, which the king does not touch.
    let b = board("1r2k3/8/8/8/8/8/8/R3K3 w Q - 0 1");
    assert!(has_move(&b, (0, 4), (0, 2)));
}

#[test]
fn castling_is_only_offered_from_the_home_square() {
    let b = board("r3k2r/8/8/8/8/8/8/R3K2R w KQkq - 0 1");
    assert_eq!(castle_moves(&b, &Color::White, (0, 3)).len(), 0);
    assert_eq!(castle_moves(&b, &Color::Black, (7, 4)).len(), 2);
}

#[test]
fn king_move_gives_up_both_rights() {
    let mut b = board("r3k2r/8/8/8/8/8/8/R3K2R w KQkq - 0 1");
    assert_eq!(b.make_move(&request((0, 4), (1, 4))), MoveOutcome::Success);
    assert_eq!(b.to_fen(), "r3k2r/8/8/8/8/8/4K3/R6R b kq - 1 1");
}

#[test]
fn rook_move_gives_up_its_own_right() {
    let mut b = board("r3k2r/8/8/8/8/8/8/R3K2R w KQkq - 0 1");
    assert_eq!(b.make_move(&request((0, 7), (0, 6))), MoveOutcome::Success);
    assert_eq!(b.to_fen(), "r3k2r/8/8/8/8/8/8/R3K1R1 b Qkq - 1 1");
    assert_eq!(b.make_move(&request((7, 0), (7, 1))), MoveOutcome::Success);
    assert_eq!(b.to_fen(), "1r2k2r/8/8/8/8/8/8/R3K1R1 w Qk - 2 2");
}

#[test]
fn promotion_without_a_choice_is_refused() {
    let mut b = board("8/4P3/8/8/8/8/8/k6K w - - 0 1");
    let before = b.to_fen();
    assert_eq!(b.make_move(&request((6, 4), (7, 4))), MoveOutcome::PromotionNotProvided);
    assert_eq!(b.to_fen(), before);
}

#[test]
fn promotion_to_a_king_or_a_pawn_is_refused() {
    let mut b = board("8/4P3/8/8/8/8/8/k6K w - - 0 1");
    let before = b.to_fen();
    assert_eq!(
        b.make_move(&UserMove::new((6, 4), (7, 4), Some(PieceKind::King))),
        MoveOutcome::InvalidPromotion(PieceKind::King)
    );
    assert_eq!(
        b.make_move(&UserMove::new((6, 4), (7, 4), Some(PieceKind::Pawn))),
        MoveOutcome::InvalidPromotion(PieceKind::Pawn)
    );
    assert_eq!(b.to_fen(), before);
}

#[test]
fn promotion_to_a_queen_is_made() {
    let mut b = board("8/4P3/8/8/8/8/8/k6K w - - 0 1");
    assert_eq!(
        b.make_move(&UserMove::new((6, 4), (7, 4), Some(PieceKind::Queen))),
        MoveOutcome::Success
    );
    assert_eq!(b.board[7][4], Some(Piece::new(PieceKind::Queen, Color::White)));
    assert_eq!(b.board[6][4], None);
    assert_eq!(b.to_fen(), "4Q3/8/8/8/8/8/8/k6K b - - 0 1");
}

#[test]
fn promotion_by_capture_for_black() {
    let mut b = board("k6K/8/8/8/8/8/6p1/5R2 b - - 3 9");
    let captures = pawn_attacking_moves(&b, &Color::Black, (1, 6));
    assert_eq!(captures.len(), 1);
    assert_eq!(
        captures[0].side_effects,
        vec![
            SideEffect::PawnMove,
            SideEffect::Promotion,
            SideEffect::PieceTaken(Piece::new(PieceKind::Rook, Color::White))
        ]
    );
    assert_eq!(
        b.make_move(&UserMove::new((1, 6), (0, 5), Some(PieceKind::Knight))),
        MoveOutcome::Success
    );
    assert_eq!(b.board[0][5], Some(Piece::new(PieceKind::Knight, Color::Black)));
    assert_eq!(b.to_fen(), "k6K/8/8/8/8/8/8/5n2 w - - 0 10");
}

#[test]
fn pinned_pawn_may_not_promote() {
    // The pawn on b7 shields its king on a7 from the rook on h7.
    let pinned = board("8/KP5r/8/8/8/8/8/k7 w - - 0 1");
    assert!(!has_move(&pinned, (6, 1), (7, 1)));
    let free = board("8/KP6/8/8/8/8/7r/k7 w - - 0 1");
    assert!(has_move(&free, (6, 1), (7, 1)));
}

#[test]
fn promotion_may_answer_a_check() {
    // The rook on a8 gives check; the pawn on b7 may take it and promote.
    let mut b = board("r7/1P6/8/8/8/8/8/K6k w - - 0 1");
    assert!(has_move(&b, (6, 1), (7, 0)));
    assert!(!has_move(&b, (6, 1), (7, 1)));
    assert_eq!(
        b.make_move(&UserMove::new((6, 1), (7, 0), Some(PieceKind::Bishop))),
        MoveOutcome::Success
    );
    assert_eq!(b.board[7][0], Some(Piece::new(PieceKind::Bishop, Color::White)));
}

#[test]
fn a_choice_is_ignored_where_nothing_is_promoted() {
    let mut b = board("4k3/8/8/8/8/8/4P3/4K3 w - - 0 1");
    assert_eq!(
        b.make_move(&UserMove::new((1, 4), (2, 4), Some(PieceKind::King))),
        MoveOutcome::Success
    );
    assert_eq!(b.board[2][4], Some(Piece::new(PieceKind::Pawn, Color::White)));
}
