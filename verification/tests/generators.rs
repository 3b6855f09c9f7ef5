use chess::helpers::{contains_square, get_move_from_vec, move_causes_check_on_self};
use chess::moves::{bishop_moves, king_moves, knight_moves, queen_moves, rook_moves};
use chess::{
    Board, Color, Move, MoveOutcome, Piece, PieceKind, RookType, SideEffect, UserMove,
};

fn board(fen: &str) -> Board {
    Board::from_fen(fen).expect("a well-formed record")
}

fn destinations(moves: &[Move]) -> Vec<(usize, usize)> {
    moves.iter().map(|m| m.piece_move.destination).collect()
}

#[test]
fn knight_in_the_middle_has_eight_jumps() {
    let b = board("4k3/8/8/8/3N4/8/8/4K3 w - - 0 1");
    let moves = knight_moves(&b, &Color::White, (3, 3));
    assert_eq!(
        destinations(&moves),
        vec![(5, 4), (5, 2), (1, 4), (1, 2), (4, 5), (4, 1), (2, 5), (2, 1)]
    );
    for m in &moves {
        assert_eq!(m.piece_move.origin, (3, 3));
        assert_eq!(m.piece_move.promotion_request, None);
        assert!(m.side_effects.is_empty());
    }
}

#[test]
fn knight_in_the_corner_takes_and_is_blocked() {
    let b = board("4k3/8/8/8/8/1p6/2P5/N3K3 w - - 0 1");
    let moves = knight_moves(&b, &Color::White, (0, 0));
    assert_eq!(destinations(&moves), vec![(2, 1)]);
    assert_eq!(
        moves[0].side_effects,
        vec![SideEffect::PieceTaken(Piece::new(PieceKind::Pawn, Color::Black))]
    );
}

#[test]
fn king_steps_are_tagged() {
    let b = board("4k3/8/8/8/8/8/3p4/4K3 w - - 0 1");
    let moves = king_moves(&b, &Color::White, (0, 4));
    assert_eq!(destinations(&moves), vec![(0, 5), (1, 5), (1, 4), (1, 3), (0, 3)]);
    assert_eq!(moves[0].side_effects, vec![SideEffect::KingMove(Color::White)]);
    assert_eq!(
        moves[3].side_effects,
        vec![
            SideEffect::KingMove(Color::White),
            SideEffect::PieceTaken(Piece::new(PieceKind::Pawn, Color::Black))
        ]
    );
}

#[test]
fn rook_stops_at_the_first_piece() {
    let b = board("4k3/8/8/3p4/8/8/8/3RK3 w - - 0 1");
    let moves = rook_moves(&b, &Color::White, (0, 3));
    // Up the file to the pawn, which it takes; then towards the a-file.
    assert_eq!(
        destinations(&moves),
        vec![(1, 3), (2, 3), (3, 3), (4, 3), (0, 2), (0, 1), (0, 0)]
    );
    assert_eq!(
        moves[3].side_effects,
        vec![SideEffect::PieceTaken(Piece::new(PieceKind::Pawn, Color::Black))]
    );
    assert!(moves[0].side_effects.is_empty());
}

#[test]
fn rook_from_its_corner_is_tagged_with_the_corner() {
    let b = board("r3k2r/8/8/8/8/8/8/R3K2R w KQkq - 0 1");
    let corners = [
        (Color::White, (0, 0), RookType::WhiteQueenSide),
        (Color::White, (0, 7), RookType::WhiteKingSide),
        (Color::Black, (7, 0), RookType::BlackQueenSide),
        (Color::Black, (7, 7), RookType::BlackKingSide),
    ];
    for (color, origin, corner) in corners {
        let moves = rook_moves(&b, &color, origin);
        assert!(!moves.is_empty());
        for m in &moves {
            assert_eq!(m.side_effects[0], SideEffect::InitialRookMove(corner));
        }
    }
    // Three moves along the rank, then seven up the a-file, the last of which
    // takes the rook on a8.
    let moves = rook_moves(&b, &Color::White, (0, 0));
    assert_eq!(moves.len(), 10);
    assert_eq!(moves[9].piece_move.destination, (7, 0));
    assert_eq!(
        moves[9].side_effects,
        vec![
            SideEffect::InitialRookMove(RookType::WhiteQueenSide),
            SideEffect::PieceTaken(Piece::new(PieceKind::Rook, Color::Black))
        ]
    );
}

#[test]
fn bishop_goes_along_all_four_diagonals() {
    let b = board("4k3/8/8/8/3B4/8/8/4K3 w - - 0 1");
    let moves = bishop_moves(&b, &Color::White, (3, 3));
    assert_eq!(
        destinations(&moves),
        vec![
            (2, 2),
            (1, 1),
            (0, 0),
            (4, 4),
            (5, 5),
            (6, 6),
            (7, 7),
            (4, 2),
            (5, 1),
            (6, 0),
            (2, 4),
            (1, 5),
            (0, 6)
        ]
    );
}

#[test]
fn bishop_does_not_pass_an_enemy_piece() {
    let b = board("4k3/8/8/4p3/3B4/8/8/4K3 w - - 0 1");
    let moves = bishop_moves(&b, &Color::White, (3, 3));
    assert!(destinations(&moves).contains(&(4, 4)));
    assert!(!destinations(&moves).contains(&(5, 5)));
}

#[test]
fn queen_on_an_empty_board_has_twenty_seven_moves() {
    let b = board("8/8/8/8/3Q4/8/8/8 w - - 0 1");
    let moves = queen_moves(&b, &Color::White, (3, 3));
    assert_eq!(moves.len(), 27);
    // From the corner the diagonal ends before the queen on d4.
    let corner = queen_moves(&b, &Color::White, (0, 0));
    assert_eq!(corner.len(), 7 + 2 + 7);
}

#[test]
fn first_matching_move_is_found() {
    let b = board("4k3/8/8/8/3N4/8/8/4K3 w - - 0 1");
    let moves = knight_moves(&b, &Color::White, (3, 3));
    let found = get_move_from_vec(moves, &UserMove::new((3, 3), (1, 2), Some(PieceKind::Queen)));
    let m = found.expect("the move is among them");
    assert_eq!(m.piece_move, UserMove::new((3, 3), (1, 2), None));
    let moves = knight_moves(&b, &Color::White, (3, 3));
    let missing = get_move_from_vec(moves, &UserMove::new((3, 3), (3, 4), None));
    assert_eq!(
        missing.err(),
        Some(MoveOutcome::InvalidMove("D4 to E4 is not a valid move.".to_string()))
    );
}

#[test]
fn exposing_the_king_is_seen() {
    let b = board("4r1k1/8/8/8/8/8/4N3/4K3 w - - 0 1");
    let before = b.to_fen();
    for m in knight_moves(&b, &Color::White, (1, 4)) {
        assert!(move_causes_check_on_self(b, &m));
    }
    for m in king_moves(&b, &Color::White, (0, 4)) {
        assert!(!move_causes_check_on_self(b, &m));
    }
    assert_eq!(b.to_fen(), before);
}

#[test]
fn executor_applies_a_move_without_passing_the_turn() {
    let mut b = board("4k3/8/8/8/3N4/8/8/4K3 w - - 4 9");
    let m = Move::new((3, 3), (5, 4), vec![]);
    assert_eq!(b.handle_move(&m), MoveOutcome::Success);
    assert_eq!(b.board[5][4], Some(Piece::new(PieceKind::Knight, Color::White)));
    assert_eq!(b.board[3][3], None);
    assert_eq!(b.player_turn, Color::White);
    assert_eq!((b.num_half_moves, b.num_moves), (5, 9));
}

#[test]
fn executor_refuses_a_promotion_before_it_changes_anything() {
    let mut b = board("3r4/4P3/8/8/8/8/8/k6K w - - 4 9");
    let before = b.to_fen();
    let mut m = Move::new(
        (6, 4),
        (7, 3),
        vec![
            SideEffect::PawnMove,
            SideEffect::PieceTaken(Piece::new(PieceKind::Rook, Color::Black)),
            SideEffect::Promotion,
        ],
    );
    assert_eq!(b.handle_move(&m), MoveOutcome::PromotionNotProvided);
    assert_eq!(b.to_fen(), before);
    m.piece_move.promotion_request = Some(PieceKind::Pawn);
    assert_eq!(b.handle_move(&m), MoveOutcome::InvalidPromotion(PieceKind::Pawn));
    assert_eq!(b.to_fen(), before);
    m.piece_move.promotion_request = Some(PieceKind::Rook);
    assert_eq!(b.handle_move(&m), MoveOutcome::Success);
    assert_eq!(b.to_fen(), "3R4/8/8/8/8/8/8/k6K w - - 0 9");
}

#[test]
fn squares_are_found_in_a_list() {
    let squares = vec![(0, 1), (5, 5)];
    assert!(contains_square(&squares, (5, 5)));
    assert!(!contains_square(&squares, (1, 0)));
}
