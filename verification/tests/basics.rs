use chess::{Color, Piece, PieceKind};

#[test]
fn opposite_color_swaps_sides() {
    assert_eq!(Color::White.get_opposite_color(), Color::Black);
    assert_eq!(Color::Black.get_opposite_color(), Color::White);
}

#[test]
fn piece_new_keeps_kind_and_color() {
    let piece = Piece::new(PieceKind::Rook, Color::Black);
    assert_eq!(piece.kind, PieceKind::Rook);
    assert_eq!(piece.color, Color::Black);
}
