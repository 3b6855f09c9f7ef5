//! The rules over the model of a position: which moves the side to move
//! may try, which of them are legal, and how the game stands.

use vstd::prelude::*;
use crate::helpers::in_check;
use crate::models::{on_board, GameStatus, MoveView, PieceKind, Square, ValidMove};
use crate::moves::{
    all_wf, base_effects, bishop_directions, bishop_moves_spec, castle_moves_spec,
    effects_on_board, king_moves_spec, knight_moves_spec, knight_offsets, lemma_castle_moves_wf,
    lemma_leaper_moves_wf, lemma_pawn_moves_wf, lemma_slider_moves_wf, pawn_attacking_moves_spec,
    pawn_moves_spec, queen_moves_spec, rook_corner, rook_directions, rook_moves_spec,
    royal_offsets,
};
use crate::position::{carry_out, Position};

verus! {

/// The candidate moves of the piece on `origin`, where it belongs to the side
/// to move: a king's steps and then its castling moves, a pawn's advances and
/// then its captures.
pub open spec fn moves_from(pos: Position, origin: Square) -> Seq<MoveView> {
    match pos.at(origin) {
        Some(piece) => if piece.color == pos.turn {
            match piece.kind {
                PieceKind::King => king_moves_spec(pos.pieces, pos.turn, origin)
                    + castle_moves_spec(pos, pos.turn, origin),
                PieceKind::Queen => queen_moves_spec(pos.pieces, pos.turn, origin),
                PieceKind::Rook => rook_moves_spec(pos.pieces, pos.turn, origin),
                PieceKind::Bishop => bishop_moves_spec(pos.pieces, pos.turn, origin),
                PieceKind::Knight => knight_moves_spec(pos.pieces, pos.turn, origin),
                PieceKind::Pawn => pawn_moves_spec(pos.pieces, pos.turn, origin)
                    + pawn_attacking_moves_spec(pos.pieces, pos.en_passant, pos.turn, origin),
            }
        } else {
            Seq::empty()
        },
        None => Seq::empty(),
    }
}

/// The candidate moves from the squares that come before `(row, column)`
/// when the board is walked row by row, each row from column 0.
pub open spec fn moves_before(pos: Position, row: int, column: int) -> Seq<MoveView>
    decreases row, column,
{
    if row < 0 || column < 0 || (row == 0 && column == 0) {
        Seq::empty()
    } else if column == 0 {
        moves_before(pos, row - 1, 8)
    } else {
        moves_before(pos, row, column - 1) + moves_from(
            pos,
            (row as usize, (column - 1) as usize),
        )
    }
}

/// The pseudo-legal moves of the side to move: the candidate moves of all
/// its pieces, whether or not they leave its king attacked.
pub open spec fn pseudo_legal_moves(pos: Position) -> Seq<MoveView> {
    moves_before(pos, 8, 0)
}

/// Whether the move `m` leaves the king of the side that makes it attacked.
/// The move is tried with a queen for its promotion choice: the choice has
/// no part in whether the king is attacked.
pub open spec fn exposes_king(pos: Position, m: MoveView) -> bool {
    in_check(carry_out(pos, m.with_request(Some(PieceKind::Queen))).pos)
}

/// Those of `moves`, in order, that do not leave the mover's king attacked.
pub open spec fn safe_moves(pos: Position, moves: Seq<MoveView>) -> Seq<MoveView>
    decreases moves.len(),
{
    if moves.len() == 0 {
        Seq::empty()
    } else if exposes_king(pos, moves.last()) {
        safe_moves(pos, moves.drop_last())
    } else {
        safe_moves(pos, moves.drop_last()).push(moves.last())
    }
}

/// The legal moves of the side to move: its pseudo-legal moves, less those
/// that leave its king attacked.
pub open spec fn legal_moves(pos: Position) -> Seq<MoveView> {
    safe_moves(pos, pseudo_legal_moves(pos))
}

/// Origin and destination of each move of `moves`.
pub open spec fn endpoints(moves: Seq<MoveView>) -> Seq<ValidMove> {
    Seq::new(
        moves.len(),
        |i: int| ValidMove { origin: moves[i].origin, destination: moves[i].destination },
    )
}

/// How the game stands: with no legal move it is checkmate, won by the
/// other side, where the side to move is in check, and a draw by stalemate
/// where it is not; with a legal move it is a draw once the half-move clock
/// has reached 100, and else goes on.
pub open spec fn status(pos: Position) -> GameStatus {
    if legal_moves(pos).len() == 0 {
        if in_check(pos) {
            GameStatus::Checkmate(pos.turn.opposite())
        } else {
            GameStatus::Draw
        }
    } else if pos.half_moves >= 100 {
        GameStatus::Draw
    } else {
        GameStatus::Ongoing
    }
}

/// The first of `moves` that goes from `origin` to `destination`.
pub open spec fn find_move(moves: Seq<MoveView>, origin: Square, destination: Square) -> Option<
    MoveView,
>
    decreases moves.len(),
{
    if moves.len() == 0 {
        None
    } else if moves.first().origin == origin && moves.first().destination == destination {
        Some(moves.first())
    } else {
        find_move(moves.drop_first(), origin, destination)
    }
}

/// The candidate moves of a piece on the board name squares of the board
/// only.
pub proof fn lemma_moves_from_wf(pos: Position, origin: Square)
    requires
        on_board(origin),
    ensures
        all_wf(moves_from(pos, origin)),
{
    if let Some(piece) = pos.at(origin) {
        if piece.color == pos.turn {
            let color = pos.turn;
            let none = Seq::<crate::models::SideEffect>::empty();
            match piece.kind {
                PieceKind::King => {
                    let base = seq![crate::models::SideEffect::KingMove(color)];
                    assert(effects_on_board(base));
                    lemma_leaper_moves_wf(pos.pieces, color, origin, royal_offsets(), base);
                    lemma_castle_moves_wf(pos, color, origin);
                },
                PieceKind::Queen => {
                    lemma_slider_moves_wf(pos.pieces, color, origin, royal_offsets(), none);
                },
                PieceKind::Rook => {
                    let base = base_effects(rook_corner(color, origin));
                    assert(effects_on_board(base));
                    lemma_slider_moves_wf(pos.pieces, color, origin, rook_directions(), base);
                },
                PieceKind::Bishop => {
                    lemma_slider_moves_wf(pos.pieces, color, origin, bishop_directions(), none);
                },
                PieceKind::Knight => {
                    lemma_leaper_moves_wf(pos.pieces, color, origin, knight_offsets(), none);
                },
                PieceKind::Pawn => {
                    lemma_pawn_moves_wf(pos.pieces, pos.en_passant, color, origin);
                },
            }
        }
    }
}

/// The candidate moves gathered on the way over the board name squares of
/// the board only.
pub proof fn lemma_moves_before_wf(pos: Position, row: int, column: int)
    requires
        0 <= row <= 8,
        0 <= column <= 8,
        row == 8 ==> column == 0,
    ensures
        all_wf(moves_before(pos, row, column)),
    decreases row, column,
{
    if row == 0 && column == 0 {
    } else if column == 0 {
        lemma_moves_before_wf(pos, row - 1, 8);
    } else {
        lemma_moves_before_wf(pos, row, column - 1);
        lemma_moves_from_wf(pos, (row as usize, (column - 1) as usize));
    }
}

/// Every pseudo-legal move names squares of the board only.
pub proof fn lemma_pseudo_legal_moves_wf(pos: Position)
    ensures
        all_wf(pseudo_legal_moves(pos)),
{
    lemma_moves_before_wf(pos, 8, 0);
}

} // verus!
