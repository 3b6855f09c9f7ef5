//! The mathematical model of a position, over which the rules are stated.

use vstd::prelude::*;
use crate::models::{
    on_board, CastleRights, Color, MoveOutcomeView, MoveView, Piece, PieceKind, SideEffect, Square,
};

verus! {

/// A position as a mathematical value: the occupied squares with their
/// pieces, the side to move, the castling rights, the en-passant target and
/// the two counters.
pub struct Position {
    /// The piece on each occupied square; an empty square is absent.
    pub pieces: Map<Square, Piece>,
    pub turn: Color,
    pub castle_rights: CastleRights,
    /// The square that a pawn passed over in the double step just made.
    pub en_passant: Option<Square>,
    /// Half-moves since the last pawn move or capture.
    pub half_moves: nat,
    /// The number of the full move, which grows after each move of Black.
    pub moves: nat,
}

/// What stands on `sq` among `pieces`.
pub open spec fn piece_on(pieces: Map<Square, Piece>, sq: Square) -> Option<Piece> {
    if pieces.dom().contains(sq) {
        Some(pieces[sq])
    } else {
        None
    }
}

impl Position {
    /// What stands on `sq`.
    pub open spec fn at(self, sq: Square) -> Option<Piece> {
        piece_on(self.pieces, sq)
    }

    /// The position with `content` on `sq`.
    pub open spec fn put(self, sq: Square, content: Option<Piece>) -> Position {
        match content {
            Some(piece) => Position { pieces: self.pieces.insert(sq, piece), ..self },
            None => Position { pieces: self.pieces.remove(sq), ..self },
        }
    }

    /// The position after whatever stands on `origin` has gone to
    /// `destination`; nothing changes where `origin` is empty.
    pub open spec fn relocate(self, origin: Square, destination: Square) -> Position {
        match self.at(origin) {
            Some(piece) => self.put(destination, Some(piece)).put(origin, None),
            None => self,
        }
    }

    /// Every piece stands on the board, the en-passant target is a square of
    /// the board, and the counters fit the machine's word.
    pub open spec fn wf(self) -> bool {
        &&& forall|sq: Square| #[trigger] self.pieces.dom().contains(sq) ==> on_board(sq)
        &&& self.en_passant matches Some(sq) ==> on_board(sq)
        &&& self.half_moves <= usize::MAX
        &&& self.moves <= usize::MAX
    }
}

/// Where the executor stands while it works through a move's side effects:
/// the position so far, and what the effects have asked for.
pub struct Progress {
    pub pos: Position,
    /// A pawn moved or a piece was taken: the half-move clock starts again.
    pub reset_clock: bool,
    /// A pawn made its double step: the en-passant target stays.
    pub double_push: bool,
    /// The pawn was replaced on the destination: nothing is left to relocate.
    pub promoted: bool,
}

/// Why the move cannot be applied as far as promotion goes, if so: it
/// promotes a pawn, and the request names no piece, or a king or a pawn.
pub open spec fn promotion_verdict(m: MoveView) -> Option<MoveOutcomeView> {
    if !m.has_effect(SideEffect::Promotion) {
        None
    } else {
        match m.promotion_request {
            None => Some(MoveOutcomeView::PromotionNotProvided),
            Some(PieceKind::King) => Some(MoveOutcomeView::InvalidPromotion(PieceKind::King)),
            Some(PieceKind::Pawn) => Some(MoveOutcomeView::InvalidPromotion(PieceKind::Pawn)),
            Some(_) => None,
        }
    }
}

/// What one side effect of the move `m` does.
pub open spec fn apply_effect(progress: Progress, m: MoveView, effect: SideEffect) -> Progress {
    let pos = progress.pos;
    match effect {
        SideEffect::EnPassantTake(pawn_square) => Progress {
            pos: pos.put(pawn_square, None),
            ..progress
        },
        SideEffect::DoublePawnMove(passed) => Progress {
            pos: Position { en_passant: Some(passed), ..pos },
            reset_clock: true,
            double_push: true,
            ..progress
        },
        SideEffect::Castle(rook_origin, rook_destination, color) => Progress {
            pos: Position {
                castle_rights: pos.castle_rights.without(color),
                ..pos.relocate(rook_origin, rook_destination)
            },
            ..progress
        },
        SideEffect::KingMove(color) => Progress {
            pos: Position { castle_rights: pos.castle_rights.without(color), ..pos },
            ..progress
        },
        SideEffect::InitialRookMove(corner) => Progress {
            pos: Position { castle_rights: pos.castle_rights.without_rook(corner), ..pos },
            ..progress
        },
        SideEffect::PawnMove => Progress { reset_clock: true, ..progress },
        SideEffect::PieceTaken(_) => Progress { reset_clock: true, ..progress },
        SideEffect::Promotion => match (m.promotion_request, pos.at(m.origin)) {
            (Some(kind), Some(pawn)) => Progress {
                pos: pos.put(m.origin, None).put(
                    m.destination,
                    Some(Piece { kind, color: pawn.color }),
                ),
                promoted: true,
                ..progress
            },
            _ => progress,
        },
    }
}

/// What the side effects `effects` of the move `m` do, one after the other.
pub open spec fn apply_effects(progress: Progress, m: MoveView, effects: Seq<SideEffect>) -> Progress
    decreases effects.len(),
{
    if effects.len() == 0 {
        progress
    } else {
        apply_effect(apply_effects(progress, m, effects.drop_last()), m, effects.last())
    }
}

/// The board work of the move `m`: whatever stood on the destination is
/// gone, the side effects are applied in order, the piece goes from origin to
/// destination unless a promotion has put its successor there, and the
/// en-passant target is cleared unless this move has set it. The half-move
/// clock is left as it was.
pub open spec fn carry_out(pos: Position, m: MoveView) -> Progress {
    let start = Progress {
        pos: pos.put(m.destination, None),
        reset_clock: false,
        double_push: false,
        promoted: false,
    };
    let done = apply_effects(start, m, m.side_effects);
    let placed = if done.promoted {
        done.pos
    } else {
        done.pos.relocate(m.origin, m.destination)
    };
    Progress {
        pos: Position {
            en_passant: if done.double_push {
                placed.en_passant
            } else {
                None
            },
            ..placed
        },
        ..done
    }
}

/// The position after the move `m`, short of handing the turn over: the
/// board work is done, and the half-move clock starts again after a pawn move
/// or a capture and else goes up by one.
pub open spec fn apply_move(pos: Position, m: MoveView) -> Position {
    let done = carry_out(pos, m);
    Position {
        half_moves: if done.reset_clock {
            0
        } else {
            pos.half_moves + 1
        },
        ..done.pos
    }
}

/// The position after the turn has passed to the other side: the number of
/// the full move grows when Black has just moved.
pub open spec fn pass_turn(pos: Position) -> Position {
    Position {
        turn: pos.turn.opposite(),
        moves: if pos.turn == Color::Black {
            pos.moves + 1
        } else {
            pos.moves
        },
        ..pos
    }
}

/// One side effect alone is applied as itself.
pub proof fn lemma_apply_one_effect(progress: Progress, m: MoveView, a: SideEffect)
    ensures
        apply_effects(progress, m, seq![a]) == apply_effect(progress, m, a),
{
    let effects = seq![a];
    assert(effects.drop_last() =~= Seq::<SideEffect>::empty());
    assert(effects.last() == a);
    assert(apply_effects(progress, m, effects.drop_last()) == progress);
}

/// Two side effects are applied one after the other.
pub proof fn lemma_apply_two_effects(progress: Progress, m: MoveView, a: SideEffect, b: SideEffect)
    ensures
        apply_effects(progress, m, seq![a, b]) == apply_effect(
            apply_effect(progress, m, a),
            m,
            b,
        ),
{
    let effects = seq![a, b];
    assert(effects.drop_last() =~= seq![a]);
    assert(effects.last() == b);
    lemma_apply_one_effect(progress, m, a);
}

/// Three side effects are applied one after the other.
pub proof fn lemma_apply_three_effects(
    progress: Progress,
    m: MoveView,
    a: SideEffect,
    b: SideEffect,
    c: SideEffect,
)
    ensures
        apply_effects(progress, m, seq![a, b, c]) == apply_effect(
            apply_effect(apply_effect(progress, m, a), m, b),
            m,
            c,
        ),
{
    let effects = seq![a, b, c];
    assert(effects.drop_last() =~= seq![a, b]);
    assert(effects.last() == c);
    lemma_apply_two_effects(progress, m, a, b);
}

} // verus!
