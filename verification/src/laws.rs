//! Laws of the rules, stated over the model of a position and proved from
//! the definitions that the contracts of the library use.

use vstd::prelude::*;
use crate::board::Board;
use crate::game::{
    is_member, lemma_safe_moves_keep, lemma_safe_moves_members, make_move_outcome,
    make_move_position,
};
use crate::helpers::{attacked_squares, in_check};
use crate::models::{
    in_bounds, on_board, plain_move, square, Color, GameStatus, MoveOutcomeView, MoveView, Piece,
    PieceKind, SideEffect, Square, UserMove,
};
use crate::moves::{
    all_empty, castle_moves_spec, king_home, king_side_between, king_side_castle, king_side_path,
    king_side_right, may_castle_king_side, may_castle_queen_side, none_attacked,
    pawn_attacking_moves_spec, pawn_capture, pawn_capture_tags, pawn_direction, pawn_moves_spec,
    pawn_start_row, promotion_row, queen_side_between, queen_side_castle, queen_side_path,
    queen_side_right,
};
use crate::position::{
    apply_move, carry_out, lemma_apply_one_effect, lemma_apply_three_effects,
    lemma_apply_two_effects, pass_turn, promotion_verdict, Position, Progress,
};
use crate::rules::{exposes_king, legal_moves, pseudo_legal_moves, status};
use crate::soundness::{
    lemma_promotion_choice_is_idle, lemma_pseudo_legal_promote_as_generated,
    lemma_request_is_idle_in_move, promotes_as_generated,
};

verus! {

/// Legality is sound. A legal move is a pseudo-legal move, and making it,
/// with any promotion choice that the executor accepts, does not leave the
/// king of the side that moved attacked.
pub proof fn law_legal_moves_keep_king_safe(
    pos: Position,
    m: MoveView,
    request: Option<PieceKind>,
)
    requires
        is_member(legal_moves(pos), m),
        promotion_verdict(m.with_request(request)) is None,
    ensures
        is_member(pseudo_legal_moves(pos), m),
        !in_check(carry_out(pos, m.with_request(request)).pos),
        !in_check(apply_move(pos, m.with_request(request))),
{
    lemma_safe_moves_members(pos, pseudo_legal_moves(pos), m);
    let queen = Some(PieceKind::Queen);
    assert(!in_check(carry_out(pos, m.with_request(queen)).pos));
    assert(m.with_request(request).side_effects == m.side_effects);
    if m.has_effect(SideEffect::Promotion) {
        let moves = pseudo_legal_moves(pos);
        let i = choose|i: int| 0 <= i < moves.len() && #[trigger] moves[i] == m;
        lemma_pseudo_legal_promote_as_generated(pos);
        assert(promotes_as_generated(pos, moves[i]));
        let kind = request.unwrap();
        lemma_promotion_choice_is_idle(pos, m, kind, PieceKind::Queen);
    } else {
        lemma_request_is_idle_in_move(pos, m, request);
        lemma_request_is_idle_in_move(pos, m, queen);
    }
}

/// Legality. A move is legal exactly when it is pseudo-legal and does not
/// leave the king of the side that makes it attacked.
pub proof fn law_legal_moves(pos: Position, m: MoveView)
    ensures
        is_member(legal_moves(pos), m) <==> is_member(pseudo_legal_moves(pos), m) && !exposes_king(
            pos,
            m,
        ),
{
    if is_member(legal_moves(pos), m) {
        lemma_safe_moves_members(pos, pseudo_legal_moves(pos), m);
    }
    if is_member(pseudo_legal_moves(pos), m) && !exposes_king(pos, m) {
        lemma_safe_moves_keep(pos, pseudo_legal_moves(pos), m);
    }
}

/// With no legal move and the side to move in check, the game is lost for
/// the side to move.
pub proof fn law_checkmate(pos: Position)
    requires
        legal_moves(pos).len() == 0,
        in_check(pos),
    ensures
        status(pos) == GameStatus::Checkmate(pos.turn.opposite()),
{
}

/// With no legal move and the side to move not in check, the game is drawn.
pub proof fn law_stalemate(pos: Position)
    requires
        legal_moves(pos).len() == 0,
        !in_check(pos),
    ensures
        status(pos) == GameStatus::Draw,
{
}

/// With a legal move and a half-move clock of 100 or more, the game is
/// drawn.
pub proof fn law_fifty_moves(pos: Position)
    requires
        legal_moves(pos).len() > 0,
        pos.half_moves >= 100,
    ensures
        status(pos) == GameStatus::Draw,
{
}

/// The game goes on exactly when there is a legal move and the half-move
/// clock is below 100.
pub proof fn law_ongoing(pos: Position)
    ensures
        status(pos) == GameStatus::Ongoing <==> legal_moves(pos).len() > 0 && pos.half_moves
            < 100,
{
}

/// The status is a function of the position alone: two boards with the same
/// position have the same status, so asking twice without a move in between
/// gives the same answer.
pub proof fn law_status_is_determined(first: Board, second: Board)
    requires
        first@ == second@,
    ensures
        status(first@) == status(second@),
{
}

/// Castling on the king's side is generated exactly when the king is asked
/// for on its home square, the right is there, the squares between king and
/// rook are empty, and none of the squares on which the king starts, passes
/// and lands is attacked. The same holds on the queen's side.
pub proof fn law_castling_conditions(pos: Position, color: Color, origin: Square)
    ensures
        is_member(castle_moves_spec(pos, color, origin), king_side_castle(color)) <==> (origin
            == king_home(color) && king_side_right(pos, color) && all_empty(
            pos.pieces,
            king_side_between(color),
        ) && none_attacked(
            attacked_squares(pos.pieces, pos.en_passant, color),
            king_side_path(color),
        )),
        is_member(castle_moves_spec(pos, color, origin), queen_side_castle(color)) <==> (origin
            == king_home(color) && queen_side_right(pos, color) && all_empty(
            pos.pieces,
            queen_side_between(color),
        ) && none_attacked(
            attacked_squares(pos.pieces, pos.en_passant, color),
            queen_side_path(color),
        )),
{
    let moves = castle_moves_spec(pos, color, origin);
    let king_side = king_side_castle(color);
    let queen_side = queen_side_castle(color);
    assert(king_side.destination != queen_side.destination);
    if origin == king_home(color) {
        if may_castle_king_side(pos, color) {
            assert(moves[0] == king_side);
        }
        if may_castle_queen_side(pos, color) {
            assert(moves[moves.len() - 1] == queen_side);
        }
    }
}

/// After castling, the colour that castled has neither right left, the king
/// stands on its landing square, and the rook has gone from its corner to the
/// square that the king passed.
pub proof fn law_castling_effect(pos: Position, color: Color, king_side: bool)
    requires
        pos.at(king_home(color)) is Some,
    ensures
        ({
            let m = if king_side {
                king_side_castle(color)
            } else {
                queen_side_castle(color)
            };
            let row = king_home(color).0;
            let rook_origin: Square = if king_side {
                (row, 7)
            } else {
                (row, 0)
            };
            let rook_destination: Square = if king_side {
                (row, 5)
            } else {
                (row, 3)
            };
            let after = apply_move(pos, m);
            &&& promotion_verdict(m) is None
            &&& after.castle_rights == pos.castle_rights.without(color)
            &&& !king_side_right(after, color)
            &&& !queen_side_right(after, color)
            &&& after.at(m.destination) == pos.at(king_home(color))
            &&& after.at(king_home(color)) is None
            &&& pos.at(rook_origin) is Some ==> after.at(rook_destination) == pos.at(rook_origin)
                && after.at(rook_origin) is None
        }),
{
    let m = if king_side {
        king_side_castle(color)
    } else {
        queen_side_castle(color)
    };
    let start = Progress {
        pos: pos.put(m.destination, None),
        reset_clock: false,
        double_push: false,
        promoted: false,
    };
    lemma_apply_one_effect(start, m, m.side_effects[0]);
    assert(m.side_effects =~= seq![m.side_effects[0]]);
    assert(!m.has_effect(SideEffect::Promotion)) by {
        if m.has_effect(SideEffect::Promotion) {
            let i = choose|i: int|
                0 <= i < m.side_effects.len() && m.side_effects[i] == SideEffect::Promotion;
            assert(i == 0);
        }
    }
}

/// En passant. A pawn makes its double step past an enemy pawn that stands
/// beside its landing square. Then the enemy pawn has exactly one capture
/// towards that side: onto the square passed over, as an en-passant capture.
/// That capture removes the pawn from its landing square, not from the
/// square passed over, on which the capturing pawn now stands.
pub proof fn law_en_passant(pos: Position, pusher: Square, side: int)
    requires
        on_board(pusher),
        pusher.0 == pawn_start_row(pos.turn),
        side == 1 || side == -1,
        in_bounds(pusher.0 as int, pusher.1 + side),
        pos.at(pusher) == Some(Piece { kind: PieceKind::Pawn, color: pos.turn }),
        pos.at(square(pusher.0 + pawn_direction(pos.turn), pusher.1 as int)) is None,
        pos.at(square(pusher.0 + 2 * pawn_direction(pos.turn), pusher.1 as int)) is None,
        pos.at(square(pusher.0 + 2 * pawn_direction(pos.turn), pusher.1 + side)) == Some(
            Piece { kind: PieceKind::Pawn, color: pos.turn.opposite() },
        ),
    ensures
        ({
            let skipped = square(pusher.0 + pawn_direction(pos.turn), pusher.1 as int);
            let landing = square(pusher.0 + 2 * pawn_direction(pos.turn), pusher.1 as int);
            let beside = square(pusher.0 + 2 * pawn_direction(pos.turn), pusher.1 + side);
            let push = plain_move(
                pusher,
                landing,
                seq![SideEffect::PawnMove, SideEffect::DoublePawnMove(skipped)],
            );
            let after_push = pass_turn(apply_move(pos, push));
            let capture = plain_move(
                beside,
                skipped,
                seq![SideEffect::PawnMove, SideEffect::EnPassantTake(landing)],
            );
            let after_capture = apply_move(after_push, capture);
            &&& is_member(pawn_moves_spec(pos.pieces, pos.turn, pusher), push)
            &&& after_push.en_passant == Some(skipped)
            &&& after_push.at(landing) == pos.at(pusher)
            &&& pawn_capture(
                after_push.pieces,
                after_push.en_passant,
                after_push.turn,
                beside,
                -side,
            ) == seq![capture]
            &&& landing != skipped
            &&& after_capture.at(landing) is None
            &&& after_capture.at(skipped) == pos.at(beside)
            &&& after_capture.at(beside) is None
        }),
{
    let mover = pos.turn;
    let skipped = square(pusher.0 + pawn_direction(mover), pusher.1 as int);
    let landing = square(pusher.0 + 2 * pawn_direction(mover), pusher.1 as int);
    let beside = square(pusher.0 + 2 * pawn_direction(mover), pusher.1 + side);
    let push = plain_move(
        pusher,
        landing,
        seq![SideEffect::PawnMove, SideEffect::DoublePawnMove(skipped)],
    );
    let pushes = pawn_moves_spec(pos.pieces, mover, pusher);
    assert(pushes[1] == push);
    let start = Progress {
        pos: pos.put(landing, None),
        reset_clock: false,
        double_push: false,
        promoted: false,
    };
    lemma_apply_two_effects(
        start,
        push,
        SideEffect::PawnMove,
        SideEffect::DoublePawnMove(skipped),
    );
    let after_push = pass_turn(apply_move(pos, push));
    assert(after_push.en_passant == Some(skipped));
    assert(after_push.at(skipped) is None);
    assert(after_push.at(beside) == pos.at(beside));
    assert(after_push.turn == mover.opposite());
    let capture = plain_move(
        beside,
        skipped,
        seq![SideEffect::PawnMove, SideEffect::EnPassantTake(landing)],
    );
    let tags = pawn_capture_tags(after_push.turn, skipped.0 as int);
    assert(tags.push(SideEffect::EnPassantTake(landing)) =~= capture.side_effects);
    let second = Progress {
        pos: after_push.put(skipped, None),
        reset_clock: false,
        double_push: false,
        promoted: false,
    };
    lemma_apply_two_effects(
        second,
        capture,
        SideEffect::PawnMove,
        SideEffect::EnPassantTake(landing),
    );
}

/// Promotion. A move of a pawn onto its last row, as the generator makes it,
/// is tagged for promotion. Without a choice it is refused for want of one,
/// and with a king or a pawn for an invalid one. With a queen, a rook, a
/// bishop or a knight it is made, and the destination then holds a piece of
/// that kind and of the pawn's colour, the origin nothing.
pub proof fn law_promotion(pos: Position, color: Color, origin: Square, m: MoveView, kind: PieceKind)
    requires
        on_board(origin),
        pos.at(origin) == Some(Piece { kind: PieceKind::Pawn, color }),
        is_member(pawn_moves_spec(pos.pieces, color, origin), m) || is_member(
            pawn_attacking_moves_spec(pos.pieces, pos.en_passant, color, origin),
            m,
        ),
        m.destination.0 == promotion_row(color),
    ensures
        m.has_effect(SideEffect::Promotion),
        promotion_verdict(m.with_request(None)) == Some(MoveOutcomeView::PromotionNotProvided),
        promotion_verdict(m.with_request(Some(PieceKind::King))) == Some(
            MoveOutcomeView::InvalidPromotion(PieceKind::King),
        ),
        promotion_verdict(m.with_request(Some(PieceKind::Pawn))) == Some(
            MoveOutcomeView::InvalidPromotion(PieceKind::Pawn),
        ),
        kind != PieceKind::King && kind != PieceKind::Pawn ==> {
            &&& promotion_verdict(m.with_request(Some(kind))) is None
            &&& apply_move(pos, m.with_request(Some(kind))).at(m.destination) == Some(
                Piece { kind, color },
            )
            &&& apply_move(pos, m.with_request(Some(kind))).at(origin) is None
        },
{
    let chosen = m.with_request(Some(kind));
    let start = Progress {
        pos: pos.put(m.destination, None),
        reset_clock: false,
        double_push: false,
        promoted: false,
    };
    let pushes = pawn_moves_spec(pos.pieces, color, origin);
    if is_member(pushes, m) {
        let i = choose|i: int| 0 <= i < pushes.len() && #[trigger] pushes[i] == m;
        assert(i == 0);
        assert(m.side_effects == seq![SideEffect::Promotion, SideEffect::PawnMove]);
        assert(m.side_effects[0] == SideEffect::Promotion);
        lemma_apply_two_effects(start, chosen, SideEffect::Promotion, SideEffect::PawnMove);
    } else {
        let left = pawn_capture(pos.pieces, pos.en_passant, color, origin, -1);
        let right = pawn_capture(pos.pieces, pos.en_passant, color, origin, 1);
        let captures = left + right;
        let i = choose|i: int| 0 <= i < captures.len() && #[trigger] captures[i] == m;
        let last = m.side_effects[2];
        if i < left.len() {
            assert(left[i] == m);
        } else {
            assert(right[i - left.len()] == m);
        }
        assert(m.side_effects =~= seq![SideEffect::PawnMove, SideEffect::Promotion, last]);
        assert(m.side_effects[1] == SideEffect::Promotion);
        lemma_apply_three_effects(
            start,
            chosen,
            SideEffect::PawnMove,
            SideEffect::Promotion,
            last,
        );
    }
}

/// A request to move either is carried out whole or changes nothing; and
/// once the game is over, it stays over: every request is answered with the
/// state of the game, and leaves that state as it is.
pub proof fn law_requests_are_atomic(pos: Position, request: UserMove)
    ensures
        make_move_outcome(pos, request) != MoveOutcomeView::Success ==> make_move_position(
            pos,
            request,
        ) == pos,
        status(pos) != GameStatus::Ongoing ==> make_move_outcome(pos, request)
            == MoveOutcomeView::GameIsOver(status(pos)) && status(
            make_move_position(pos, request),
        ) == status(pos),
{
}

} // verus!
