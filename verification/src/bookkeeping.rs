//! The half-move clock after a generated move: the tags of the move restart
//! it exactly when a pawn has moved or a piece has been taken.

use vstd::prelude::*;
use crate::game::is_member;
use crate::geometry::{all_landings, law_leaper_moves_are_landings, law_slider_moves_are_landings};
use crate::models::{on_board, Color, MoveView, PieceKind, SideEffect, Square};
use crate::moves::{
    base_effects, bishop_directions, castle_moves_spec, king_moves_spec, king_side_castle,
    knight_offsets, landing, leaper_moves, pawn_capture, pawn_moves_spec, queen_side_castle,
    rook_corner, rook_directions, rook_moves_spec, royal_offsets,
};
use crate::position::{
    apply_effect, apply_effects, apply_move, lemma_apply_one_effect, lemma_apply_two_effects,
    Position, Progress,
};
use crate::rules::{moves_before, moves_from, pseudo_legal_moves};

verus! {

/// Whether the tag restarts the half-move clock: it tells of a pawn's move
/// or of a capture.
pub open spec fn restarts_clock(effect: SideEffect) -> bool {
    effect is PawnMove || effect is PieceTaken || effect is DoublePawnMove
}

/// Whether one of the tags restarts the half-move clock.
pub open spec fn any_restarts(effects: Seq<SideEffect>) -> bool {
    exists|i: int| 0 <= i < effects.len() && restarts_clock(#[trigger] effects[i])
}

/// The executor restarts the clock exactly when one of the tags asks for it.
pub proof fn lemma_clock_by_tags(progress: Progress, m: MoveView, effects: Seq<SideEffect>)
    ensures
        apply_effects(progress, m, effects).reset_clock == (progress.reset_clock || any_restarts(
            effects,
        )),
    decreases effects.len(),
{
    if effects.len() == 0 {
    } else {
        let front = effects.drop_last();
        lemma_clock_by_tags(progress, m, front);
        assert(any_restarts(effects) <==> any_restarts(front) || restarts_clock(effects.last())) by {
            if any_restarts(effects) {
                let i = choose|i: int|
                    0 <= i < effects.len() && restarts_clock(#[trigger] effects[i]);
                if i < front.len() {
                    assert(front[i] == effects[i]);
                }
            }
            if any_restarts(front) {
                let i = choose|i: int| 0 <= i < front.len() && restarts_clock(#[trigger] front[i]);
                assert(effects[i] == front[i]);
            }
            if restarts_clock(effects.last()) {
                assert(effects[effects.len() - 1] == effects.last());
            }
        }
    }
}

/// Whether a pawn moves or a piece is taken when `m` is made on `pos`.
pub open spec fn moves_pawn_or_takes(pos: Position, m: MoveView) -> bool {
    (pos.at(m.origin) matches Some(piece) && piece.kind == PieceKind::Pawn) || pos.at(
        m.destination,
    ) is Some
}

/// Whether the tags of `m` restart the clock exactly when `m` moves a pawn
/// or takes a piece.
pub open spec fn tags_fit(pos: Position, m: MoveView) -> bool {
    any_restarts(m.side_effects) <==> moves_pawn_or_takes(pos, m)
}

/// Whether the tags of every move of `moves` fit.
pub open spec fn all_fit(pos: Position, moves: Seq<MoveView>) -> bool {
    forall|i: int| 0 <= i < moves.len() ==> tags_fit(pos, #[trigger] moves[i])
}

/// The tags of landings of a piece that is no pawn fit, where the tags that
/// they start with do not restart the clock.
pub proof fn lemma_landings_fit(
    pos: Position,
    color: Color,
    origin: Square,
    base: Seq<SideEffect>,
    moves: Seq<MoveView>,
)
    requires
        all_landings(pos.pieces, color, origin, base, moves),
        !any_restarts(base),
        pos.at(origin) matches Some(piece) && piece.kind != PieceKind::Pawn,
    ensures
        all_fit(pos, moves),
{
    assert forall|i: int| 0 <= i < moves.len() implies tags_fit(pos, #[trigger] moves[i]) by {
        let m = moves[i];
        let single = landing(pos.pieces, color, origin, m.destination, base);
        assert(single == seq![m]);
        assert(single[0] == m);
        assert(m.origin == origin);
        match pos.at(m.destination) {
            Some(taken) => {
                let tags = base.push(SideEffect::PieceTaken(taken));
                assert(m.side_effects == tags);
                assert(restarts_clock(tags[base.len() as int]));
            },
            None => {
                assert(m.side_effects == base);
            },
        }
    }
}

/// Tags of which none restarts the clock.
pub proof fn lemma_no_restart(tags: Seq<SideEffect>)
    requires
        forall|i: int| 0 <= i < tags.len() ==> !restarts_clock(#[trigger] tags[i]),
    ensures
        !any_restarts(tags),
{
    if any_restarts(tags) {
        let i = choose|i: int| 0 <= i < tags.len() && restarts_clock(#[trigger] tags[i]);
        assert(!restarts_clock(tags[i]));
    }
}

/// The tags of the candidate moves of a piece of the side to move fit.
pub proof fn lemma_moves_from_fit(pos: Position, origin: Square)
    requires
        on_board(origin),
    ensures
        all_fit(pos, moves_from(pos, origin)),
{
    if let Some(piece) = pos.at(origin) {
        if piece.color == pos.turn {
            let color = pos.turn;
            let none = Seq::<SideEffect>::empty();
            lemma_no_restart(none);
            match piece.kind {
                PieceKind::King => {
                    let base = seq![SideEffect::KingMove(color)];
                    let steps = leaper_moves(pos.pieces, color, origin, royal_offsets(), base);
                    let castles = castle_moves_spec(pos, color, origin);
                    lemma_no_restart(base);
                    law_leaper_moves_are_landings(pos.pieces, color, origin, royal_offsets(), base);
                    lemma_landings_fit(pos, color, origin, base, steps);
                    assert(all_fit(pos, castles)) by {
                        lemma_no_restart(king_side_castle(color).side_effects);
                        lemma_no_restart(queen_side_castle(color).side_effects);
                        assert forall|i: int| 0 <= i < castles.len() implies tags_fit(
                            pos,
                            #[trigger] castles[i],
                        ) by {
                            let m = castles[i];
                            if m == king_side_castle(color) {
                                assert(pos.at(crate::moves::king_side_between(color)[1]) is None);
                            } else {
                                assert(m == queen_side_castle(color));
                                assert(pos.at(crate::moves::queen_side_between(color)[1]) is None);
                            }
                        }
                    }
                },
                PieceKind::Queen => {
                    law_slider_moves_are_landings(pos.pieces, color, origin, royal_offsets(), none);
                    lemma_landings_fit(pos, color, origin, none, moves_from(pos, origin));
                },
                PieceKind::Rook => {
                    let base = base_effects(rook_corner(color, origin));
                    lemma_no_restart(base);
                    law_slider_moves_are_landings(
                        pos.pieces,
                        color,
                        origin,
                        rook_directions(),
                        base,
                    );
                    lemma_landings_fit(pos, color, origin, base, moves_from(pos, origin));
                },
                PieceKind::Bishop => {
                    law_slider_moves_are_landings(
                        pos.pieces,
                        color,
                        origin,
                        bishop_directions(),
                        none,
                    );
                    lemma_landings_fit(pos, color, origin, none, moves_from(pos, origin));
                },
                PieceKind::Knight => {
                    law_leaper_moves_are_landings(pos.pieces, color, origin, knight_offsets(), none);
                    lemma_landings_fit(pos, color, origin, none, moves_from(pos, origin));
                },
                PieceKind::Pawn => {
                    let moves = moves_from(pos, origin);
                    let pushes = pawn_moves_spec(pos.pieces, color, origin);
                    let left = pawn_capture(pos.pieces, pos.en_passant, color, origin, -1);
                    let right = pawn_capture(pos.pieces, pos.en_passant, color, origin, 1);
                    assert forall|i: int| 0 <= i < moves.len() implies tags_fit(
                        pos,
                        #[trigger] moves[i],
                    ) by {
                        let m = moves[i];
                        assert(m.origin == origin && exists|j: int|
                            0 <= j < m.side_effects.len() && #[trigger] m.side_effects[j]
                                == SideEffect::PawnMove) by {
                            if i < pushes.len() {
                                assert(m == pushes[i]);
                                if i == 0 {
                                    if m.side_effects.len() == 1 {
                                        assert(m.side_effects[0] == SideEffect::PawnMove);
                                    } else {
                                        assert(m.side_effects[1] == SideEffect::PawnMove);
                                    }
                                } else {
                                    assert(m.side_effects[0] == SideEffect::PawnMove);
                                }
                            } else if i < pushes.len() + left.len() {
                                assert(m == left[i - pushes.len()]);
                                assert(m.side_effects[0] == SideEffect::PawnMove);
                            } else {
                                assert(m == right[i - pushes.len() - left.len()]);
                                assert(m.side_effects[0] == SideEffect::PawnMove);
                            }
                        }
                        let j = choose|j: int|
                            0 <= j < m.side_effects.len() && #[trigger] m.side_effects[j]
                                == SideEffect::PawnMove;
                        assert(restarts_clock(m.side_effects[j]));
                    }
                },
            }
        }
    }
}

/// The tags of the candidate moves gathered on the way over the board fit.
pub proof fn lemma_moves_before_fit(pos: Position, row: int, column: int)
    requires
        0 <= row <= 8,
        0 <= column <= 8,
        row == 8 ==> column == 0,
    ensures
        all_fit(pos, moves_before(pos, row, column)),
    decreases row, column,
{
    if row == 0 && column == 0 {
    } else if column == 0 {
        lemma_moves_before_fit(pos, row - 1, 8);
    } else {
        lemma_moves_before_fit(pos, row, column - 1);
        lemma_moves_from_fit(pos, (row as usize, (column - 1) as usize));
    }
}

/// The half-move clock. After a pseudo-legal move, whatever its promotion
/// choice, the clock stands at 0 where a pawn has moved or a piece has been
/// taken, and has gone up by one where neither has happened.
pub proof fn law_half_move_clock(pos: Position, m: MoveView, request: Option<PieceKind>)
    requires
        is_member(pseudo_legal_moves(pos), m),
    ensures
        apply_move(pos, m.with_request(request)).half_moves == if moves_pawn_or_takes(pos, m) {
            0
        } else {
            pos.half_moves + 1
        },
{
    let moves = pseudo_legal_moves(pos);
    let i = choose|i: int| 0 <= i < moves.len() && #[trigger] moves[i] == m;
    lemma_moves_before_fit(pos, 8, 0);
    assert(tags_fit(pos, moves[i]));
    let chosen = m.with_request(request);
    let start = Progress {
        pos: pos.put(m.destination, None),
        reset_clock: false,
        double_push: false,
        promoted: false,
    };
    lemma_clock_by_tags(start, chosen, chosen.side_effects);
}

/// What a landing with one first tag does to the castling rights is what
/// that tag does: a capture changes no right.
pub proof fn lemma_rights_after_landing(
    pos: Position,
    color: Color,
    origin: Square,
    tag: SideEffect,
    m: MoveView,
)
    requires
        landing(pos.pieces, color, origin, m.destination, seq![tag]) == seq![m],
        !(tag is Promotion),
    ensures
        apply_move(pos, m).castle_rights == apply_effect(
            Progress { pos, reset_clock: false, double_push: false, promoted: false },
            m,
            tag,
        ).pos.castle_rights,
{
    let single = landing(pos.pieces, color, origin, m.destination, seq![tag]);
    assert(single[0] == m);
    let start = Progress {
        pos: pos.put(m.destination, None),
        reset_clock: false,
        double_push: false,
        promoted: false,
    };
    match pos.at(m.destination) {
        Some(taken) => {
            assert(single.len() == 1);
            assert(m.side_effects == seq![tag].push(SideEffect::PieceTaken(taken)));
            assert(m.side_effects =~= seq![tag, SideEffect::PieceTaken(taken)]);
            lemma_apply_two_effects(start, m, tag, SideEffect::PieceTaken(taken));
        },
        None => {
            assert(m.side_effects == seq![tag]);
            lemma_apply_one_effect(start, m, tag);
        },
    }
}

/// Castling rights after a king's step: the colour of the king has neither
/// right left, and the other colour's rights are as they were.
pub proof fn law_king_step_gives_up_rights(pos: Position, color: Color, origin: Square, m: MoveView)
    requires
        is_member(king_moves_spec(pos.pieces, color, origin), m),
    ensures
        apply_move(pos, m).castle_rights == pos.castle_rights.without(color),
{
    let tag = SideEffect::KingMove(color);
    let moves = king_moves_spec(pos.pieces, color, origin);
    let i = choose|i: int| 0 <= i < moves.len() && #[trigger] moves[i] == m;
    law_leaper_moves_are_landings(pos.pieces, color, origin, royal_offsets(), seq![tag]);
    assert(landing(pos.pieces, color, origin, moves[i].destination, seq![tag]) == seq![moves[i]]);
    lemma_rights_after_landing(pos, color, origin, tag, m);
}

/// Castling rights after a rook's move from a home corner of its colour:
/// the right that depends on that corner is gone, and the others are as they
/// were.
pub proof fn law_rook_move_gives_up_right(
    pos: Position,
    color: Color,
    origin: Square,
    m: MoveView,
)
    requires
        is_member(rook_moves_spec(pos.pieces, color, origin), m),
        rook_corner(color, origin) is Some,
    ensures
        rook_corner(color, origin) matches Some(SideEffect::InitialRookMove(corner))
            && apply_move(pos, m).castle_rights == pos.castle_rights.without_rook(corner),
{
    let tag = rook_corner(color, origin).unwrap();
    let moves = rook_moves_spec(pos.pieces, color, origin);
    let i = choose|i: int| 0 <= i < moves.len() && #[trigger] moves[i] == m;
    assert(base_effects(rook_corner(color, origin)) =~= seq![tag]);
    law_slider_moves_are_landings(pos.pieces, color, origin, rook_directions(), seq![tag]);
    assert(landing(pos.pieces, color, origin, moves[i].destination, seq![tag]) == seq![moves[i]]);
    lemma_rights_after_landing(pos, color, origin, tag, m);
}

} // verus!
