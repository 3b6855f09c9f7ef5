//! Why the legality filter may try a promotion with a queen: whether the
//! mover's king is attacked after a move does not depend on the piece that
//! a pawn is promoted to.

use vstd::prelude::*;
use crate::helpers::{
    attack_pattern, attacked_squares, attacks, in_check, is_king_of, king_square_from, reaches,
    reaches_within,
};
use crate::models::{
    in_bounds, on_board, plain_move, square, Color, MoveView, Piece, PieceKind, SideEffect, Square,
};
use crate::moves::{
    base_effects, bishop_directions, castle_moves_spec, king_side_castle, knight_offsets, landing,
    leaper_moves, pawn_capture, pawn_capture_tags, pawn_direction, pawn_moves_spec, promotion_row,
    queen_side_castle, ray_moves, rook_corner, rook_directions, royal_offsets, slider_moves,
    step_moves,
};
use crate::position::{
    apply_effects, apply_move, carry_out, lemma_apply_three_effects, lemma_apply_two_effects,
    piece_on, Position, Progress,
};
use crate::rules::{moves_before, moves_from, pseudo_legal_moves};

verus! {

/// The promotion choice has no part in the side effects of a move that
/// does not promote.
pub proof fn lemma_request_is_idle(
    progress: Progress,
    m: MoveView,
    request: Option<PieceKind>,
    effects: Seq<SideEffect>,
)
    requires
        !effects.contains(SideEffect::Promotion),
    ensures
        apply_effects(progress, m.with_request(request), effects) == apply_effects(
            progress,
            m,
            effects,
        ),
    decreases effects.len(),
{
    if effects.len() > 0 {
        let front = effects.drop_last();
        assert(!front.contains(SideEffect::Promotion)) by {
            if front.contains(SideEffect::Promotion) {
                let i = choose|i: int| 0 <= i < front.len() && front[i] == SideEffect::Promotion;
                assert(effects[i] == SideEffect::Promotion);
            }
        }
        assert(effects[effects.len() - 1] != SideEffect::Promotion);
        lemma_request_is_idle(progress, m, request, front);
    }
}

/// The promotion choice has no part in a move that does not promote.
pub proof fn lemma_request_is_idle_in_move(pos: Position, m: MoveView, request: Option<PieceKind>)
    requires
        !m.has_effect(SideEffect::Promotion),
    ensures
        carry_out(pos, m.with_request(request)) == carry_out(pos, m),
        apply_move(pos, m.with_request(request)) == apply_move(pos, m),
{
    let start = Progress {
        pos: pos.put(m.destination, None),
        reset_clock: false,
        double_push: false,
        promoted: false,
    };
    lemma_request_is_idle(start, m, request, m.side_effects);
}

/// Whether `m` is a move from `origin` onto a square of the board, without a
/// promotion choice, tagged with `base` alone or with `base` and a capture.
pub open spec fn is_simple(m: MoveView, origin: Square, base: Seq<SideEffect>) -> bool {
    &&& m.origin == origin
    &&& m.promotion_request is None
    &&& on_board(m.destination)
    &&& (m.side_effects == base || (m.side_effects.len() > 0 && m.side_effects.drop_last()
        == base && m.side_effects.last() is PieceTaken))
}

/// Whether every move of `moves` is simple.
pub open spec fn all_simple(moves: Seq<MoveView>, origin: Square, base: Seq<SideEffect>) -> bool {
    forall|i: int| 0 <= i < moves.len() ==> is_simple(#[trigger] moves[i], origin, base)
}

/// A landing on a square of the board is a simple move.
pub proof fn lemma_landing_simple(
    pieces: Map<Square, Piece>,
    color: Color,
    origin: Square,
    destination: Square,
    base: Seq<SideEffect>,
)
    requires
        on_board(destination),
    ensures
        all_simple(landing(pieces, color, origin, destination, base), origin, base),
{
    if let Some(piece) = piece_on(pieces, destination) {
        let tags = base.push(SideEffect::PieceTaken(piece));
        assert(tags.drop_last() =~= base);
    }
}

/// The moves of a leaper are simple.
pub proof fn lemma_leaper_simple(
    pieces: Map<Square, Piece>,
    color: Color,
    origin: Square,
    offsets: Seq<(isize, isize)>,
    base: Seq<SideEffect>,
)
    ensures
        all_simple(leaper_moves(pieces, color, origin, offsets, base), origin, base),
    decreases offsets.len(),
{
    if offsets.len() > 0 {
        lemma_leaper_simple(pieces, color, origin, offsets.drop_last(), base);
        let dr = offsets.last().0 as int;
        let dc = offsets.last().1 as int;
        if in_bounds(origin.0 + dr, origin.1 + dc) {
            lemma_landing_simple(pieces, color, origin, square(origin.0 + dr, origin.1 + dc), base);
        }
    }
}

/// The moves along a ray are simple.
pub proof fn lemma_ray_simple(
    pieces: Map<Square, Piece>,
    color: Color,
    origin: Square,
    r: int,
    c: int,
    dr: int,
    dc: int,
    base: Seq<SideEffect>,
    reach: nat,
)
    ensures
        all_simple(ray_moves(pieces, color, origin, r, c, dr, dc, base, reach), origin, base),
    decreases reach,
{
    if reach != 0 && in_bounds(r, c) {
        lemma_landing_simple(pieces, color, origin, square(r, c), base);
        if piece_on(pieces, square(r, c)) is None {
            lemma_ray_simple(pieces, color, origin, r + dr, c + dc, dr, dc, base, (reach - 1) as nat);
        }
    }
}

/// The moves of a slider are simple.
pub proof fn lemma_slider_simple(
    pieces: Map<Square, Piece>,
    color: Color,
    origin: Square,
    directions: Seq<(isize, isize)>,
    base: Seq<SideEffect>,
)
    ensures
        all_simple(slider_moves(pieces, color, origin, directions, base), origin, base),
    decreases directions.len(),
{
    if directions.len() > 0 {
        let d = directions.last();
        lemma_slider_simple(pieces, color, origin, directions.drop_last(), base);
        lemma_ray_simple(
            pieces,
            color,
            origin,
            origin.0 + d.0,
            origin.1 + d.1,
            d.0 as int,
            d.1 as int,
            base,
            7,
        );
    }
}

/// A simple move promotes no pawn, unless its first tags do.
pub proof fn lemma_simple_does_not_promote(m: MoveView, origin: Square, base: Seq<SideEffect>)
    requires
        is_simple(m, origin, base),
        !base.contains(SideEffect::Promotion),
    ensures
        !m.has_effect(SideEffect::Promotion),
{
    if m.has_effect(SideEffect::Promotion) {
        let i = choose|i: int|
            0 <= i < m.side_effects.len() && m.side_effects[i] == SideEffect::Promotion;
        if m.side_effects == base {
            assert(base[i] == SideEffect::Promotion);
        } else if i < base.len() {
            assert(m.side_effects.drop_last()[i] == SideEffect::Promotion);
        }
    }
}

/// Whether `m`, where it promotes, is a pawn's move of the side to move as
/// the generator tags it: an advance, a capture, or a capture en passant of a
/// pawn that stands on neither end of the move.
pub open spec fn promotes_as_generated(pos: Position, m: MoveView) -> bool {
    m.has_effect(SideEffect::Promotion) ==> {
        &&& pos.at(m.origin) matches Some(pawn) && pawn.color == pos.turn
        &&& m.origin != m.destination
        &&& m.promotion_request is None
        &&& (m.side_effects == seq![SideEffect::Promotion, SideEffect::PawnMove] || (
        m.side_effects.len() == 3 && m.side_effects[0] == SideEffect::PawnMove && m.side_effects[1]
            == SideEffect::Promotion && (m.side_effects[2] is PieceTaken || (
        m.side_effects[2] matches SideEffect::EnPassantTake(victim) && victim != m.destination
            && victim != m.origin))))
    }
}

/// Whether every move of `moves` promotes as generated, if at all.
pub open spec fn all_promote_as_generated(pos: Position, moves: Seq<MoveView>) -> bool {
    forall|i: int| 0 <= i < moves.len() ==> promotes_as_generated(pos, #[trigger] moves[i])
}

/// Simple moves whose first tags do not promote promote as generated: not at
/// all.
pub proof fn lemma_simple_moves_promote_as_generated(
    pos: Position,
    moves: Seq<MoveView>,
    origin: Square,
    base: Seq<SideEffect>,
)
    requires
        all_simple(moves, origin, base),
        !base.contains(SideEffect::Promotion),
    ensures
        all_promote_as_generated(pos, moves),
{
    assert forall|i: int| 0 <= i < moves.len() implies promotes_as_generated(
        pos,
        #[trigger] moves[i],
    ) by {
        lemma_simple_does_not_promote(moves[i], origin, base);
    }
}

/// A literal list of tags holds the promotion tag only where it is written.
pub proof fn lemma_tags_without_promotion(tags: Seq<SideEffect>)
    requires
        forall|i: int| 0 <= i < tags.len() ==> #[trigger] tags[i] != SideEffect::Promotion,
    ensures
        !tags.contains(SideEffect::Promotion),
{
    if tags.contains(SideEffect::Promotion) {
        let i = choose|i: int| 0 <= i < tags.len() && tags[i] == SideEffect::Promotion;
        assert(tags[i] != SideEffect::Promotion);
    }
}

/// A capture of a pawn of the side to move promotes as generated, if at
/// all.
pub proof fn lemma_pawn_capture_promotes_as_generated(pos: Position, origin: Square, dc: int)
    requires
        on_board(origin),
        dc == 1 || dc == -1,
        pos.at(origin) matches Some(pawn) && pawn.color == pos.turn,
    ensures
        all_promote_as_generated(
            pos,
            pawn_capture(pos.pieces, pos.en_passant, pos.turn, origin, dc),
        ),
{
    let moves = pawn_capture(pos.pieces, pos.en_passant, pos.turn, origin, dc);
    let row = origin.0 + pawn_direction(pos.turn);
    if moves.len() > 0 {
        let m = moves[0];
        let tags = pawn_capture_tags(pos.turn, row);
        if row != promotion_row(pos.turn) {
            assert(m.side_effects.len() == 2);
            assert(m.side_effects[0] == SideEffect::PawnMove);
            assert(m.side_effects[1] != SideEffect::Promotion);
            lemma_tags_without_promotion(m.side_effects);
        } else {
            assert(m.side_effects.len() == 3);
        }
    }
}

/// The candidate moves of a piece of the side to move promote as generated,
/// if at all.
pub proof fn lemma_moves_from_promote_as_generated(pos: Position, origin: Square)
    requires
        on_board(origin),
    ensures
        all_promote_as_generated(pos, moves_from(pos, origin)),
{
    if let Some(piece) = pos.at(origin) {
        if piece.color == pos.turn {
            let color = pos.turn;
            let none = Seq::<SideEffect>::empty();
            match piece.kind {
                PieceKind::King => {
                    let base = seq![SideEffect::KingMove(color)];
                    let steps = leaper_moves(pos.pieces, color, origin, royal_offsets(), base);
                    let castles = castle_moves_spec(pos, color, origin);
                    lemma_leaper_simple(pos.pieces, color, origin, royal_offsets(), base);
                    lemma_tags_without_promotion(base);
                    lemma_simple_moves_promote_as_generated(pos, steps, origin, base);
                    lemma_tags_without_promotion(king_side_castle(color).side_effects);
                    lemma_tags_without_promotion(queen_side_castle(color).side_effects);
                    assert(all_promote_as_generated(pos, castles));
                },
                PieceKind::Queen => {
                    lemma_slider_simple(pos.pieces, color, origin, royal_offsets(), none);
                    lemma_simple_moves_promote_as_generated(
                        pos,
                        moves_from(pos, origin),
                        origin,
                        none,
                    );
                },
                PieceKind::Rook => {
                    let base = base_effects(rook_corner(color, origin));
                    lemma_slider_simple(pos.pieces, color, origin, rook_directions(), base);
                    lemma_tags_without_promotion(base);
                    lemma_simple_moves_promote_as_generated(
                        pos,
                        moves_from(pos, origin),
                        origin,
                        base,
                    );
                },
                PieceKind::Bishop => {
                    lemma_slider_simple(pos.pieces, color, origin, bishop_directions(), none);
                    lemma_simple_moves_promote_as_generated(
                        pos,
                        moves_from(pos, origin),
                        origin,
                        none,
                    );
                },
                PieceKind::Knight => {
                    lemma_leaper_simple(pos.pieces, color, origin, knight_offsets(), none);
                    lemma_simple_moves_promote_as_generated(
                        pos,
                        moves_from(pos, origin),
                        origin,
                        none,
                    );
                },
                PieceKind::Pawn => {
                    let pushes = pawn_moves_spec(pos.pieces, color, origin);
                    assert(all_promote_as_generated(pos, pushes)) by {
                        if pushes.len() > 0 {
                            if pushes[0].side_effects.len() == 1 {
                                lemma_tags_without_promotion(pushes[0].side_effects);
                            }
                        }
                        if pushes.len() > 1 {
                            lemma_tags_without_promotion(pushes[1].side_effects);
                        }
                    }
                    lemma_pawn_capture_promotes_as_generated(pos, origin, -1);
                    lemma_pawn_capture_promotes_as_generated(pos, origin, 1);
                },
            }
        }
    }
}

/// The candidate moves gathered on the way over the board promote as
/// generated, if at all.
pub proof fn lemma_moves_before_promote_as_generated(pos: Position, row: int, column: int)
    requires
        0 <= row <= 8,
        0 <= column <= 8,
        row == 8 ==> column == 0,
    ensures
        all_promote_as_generated(pos, moves_before(pos, row, column)),
    decreases row, column,
{
    if row == 0 && column == 0 {
    } else if column == 0 {
        lemma_moves_before_promote_as_generated(pos, row - 1, 8);
    } else {
        lemma_moves_before_promote_as_generated(pos, row, column - 1);
        lemma_moves_from_promote_as_generated(pos, (row as usize, (column - 1) as usize));
    }
}

/// Whether two placements hold pieces on the same squares, of the same
/// colour on each.
pub open spec fn alike(a: Map<Square, Piece>, b: Map<Square, Piece>) -> bool {
    forall|sq: Square|
        #![trigger piece_on(a, sq)]
        #![trigger piece_on(b, sq)]
        match (piece_on(a, sq), piece_on(b, sq)) {
            (Some(x), Some(y)) => x.color == y.color,
            (None, None) => true,
            _ => false,
        }
}

/// The destinations of `moves`, in order.
pub open spec fn destinations(moves: Seq<MoveView>) -> Seq<Square> {
    Seq::new(moves.len(), |i: int| moves[i].destination)
}

/// The destinations of two lists, one after the other.
pub proof fn lemma_destinations_add(first: Seq<MoveView>, second: Seq<MoveView>)
    ensures
        destinations(first + second) == destinations(first) + destinations(second),
{
    assert(destinations(first + second) =~= destinations(first) + destinations(second));
}

/// On like placements a landing has the same destinations.
pub proof fn lemma_landing_alike(
    a: Map<Square, Piece>,
    b: Map<Square, Piece>,
    color: Color,
    origin: Square,
    destination: Square,
    base: Seq<SideEffect>,
)
    requires
        alike(a, b),
    ensures
        destinations(landing(a, color, origin, destination, base)) == destinations(
            landing(b, color, origin, destination, base),
        ),
{
    let x = piece_on(a, destination);
    let y = piece_on(b, destination);
    assert(destinations(landing(a, color, origin, destination, base)) =~= destinations(
        landing(b, color, origin, destination, base),
    ));
}

/// On like placements a leaper has the same destinations.
pub proof fn lemma_leaper_alike(
    a: Map<Square, Piece>,
    b: Map<Square, Piece>,
    color: Color,
    origin: Square,
    offsets: Seq<(isize, isize)>,
    base: Seq<SideEffect>,
)
    requires
        alike(a, b),
    ensures
        destinations(leaper_moves(a, color, origin, offsets, base)) == destinations(
            leaper_moves(b, color, origin, offsets, base),
        ),
    decreases offsets.len(),
{
    if offsets.len() > 0 {
        lemma_leaper_alike(a, b, color, origin, offsets.drop_last(), base);
        let dr = offsets.last().0 as int;
        let dc = offsets.last().1 as int;
        if in_bounds(origin.0 + dr, origin.1 + dc) {
            lemma_landing_alike(a, b, color, origin, square(origin.0 + dr, origin.1 + dc), base);
        }
        lemma_destinations_add(
            leaper_moves(a, color, origin, offsets.drop_last(), base),
            step_moves(a, color, origin, dr, dc, base),
        );
        lemma_destinations_add(
            leaper_moves(b, color, origin, offsets.drop_last(), base),
            step_moves(b, color, origin, dr, dc, base),
        );
    }
}

/// On like placements a ray has the same destinations.
pub proof fn lemma_ray_alike(
    a: Map<Square, Piece>,
    b: Map<Square, Piece>,
    color: Color,
    origin: Square,
    r: int,
    c: int,
    dr: int,
    dc: int,
    base: Seq<SideEffect>,
    reach: nat,
)
    requires
        alike(a, b),
    ensures
        destinations(ray_moves(a, color, origin, r, c, dr, dc, base, reach)) == destinations(
            ray_moves(b, color, origin, r, c, dr, dc, base, reach),
        ),
    decreases reach,
{
    if reach != 0 && in_bounds(r, c) {
        let here = square(r, c);
        let x = piece_on(a, here);
        let y = piece_on(b, here);
        lemma_landing_alike(a, b, color, origin, here, base);
        if x is None {
            lemma_ray_alike(a, b, color, origin, r + dr, c + dc, dr, dc, base, (reach - 1) as nat);
            let step = seq![plain_move(origin, here, base)];
            lemma_destinations_add(
                step,
                ray_moves(a, color, origin, r + dr, c + dc, dr, dc, base, (reach - 1) as nat),
            );
            lemma_destinations_add(
                step,
                ray_moves(b, color, origin, r + dr, c + dc, dr, dc, base, (reach - 1) as nat),
            );
        }
    }
}

/// On like placements a slider has the same destinations.
pub proof fn lemma_slider_alike(
    a: Map<Square, Piece>,
    b: Map<Square, Piece>,
    color: Color,
    origin: Square,
    directions: Seq<(isize, isize)>,
    base: Seq<SideEffect>,
)
    requires
        alike(a, b),
    ensures
        destinations(slider_moves(a, color, origin, directions, base)) == destinations(
            slider_moves(b, color, origin, directions, base),
        ),
    decreases directions.len(),
{
    if directions.len() > 0 {
        let d = directions.last();
        lemma_slider_alike(a, b, color, origin, directions.drop_last(), base);
        lemma_ray_alike(
            a,
            b,
            color,
            origin,
            origin.0 + d.0,
            origin.1 + d.1,
            d.0 as int,
            d.1 as int,
            base,
            7,
        );
        lemma_destinations_add(
            slider_moves(a, color, origin, directions.drop_last(), base),
            ray_moves(
                a,
                color,
                origin,
                origin.0 + d.0,
                origin.1 + d.1,
                d.0 as int,
                d.1 as int,
                base,
                7,
            ),
        );
        lemma_destinations_add(
            slider_moves(b, color, origin, directions.drop_last(), base),
            ray_moves(
                b,
                color,
                origin,
                origin.0 + d.0,
                origin.1 + d.1,
                d.0 as int,
                d.1 as int,
                base,
                7,
            ),
        );
    }
}

/// On like placements a pawn has the same capture towards one side.
pub proof fn lemma_pawn_capture_alike(
    a: Map<Square, Piece>,
    b: Map<Square, Piece>,
    en_passant: Option<Square>,
    color: Color,
    origin: Square,
    dc: int,
)
    requires
        alike(a, b),
    ensures
        destinations(pawn_capture(a, en_passant, color, origin, dc)) == destinations(
            pawn_capture(b, en_passant, color, origin, dc),
        ),
{
    let row = origin.0 + pawn_direction(color);
    let column = origin.1 + dc;
    if in_bounds(row, column) {
        let x = piece_on(a, square(row, column));
        let y = piece_on(b, square(row, column));
    }
    assert(destinations(pawn_capture(a, en_passant, color, origin, dc)) =~= destinations(
        pawn_capture(b, en_passant, color, origin, dc),
    ));
}

/// On like placements a piece attacks the same squares.
pub proof fn lemma_attack_pattern_alike(
    a: Map<Square, Piece>,
    b: Map<Square, Piece>,
    en_passant: Option<Square>,
    piece: Piece,
    origin: Square,
)
    requires
        alike(a, b),
    ensures
        destinations(attack_pattern(a, en_passant, piece, origin)) == destinations(
            attack_pattern(b, en_passant, piece, origin),
        ),
{
    let color = piece.color;
    let none = Seq::<SideEffect>::empty();
    match piece.kind {
        PieceKind::King => {
            lemma_leaper_alike(
                a,
                b,
                color,
                origin,
                royal_offsets(),
                seq![SideEffect::KingMove(color)],
            );
        },
        PieceKind::Queen => {
            lemma_slider_alike(a, b, color, origin, royal_offsets(), none);
        },
        PieceKind::Rook => {
            lemma_slider_alike(
                a,
                b,
                color,
                origin,
                rook_directions(),
                base_effects(rook_corner(color, origin)),
            );
        },
        PieceKind::Bishop => {
            lemma_slider_alike(a, b, color, origin, bishop_directions(), none);
        },
        PieceKind::Knight => {
            lemma_leaper_alike(a, b, color, origin, knight_offsets(), none);
        },
        PieceKind::Pawn => {
            lemma_pawn_capture_alike(a, b, en_passant, color, origin, -1);
            lemma_pawn_capture_alike(a, b, en_passant, color, origin, 1);
            lemma_destinations_add(
                pawn_capture(a, en_passant, color, origin, -1),
                pawn_capture(a, en_passant, color, origin, 1),
            );
            lemma_destinations_add(
                pawn_capture(b, en_passant, color, origin, -1),
                pawn_capture(b, en_passant, color, origin, 1),
            );
        },
    }
}

/// Moves with the same destinations reach the same squares.
pub proof fn lemma_reaches_by_destinations(
    first: Seq<MoveView>,
    second: Seq<MoveView>,
    target: Square,
)
    requires
        destinations(first) == destinations(second),
    ensures
        reaches(first, target) == reaches(second, target),
{
    assert(first.len() == destinations(first).len());
    assert(second.len() == destinations(second).len());
    if reaches(first, target) {
        let i = choose|i: int|
            0 <= i < first.len() && i < first.len() && (#[trigger] first[i]).destination
                == target;
        assert(destinations(first)[i] == target);
        assert(destinations(second)[i] == second[i].destination);
        assert(reaches_within(second, second.len() as int, target));
    }
    if reaches(second, target) {
        let i = choose|i: int|
            0 <= i < second.len() && i < second.len() && (#[trigger] second[i]).destination
                == target;
        assert(destinations(second)[i] == target);
        assert(destinations(first)[i] == first[i].destination);
        assert(reaches_within(first, first.len() as int, target));
    }
}

/// Whether two placements are alike and hold the same pieces against
/// `defender`.
pub open spec fn same_attackers(
    a: Map<Square, Piece>,
    b: Map<Square, Piece>,
    defender: Color,
) -> bool {
    &&& alike(a, b)
    &&& forall|sq: Square|
        #![trigger piece_on(a, sq)]
        #![trigger piece_on(b, sq)]
        (piece_on(a, sq) matches Some(piece) && piece.color != defender) ==> piece_on(b, sq)
            == piece_on(a, sq)
}

/// Placements that are alike and hold the same attackers have the same
/// attacked squares.
pub proof fn lemma_attacked_squares_alike(
    a: Map<Square, Piece>,
    b: Map<Square, Piece>,
    en_passant: Option<Square>,
    defender: Color,
)
    requires
        same_attackers(a, b, defender),
    ensures
        attacked_squares(a, en_passant, defender) == attacked_squares(b, en_passant, defender),
{
    assert forall|origin: Square, target: Square|
        attacks(a, en_passant, defender, origin, target) == attacks(
            b,
            en_passant,
            defender,
            origin,
            target,
        ) by {
        let x = piece_on(a, origin);
        let y = piece_on(b, origin);
        if x is Some && x.unwrap().color != defender {
            let piece = x.unwrap();
            lemma_attack_pattern_alike(a, b, en_passant, piece, origin);
            lemma_reaches_by_destinations(
                attack_pattern(a, en_passant, piece, origin),
                attack_pattern(b, en_passant, piece, origin),
                target,
            );
        }
    }
    assert(attacked_squares(a, en_passant, defender) =~= attacked_squares(
        b,
        en_passant,
        defender,
    ));
}

/// Placements with the kings of `color` on the same squares have the same
/// king's square.
pub proof fn lemma_king_square_alike(
    a: Map<Square, Piece>,
    b: Map<Square, Piece>,
    color: Color,
    row: int,
    column: int,
)
    requires
        forall|sq: Square| is_king_of(a, color, sq) == is_king_of(b, color, sq),
    ensures
        king_square_from(a, color, row, column) == king_square_from(b, color, row, column),
    decreases 8 - row, 8 - column,
{
    if row >= 8 || row < 0 || column < 0 {
    } else if column >= 8 {
        lemma_king_square_alike(a, b, color, row + 1, 0);
    } else if !is_king_of(a, color, (row as usize, column as usize)) {
        lemma_king_square_alike(a, b, color, row, column + 1);
    }
}

/// Whether the side to move is in check does not depend on the kind of one
/// of its own pieces, so long as that piece is no king.
pub proof fn lemma_check_ignores_kind(
    pos: Position,
    sq: Square,
    first: PieceKind,
    second: PieceKind,
)
    requires
        first != PieceKind::King,
        second != PieceKind::King,
    ensures
        in_check(pos.put(sq, Some(Piece { kind: first, color: pos.turn }))) == in_check(
            pos.put(sq, Some(Piece { kind: second, color: pos.turn })),
        ),
{
    let a = pos.put(sq, Some(Piece { kind: first, color: pos.turn })).pieces;
    let b = pos.put(sq, Some(Piece { kind: second, color: pos.turn })).pieces;
    assert forall|other: Square|
        #![trigger piece_on(a, other)]
        #![trigger piece_on(b, other)]
        other != sq implies piece_on(a, other) == piece_on(b, other) by {}
    assert(piece_on(a, sq) == Some(Piece { kind: first, color: pos.turn }));
    assert(piece_on(b, sq) == Some(Piece { kind: second, color: pos.turn }));
    assert(alike(a, b)) by {
        assert forall|other: Square|
            #![trigger piece_on(a, other)]
            #![trigger piece_on(b, other)]
            match (piece_on(a, other), piece_on(b, other)) {
                (Some(x), Some(y)) => x.color == y.color,
                (None, None) => true,
                _ => false,
            } by {
            if other != sq {
                assert(piece_on(a, other) == piece_on(b, other));
            }
        }
    }
    assert(same_attackers(a, b, pos.turn)) by {
        assert forall|other: Square|
            #![trigger piece_on(a, other)]
            #![trigger piece_on(b, other)]
            (piece_on(a, other) matches Some(piece) && piece.color != pos.turn) implies piece_on(
                b,
                other,
            ) == piece_on(a, other) by {
            if other != sq {
                assert(piece_on(a, other) == piece_on(b, other));
            }
        }
    }
    lemma_attacked_squares_alike(a, b, pos.en_passant, pos.turn);
    assert forall|other: Square| is_king_of(a, pos.turn, other) == is_king_of(
        b,
        pos.turn,
        other,
    ) by {
        if other != sq {
            assert(piece_on(a, other) == piece_on(b, other));
        }
    }
    lemma_king_square_alike(a, b, pos.turn, 0, 0);
}

/// The position that a generated promotion leaves, but for the promoted
/// piece itself: the destination, the origin and the square of a pawn taken
/// en passant are empty, and there is no en-passant target.
pub open spec fn promotion_ground(pos: Position, m: MoveView) -> Position {
    let cleared = pos.put(m.destination, None).put(m.origin, None);
    let emptied = if m.side_effects.len() == 3 {
        match m.side_effects[2] {
            SideEffect::EnPassantTake(victim) => cleared.put(victim, None),
            _ => cleared,
        }
    } else {
        cleared
    };
    Position { en_passant: None, ..emptied }
}

/// A generated promotion leaves its ground with the chosen piece, of the
/// mover's colour, on the destination.
pub proof fn lemma_promotion_outcome(pos: Position, m: MoveView, kind: PieceKind)
    requires
        promotes_as_generated(pos, m),
        m.has_effect(SideEffect::Promotion),
    ensures
        carry_out(pos, m.with_request(Some(kind))).pos == promotion_ground(pos, m).put(
            m.destination,
            Some(Piece { kind, color: pos.turn }),
        ),
        promotion_ground(pos, m).turn == pos.turn,
{
    let chosen = m.with_request(Some(kind));
    let start = Progress {
        pos: pos.put(m.destination, None),
        reset_clock: false,
        double_push: false,
        promoted: false,
    };
    let piece = Piece { kind, color: pos.turn };
    assert(start.pos.at(m.origin) == pos.at(m.origin));
    let done = apply_effects(start, chosen, chosen.side_effects);
    let wanted = promotion_ground(pos, m).put(m.destination, Some(piece));
    if m.side_effects == seq![SideEffect::Promotion, SideEffect::PawnMove] {
        assert(chosen.side_effects =~= seq![SideEffect::Promotion, SideEffect::PawnMove]);
        lemma_apply_two_effects(start, chosen, SideEffect::Promotion, SideEffect::PawnMove);
        assert(done.promoted);
        assert(carry_out(pos, chosen).pos.pieces =~= wanted.pieces);
    } else {
        let last = m.side_effects[2];
        assert(chosen.side_effects =~= seq![SideEffect::PawnMove, SideEffect::Promotion, last]);
        lemma_apply_three_effects(start, chosen, SideEffect::PawnMove, SideEffect::Promotion, last);
        assert(done.promoted);
        assert(carry_out(pos, chosen).pos.pieces =~= wanted.pieces);
    }
}

/// Whether a generated promotion leaves the mover's king attacked does not
/// depend on the piece chosen, so long as it is no king.
pub proof fn lemma_promotion_choice_is_idle(
    pos: Position,
    m: MoveView,
    first: PieceKind,
    second: PieceKind,
)
    requires
        promotes_as_generated(pos, m),
        m.has_effect(SideEffect::Promotion),
        first != PieceKind::King,
        second != PieceKind::King,
    ensures
        in_check(carry_out(pos, m.with_request(Some(first))).pos) == in_check(
            carry_out(pos, m.with_request(Some(second))).pos,
        ),
{
    lemma_promotion_outcome(pos, m, first);
    lemma_promotion_outcome(pos, m, second);
    lemma_check_ignores_kind(promotion_ground(pos, m), m.destination, first, second);
}

/// Every pseudo-legal move promotes as generated, if at all.
pub proof fn lemma_pseudo_legal_promote_as_generated(pos: Position)
    ensures
        all_promote_as_generated(pos, pseudo_legal_moves(pos)),
{
    lemma_moves_before_promote_as_generated(pos, 8, 0);
}

} // verus!
