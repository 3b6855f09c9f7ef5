//! No two candidate moves go from the same square to the same square: so
//! the move that a request names does not depend on the order in which the
//! moves are generated.

use vstd::prelude::*;
use crate::game::{is_member, lemma_find_move_is_member, lemma_safe_moves_members};
use crate::geometry::{
    jumps_to, king_step, law_king_reach, law_leaper_reach, law_ray_reach, law_slider_reach,
    lemma_empty_reach, lemma_landing_reach, lemma_reaches_add, lemma_single_reach, may_land,
    open_run, ray_in_bounds, ray_reaches, ray_square, slides_to,
};
use crate::helpers::{precedes, reaches, reaches_within};
use crate::models::{
    in_bounds, on_board, plain_move, square, Color, MoveView, Piece, PieceKind, SideEffect, Square,
};
use crate::moves::{
    base_effects, bishop_directions, castle_moves_spec, is_direction, king_home, king_side_castle,
    knight_offsets, landing, leaper_moves, pawn_capture, pawn_moves_spec, queen_side_castle,
    ray_moves, rook_corner, rook_directions, royal_offsets, slider_moves, step_moves,
};
use crate::position::{piece_on, Position};
use crate::rules::{
    find_move, legal_moves, moves_before, moves_from, pseudo_legal_moves, safe_moves,
};
use crate::soundness::{all_simple, lemma_leaper_simple, lemma_slider_simple};

verus! {

/// Whether no two moves of `moves` end on the same square.
pub open spec fn distinct_destinations(moves: Seq<MoveView>) -> bool {
    forall|i: int, j: int|
        0 <= i < j < moves.len() ==> (#[trigger] moves[i]).destination != (
        #[trigger] moves[j]).destination
}

/// A move of a list reaches its own destination.
pub proof fn lemma_member_reaches(moves: Seq<MoveView>, i: int)
    requires
        0 <= i < moves.len(),
    ensures
        reaches(moves, moves[i].destination),
{
    assert(reaches_within(moves, moves.len() as int, moves[i].destination));
}

/// Two lists without a common destination, each with distinct
/// destinations, have distinct destinations when joined.
pub proof fn lemma_distinct_add(first: Seq<MoveView>, second: Seq<MoveView>)
    requires
        distinct_destinations(first),
        distinct_destinations(second),
        forall|target: Square| !(reaches(first, target) && reaches(second, target)),
    ensures
        distinct_destinations(first + second),
{
    let both = first + second;
    assert forall|i: int, j: int| 0 <= i < j < both.len() implies (#[trigger] both[i]).destination
        != (#[trigger] both[j]).destination by {
        if j < first.len() {
            assert(both[i] == first[i] && both[j] == first[j]);
        } else if i >= first.len() {
            assert(both[i] == second[i - first.len()] && both[j] == second[j - first.len()]);
        } else {
            assert(both[i] == first[i] && both[j] == second[j - first.len()]);
            lemma_member_reaches(first, i);
            lemma_member_reaches(second, j - first.len());
        }
    }
}

/// A landing has at most one move.
pub proof fn lemma_landing_distinct(
    pieces: Map<Square, Piece>,
    color: Color,
    origin: Square,
    destination: Square,
    base: Seq<SideEffect>,
)
    ensures
        distinct_destinations(landing(pieces, color, origin, destination, base)),
{
}

/// Whether no two of `offsets` are the same.
pub open spec fn distinct_offsets(offsets: Seq<(isize, isize)>) -> bool {
    forall|i: int, j: int|
        0 <= i < j < offsets.len() ==> #[trigger] offsets[i] != #[trigger] offsets[j]
}

/// A leaper with distinct offsets has moves with distinct destinations.
pub proof fn lemma_leaper_distinct(
    pieces: Map<Square, Piece>,
    color: Color,
    origin: Square,
    offsets: Seq<(isize, isize)>,
    base: Seq<SideEffect>,
)
    requires
        on_board(origin),
        distinct_offsets(offsets),
    ensures
        distinct_destinations(leaper_moves(pieces, color, origin, offsets, base)),
    decreases offsets.len(),
{
    if offsets.len() > 0 {
        let front = offsets.drop_last();
        let last = offsets.last();
        let dr = last.0 as int;
        let dc = last.1 as int;
        assert(distinct_offsets(front)) by {
            assert forall|i: int, j: int| 0 <= i < j < front.len() implies #[trigger] front[i]
                != #[trigger] front[j] by {
                assert(front[i] == offsets[i] && front[j] == offsets[j]);
            }
        }
        lemma_leaper_distinct(pieces, color, origin, front, base);
        let before = leaper_moves(pieces, color, origin, front, base);
        let step = step_moves(pieces, color, origin, dr, dc, base);
        if in_bounds(origin.0 + dr, origin.1 + dc) {
            lemma_landing_distinct(pieces, color, origin, square(origin.0 + dr, origin.1 + dc), base);
        }
        assert forall|target: Square| !(reaches(before, target) && reaches(step, target)) by {
            law_leaper_reach(pieces, color, origin, front, base, target);
            if reaches(before, target) && reaches(step, target) {
                if in_bounds(origin.0 + dr, origin.1 + dc) {
                    lemma_landing_reach(
                        pieces,
                        color,
                        origin,
                        square(origin.0 + dr, origin.1 + dc),
                        base,
                        target,
                    );
                    let i = choose|i: int|
                        0 <= i < front.len() && in_bounds(
                            origin.0 + (#[trigger] front[i]).0,
                            origin.1 + front[i].1,
                        ) && target == square(origin.0 + front[i].0, origin.1 + front[i].1);
                    assert(front[i] == offsets[i]);
                    assert(offsets[i] != offsets[offsets.len() - 1]);
                    assert(false);
                } else {
                    lemma_empty_reach(target);
                }
            }
        }
        lemma_distinct_add(before, step);
    }
}

/// A whole number of steps in a direction keeps the sign of the direction.
pub proof fn lemma_steps_keep_sign(d: int, n: int)
    requires
        -1 <= d <= 1,
        n >= 1,
    ensures
        d == 1 ==> n * d == n,
        d == -1 ==> n * d == -n,
        d == 0 ==> n * d == 0,
{
    assert(d == 1 ==> n * d == n) by (nonlinear_arith);
    assert(d == -1 ==> n * d == -n) by (nonlinear_arith);
    assert(d == 0 ==> n * d == 0) by (nonlinear_arith);
}

/// The square `k` steps along a ray lies where the steps lead: each
/// coordinate has moved by `k` in the direction's sense, or not at all.
pub proof fn lemma_ray_square_at(r: int, c: int, dr: int, dc: int, k: int)
    requires
        -1 <= dr <= 1,
        -1 <= dc <= 1,
        k >= 0,
    ensures
        dr == 1 ==> r + k * dr == r + k,
        dr == -1 ==> r + k * dr == r - k,
        dr == 0 ==> r + k * dr == r,
        dc == 1 ==> c + k * dc == c + k,
        dc == -1 ==> c + k * dc == c - k,
        dc == 0 ==> c + k * dc == c,
{
    if k >= 1 {
        lemma_steps_keep_sign(dr, k);
        lemma_steps_keep_sign(dc, k);
    } else {
        assert(k * dr == 0) by (nonlinear_arith)
            requires
                k == 0,
        ;
        assert(k * dc == 0) by (nonlinear_arith)
            requires
                k == 0,
        ;
    }
}

/// The moves along a ray have distinct destinations.
pub proof fn lemma_ray_distinct(
    pieces: Map<Square, Piece>,
    color: Color,
    origin: Square,
    r: int,
    c: int,
    dr: int,
    dc: int,
    base: Seq<SideEffect>,
    reach: nat,
)
    requires
        -1 <= dr <= 1,
        -1 <= dc <= 1,
        dr != 0 || dc != 0,
    ensures
        distinct_destinations(ray_moves(pieces, color, origin, r, c, dr, dc, base, reach)),
    decreases reach,
{
    if reach != 0 && in_bounds(r, c) {
        let here = square(r, c);
        if piece_on(pieces, here) is None {
            let first = seq![plain_move(origin, here, base)];
            let rest = ray_moves(
                pieces,
                color,
                origin,
                r + dr,
                c + dc,
                dr,
                dc,
                base,
                (reach - 1) as nat,
            );
            lemma_ray_distinct(pieces, color, origin, r + dr, c + dc, dr, dc, base, (reach - 1) as nat);
            assert forall|target: Square| !(reaches(first, target) && reaches(rest, target)) by {
                lemma_single_reach(first[0], target);
                law_ray_reach(
                    pieces,
                    color,
                    origin,
                    r + dr,
                    c + dc,
                    dr,
                    dc,
                    base,
                    (reach - 1) as nat,
                    target,
                );
                if reaches(first, target) && reaches(rest, target) {
                    let k = choose|k: int|
                        0 <= k < reach - 1 && open_run(pieces, r + dr, c + dc, dr, dc, k)
                            && ray_in_bounds(r + dr, c + dc, dr, dc, k) && target
                            == #[trigger] ray_square(r + dr, c + dc, dr, dc, k) && may_land(
                            pieces,
                            color,
                            target,
                        );
                    lemma_ray_square_at(r + dr, c + dc, dr, dc, k);
                    assert(false);
                }
            }
            lemma_distinct_add(first, rest);
        }
    }
}

/// Whether every one of `directions` is a step to a neighbouring square.
pub open spec fn all_directions(directions: Seq<(isize, isize)>) -> bool {
    forall|i: int| 0 <= i < directions.len() ==> is_direction(#[trigger] directions[i])
}

/// Rays that leave a square in different directions share no square.
pub proof fn lemma_rays_apart(
    origin: Square,
    first: (isize, isize),
    second: (isize, isize),
    k: int,
    n: int,
)
    requires
        on_board(origin),
        is_direction(first),
        is_direction(second),
        first != second,
        0 <= k,
        0 <= n,
        ray_in_bounds(origin.0 + first.0, origin.1 + first.1, first.0 as int, first.1 as int, k),
        ray_in_bounds(origin.0 + second.0, origin.1 + second.1, second.0 as int, second.1 as int, n),
    ensures
        ray_square(origin.0 + first.0, origin.1 + first.1, first.0 as int, first.1 as int, k)
            != ray_square(
            origin.0 + second.0,
            origin.1 + second.1,
            second.0 as int,
            second.1 as int,
            n,
        ),
{
    lemma_ray_square_at(origin.0 + first.0, origin.1 + first.1, first.0 as int, first.1 as int, k);
    lemma_ray_square_at(
        origin.0 + second.0,
        origin.1 + second.1,
        second.0 as int,
        second.1 as int,
        n,
    );
}

/// A slider with distinct directions has moves with distinct destinations.
pub proof fn lemma_slider_distinct(
    pieces: Map<Square, Piece>,
    color: Color,
    origin: Square,
    directions: Seq<(isize, isize)>,
    base: Seq<SideEffect>,
)
    requires
        on_board(origin),
        all_directions(directions),
        distinct_offsets(directions),
    ensures
        distinct_destinations(slider_moves(pieces, color, origin, directions, base)),
    decreases directions.len(),
{
    if directions.len() > 0 {
        let front = directions.drop_last();
        let d = directions.last();
        assert(distinct_offsets(front) && all_directions(front)) by {
            assert forall|i: int, j: int| 0 <= i < j < front.len() implies #[trigger] front[i]
                != #[trigger] front[j] by {
                assert(front[i] == directions[i] && front[j] == directions[j]);
            }
            assert forall|i: int| 0 <= i < front.len() implies is_direction(
                #[trigger] front[i],
            ) by {
                assert(front[i] == directions[i]);
            }
        }
        assert(is_direction(directions[directions.len() - 1]));
        lemma_slider_distinct(pieces, color, origin, front, base);
        let before = slider_moves(pieces, color, origin, front, base);
        let along = ray_moves(
            pieces,
            color,
            origin,
            origin.0 + d.0,
            origin.1 + d.1,
            d.0 as int,
            d.1 as int,
            base,
            7,
        );
        lemma_ray_distinct(
            pieces,
            color,
            origin,
            origin.0 + d.0,
            origin.1 + d.1,
            d.0 as int,
            d.1 as int,
            base,
            7,
        );
        assert forall|target: Square| !(reaches(before, target) && reaches(along, target)) by {
            law_slider_reach(pieces, color, origin, front, base, target);
            law_ray_reach(
                pieces,
                color,
                origin,
                origin.0 + d.0,
                origin.1 + d.1,
                d.0 as int,
                d.1 as int,
                base,
                7,
                target,
            );
            if reaches(before, target) && reaches(along, target) {
                let i = choose|i: int|
                    0 <= i < front.len() && ray_reaches(
                        pieces,
                        color,
                        origin.0 + (#[trigger] front[i]).0,
                        origin.1 + front[i].1,
                        front[i].0 as int,
                        front[i].1 as int,
                        7,
                        target,
                    );
                let e = front[i];
                assert(e == directions[i]);
                assert(directions[i] != directions[directions.len() - 1]);
                let k = choose|k: int|
                    0 <= k < 7 && open_run(
                        pieces,
                        origin.0 + e.0,
                        origin.1 + e.1,
                        e.0 as int,
                        e.1 as int,
                        k,
                    ) && ray_in_bounds(origin.0 + e.0, origin.1 + e.1, e.0 as int, e.1 as int, k)
                        && target == #[trigger] ray_square(
                        origin.0 + e.0,
                        origin.1 + e.1,
                        e.0 as int,
                        e.1 as int,
                        k,
                    ) && may_land(pieces, color, target);
                let n = choose|n: int|
                    0 <= n < 7 && open_run(
                        pieces,
                        origin.0 + d.0,
                        origin.1 + d.1,
                        d.0 as int,
                        d.1 as int,
                        n,
                    ) && ray_in_bounds(origin.0 + d.0, origin.1 + d.1, d.0 as int, d.1 as int, n)
                        && target == #[trigger] ray_square(
                        origin.0 + d.0,
                        origin.1 + d.1,
                        d.0 as int,
                        d.1 as int,
                        n,
                    ) && may_land(pieces, color, target);
                lemma_rays_apart(origin, e, d, k, n);
                assert(false);
            }
        }
        lemma_distinct_add(before, along);
    }
}

/// The eight jumps of a knight are distinct.
pub proof fn lemma_knight_offsets_distinct()
    ensures
        distinct_offsets(knight_offsets()),
{
    let offsets = knight_offsets();
    assert(offsets[0] == (2isize, 1isize));
    assert(offsets[1] == (2isize, -1isize));
    assert(offsets[2] == (-2isize, 1isize));
    assert(offsets[3] == (-2isize, -1isize));
    assert(offsets[4] == (1isize, 2isize));
    assert(offsets[5] == (1isize, -2isize));
    assert(offsets[6] == (-1isize, 2isize));
    assert(offsets[7] == (-1isize, -2isize));
}

/// The eight steps of a king are distinct, and each is a direction.
pub proof fn lemma_royal_offsets_distinct()
    ensures
        distinct_offsets(royal_offsets()),
        all_directions(royal_offsets()),
{
    let offsets = royal_offsets();
    assert(offsets[0] == (-1isize, -1isize));
    assert(offsets[1] == (-1isize, 0isize));
    assert(offsets[2] == (-1isize, 1isize));
    assert(offsets[3] == (0isize, 1isize));
    assert(offsets[4] == (1isize, 1isize));
    assert(offsets[5] == (1isize, 0isize));
    assert(offsets[6] == (1isize, -1isize));
    assert(offsets[7] == (0isize, -1isize));
}

/// The four directions of a rook are distinct, and so are those of a
/// bishop.
pub proof fn lemma_line_directions_distinct()
    ensures
        distinct_offsets(rook_directions()),
        all_directions(rook_directions()),
        distinct_offsets(bishop_directions()),
        all_directions(bishop_directions()),
{
    let rook = rook_directions();
    assert(rook[0] == (-1isize, 0isize));
    assert(rook[1] == (0isize, 1isize));
    assert(rook[2] == (1isize, 0isize));
    assert(rook[3] == (0isize, -1isize));
    let bishop = bishop_directions();
    assert(bishop[0] == (-1isize, -1isize));
    assert(bishop[1] == (1isize, 1isize));
    assert(bishop[2] == (1isize, -1isize));
    assert(bishop[3] == (-1isize, 1isize));
}

/// Whether every move of `moves` goes from `origin`.
pub open spec fn all_from(moves: Seq<MoveView>, origin: Square) -> bool {
    forall|i: int| 0 <= i < moves.len() ==> (#[trigger] moves[i]).origin == origin
}

/// Simple moves go from their origin.
pub proof fn lemma_simple_moves_from(moves: Seq<MoveView>, origin: Square, base: Seq<SideEffect>)
    requires
        all_simple(moves, origin, base),
    ensures
        all_from(moves, origin),
{
}

/// The candidate moves of a piece go from its square, and no two of them
/// end on the same square.
pub proof fn lemma_moves_from_distinct(pos: Position, origin: Square)
    requires
        on_board(origin),
    ensures
        all_from(moves_from(pos, origin), origin),
        distinct_destinations(moves_from(pos, origin)),
{
    if let Some(piece) = pos.at(origin) {
        if piece.color == pos.turn {
            let color = pos.turn;
            let none = Seq::<SideEffect>::empty();
            let moves = moves_from(pos, origin);
            lemma_knight_offsets_distinct();
            lemma_royal_offsets_distinct();
            lemma_line_directions_distinct();
            match piece.kind {
                PieceKind::King => {
                    let base = seq![SideEffect::KingMove(color)];
                    let steps = leaper_moves(pos.pieces, color, origin, royal_offsets(), base);
                    let castles = castle_moves_spec(pos, color, origin);
                    lemma_leaper_simple(pos.pieces, color, origin, royal_offsets(), base);
                    lemma_simple_moves_from(steps, origin, base);
                    lemma_leaper_distinct(pos.pieces, color, origin, royal_offsets(), base);
                    assert(king_side_castle(color).destination != queen_side_castle(
                        color,
                    ).destination);
                    assert(distinct_destinations(castles));
                    assert(all_from(castles, origin));
                    assert forall|target: Square|
                        !(reaches(steps, target) && reaches(castles, target)) by {
                        law_king_reach(pos.pieces, color, origin, target);
                        if reaches(steps, target) && reaches(castles, target) {
                            let i = choose|i: int|
                                0 <= i < castles.len() && i < castles.len() && (
                                #[trigger] castles[i]).destination == target;
                            assert(origin == king_home(color));
                            assert(castles[i] == king_side_castle(color) || castles[i]
                                == queen_side_castle(color));
                            assert(false);
                        }
                    }
                    lemma_distinct_add(steps, castles);
                },
                PieceKind::Queen => {
                    lemma_slider_simple(pos.pieces, color, origin, royal_offsets(), none);
                    lemma_simple_moves_from(moves, origin, none);
                    lemma_slider_distinct(pos.pieces, color, origin, royal_offsets(), none);
                },
                PieceKind::Rook => {
                    let base = base_effects(rook_corner(color, origin));
                    lemma_slider_simple(pos.pieces, color, origin, rook_directions(), base);
                    lemma_simple_moves_from(moves, origin, base);
                    lemma_slider_distinct(pos.pieces, color, origin, rook_directions(), base);
                },
                PieceKind::Bishop => {
                    lemma_slider_simple(pos.pieces, color, origin, bishop_directions(), none);
                    lemma_simple_moves_from(moves, origin, none);
                    lemma_slider_distinct(pos.pieces, color, origin, bishop_directions(), none);
                },
                PieceKind::Knight => {
                    lemma_leaper_simple(pos.pieces, color, origin, knight_offsets(), none);
                    lemma_simple_moves_from(moves, origin, none);
                    lemma_leaper_distinct(pos.pieces, color, origin, knight_offsets(), none);
                },
                PieceKind::Pawn => {
                    let pushes = pawn_moves_spec(pos.pieces, color, origin);
                    let left = pawn_capture(pos.pieces, pos.en_passant, color, origin, -1);
                    let right = pawn_capture(pos.pieces, pos.en_passant, color, origin, 1);
                    assert(moves == pushes + (left + right));
                    assert forall|i: int| 0 <= i < moves.len() implies (#[trigger] moves[i]).origin
                        == origin && (if i < pushes.len() {
                        moves[i].destination.1 == origin.1 && (i == 1 ==> moves[i].destination.0
                            != pushes[0].destination.0)
                    } else if i < pushes.len() + left.len() {
                        moves[i].destination.1 == origin.1 - 1
                    } else {
                        moves[i].destination.1 == origin.1 + 1
                    }) by {
                        if i < pushes.len() {
                            assert(moves[i] == pushes[i]);
                        } else if i < pushes.len() + left.len() {
                            assert(moves[i] == left[i - pushes.len()]);
                        } else {
                            assert(moves[i] == right[i - pushes.len() - left.len()]);
                        }
                    }
                    assert forall|i: int, j: int| 0 <= i < j < moves.len() implies (
                    #[trigger] moves[i]).destination != (#[trigger] moves[j]).destination by {
                        if j < pushes.len() {
                            assert(i == 0 && j == 1);
                            assert(moves[0] == pushes[0]);
                        }
                    }
                },
            }
        }
    }
}

/// Whether no two moves of `moves` have the same origin and the same
/// destination.
pub open spec fn distinct_endpoints(moves: Seq<MoveView>) -> bool {
    forall|i: int, j: int|
        0 <= i < j < moves.len() ==> !((#[trigger] moves[i]).origin == (#[trigger] moves[j]).origin
            && moves[i].destination == moves[j].destination)
}

/// Whether every move of `moves` goes from a square before `(row, column)`.
pub open spec fn origins_before(moves: Seq<MoveView>, row: int, column: int) -> bool {
    forall|i: int| 0 <= i < moves.len() ==> precedes((#[trigger] moves[i]).origin, row, column)
}

/// The candidate moves gathered on the way over the board go from squares
/// passed, and no two of them have the same origin and destination.
pub proof fn lemma_moves_before_distinct(pos: Position, row: int, column: int)
    requires
        0 <= row <= 8,
        0 <= column <= 8,
        row == 8 ==> column == 0,
    ensures
        origins_before(moves_before(pos, row, column), row, column),
        distinct_endpoints(moves_before(pos, row, column)),
    decreases row, column,
{
    if row == 0 && column == 0 {
    } else if column == 0 {
        lemma_moves_before_distinct(pos, row - 1, 8);
        let moves = moves_before(pos, row - 1, 8);
        assert forall|i: int| 0 <= i < moves.len() implies precedes(
            (#[trigger] moves[i]).origin,
            row,
            0,
        ) by {
            assert(precedes(moves[i].origin, row - 1, 8));
        }
    } else {
        let here: Square = (row as usize, (column - 1) as usize);
        let before = moves_before(pos, row, column - 1);
        let new = moves_from(pos, here);
        let moves = before + new;
        lemma_moves_before_distinct(pos, row, column - 1);
        lemma_moves_from_distinct(pos, here);
        assert forall|i: int| 0 <= i < moves.len() implies precedes(
            (#[trigger] moves[i]).origin,
            row,
            column,
        ) by {
            if i < before.len() {
                assert(moves[i] == before[i]);
                assert(precedes(before[i].origin, row, column - 1));
            } else {
                assert(moves[i] == new[i - before.len()]);
            }
        }
        assert forall|i: int, j: int| 0 <= i < j < moves.len() implies !((
        #[trigger] moves[i]).origin == (#[trigger] moves[j]).origin && moves[i].destination
            == moves[j].destination) by {
            if j < before.len() {
                assert(moves[i] == before[i] && moves[j] == before[j]);
            } else if i >= before.len() {
                assert(moves[i] == new[i - before.len()] && moves[j] == new[j - before.len()]);
            } else {
                assert(moves[i] == before[i] && moves[j] == new[j - before.len()]);
                assert(precedes(before[i].origin, row, column - 1));
            }
        }
    }
}

/// The legality filter keeps the endpoints distinct.
pub proof fn lemma_safe_moves_distinct(pos: Position, moves: Seq<MoveView>)
    requires
        distinct_endpoints(moves),
    ensures
        distinct_endpoints(safe_moves(pos, moves)),
    decreases moves.len(),
{
    if moves.len() > 0 {
        let front = moves.drop_last();
        let last = moves.last();
        assert(distinct_endpoints(front)) by {
            assert forall|i: int, j: int| 0 <= i < j < front.len() implies !((
            #[trigger] front[i]).origin == (#[trigger] front[j]).origin && front[i].destination
                == front[j].destination) by {
                assert(front[i] == moves[i] && front[j] == moves[j]);
            }
        }
        lemma_safe_moves_distinct(pos, front);
        let kept = safe_moves(pos, moves);
        let rest = safe_moves(pos, front);
        assert forall|i: int, j: int| 0 <= i < j < kept.len() implies !((
        #[trigger] kept[i]).origin == (#[trigger] kept[j]).origin && kept[i].destination
            == kept[j].destination) by {
            if j < rest.len() {
                assert(kept[i] == rest[i] && kept[j] == rest[j]);
            } else {
                assert(kept[j] == last);
                assert(kept[i] == rest[i]);
                assert(is_member(rest, rest[i]));
                lemma_safe_moves_members(pos, front, rest[i]);
                let n = choose|n: int| 0 <= n < front.len() && #[trigger] front[n] == rest[i];
                assert(moves[n] == rest[i]);
                assert(moves[moves.len() - 1] == last);
            }
        }
    }
}

/// In a list with distinct endpoints, the move found for an origin and a
/// destination is the one move of the list that goes from the one to the
/// other.
pub proof fn lemma_find_move_is_the_move(
    moves: Seq<MoveView>,
    m: MoveView,
)
    requires
        distinct_endpoints(moves),
        is_member(moves, m),
    ensures
        find_move(moves, m.origin, m.destination) == Some(m),
    decreases moves.len(),
{
    let i = choose|i: int| 0 <= i < moves.len() && #[trigger] moves[i] == m;
    if moves.first().origin == m.origin && moves.first().destination == m.destination {
        if i != 0 {
            assert(moves[0] == moves.first());
            assert(false);
        }
    } else {
        let rest = moves.drop_first();
        assert(rest[i - 1] == m);
        assert(distinct_endpoints(rest)) by {
            assert forall|a: int, b: int| 0 <= a < b < rest.len() implies !((
            #[trigger] rest[a]).origin == (#[trigger] rest[b]).origin && rest[a].destination
                == rest[b].destination) by {
                assert(rest[a] == moves[a + 1] && rest[b] == moves[b + 1]);
            }
        }
        lemma_find_move_is_the_move(rest, m);
    }
}

/// The move that a request names. No two legal moves go from the same
/// square to the same square; so the move found for a request is the one
/// legal move between its two squares, whatever the order of generation.
pub proof fn law_requested_move_is_unique(pos: Position, m: MoveView, origin: Square, destination: Square)
    ensures
        distinct_endpoints(legal_moves(pos)),
        find_move(legal_moves(pos), origin, destination) == Some(m) <==> is_member(
            legal_moves(pos),
            m,
        ) && m.origin == origin && m.destination == destination,
{
    lemma_moves_before_distinct(pos, 8, 0);
    lemma_safe_moves_distinct(pos, pseudo_legal_moves(pos));
    lemma_find_move_is_member(legal_moves(pos), origin, destination);
    if is_member(legal_moves(pos), m) && m.origin == origin && m.destination == destination {
        lemma_find_move_is_the_move(legal_moves(pos), m);
    }
}

} // verus!
