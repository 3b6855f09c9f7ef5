//! Which squares each piece reaches, said by the geometry of the board
//! rather than by the order in which the moves are generated.

use vstd::prelude::*;
use crate::helpers::{attack_pattern, reaches, reaches_within};
use crate::models::{
    in_bounds, on_board, plain_move, square, Color, MoveView, Piece, PieceKind, SideEffect, Square,
};
use crate::moves::{
    base_effects, bishop_directions, bishop_moves_spec, king_moves_spec, knight_moves_spec,
    knight_offsets, landing, leaper_moves, pawn_attacking_moves_spec, queen_moves_spec, ray_moves,
    rook_corner, rook_directions, rook_moves_spec, royal_offsets, slider_moves, step_moves,
};
use crate::position::piece_on;

verus! {

/// Whether a piece of `color` may land on `target`: the square is empty or
/// holds an enemy piece.
pub open spec fn may_land(pieces: Map<Square, Piece>, color: Color, target: Square) -> bool {
    match piece_on(pieces, target) {
        Some(piece) => piece.color != color,
        None => true,
    }
}

/// Two lists of moves, one after the other, reach what either reaches.
pub proof fn lemma_reaches_add(first: Seq<MoveView>, second: Seq<MoveView>, target: Square)
    ensures
        reaches(first + second, target) <==> reaches(first, target) || reaches(second, target),
{
    let both = first + second;
    if reaches(both, target) {
        let i = choose|i: int|
            0 <= i < both.len() && i < both.len() && (#[trigger] both[i]).destination == target;
        if i < first.len() {
            assert(first[i].destination == target);
            assert(reaches_within(first, first.len() as int, target));
        } else {
            assert(second[i - first.len()].destination == target);
            assert(reaches_within(second, second.len() as int, target));
        }
    }
    if reaches(first, target) {
        let i = choose|i: int|
            0 <= i < first.len() && i < first.len() && (#[trigger] first[i]).destination
                == target;
        assert(both[i].destination == target);
        assert(reaches_within(both, both.len() as int, target));
    }
    if reaches(second, target) {
        let i = choose|i: int|
            0 <= i < second.len() && i < second.len() && (#[trigger] second[i]).destination
                == target;
        assert(both[first.len() + i].destination == target);
        assert(reaches_within(both, both.len() as int, target));
    }
}

/// A landing reaches its destination, where the piece may land there, and
/// nothing else.
pub proof fn lemma_landing_reach(
    pieces: Map<Square, Piece>,
    color: Color,
    origin: Square,
    destination: Square,
    base: Seq<SideEffect>,
    target: Square,
)
    ensures
        reaches(landing(pieces, color, origin, destination, base), target) <==> target
            == destination && may_land(pieces, color, destination),
{
    let moves = landing(pieces, color, origin, destination, base);
    if reaches(moves, target) {
        let i = choose|i: int|
            0 <= i < moves.len() && i < moves.len() && (#[trigger] moves[i]).destination
                == target;
    }
    if target == destination && may_land(pieces, color, destination) {
        assert(moves[0].destination == target);
        assert(reaches_within(moves, moves.len() as int, target));
    }
}

/// Whether `target` lies at one of the `offsets` from `origin`, on the
/// board.
pub open spec fn jumps_to(origin: Square, offsets: Seq<(isize, isize)>, target: Square) -> bool {
    exists|i: int|
        0 <= i < offsets.len() && in_bounds(
            origin.0 + (#[trigger] offsets[i]).0,
            origin.1 + offsets[i].1,
        ) && target == square(origin.0 + offsets[i].0, origin.1 + offsets[i].1)
}

/// A leaper reaches exactly the squares of the board that lie at one of its
/// offsets and on which it may land.
pub proof fn law_leaper_reach(
    pieces: Map<Square, Piece>,
    color: Color,
    origin: Square,
    offsets: Seq<(isize, isize)>,
    base: Seq<SideEffect>,
    target: Square,
)
    ensures
        reaches(leaper_moves(pieces, color, origin, offsets, base), target) <==> jumps_to(
            origin,
            offsets,
            target,
        ) && may_land(pieces, color, target),
    decreases offsets.len(),
{
    if offsets.len() == 0 {
        let moves = leaper_moves(pieces, color, origin, offsets, base);
        if reaches(moves, target) {
            let i = choose|i: int|
                0 <= i < moves.len() && i < moves.len() && (#[trigger] moves[i]).destination
                    == target;
        }
    } else {
        let front = offsets.drop_last();
        let last = offsets.last();
        let dr = last.0 as int;
        let dc = last.1 as int;
        law_leaper_reach(pieces, color, origin, front, base, target);
        lemma_reaches_add(
            leaper_moves(pieces, color, origin, front, base),
            step_moves(pieces, color, origin, dr, dc, base),
            target,
        );
        let by_last = in_bounds(origin.0 + dr, origin.1 + dc) && target == square(
            origin.0 + dr,
            origin.1 + dc,
        );
        if in_bounds(origin.0 + dr, origin.1 + dc) {
            lemma_landing_reach(
                pieces,
                color,
                origin,
                square(origin.0 + dr, origin.1 + dc),
                base,
                target,
            );
        } else {
            let none = step_moves(pieces, color, origin, dr, dc, base);
            if reaches(none, target) {
                let i = choose|i: int|
                    0 <= i < none.len() && i < none.len() && (#[trigger] none[i]).destination
                        == target;
            }
        }
        assert(jumps_to(origin, offsets, target) <==> jumps_to(origin, front, target) || by_last)
            by {
            if jumps_to(origin, offsets, target) {
                let i = choose|i: int|
                    0 <= i < offsets.len() && in_bounds(
                        origin.0 + (#[trigger] offsets[i]).0,
                        origin.1 + offsets[i].1,
                    ) && target == square(origin.0 + offsets[i].0, origin.1 + offsets[i].1);
                if i < front.len() {
                    assert(front[i] == offsets[i]);
                }
            }
            if jumps_to(origin, front, target) {
                let i = choose|i: int|
                    0 <= i < front.len() && in_bounds(
                        origin.0 + (#[trigger] front[i]).0,
                        origin.1 + front[i].1,
                    ) && target == square(origin.0 + front[i].0, origin.1 + front[i].1);
                assert(offsets[i] == front[i]);
            }
            if by_last {
                assert(offsets[offsets.len() - 1] == last);
            }
        }
    }
}

/// Whether `target` is a knight's jump away from `origin`: two squares
/// along one line and one along the other.
pub open spec fn knight_jump(origin: Square, target: Square) -> bool {
    let dr = target.0 - origin.0;
    let dc = target.1 - origin.1;
    ((dr == 2 || dr == -2) && (dc == 1 || dc == -1)) || ((dr == 1 || dr == -1) && (dc == 2 || dc
        == -2))
}

/// Whether `target` is a neighbour of `origin`.
pub open spec fn king_step(origin: Square, target: Square) -> bool {
    let dr = target.0 - origin.0;
    let dc = target.1 - origin.1;
    -1 <= dr <= 1 && -1 <= dc <= 1 && (dr != 0 || dc != 0)
}

/// A knight reaches exactly the squares of the board that are a knight's
/// jump away and hold no piece of its colour.
pub proof fn law_knight_reach(
    pieces: Map<Square, Piece>,
    color: Color,
    origin: Square,
    target: Square,
)
    requires
        on_board(origin),
    ensures
        reaches(knight_moves_spec(pieces, color, origin), target) <==> on_board(target)
            && knight_jump(origin, target) && may_land(pieces, color, target),
{
    let offsets = knight_offsets();
    law_leaper_reach(pieces, color, origin, offsets, Seq::empty(), target);
    if jumps_to(origin, offsets, target) {
        let i = choose|i: int|
            0 <= i < offsets.len() && in_bounds(
                origin.0 + (#[trigger] offsets[i]).0,
                origin.1 + offsets[i].1,
            ) && target == square(origin.0 + offsets[i].0, origin.1 + offsets[i].1);
    }
    if on_board(target) && knight_jump(origin, target) {
        let dr = target.0 - origin.0;
        let dc = target.1 - origin.1;
        let i: int = if dr == 2 && dc == 1 {
            0
        } else if dr == 2 && dc == -1 {
            1
        } else if dr == -2 && dc == 1 {
            2
        } else if dr == -2 && dc == -1 {
            3
        } else if dr == 1 && dc == 2 {
            4
        } else if dr == 1 && dc == -2 {
            5
        } else if dr == -1 && dc == 2 {
            6
        } else {
            7
        };
        assert(offsets[i].0 == dr && offsets[i].1 == dc);
        assert(target == square(origin.0 + offsets[i].0, origin.1 + offsets[i].1));
    }
}

/// A king steps onto exactly the neighbouring squares of the board that
/// hold no piece of its colour.
pub proof fn law_king_reach(
    pieces: Map<Square, Piece>,
    color: Color,
    origin: Square,
    target: Square,
)
    requires
        on_board(origin),
    ensures
        reaches(king_moves_spec(pieces, color, origin), target) <==> on_board(target)
            && king_step(origin, target) && may_land(pieces, color, target),
{
    let offsets = royal_offsets();
    law_leaper_reach(
        pieces,
        color,
        origin,
        offsets,
        seq![SideEffect::KingMove(color)],
        target,
    );
    if jumps_to(origin, offsets, target) {
        let i = choose|i: int|
            0 <= i < offsets.len() && in_bounds(
                origin.0 + (#[trigger] offsets[i]).0,
                origin.1 + offsets[i].1,
            ) && target == square(origin.0 + offsets[i].0, origin.1 + offsets[i].1);
    }
    if on_board(target) && king_step(origin, target) {
        let dr = target.0 - origin.0;
        let dc = target.1 - origin.1;
        let i: int = if dr == -1 && dc == -1 {
            0
        } else if dr == -1 && dc == 0 {
            1
        } else if dr == -1 && dc == 1 {
            2
        } else if dr == 0 && dc == 1 {
            3
        } else if dr == 1 && dc == 1 {
            4
        } else if dr == 1 && dc == 0 {
            5
        } else if dr == 1 && dc == -1 {
            6
        } else {
            7
        };
        assert(offsets[i].0 == dr && offsets[i].1 == dc);
        assert(target == square(origin.0 + offsets[i].0, origin.1 + offsets[i].1));
    }
}

/// Whether the point `k` steps of `(dr, dc)` from `(r, c)` is on the board.
pub open spec fn ray_in_bounds(r: int, c: int, dr: int, dc: int, k: int) -> bool {
    in_bounds(r + k * dr, c + k * dc)
}

/// The square `k` steps of `(dr, dc)` from `(r, c)`.
pub open spec fn ray_square(r: int, c: int, dr: int, dc: int, k: int) -> Square {
    square(r + k * dr, c + k * dc)
}

/// Whether the first `k` squares of the ray that starts on `(r, c)` and
/// goes by `(dr, dc)` are on the board and empty.
pub open spec fn open_run(
    pieces: Map<Square, Piece>,
    r: int,
    c: int,
    dr: int,
    dc: int,
    k: int,
) -> bool {
    forall|j: int|
        0 <= j < k ==> ray_in_bounds(r, c, dr, dc, j) && piece_on(
            pieces,
            #[trigger] ray_square(r, c, dr, dc, j),
        ) is None
}

/// Whether a piece of `color` reaches `target` along the ray that starts
/// on `(r, c)` and goes by `(dr, dc)` for at most `reach` squares: `target`
/// is a square of the ray, every square of the ray before it is empty, and
/// the piece may land on it.
pub open spec fn ray_reaches(
    pieces: Map<Square, Piece>,
    color: Color,
    r: int,
    c: int,
    dr: int,
    dc: int,
    reach: int,
    target: Square,
) -> bool {
    exists|k: int|
        0 <= k < reach && open_run(pieces, r, c, dr, dc, k) && ray_in_bounds(r, c, dr, dc, k)
            && target == #[trigger] ray_square(r, c, dr, dc, k) && may_land(pieces, color, target)
}

/// One step further along a ray is the same as starting one step later.
pub proof fn lemma_ray_shift(r: int, c: int, dr: int, dc: int, k: int)
    ensures
        ray_square(r + dr, c + dc, dr, dc, k) == ray_square(r, c, dr, dc, k + 1),
        ray_in_bounds(r + dr, c + dc, dr, dc, k) == ray_in_bounds(r, c, dr, dc, k + 1),
{
    assert((k + 1) * dr == k * dr + dr) by (nonlinear_arith);
    assert((k + 1) * dc == k * dc + dc) by (nonlinear_arith);
}

/// A single move reaches its destination only.
pub proof fn lemma_single_reach(m: MoveView, target: Square)
    ensures
        reaches(seq![m], target) <==> target == m.destination,
{
    let moves = seq![m];
    if reaches(moves, target) {
        let i = choose|i: int|
            0 <= i < moves.len() && i < moves.len() && (#[trigger] moves[i]).destination
                == target;
    }
    if target == m.destination {
        assert(moves[0].destination == target);
        assert(reaches_within(moves, moves.len() as int, target));
    }
}

/// No move reaches anything.
pub proof fn lemma_empty_reach(target: Square)
    ensures
        !reaches(Seq::<MoveView>::empty(), target),
{
    let moves = Seq::<MoveView>::empty();
    if reaches(moves, target) {
        let i = choose|i: int|
            0 <= i < moves.len() && i < moves.len() && (#[trigger] moves[i]).destination
                == target;
    }
}

/// The moves along a ray reach exactly the squares that a piece reaches
/// along it.
pub proof fn law_ray_reach(
    pieces: Map<Square, Piece>,
    color: Color,
    origin: Square,
    r: int,
    c: int,
    dr: int,
    dc: int,
    base: Seq<SideEffect>,
    reach: nat,
    target: Square,
)
    ensures
        reaches(ray_moves(pieces, color, origin, r, c, dr, dc, base, reach), target)
            <==> ray_reaches(pieces, color, r, c, dr, dc, reach as int, target),
    decreases reach,
{
    let moves = ray_moves(pieces, color, origin, r, c, dr, dc, base, reach);
    let here = square(r, c);
    assert(ray_square(r, c, dr, dc, 0) == here);
    assert(ray_in_bounds(r, c, dr, dc, 0) == in_bounds(r, c));
    if reach == 0 || !in_bounds(r, c) {
        lemma_empty_reach(target);
        if ray_reaches(pieces, color, r, c, dr, dc, reach as int, target) {
            let k = choose|k: int|
                0 <= k < reach && open_run(pieces, r, c, dr, dc, k) && ray_in_bounds(
                    r,
                    c,
                    dr,
                    dc,
                    k,
                ) && target == #[trigger] ray_square(r, c, dr, dc, k) && may_land(
                    pieces,
                    color,
                    target,
                );
            if k > 0 {
                assert(piece_on(pieces, ray_square(r, c, dr, dc, 0)) is None);
            }
        }
    } else if piece_on(pieces, here) is Some {
        lemma_landing_reach(pieces, color, origin, here, base, target);
        if ray_reaches(pieces, color, r, c, dr, dc, reach as int, target) {
            let k = choose|k: int|
                0 <= k < reach && open_run(pieces, r, c, dr, dc, k) && ray_in_bounds(
                    r,
                    c,
                    dr,
                    dc,
                    k,
                ) && target == #[trigger] ray_square(r, c, dr, dc, k) && may_land(
                    pieces,
                    color,
                    target,
                );
            if k > 0 {
                assert(piece_on(pieces, ray_square(r, c, dr, dc, 0)) is None);
            }
        }
        if target == here && may_land(pieces, color, here) {
            assert(open_run(pieces, r, c, dr, dc, 0));
            assert(target == ray_square(r, c, dr, dc, 0));
        }
    } else {
        let first = plain_move(origin, here, base);
        let rest = ray_moves(pieces, color, origin, r + dr, c + dc, dr, dc, base, (reach - 1) as nat);
        lemma_single_reach(first, target);
        lemma_reaches_add(seq![first], rest, target);
        law_ray_reach(pieces, color, origin, r + dr, c + dc, dr, dc, base, (reach - 1) as nat, target);
        if ray_reaches(pieces, color, r, c, dr, dc, reach as int, target) {
            let k = choose|k: int|
                0 <= k < reach && open_run(pieces, r, c, dr, dc, k) && ray_in_bounds(
                    r,
                    c,
                    dr,
                    dc,
                    k,
                ) && target == #[trigger] ray_square(r, c, dr, dc, k) && may_land(
                    pieces,
                    color,
                    target,
                );
            if k > 0 {
                lemma_ray_shift(r, c, dr, dc, k - 1);
                assert forall|j: int| 0 <= j < k - 1 implies ray_in_bounds(
                    r + dr,
                    c + dc,
                    dr,
                    dc,
                    j,
                ) && piece_on(pieces, #[trigger] ray_square(r + dr, c + dc, dr, dc, j)) is None by {
                    lemma_ray_shift(r, c, dr, dc, j);
                    assert(piece_on(pieces, ray_square(r, c, dr, dc, j + 1)) is None);
                }
                assert(target == ray_square(r + dr, c + dc, dr, dc, k - 1));
                assert(ray_reaches(pieces, color, r + dr, c + dc, dr, dc, reach - 1, target));
            }
        }
        if target == here {
            assert(open_run(pieces, r, c, dr, dc, 0));
            assert(target == ray_square(r, c, dr, dc, 0));
            assert(ray_reaches(pieces, color, r, c, dr, dc, reach as int, target));
        }
        if ray_reaches(pieces, color, r + dr, c + dc, dr, dc, reach - 1, target) {
            let k = choose|k: int|
                0 <= k < reach - 1 && open_run(pieces, r + dr, c + dc, dr, dc, k)
                    && ray_in_bounds(r + dr, c + dc, dr, dc, k) && target == #[trigger] ray_square(
                    r + dr,
                    c + dc,
                    dr,
                    dc,
                    k,
                ) && may_land(pieces, color, target);
            lemma_ray_shift(r, c, dr, dc, k);
            assert forall|j: int| 0 <= j < k + 1 implies ray_in_bounds(r, c, dr, dc, j)
                && piece_on(pieces, #[trigger] ray_square(r, c, dr, dc, j)) is None by {
                if j > 0 {
                    lemma_ray_shift(r, c, dr, dc, j - 1);
                    assert(piece_on(pieces, ray_square(r + dr, c + dc, dr, dc, j - 1)) is None);
                }
            }
            assert(target == ray_square(r, c, dr, dc, k + 1));
            assert(ray_reaches(pieces, color, r, c, dr, dc, reach as int, target));
        }
    }
}

/// Whether a piece of `color` on `origin` slides to `target` along one of
/// `directions`: `target` lies on the ray that leaves `origin` in that
/// direction, at most seven squares away, every square passed is empty, and
/// the piece may land on `target`.
pub open spec fn slides_to(
    pieces: Map<Square, Piece>,
    color: Color,
    origin: Square,
    directions: Seq<(isize, isize)>,
    target: Square,
) -> bool {
    exists|i: int|
        0 <= i < directions.len() && ray_reaches(
            pieces,
            color,
            origin.0 + (#[trigger] directions[i]).0,
            origin.1 + directions[i].1,
            directions[i].0 as int,
            directions[i].1 as int,
            7,
            target,
        )
}

/// A slider reaches exactly the squares that it slides to along one of its
/// directions.
pub proof fn law_slider_reach(
    pieces: Map<Square, Piece>,
    color: Color,
    origin: Square,
    directions: Seq<(isize, isize)>,
    base: Seq<SideEffect>,
    target: Square,
)
    ensures
        reaches(slider_moves(pieces, color, origin, directions, base), target) <==> slides_to(
            pieces,
            color,
            origin,
            directions,
            target,
        ),
    decreases directions.len(),
{
    if directions.len() == 0 {
        lemma_empty_reach(target);
        if slides_to(pieces, color, origin, directions, target) {
            let i = choose|i: int|
                0 <= i < directions.len() && ray_reaches(
                    pieces,
                    color,
                    origin.0 + (#[trigger] directions[i]).0,
                    origin.1 + directions[i].1,
                    directions[i].0 as int,
                    directions[i].1 as int,
                    7,
                    target,
                );
        }
    } else {
        let front = directions.drop_last();
        let d = directions.last();
        let along = ray_reaches(
            pieces,
            color,
            origin.0 + d.0,
            origin.1 + d.1,
            d.0 as int,
            d.1 as int,
            7,
            target,
        );
        law_slider_reach(pieces, color, origin, front, base, target);
        law_ray_reach(
            pieces,
            color,
            origin,
            origin.0 + d.0,
            origin.1 + d.1,
            d.0 as int,
            d.1 as int,
            base,
            7,
            target,
        );
        lemma_reaches_add(
            slider_moves(pieces, color, origin, front, base),
            ray_moves(
                pieces,
                color,
                origin,
                origin.0 + d.0,
                origin.1 + d.1,
                d.0 as int,
                d.1 as int,
                base,
                7,
            ),
            target,
        );
        assert(slides_to(pieces, color, origin, directions, target) <==> slides_to(
            pieces,
            color,
            origin,
            front,
            target,
        ) || along) by {
            if slides_to(pieces, color, origin, directions, target) {
                let i = choose|i: int|
                    0 <= i < directions.len() && ray_reaches(
                        pieces,
                        color,
                        origin.0 + (#[trigger] directions[i]).0,
                        origin.1 + directions[i].1,
                        directions[i].0 as int,
                        directions[i].1 as int,
                        7,
                        target,
                    );
                if i < front.len() {
                    assert(front[i] == directions[i]);
                }
            }
            if slides_to(pieces, color, origin, front, target) {
                let i = choose|i: int|
                    0 <= i < front.len() && ray_reaches(
                        pieces,
                        color,
                        origin.0 + (#[trigger] front[i]).0,
                        origin.1 + front[i].1,
                        front[i].0 as int,
                        front[i].1 as int,
                        7,
                        target,
                    );
                assert(directions[i] == front[i]);
            }
            if along {
                assert(directions[directions.len() - 1] == d);
            }
        }
    }
}

/// A rook reaches exactly the squares that it slides to along a row or a
/// column.
pub proof fn law_rook_reach(
    pieces: Map<Square, Piece>,
    color: Color,
    origin: Square,
    target: Square,
)
    ensures
        reaches(rook_moves_spec(pieces, color, origin), target) <==> slides_to(
            pieces,
            color,
            origin,
            rook_directions(),
            target,
        ),
{
    law_slider_reach(
        pieces,
        color,
        origin,
        rook_directions(),
        base_effects(rook_corner(color, origin)),
        target,
    );
}

/// A bishop reaches exactly the squares that it slides to along a
/// diagonal.
pub proof fn law_bishop_reach(
    pieces: Map<Square, Piece>,
    color: Color,
    origin: Square,
    target: Square,
)
    ensures
        reaches(bishop_moves_spec(pieces, color, origin), target) <==> slides_to(
            pieces,
            color,
            origin,
            bishop_directions(),
            target,
        ),
{
    law_slider_reach(pieces, color, origin, bishop_directions(), Seq::empty(), target);
}

/// A queen reaches exactly the squares that it slides to along a row, a
/// column or a diagonal.
pub proof fn law_queen_reach(
    pieces: Map<Square, Piece>,
    color: Color,
    origin: Square,
    target: Square,
)
    ensures
        reaches(queen_moves_spec(pieces, color, origin), target) <==> slides_to(
            pieces,
            color,
            origin,
            royal_offsets(),
            target,
        ),
{
    law_slider_reach(pieces, color, origin, royal_offsets(), Seq::empty(), target);
}

/// No ray on the board is longer than seven squares: the eighth square from
/// a square of the board, in any of the eight directions, is off the board.
/// So the bound of seven squares in `slides_to` leaves nothing out.
pub proof fn law_rays_are_short(origin: Square, dr: int, dc: int, k: int)
    requires
        on_board(origin),
        -1 <= dr <= 1,
        -1 <= dc <= 1,
        dr != 0 || dc != 0,
        k >= 7,
    ensures
        !ray_in_bounds(origin.0 + dr, origin.1 + dc, dr, dc, k),
{
    assert(dr == 1 ==> k * dr == k) by (nonlinear_arith);
    assert(dr == -1 ==> k * dr == -k) by (nonlinear_arith);
    assert(dc == 1 ==> k * dc == k) by (nonlinear_arith);
    assert(dc == -1 ==> k * dc == -k) by (nonlinear_arith);
}

/// Whether every move of `moves` is the landing on its own destination: it
/// goes from `origin`, without a promotion choice, tagged with `base` and,
/// where an enemy piece stands on the destination, with its capture.
pub open spec fn all_landings(
    pieces: Map<Square, Piece>,
    color: Color,
    origin: Square,
    base: Seq<SideEffect>,
    moves: Seq<MoveView>,
) -> bool {
    forall|i: int|
        0 <= i < moves.len() ==> landing(
            pieces,
            color,
            origin,
            (#[trigger] moves[i]).destination,
            base,
        ) == seq![moves[i]]
}

/// A landing is the landing on its own destination.
pub proof fn lemma_landing_is_a_landing(
    pieces: Map<Square, Piece>,
    color: Color,
    origin: Square,
    destination: Square,
    base: Seq<SideEffect>,
)
    ensures
        all_landings(pieces, color, origin, base, landing(pieces, color, origin, destination, base)),
{
    let moves = landing(pieces, color, origin, destination, base);
    if moves.len() > 0 {
        assert(moves =~= seq![moves[0]]);
    }
}

/// Every move of a leaper is the landing on its destination.
pub proof fn law_leaper_moves_are_landings(
    pieces: Map<Square, Piece>,
    color: Color,
    origin: Square,
    offsets: Seq<(isize, isize)>,
    base: Seq<SideEffect>,
)
    ensures
        all_landings(
            pieces,
            color,
            origin,
            base,
            leaper_moves(pieces, color, origin, offsets, base),
        ),
    decreases offsets.len(),
{
    if offsets.len() > 0 {
        law_leaper_moves_are_landings(pieces, color, origin, offsets.drop_last(), base);
        let dr = offsets.last().0 as int;
        let dc = offsets.last().1 as int;
        if in_bounds(origin.0 + dr, origin.1 + dc) {
            lemma_landing_is_a_landing(
                pieces,
                color,
                origin,
                square(origin.0 + dr, origin.1 + dc),
                base,
            );
        }
    }
}

/// Every move along a ray is the landing on its destination.
pub proof fn law_ray_moves_are_landings(
    pieces: Map<Square, Piece>,
    color: Color,
    origin: Square,
    r: int,
    c: int,
    dr: int,
    dc: int,
    base: Seq<SideEffect>,
    reach: nat,
)
    ensures
        all_landings(
            pieces,
            color,
            origin,
            base,
            ray_moves(pieces, color, origin, r, c, dr, dc, base, reach),
        ),
    decreases reach,
{
    if reach != 0 && in_bounds(r, c) {
        lemma_landing_is_a_landing(pieces, color, origin, square(r, c), base);
        if piece_on(pieces, square(r, c)) is None {
            law_ray_moves_are_landings(
                pieces,
                color,
                origin,
                r + dr,
                c + dc,
                dr,
                dc,
                base,
                (reach - 1) as nat,
            );
        }
    }
}

/// Every move of a slider is the landing on its destination.
pub proof fn law_slider_moves_are_landings(
    pieces: Map<Square, Piece>,
    color: Color,
    origin: Square,
    directions: Seq<(isize, isize)>,
    base: Seq<SideEffect>,
)
    ensures
        all_landings(
            pieces,
            color,
            origin,
            base,
            slider_moves(pieces, color, origin, directions, base),
        ),
    decreases directions.len(),
{
    if directions.len() > 0 {
        let d = directions.last();
        law_slider_moves_are_landings(pieces, color, origin, directions.drop_last(), base);
        law_ray_moves_are_landings(
            pieces,
            color,
            origin,
            origin.0 + d.0,
            origin.1 + d.1,
            d.0 as int,
            d.1 as int,
            base,
            7,
        );
    }
}

/// Whether `piece` on `origin` attacks `target` by the geometry of its
/// kind: a king a neighbouring square, a knight a square a jump away, a
/// rook, a bishop and a queen a square that they slide to; each only a
/// square that holds no piece of its own colour. A pawn attacks the squares
/// of its captures.
pub open spec fn attacks_by_kind(
    pieces: Map<Square, Piece>,
    en_passant: Option<Square>,
    piece: Piece,
    origin: Square,
    target: Square,
) -> bool {
    match piece.kind {
        PieceKind::King => on_board(target) && king_step(origin, target) && may_land(
            pieces,
            piece.color,
            target,
        ),
        PieceKind::Knight => on_board(target) && knight_jump(origin, target) && may_land(
            pieces,
            piece.color,
            target,
        ),
        PieceKind::Rook => slides_to(pieces, piece.color, origin, rook_directions(), target),
        PieceKind::Bishop => slides_to(pieces, piece.color, origin, bishop_directions(), target),
        PieceKind::Queen => slides_to(pieces, piece.color, origin, royal_offsets(), target),
        PieceKind::Pawn => reaches(
            pawn_attacking_moves_spec(pieces, en_passant, piece.color, origin),
            target,
        ),
    }
}

/// The attacking moves of a piece on the board reach exactly the squares
/// that the piece attacks by the geometry of its kind.
pub proof fn law_attack_pattern(
    pieces: Map<Square, Piece>,
    en_passant: Option<Square>,
    piece: Piece,
    origin: Square,
    target: Square,
)
    requires
        on_board(origin),
    ensures
        reaches(attack_pattern(pieces, en_passant, piece, origin), target) <==> attacks_by_kind(
            pieces,
            en_passant,
            piece,
            origin,
            target,
        ),
{
    match piece.kind {
        PieceKind::King => law_king_reach(pieces, piece.color, origin, target),
        PieceKind::Knight => law_knight_reach(pieces, piece.color, origin, target),
        PieceKind::Rook => law_rook_reach(pieces, piece.color, origin, target),
        PieceKind::Bishop => law_bishop_reach(pieces, piece.color, origin, target),
        PieceKind::Queen => law_queen_reach(pieces, piece.color, origin, target),
        PieceKind::Pawn => {},
    }
}

} // verus!
