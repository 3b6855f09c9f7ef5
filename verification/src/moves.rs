//! Move generation: for a piece on a square, the candidate moves that the
//! piece's geometry allows, whether or not they leave the mover's king
//! attacked.
//!
//! Each generator returns its moves in a fixed order, which its contract
//! states as a sequence over the model of the position.

use vstd::prelude::*;
use crate::board::Board;
use crate::helpers::{attacked_squares, contains_square, get_attacked_squares};
use crate::models::{
    effect_on_board, in_bounds, move_views, on_board, plain_move, square, Color, Move, MoveView,
    Piece, RookType, SideEffect, Square,
};
use crate::position::{piece_on, Position};

verus! {

/// The tags that every move of one generator call starts with: none, or one.
pub open spec fn base_effects(base: Option<SideEffect>) -> Seq<SideEffect> {
    match base {
        Some(effect) => seq![effect],
        None => Seq::empty(),
    }
}

/// The move of a piece of `color` from `origin` onto `destination`, as far as
/// `destination` allows it: onto an empty square with the tags `base`, onto
/// an enemy piece with `base` and the capture, and not at all onto a piece of
/// its own colour.
pub open spec fn landing(
    pieces: Map<Square, Piece>,
    color: Color,
    origin: Square,
    destination: Square,
    base: Seq<SideEffect>,
) -> Seq<MoveView> {
    match piece_on(pieces, destination) {
        Some(piece) => if piece.color != color {
            seq![plain_move(origin, destination, base.push(SideEffect::PieceTaken(piece)))]
        } else {
            Seq::empty()
        },
        None => seq![plain_move(origin, destination, base)],
    }
}

/// The move by the single step `(dr, dc)`: nothing where the step leaves the
/// board, else the landing on the square reached.
pub open spec fn step_moves(
    pieces: Map<Square, Piece>,
    color: Color,
    origin: Square,
    dr: int,
    dc: int,
    base: Seq<SideEffect>,
) -> Seq<MoveView> {
    if in_bounds(origin.0 + dr, origin.1 + dc) {
        landing(pieces, color, origin, square(origin.0 + dr, origin.1 + dc), base)
    } else {
        Seq::empty()
    }
}

/// The moves of a piece that jumps by fixed offsets, offset by offset.
pub open spec fn leaper_moves(
    pieces: Map<Square, Piece>,
    color: Color,
    origin: Square,
    offsets: Seq<(isize, isize)>,
    base: Seq<SideEffect>,
) -> Seq<MoveView>
    decreases offsets.len(),
{
    if offsets.len() == 0 {
        Seq::empty()
    } else {
        leaper_moves(pieces, color, origin, offsets.drop_last(), base) + step_moves(
            pieces,
            color,
            origin,
            offsets.last().0 as int,
            offsets.last().1 as int,
            base,
        )
    }
}

/// The moves along one ray, starting with the square `(r, c)` and going on by
/// `(dr, dc)` for at most `reach` squares: every empty square up to the first
/// occupied one, and that one too where it holds an enemy piece.
pub open spec fn ray_moves(
    pieces: Map<Square, Piece>,
    color: Color,
    origin: Square,
    r: int,
    c: int,
    dr: int,
    dc: int,
    base: Seq<SideEffect>,
    reach: nat,
) -> Seq<MoveView>
    decreases reach,
{
    if reach == 0 || !in_bounds(r, c) {
        Seq::empty()
    } else if piece_on(pieces, square(r, c)) is Some {
        landing(pieces, color, origin, square(r, c), base)
    } else {
        seq![plain_move(origin, square(r, c), base)] + ray_moves(
            pieces,
            color,
            origin,
            r + dr,
            c + dc,
            dr,
            dc,
            base,
            (reach - 1) as nat,
        )
    }
}

/// The moves of a piece that slides along the given directions, direction by
/// direction. No ray on the board is longer than seven squares.
pub open spec fn slider_moves(
    pieces: Map<Square, Piece>,
    color: Color,
    origin: Square,
    directions: Seq<(isize, isize)>,
    base: Seq<SideEffect>,
) -> Seq<MoveView>
    decreases directions.len(),
{
    if directions.len() == 0 {
        Seq::empty()
    } else {
        let d = directions.last();
        slider_moves(pieces, color, origin, directions.drop_last(), base) + ray_moves(
            pieces,
            color,
            origin,
            origin.0 + d.0,
            origin.1 + d.1,
            d.0 as int,
            d.1 as int,
            base,
            7,
        )
    }
}

/// The eight jumps of a knight.
pub open spec fn knight_offsets() -> Seq<(isize, isize)> {
    seq![
        (2isize, 1isize),
        (2isize, -1isize),
        (-2isize, 1isize),
        (-2isize, -1isize),
        (1isize, 2isize),
        (1isize, -2isize),
        (-1isize, 2isize),
        (-1isize, -2isize),
    ]
}

/// The eight steps of a king, which are also the eight directions of a queen.
pub open spec fn royal_offsets() -> Seq<(isize, isize)> {
    seq![
        (-1isize, -1isize),
        (-1isize, 0isize),
        (-1isize, 1isize),
        (0isize, 1isize),
        (1isize, 1isize),
        (1isize, 0isize),
        (1isize, -1isize),
        (0isize, -1isize),
    ]
}

/// The four directions of a rook.
pub open spec fn rook_directions() -> Seq<(isize, isize)> {
    seq![(-1isize, 0isize), (0isize, 1isize), (1isize, 0isize), (0isize, -1isize)]
}

/// The four directions of a bishop.
pub open spec fn bishop_directions() -> Seq<(isize, isize)> {
    seq![(-1isize, -1isize), (1isize, 1isize), (1isize, -1isize), (-1isize, 1isize)]
}

/// The candidate moves of a knight of `color` on `origin`.
pub open spec fn knight_moves_spec(
    pieces: Map<Square, Piece>,
    color: Color,
    origin: Square,
) -> Seq<MoveView> {
    leaper_moves(pieces, color, origin, knight_offsets(), Seq::empty())
}

/// The single steps of a king of `color` on `origin`; castling is not among
/// them. Each is tagged as a king's move.
pub open spec fn king_moves_spec(
    pieces: Map<Square, Piece>,
    color: Color,
    origin: Square,
) -> Seq<MoveView> {
    leaper_moves(pieces, color, origin, royal_offsets(), seq![SideEffect::KingMove(color)])
}

/// The corner that a rook of `color` on `origin` starts the game on, if
/// `origin` is such a corner.
pub open spec fn rook_corner(color: Color, origin: Square) -> Option<SideEffect> {
    match color {
        Color::White => if origin == (0usize, 0usize) {
            Some(SideEffect::InitialRookMove(RookType::WhiteQueenSide))
        } else if origin == (0usize, 7usize) {
            Some(SideEffect::InitialRookMove(RookType::WhiteKingSide))
        } else {
            None
        },
        Color::Black => if origin == (7usize, 0usize) {
            Some(SideEffect::InitialRookMove(RookType::BlackQueenSide))
        } else if origin == (7usize, 7usize) {
            Some(SideEffect::InitialRookMove(RookType::BlackKingSide))
        } else {
            None
        },
    }
}

/// The candidate moves of a rook of `color` on `origin`. From a home corner
/// of its colour each is tagged with that corner.
pub open spec fn rook_moves_spec(
    pieces: Map<Square, Piece>,
    color: Color,
    origin: Square,
) -> Seq<MoveView> {
    slider_moves(pieces, color, origin, rook_directions(), base_effects(rook_corner(color, origin)))
}

/// The candidate moves of a bishop of `color` on `origin`.
pub open spec fn bishop_moves_spec(
    pieces: Map<Square, Piece>,
    color: Color,
    origin: Square,
) -> Seq<MoveView> {
    slider_moves(pieces, color, origin, bishop_directions(), Seq::empty())
}

/// The candidate moves of a queen of `color` on `origin`.
pub open spec fn queen_moves_spec(
    pieces: Map<Square, Piece>,
    color: Color,
    origin: Square,
) -> Seq<MoveView> {
    slider_moves(pieces, color, origin, royal_offsets(), Seq::empty())
}

/// The direction in which the pawns of `color` advance: up the rows for
/// White, down for Black.
pub open spec fn pawn_direction(color: Color) -> int {
    match color {
        Color::White => 1,
        Color::Black => -1,
    }
}

/// The row on which the pawns of `color` start the game.
pub open spec fn pawn_start_row(color: Color) -> int {
    match color {
        Color::White => 1,
        Color::Black => 6,
    }
}

/// The row on which a pawn of `color` is promoted.
pub open spec fn promotion_row(color: Color) -> int {
    match color {
        Color::White => 7,
        Color::Black => 0,
    }
}

/// The advances of a pawn of `color` on `origin`: one square forward where
/// that square is empty, tagged for promotion where it lies on the last row;
/// and two squares forward from the starting row where both squares are empty,
/// tagged with the square passed over.
pub open spec fn pawn_moves_spec(
    pieces: Map<Square, Piece>,
    color: Color,
    origin: Square,
) -> Seq<MoveView> {
    let ahead = origin.0 + pawn_direction(color);
    let beyond = ahead + pawn_direction(color);
    let column = origin.1 as int;
    if !in_bounds(ahead, column) || piece_on(pieces, square(ahead, column)) is Some {
        Seq::empty()
    } else {
        let single = plain_move(
            origin,
            square(ahead, column),
            if ahead == promotion_row(color) {
                seq![SideEffect::Promotion, SideEffect::PawnMove]
            } else {
                seq![SideEffect::PawnMove]
            },
        );
        if origin.0 == pawn_start_row(color) && in_bounds(beyond, column) && piece_on(pieces, 
            square(beyond, column),
        ) is None {
            seq![
                single,
                plain_move(
                    origin,
                    square(beyond, column),
                    seq![SideEffect::PawnMove, SideEffect::DoublePawnMove(square(ahead, column))],
                ),
            ]
        } else {
            seq![single]
        }
    }
}

/// The tags that every capture by a pawn of `color` onto the row `row`
/// starts with.
pub open spec fn pawn_capture_tags(color: Color, row: int) -> Seq<SideEffect> {
    if row == promotion_row(color) {
        seq![SideEffect::PawnMove, SideEffect::Promotion]
    } else {
        seq![SideEffect::PawnMove]
    }
}

/// The capture of a pawn of `color` on `origin` towards the column at
/// distance `dc`: onto an enemy piece, or, where the square is empty and is
/// the en-passant target, en passant. An en-passant capture names the square
/// beside the capturing pawn, on which the captured pawn stands, not the
/// square that the capturing pawn lands on.
pub open spec fn pawn_capture(
    pieces: Map<Square, Piece>,
    en_passant: Option<Square>,
    color: Color,
    origin: Square,
    dc: int,
) -> Seq<MoveView> {
    let row = origin.0 + pawn_direction(color);
    let column = origin.1 + dc;
    if !in_bounds(row, column) {
        Seq::empty()
    } else {
        let destination = square(row, column);
        match piece_on(pieces, destination) {
            Some(piece) => if piece.color != color {
                seq![
                    plain_move(
                        origin,
                        destination,
                        pawn_capture_tags(color, row).push(SideEffect::PieceTaken(piece)),
                    ),
                ]
            } else {
                Seq::empty()
            },
            None => if en_passant == Some(destination) {
                seq![
                    plain_move(
                        origin,
                        destination,
                        pawn_capture_tags(color, row).push(
                            SideEffect::EnPassantTake(square(origin.0 as int, column)),
                        ),
                    ),
                ]
            } else {
                Seq::empty()
            },
        }
    }
}

/// The captures of a pawn of `color` on `origin`: towards the a-file first,
/// then towards the h-file.
pub open spec fn pawn_attacking_moves_spec(
    pieces: Map<Square, Piece>,
    en_passant: Option<Square>,
    color: Color,
    origin: Square,
) -> Seq<MoveView> {
    pawn_capture(pieces, en_passant, color, origin, -1) + pawn_capture(
        pieces,
        en_passant,
        color,
        origin,
        1,
    )
}

/// The square on which the king of `color` starts the game.
pub open spec fn king_home(color: Color) -> Square {
    match color {
        Color::White => (0, 4),
        Color::Black => (7, 4),
    }
}

/// Whether every square of `squares` is empty.
pub open spec fn all_empty(pieces: Map<Square, Piece>, squares: Seq<Square>) -> bool {
    forall|i: int| 0 <= i < squares.len() ==> piece_on(pieces, #[trigger] squares[i]) is None
}

/// Whether no square of `squares` is in `attacked`.
pub open spec fn none_attacked(attacked: Set<Square>, squares: Seq<Square>) -> bool {
    forall|i: int| 0 <= i < squares.len() ==> !attacked.contains(#[trigger] squares[i])
}

/// The squares between the king of `color` and its king-side rook.
pub open spec fn king_side_between(color: Color) -> Seq<Square> {
    seq![(king_home(color).0, 5usize), (king_home(color).0, 6usize)]
}

/// The squares on which the king of `color` starts, passes and lands when it
/// castles on the king's side.
pub open spec fn king_side_path(color: Color) -> Seq<Square> {
    seq![king_home(color), (king_home(color).0, 5usize), (king_home(color).0, 6usize)]
}

/// The squares between the king of `color` and its queen-side rook.
pub open spec fn queen_side_between(color: Color) -> Seq<Square> {
    seq![(king_home(color).0, 3usize), (king_home(color).0, 2usize), (king_home(color).0, 1usize)]
}

/// The squares on which the king of `color` starts, passes and lands when it
/// castles on the queen's side.
pub open spec fn queen_side_path(color: Color) -> Seq<Square> {
    seq![king_home(color), (king_home(color).0, 3usize), (king_home(color).0, 2usize)]
}

/// Whether `color` still has the right to castle on the king's side.
pub open spec fn king_side_right(pos: Position, color: Color) -> bool {
    match color {
        Color::White => pos.castle_rights.white_king_side,
        Color::Black => pos.castle_rights.black_king_side,
    }
}

/// Whether `color` still has the right to castle on the queen's side.
pub open spec fn queen_side_right(pos: Position, color: Color) -> bool {
    match color {
        Color::White => pos.castle_rights.white_queen_side,
        Color::Black => pos.castle_rights.black_queen_side,
    }
}

/// Whether `color` may castle on the king's side: it has the right, the
/// squares between king and rook are empty, and no opponent attacks a square
/// on which the king starts, passes or lands.
pub open spec fn may_castle_king_side(pos: Position, color: Color) -> bool {
    &&& king_side_right(pos, color)
    &&& all_empty(pos.pieces, king_side_between(color))
    &&& none_attacked(attacked_squares(pos.pieces, pos.en_passant, color), king_side_path(color))
}

/// Whether `color` may castle on the queen's side, under the same three
/// conditions.
pub open spec fn may_castle_queen_side(pos: Position, color: Color) -> bool {
    &&& queen_side_right(pos, color)
    &&& all_empty(pos.pieces, queen_side_between(color))
    &&& none_attacked(attacked_squares(pos.pieces, pos.en_passant, color), queen_side_path(color))
}

/// Castling of `color` on the king's side: the king goes to the g-file, and
/// the tag sends the rook from the h-file to the f-file.
pub open spec fn king_side_castle(color: Color) -> MoveView {
    plain_move(
        king_home(color),
        (king_home(color).0, 6),
        seq![SideEffect::Castle((king_home(color).0, 7), (king_home(color).0, 5), color)],
    )
}

/// Castling of `color` on the queen's side: the king goes to the c-file, and
/// the tag sends the rook from the a-file to the d-file.
pub open spec fn queen_side_castle(color: Color) -> MoveView {
    plain_move(
        king_home(color),
        (king_home(color).0, 2),
        seq![SideEffect::Castle((king_home(color).0, 0), (king_home(color).0, 3), color)],
    )
}

/// The castling moves of a king of `color` on `origin`: none away from the
/// king's home square; there, the king's side first, each where it is
/// allowed.
pub open spec fn castle_moves_spec(pos: Position, color: Color, origin: Square) -> Seq<MoveView> {
    if origin != king_home(color) {
        Seq::empty()
    } else {
        (if may_castle_king_side(pos, color) {
            seq![king_side_castle(color)]
        } else {
            Seq::empty()
        }) + (if may_castle_queen_side(pos, color) {
            seq![queen_side_castle(color)]
        } else {
            Seq::empty()
        })
    }
}

/// Whether every move of `moves` names squares of the board only.
pub open spec fn all_wf(moves: Seq<MoveView>) -> bool {
    forall|i: int| 0 <= i < moves.len() ==> (#[trigger] moves[i]).wf()
}

/// Whether every tag of `effects` names squares of the board only.
pub open spec fn effects_on_board(effects: Seq<SideEffect>) -> bool {
    forall|i: int| 0 <= i < effects.len() ==> effect_on_board(#[trigger] effects[i])
}

/// A landing between squares of the board names squares of the board only.
pub proof fn lemma_landing_wf(
    pieces: Map<Square, Piece>,
    color: Color,
    origin: Square,
    destination: Square,
    base: Seq<SideEffect>,
)
    requires
        on_board(origin),
        on_board(destination),
        effects_on_board(base),
    ensures
        all_wf(landing(pieces, color, origin, destination, base)),
{
    if let Some(piece) = piece_on(pieces, destination) {
        let tags = base.push(SideEffect::PieceTaken(piece));
        assert(effects_on_board(tags)) by {
            assert forall|i: int| 0 <= i < tags.len() implies effect_on_board(
                #[trigger] tags[i],
            ) by {
                if i < base.len() {
                    assert(tags[i] == base[i]);
                }
            }
        }
    }
}

/// The moves of a leaper from a square of the board name squares of the
/// board only.
pub proof fn lemma_leaper_moves_wf(
    pieces: Map<Square, Piece>,
    color: Color,
    origin: Square,
    offsets: Seq<(isize, isize)>,
    base: Seq<SideEffect>,
)
    requires
        on_board(origin),
        effects_on_board(base),
    ensures
        all_wf(leaper_moves(pieces, color, origin, offsets, base)),
    decreases offsets.len(),
{
    if offsets.len() > 0 {
        lemma_leaper_moves_wf(pieces, color, origin, offsets.drop_last(), base);
        let dr = offsets.last().0 as int;
        let dc = offsets.last().1 as int;
        if in_bounds(origin.0 + dr, origin.1 + dc) {
            lemma_landing_wf(pieces, color, origin, square(origin.0 + dr, origin.1 + dc), base);
        }
    }
}

/// The moves along a ray from a square of the board name squares of the
/// board only.
pub proof fn lemma_ray_moves_wf(
    pieces: Map<Square, Piece>,
    color: Color,
    origin: Square,
    r: int,
    c: int,
    dr: int,
    dc: int,
    base: Seq<SideEffect>,
    reach: nat,
)
    requires
        on_board(origin),
        effects_on_board(base),
    ensures
        all_wf(ray_moves(pieces, color, origin, r, c, dr, dc, base, reach)),
    decreases reach,
{
    if reach != 0 && in_bounds(r, c) {
        lemma_landing_wf(pieces, color, origin, square(r, c), base);
        if piece_on(pieces, square(r, c)) is None {
            lemma_ray_moves_wf(
                pieces,
                color,
                origin,
                r + dr,
                c + dc,
                dr,
                dc,
                base,
                (reach - 1) as nat,
            );
        }
    }
}

/// The moves of a slider from a square of the board name squares of the
/// board only.
pub proof fn lemma_slider_moves_wf(
    pieces: Map<Square, Piece>,
    color: Color,
    origin: Square,
    directions: Seq<(isize, isize)>,
    base: Seq<SideEffect>,
)
    requires
        on_board(origin),
        effects_on_board(base),
    ensures
        all_wf(slider_moves(pieces, color, origin, directions, base)),
    decreases directions.len(),
{
    if directions.len() > 0 {
        let d = directions.last();
        lemma_slider_moves_wf(pieces, color, origin, directions.drop_last(), base);
        lemma_ray_moves_wf(
            pieces,
            color,
            origin,
            origin.0 + d.0,
            origin.1 + d.1,
            d.0 as int,
            d.1 as int,
            base,
            7,
        );
    }
}

/// The advances and captures of a pawn on a square of the board name
/// squares of the board only.
pub proof fn lemma_pawn_moves_wf(
    pieces: Map<Square, Piece>,
    en_passant: Option<Square>,
    color: Color,
    origin: Square,
)
    requires
        on_board(origin),
    ensures
        all_wf(pawn_moves_spec(pieces, color, origin)),
        all_wf(pawn_attacking_moves_spec(pieces, en_passant, color, origin)),
{
    assert(all_wf(pawn_capture(pieces, en_passant, color, origin, -1)));
    assert(all_wf(pawn_capture(pieces, en_passant, color, origin, 1)));
}

/// Castling moves name squares of the board only.
pub proof fn lemma_castle_moves_wf(pos: Position, color: Color, origin: Square)
    ensures
        all_wf(castle_moves_spec(pos, color, origin)),
{
    assert(king_side_castle(color).wf());
    assert(queen_side_castle(color).wf());
}

/// Appending a move to a list appends its value to the list's values.
fn push_move(moves: &mut Vec<Move>, candidate: Move)
    ensures
        move_views(final(moves)@) == move_views(old(moves)@).push(candidate@),
{
    moves.push(candidate);
    assert(move_views(moves@) =~= move_views(old(moves)@).push(candidate@));
}

fn is_square_within_bounds(square: (isize, isize)) -> (within: bool)
    ensures
        within == in_bounds(square.0 as int, square.1 as int),
{
    square.0 >= 0 && square.0 <= 7 && square.1 >= 0 && square.1 <= 7
}

/// The tags of a move that starts from `base`, with the capture of `taken`
/// where there is one.
fn effects_of(base: Option<SideEffect>, taken: Option<Piece>) -> (effects: Vec<SideEffect>)
    ensures
        effects@ == match taken {
            Some(piece) => base_effects(base).push(SideEffect::PieceTaken(piece)),
            None => base_effects(base),
        },
{
    let mut effects: Vec<SideEffect> = Vec::new();
    if let Some(effect) = base {
        effects.push(effect);
    }
    if let Some(piece) = taken {
        effects.push(SideEffect::PieceTaken(piece));
    }
    assert(effects@ =~= match taken {
        Some(piece) => base_effects(base).push(SideEffect::PieceTaken(piece)),
        None => base_effects(base),
    });
    effects
}

/// Appends the landing on `destination` to `moves` and says whether the
/// square was occupied.
fn push_landing(
    board: &Board,
    color: Color,
    origin: (usize, usize),
    destination: (usize, usize),
    base: Option<SideEffect>,
    moves: &mut Vec<Move>,
) -> (occupied: bool)
    requires
        on_board(destination),
    ensures
        move_views(final(moves)@) == move_views(old(moves)@) + landing(
            board@.pieces,
            color,
            origin,
            destination,
            base_effects(base),
        ),
        occupied == (board@.at(destination) is Some),
{
    match board.board[destination.0][destination.1] {
        Some(piece) => {
            if piece.color != color {
                push_move(moves, Move::new(origin, destination, effects_of(base, Some(piece))));
            }
            assert(move_views(moves@) =~= move_views(old(moves)@) + landing(
                board@.pieces,
                color,
                origin,
                destination,
                base_effects(base),
            ));
            true
        },
        None => {
            push_move(moves, Move::new(origin, destination, effects_of(base, None)));
            assert(move_views(moves@) =~= move_views(old(moves)@) + landing(
                board@.pieces,
                color,
                origin,
                destination,
                base_effects(base),
            ));
            false
        },
    }
}

/// The moves by the given jumps, in their order.
fn jumps(
    board: &Board,
    color: Color,
    origin: (usize, usize),
    offsets: &[(isize, isize); 8],
    base: Option<SideEffect>,
) -> (moves: Vec<Move>)
    requires
        on_board(origin),
        forall|i: int| 0 <= i < 8 ==> -8 < (#[trigger] offsets[i]).0 < 8 && -8 < offsets[i].1 < 8,
    ensures
        move_views(moves@) == leaper_moves(board@.pieces, color, origin, offsets@, base_effects(base)),
{
    let mut moves: Vec<Move> = Vec::new();
    assert(move_views(moves@) =~= Seq::<MoveView>::empty());
    for i in 0..8usize
        invariant
            on_board(origin),
            forall|j: int|
                0 <= j < 8 ==> -8 < (#[trigger] offsets[j]).0 < 8 && -8 < offsets[j].1 < 8,
            move_views(moves@) == leaper_moves(
                board@.pieces,
                color,
                origin,
                offsets@.take(i as int),
                base_effects(base),
            ),
    {
        let offset = offsets[i];
        let target = (offset.0 + origin.0 as isize, offset.1 + origin.1 as isize);
        proof {
            let upto = offsets@.take(i + 1);
            assert(upto.drop_last() =~= offsets@.take(i as int));
            assert(upto.last() == offsets[i as int]);
        }
        if is_square_within_bounds(target) {
            let destination = (target.0 as usize, target.1 as usize);
            push_landing(board, color, origin, destination, base, &mut moves);
        } else {
            assert(move_views(moves@) + Seq::<MoveView>::empty() =~= move_views(moves@));
        }
    }
    assert(offsets@.take(8) =~= offsets@);
    moves
}

/// The single steps of a king of `color` on `origin`, in the order of
/// `royal_offsets`; castling is not among them.
pub fn king_moves(board: &Board, color: &Color, origin: (usize, usize)) -> (moves: Vec<Move>)
    requires
        on_board(origin),
    ensures
        move_views(moves@) == king_moves_spec(board@.pieces, *color, origin),
{
    let offsets: [(isize, isize); 8] = [
        (-1, -1),
        (-1, 0),
        (-1, 1),
        (0, 1),
        (1, 1),
        (1, 0),
        (1, -1),
        (0, -1),
    ];
    assert(offsets@ =~= royal_offsets());
    let moves = jumps(board, *color, origin, &offsets, Some(SideEffect::KingMove(*color)));
    moves
}

/// The jumps of a knight of `color` on `origin`, in the order of
/// `knight_offsets`.
pub fn knight_moves(board: &Board, color: &Color, origin: (usize, usize)) -> (moves: Vec<Move>)
    requires
        on_board(origin),
    ensures
        move_views(moves@) == knight_moves_spec(board@.pieces, *color, origin),
{
    let offsets: [(isize, isize); 8] = [
        (2, 1),
        (2, -1),
        (-2, 1),
        (-2, -1),
        (1, 2),
        (1, -2),
        (-1, 2),
        (-1, -2),
    ];
    assert(offsets@ =~= knight_offsets());
    let moves = jumps(board, *color, origin, &offsets, None);
    moves
}

/// Whether `(dr, dc)` is one of the eight steps to a neighbouring square.
pub open spec fn is_direction(d: (isize, isize)) -> bool {
    -1 <= d.0 <= 1 && -1 <= d.1 <= 1 && (d.0 != 0 || d.1 != 0)
}

/// Appends to `moves` the moves along the ray that leaves `origin` in
/// `direction`.
fn ray(
    board: &Board,
    color: Color,
    origin: (usize, usize),
    direction: (isize, isize),
    base: Option<SideEffect>,
    moves: &mut Vec<Move>,
)
    requires
        on_board(origin),
        is_direction(direction),
    ensures
        move_views(final(moves)@) == move_views(old(moves)@) + ray_moves(
            board@.pieces,
            color,
            origin,
            origin.0 + direction.0,
            origin.1 + direction.1,
            direction.0 as int,
            direction.1 as int,
            base_effects(base),
            7,
        ),
{
    let ghost before = move_views(moves@);
    let ghost whole = ray_moves(
        board@.pieces,
        color,
        origin,
        origin.0 + direction.0,
        origin.1 + direction.1,
        direction.0 as int,
        direction.1 as int,
        base_effects(base),
        7,
    );
    let ghost mut steps: int = 0;
    let mut target = (origin.0 as isize + direction.0, origin.1 as isize + direction.1);
    assert(move_views(moves@) + whole =~= before + whole);
    while is_square_within_bounds(target)
        invariant_except_break
            0 <= steps <= 7,
            direction.0 == 1 ==> target.0 == origin.0 + steps + 1,
            direction.0 == -1 ==> target.0 == origin.0 - steps - 1,
            direction.0 == 0 ==> target.0 == origin.0,
            direction.1 == 1 ==> target.1 == origin.1 + steps + 1,
            direction.1 == -1 ==> target.1 == origin.1 - steps - 1,
            direction.1 == 0 ==> target.1 == origin.1,
            move_views(moves@) + ray_moves(
                board@.pieces,
                color,
                origin,
                target.0 as int,
                target.1 as int,
                direction.0 as int,
                direction.1 as int,
                base_effects(base),
                (7 - steps) as nat,
            ) == before + whole,
        invariant
            on_board(origin),
            is_direction(direction),
        ensures
            move_views(moves@) == before + whole,
        decreases 7 - steps,
    {
        let ghost rest = ray_moves(
            board@.pieces,
            color,
            origin,
            target.0 as int,
            target.1 as int,
            direction.0 as int,
            direction.1 as int,
            base_effects(base),
            (7 - steps) as nat,
        );
        let ghost so_far = move_views(moves@);
        assert(steps < 7);
        let destination = (target.0 as usize, target.1 as usize);
        let occupied = push_landing(board, color, origin, destination, base, moves);
        if occupied {
            assert(move_views(moves@) == so_far + rest);
            break ;
        }
        target = (target.0 + direction.0, target.1 + direction.1);
        proof {
            steps = steps + 1;
            let next = ray_moves(
                board@.pieces,
                color,
                origin,
                target.0 as int,
                target.1 as int,
                direction.0 as int,
                direction.1 as int,
                base_effects(base),
                (7 - steps) as nat,
            );
            assert(rest == seq![plain_move(origin, destination, base_effects(base))] + next);
            assert(move_views(moves@) + next =~= so_far + rest);
        }
    }
    assert(move_views(moves@) + Seq::<MoveView>::empty() =~= move_views(moves@));
}

/// The moves along the given directions, in their order.
fn slides<const N: usize>(
    board: &Board,
    color: Color,
    origin: (usize, usize),
    directions: &[(isize, isize); N],
    base: Option<SideEffect>,
) -> (moves: Vec<Move>)
    requires
        on_board(origin),
        forall|i: int| 0 <= i < N ==> is_direction(#[trigger] directions[i]),
    ensures
        move_views(moves@) == slider_moves(
            board@.pieces,
            color,
            origin,
            directions@,
            base_effects(base),
        ),
{
    let mut moves: Vec<Move> = Vec::new();
    assert(move_views(moves@) =~= Seq::<MoveView>::empty());
    for i in 0..N
        invariant
            on_board(origin),
            forall|j: int| 0 <= j < N ==> is_direction(#[trigger] directions[j]),
            move_views(moves@) == slider_moves(
                board@.pieces,
                color,
                origin,
                directions@.take(i as int),
                base_effects(base),
            ),
    {
        proof {
            let upto = directions@.take(i + 1);
            assert(upto.drop_last() =~= directions@.take(i as int));
            assert(upto.last() == directions[i as int]);
        }
        ray(board, color, origin, directions[i], base, &mut moves);
    }
    assert(directions@.take(N as int) =~= directions@);
    moves
}

/// The moves of a rook of `color` on `origin`, direction by direction in the
/// order of `rook_directions`, each direction from the nearest square on.
pub fn rook_moves(board: &Board, color: &Color, origin: (usize, usize)) -> (moves: Vec<Move>)
    requires
        on_board(origin),
    ensures
        move_views(moves@) == rook_moves_spec(board@.pieces, *color, origin),
{
    let offsets: [(isize, isize); 4] = [(-1, 0), (0, 1), (1, 0), (0, -1)];
    let side_effect = match color {
        Color::White => if origin.0 == 0 && origin.1 == 0 {
            Some(SideEffect::InitialRookMove(RookType::WhiteQueenSide))
        } else if origin.0 == 0 && origin.1 == 7 {
            Some(SideEffect::InitialRookMove(RookType::WhiteKingSide))
        } else {
            None
        },
        Color::Black => if origin.0 == 7 && origin.1 == 0 {
            Some(SideEffect::InitialRookMove(RookType::BlackQueenSide))
        } else if origin.0 == 7 && origin.1 == 7 {
            Some(SideEffect::InitialRookMove(RookType::BlackKingSide))
        } else {
            None
        },
    };
    assert(offsets@ =~= rook_directions());
    let moves = slides(board, *color, origin, &offsets, side_effect);
    moves
}

/// The moves of a bishop of `color` on `origin`, direction by direction in
/// the order of `bishop_directions`, each direction from the nearest square on.
pub fn bishop_moves(board: &Board, color: &Color, origin: (usize, usize)) -> (moves: Vec<Move>)
    requires
        on_board(origin),
    ensures
        move_views(moves@) == bishop_moves_spec(board@.pieces, *color, origin),
{
    let offsets: [(isize, isize); 4] = [(-1, -1), (1, 1), (1, -1), (-1, 1)];
    assert(offsets@ =~= bishop_directions());
    let moves = slides(board, *color, origin, &offsets, None);
    moves
}

/// The moves of a queen of `color` on `origin`, direction by direction in the
/// order of `royal_offsets`, each direction from the nearest square on.
pub fn queen_moves(board: &Board, color: &Color, origin: (usize, usize)) -> (moves: Vec<Move>)
    requires
        on_board(origin),
    ensures
        move_views(moves@) == queen_moves_spec(board@.pieces, *color, origin),
{
    let offsets: [(isize, isize); 8] = [
        (-1, -1),
        (-1, 0),
        (-1, 1),
        (0, 1),
        (1, 1),
        (1, 0),
        (1, -1),
        (0, -1),
    ];
    assert(offsets@ =~= royal_offsets());
    let moves = slides(board, *color, origin, &offsets, None);
    moves
}

fn pawn_step(color: Color) -> (step: isize)
    ensures
        step == pawn_direction(color),
{
    match color {
        Color::White => 1,
        Color::Black => -1,
    }
}

fn pawn_last_row(color: Color) -> (row: usize)
    ensures
        row == promotion_row(color),
{
    match color {
        Color::White => 7,
        Color::Black => 0,
    }
}

/// The advances of a pawn of `color` on `origin`: the single step, then the
/// double step. A pawn with no square ahead of it has none.
pub fn pawn_moves(board: &Board, color: &Color, origin: (usize, usize)) -> (moves: Vec<Move>)
    requires
        on_board(origin),
    ensures
        move_views(moves@) == pawn_moves_spec(board@.pieces, *color, origin),
{
    let offset = pawn_step(*color);
    let pawn_starting_row: usize = match color {
        Color::White => 1,
        Color::Black => 6,
    };
    let promotion_row = pawn_last_row(*color);
    let (row, column) = origin;
    let mut moves: Vec<Move> = Vec::new();
    assert(move_views(moves@) =~= Seq::<MoveView>::empty());
    let ahead = (row as isize + offset, column as isize);
    if is_square_within_bounds(ahead) {
        let destination = (ahead.0 as usize, column);
        if board.board[destination.0][destination.1].is_none() {
            let mut side_effects: Vec<SideEffect> = Vec::new();
            if destination.0 == promotion_row {
                side_effects.push(SideEffect::Promotion);
            }
            side_effects.push(SideEffect::PawnMove);
            assert(side_effects@ =~= if ahead.0 == promotion_row as int {
                seq![SideEffect::Promotion, SideEffect::PawnMove]
            } else {
                seq![SideEffect::PawnMove]
            });
            push_move(&mut moves, Move::new(origin, destination, side_effects));
            let beyond = (ahead.0 + offset, column as isize);
            if row == pawn_starting_row && is_square_within_bounds(beyond) {
                let landing_square = (beyond.0 as usize, column);
                if board.board[landing_square.0][landing_square.1].is_none() {
                    let mut double_effects: Vec<SideEffect> = Vec::new();
                    double_effects.push(SideEffect::PawnMove);
                    double_effects.push(SideEffect::DoublePawnMove(destination));
                    assert(double_effects@ =~= seq![
                        SideEffect::PawnMove,
                        SideEffect::DoublePawnMove(destination),
                    ]);
                    push_move(&mut moves, Move::new(origin, landing_square, double_effects));
                }
            }
        }
    }
    assert(move_views(moves@) =~= pawn_moves_spec(board@.pieces, *color, origin));
    moves
}

/// Appends to `moves` the capture towards the column at distance `side`.
fn push_pawn_capture(
    board: &Board,
    color: Color,
    origin: (usize, usize),
    side: isize,
    moves: &mut Vec<Move>,
)
    requires
        on_board(origin),
        -1 <= side <= 1,
    ensures
        move_views(final(moves)@) == move_views(old(moves)@) + pawn_capture(
            board@.pieces,
            board@.en_passant,
            color,
            origin,
            side as int,
        ),
{
    let offset = pawn_step(color);
    let promotion_row = pawn_last_row(color);
    let (row, column) = origin;
    let target = (row as isize + offset, column as isize + side);
    if is_square_within_bounds(target) {
        let destination = (target.0 as usize, target.1 as usize);
        let mut side_effects: Vec<SideEffect> = Vec::new();
        side_effects.push(SideEffect::PawnMove);
        if destination.0 == promotion_row {
            side_effects.push(SideEffect::Promotion);
        }
        assert(side_effects@ =~= pawn_capture_tags(color, target.0 as int));
        match board.board[destination.0][destination.1] {
            Some(piece) => {
                if piece.color != color {
                    side_effects.push(SideEffect::PieceTaken(piece));
                    push_move(moves, Move::new(origin, destination, side_effects));
                }
            },
            None => match board.en_passant_square {
                Some(passed) => {
                    if passed.0 == destination.0 && passed.1 == destination.1 {
                        side_effects.push(SideEffect::EnPassantTake((row, destination.1)));
                        push_move(moves, Move::new(origin, destination, side_effects));
                    }
                },
                None => {},
            },
        }
    }
    assert(move_views(moves@) =~= move_views(old(moves)@) + pawn_capture(
        board@.pieces,
        board@.en_passant,
        color,
        origin,
        side as int,
    ));
}

/// The captures of a pawn of `color` on `origin`: towards the a-file, then
/// towards the h-file; each onto an enemy piece, or en passant.
pub fn pawn_attacking_moves(board: &Board, color: &Color, origin: (usize, usize)) -> (moves: Vec<
    Move,
>)
    requires
        on_board(origin),
    ensures
        move_views(moves@) == pawn_attacking_moves_spec(
            board@.pieces,
            board@.en_passant,
            *color,
            origin,
        ),
{
    let mut moves: Vec<Move> = Vec::new();
    assert(move_views(moves@) =~= Seq::<MoveView>::empty());
    push_pawn_capture(board, *color, origin, -1, &mut moves);
    push_pawn_capture(board, *color, origin, 1, &mut moves);
    assert(move_views(moves@) =~= pawn_attacking_moves_spec(
            board@.pieces,
            board@.en_passant,
            *color,
            origin,
        ));
    moves
}

/// Whether the squares of `between` are all empty and none of `king_path` is
/// in `attacked_squares`.
fn king_has_clear_path_to_rook(
    board: &Board,
    between: &Vec<(usize, usize)>,
    king_path: &Vec<(usize, usize)>,
    attacked_squares: &Vec<(usize, usize)>,
) -> (clear: bool)
    requires
        forall|i: int| 0 <= i < between@.len() ==> on_board(#[trigger] between@[i]),
    ensures
        clear == (all_empty(board@.pieces, between@) && none_attacked(
            attacked_squares@.to_set(),
            king_path@,
        )),
{
    for i in 0..between.len()
        invariant
            forall|j: int| 0 <= j < between@.len() ==> on_board(#[trigger] between@[j]),
            forall|j: int| 0 <= j < i ==> piece_on(board@.pieces, #[trigger] between@[j]) is None,
    {
        let square = between[i];
        if board.board[square.0][square.1].is_some() {
            return false;
        }
    }
    for i in 0..king_path.len()
        invariant
            all_empty(board@.pieces, between@),
            forall|j: int|
                0 <= j < i ==> !attacked_squares@.to_set().contains(#[trigger] king_path@[j]),
    {
        if contains_square(attacked_squares, king_path[i]) {
            return false;
        }
    }
    true
}

/// The castling moves of a king of `color` on `origin`: the king's side, then
/// the queen's side, each where `color` has the right, the squares between
/// king and rook are empty, and no opponent attacks a square on which the
/// king starts, passes or lands.
pub fn castle_moves(board: &Board, color: &Color, origin: (usize, usize)) -> (moves: Vec<Move>)
    ensures
        move_views(moves@) == castle_moves_spec(board@, *color, origin),
{
    let mut valid_moves: Vec<Move> = Vec::new();
    assert(move_views(valid_moves@) =~= Seq::<MoveView>::empty());
    let king_starting_square: (usize, usize) = match color {
        Color::White => (0, 4),
        Color::Black => (7, 4),
    };
    if origin.0 != king_starting_square.0 || origin.1 != king_starting_square.1 {
        return valid_moves;
    }
    let attacked_squares = get_attacked_squares(board, *color);
    let row = king_starting_square.0;
    let (king_side, queen_side) = match color {
        Color::White => (board.castle_rights.white_king_side, board.castle_rights.white_queen_side),
        Color::Black => (board.castle_rights.black_king_side, board.castle_rights.black_queen_side),
    };
    let ghost mut first: Seq<MoveView> = Seq::empty();
    if king_side {
        let between = vec![(row, 5), (row, 6)];
        let king_path = vec![king_starting_square, (row, 5), (row, 6)];
        assert(between@ =~= king_side_between(*color));
        assert(king_path@ =~= king_side_path(*color));
        if king_has_clear_path_to_rook(board, &between, &king_path, &attacked_squares) {
            let effects = vec![SideEffect::Castle((row, 7), (row, 5), *color)];
            assert(effects@ =~= king_side_castle(*color).side_effects);
            push_move(&mut valid_moves, Move::new(king_starting_square, (row, 6), effects));
        }
    }
    proof {
        first = move_views(valid_moves@);
        assert(first =~= if may_castle_king_side(board@, *color) {
            seq![king_side_castle(*color)]
        } else {
            Seq::empty()
        });
    }
    if queen_side {
        let between = vec![(row, 3), (row, 2), (row, 1)];
        let king_path = vec![king_starting_square, (row, 3), (row, 2)];
        assert(between@ =~= queen_side_between(*color));
        assert(king_path@ =~= queen_side_path(*color));
        if king_has_clear_path_to_rook(board, &between, &king_path, &attacked_squares) {
            let effects = vec![SideEffect::Castle((row, 0), (row, 3), *color)];
            assert(effects@ =~= queen_side_castle(*color).side_effects);
            push_move(&mut valid_moves, Move::new(king_starting_square, (row, 2), effects));
        }
    }
    assert(move_views(valid_moves@) =~= castle_moves_spec(board@, *color, origin));
    valid_moves
}

} // verus!
