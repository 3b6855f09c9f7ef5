//! The position record that a game is played on.

use vstd::prelude::*;
use crate::models::{
    effect_on_board, on_board, CastleRights, Color, Move, MoveOutcome, MoveOutcomeView, MoveView,
    Piece, PieceKind, RookType, SideEffect, Square,
};
use crate::position::{
    apply_effect, apply_effects, apply_move, carry_out, promotion_verdict, Position, Progress,
};

verus! {

/// The 8x8 grid: `grid[row][column]`, row 0 being White's back rank and
/// column 0 the a-file.
pub type Grid = [[Option<Piece>; 8]; 8];

/// The occupied squares of a grid with their pieces.
pub open spec fn grid_pieces(grid: Grid) -> Map<Square, Piece> {
    Map::new(
        |sq: Square| on_board(sq) && grid[sq.0 as int][sq.1 as int] is Some,
        |sq: Square| grid[sq.0 as int][sq.1 as int]->0,
    )
}

/// What the side effects of a move have asked for: that the half-move clock
/// start again, that the en-passant target stay, and that nothing be left to
/// relocate because a promotion has placed the piece.
#[derive(Clone, Copy)]
struct Asked {
    reset_clock: bool,
    double_push: bool,
    promoted: bool,
}

/// The executor's progress with the position `pos` after the effects have
/// asked for `asked`.
spec fn progress_of(pos: Position, asked: Asked) -> Progress {
    Progress {
        pos,
        reset_clock: asked.reset_clock,
        double_push: asked.double_push,
        promoted: asked.promoted,
    }
}

/// A position: the grid, the side to move, the castling rights, the
/// en-passant target and the two counters.
#[derive(Clone, Copy, Debug)]
pub struct Board {
    pub board: [[Option<Piece>; 8]; 8],
    pub player_turn: Color,
    pub castle_rights: CastleRights,
    pub en_passant_square: Option<(usize, usize)>,
    pub num_half_moves: usize,
    pub num_moves: usize,
}

impl View for Board {
    type V = Position;

    open spec fn view(&self) -> Position {
        Position {
            pieces: grid_pieces(self.board),
            turn: self.player_turn,
            castle_rights: self.castle_rights,
            en_passant: self.en_passant_square,
            half_moves: self.num_half_moves as nat,
            moves: self.num_moves as nat,
        }
    }
}

impl Board {
    /// The en-passant target, where there is one, is a square of the board.
    pub open spec fn wf(&self) -> bool {
        self.en_passant_square matches Some(sq) ==> on_board(sq)
    }

    /// A grid without pieces.
    pub(crate) fn generate_empty_board() -> (grid: Grid)
        ensures
            grid_pieces(grid) == Map::<Square, Piece>::empty(),
    {
        let row: [Option<Piece>; 8] = [None; 8];
        let grid: Grid = [row; 8];
        assert(grid_pieces(grid) =~= Map::<Square, Piece>::empty());
        grid
    }
}

impl Board {
    /// Puts `content` on `sq`.
    fn set_square(&mut self, sq: (usize, usize), content: Option<Piece>)
        requires
            on_board(sq),
        ensures
            final(self)@ == old(self)@.put(sq, content),
            final(self).wf() == old(self).wf(),
    {
        self.board[sq.0][sq.1] = content;
        assert(self@.pieces =~= old(self)@.put(sq, content).pieces);
    }

    /// Takes whatever stands on `origin` to `destination`.
    pub(crate) fn move_piece(&mut self, origin: (usize, usize), destination: (usize, usize))
        requires
            on_board(origin),
            on_board(destination),
        ensures
            final(self)@ == old(self)@.relocate(origin, destination),
            final(self).wf() == old(self).wf(),
    {
        let (origin_row, origin_column) = origin;
        if let Some(p) = self.board[origin_row][origin_column] {
            let piece = Piece::new(p.kind, p.color);
            self.set_square(destination, Some(piece));
            self.set_square(origin, None);
        }
    }

    /// Takes both castling rights from `color`.
    fn revoke_castling(&mut self, color: Color)
        ensures
            final(self)@ == (Position {
                castle_rights: old(self)@.castle_rights.without(color),
                ..old(self)@
            }),
            final(self).wf() == old(self).wf(),
    {
        match color {
            Color::White => {
                self.castle_rights.white_king_side = false;
                self.castle_rights.white_queen_side = false;
            },
            Color::Black => {
                self.castle_rights.black_king_side = false;
                self.castle_rights.black_queen_side = false;
            },
        }
    }

    /// The error that the promotion choice of `move_struct` earns, if any.
    fn check_promotion(move_struct: &Move) -> (verdict: Option<MoveOutcome>)
        ensures
            match verdict {
                Some(outcome) => promotion_verdict(move_struct@) == Some(outcome@),
                None => promotion_verdict(move_struct@) is None,
            },
    {
        let mut promotes = false;
        for i in 0..move_struct.side_effects.len()
            invariant
                promotes <==> exists|j: int|
                    0 <= j < i && #[trigger] move_struct.side_effects@[j] == SideEffect::Promotion,
        {
            if let SideEffect::Promotion = move_struct.side_effects[i] {
                promotes = true;
            }
        }
        if !promotes {
            return None;
        }
        match move_struct.piece_move.promotion_request {
            None => Some(MoveOutcome::PromotionNotProvided),
            Some(PieceKind::King) => Some(MoveOutcome::InvalidPromotion(PieceKind::King)),
            Some(PieceKind::Pawn) => Some(MoveOutcome::InvalidPromotion(PieceKind::Pawn)),
            Some(_) => None,
        }
    }

    /// Takes from the rook's corner `corner` the castling right that depends
    /// on it.
    fn revoke_castling_with(&mut self, corner: RookType)
        ensures
            final(self)@ == (Position {
                castle_rights: old(self)@.castle_rights.without_rook(corner),
                ..old(self)@
            }),
            final(self).wf() == old(self).wf(),
    {
        match corner {
            RookType::WhiteKingSide => self.castle_rights.white_king_side = false,
            RookType::WhiteQueenSide => self.castle_rights.white_queen_side = false,
            RookType::BlackKingSide => self.castle_rights.black_king_side = false,
            RookType::BlackQueenSide => self.castle_rights.black_queen_side = false,
        }
    }

    /// Makes `passed` the en-passant target.
    fn set_en_passant(&mut self, passed: (usize, usize))
        requires
            on_board(passed),
        ensures
            final(self)@ == (Position { en_passant: Some(passed), ..old(self)@ }),
            final(self).wf(),
    {
        self.en_passant_square = Some(passed);
    }

    /// Replaces the piece on `origin` by a piece of the kind `kind` and of
    /// its colour on `destination`, and says whether there was a piece.
    fn promote(
        &mut self,
        origin: (usize, usize),
        destination: (usize, usize),
        kind: PieceKind,
    ) -> (promoted: bool)
        requires
            on_board(origin),
            on_board(destination),
        ensures
            match old(self)@.at(origin) {
                Some(pawn) => promoted && final(self)@ == old(self)@.put(origin, None).put(
                    destination,
                    Some(Piece { kind, color: pawn.color }),
                ),
                None => !promoted && final(self)@ == old(self)@,
            },
            final(self).wf() == old(self).wf(),
    {
        if let Some(pawn) = self.board[origin.0][origin.1] {
            let promoted_piece = Piece::new(kind, pawn.color);
            self.set_square(origin, None);
            self.set_square(destination, Some(promoted_piece));
            true
        } else {
            false
        }
    }

    /// Applies one side effect of the move `m` and says what the effects have
    /// asked for so far.
    fn apply_side_effect(
        &mut self,
        effect: SideEffect,
        origin: (usize, usize),
        destination: (usize, usize),
        request: Option<PieceKind>,
        asked: Asked,
        Ghost(m): Ghost<MoveView>,
    ) -> (now: Asked)
        requires
            on_board(origin),
            on_board(destination),
            effect_on_board(effect),
            m.origin == origin,
            m.destination == destination,
            m.promotion_request == request,
            asked.double_push ==> old(self).wf(),
        ensures
            progress_of(final(self)@, now) == apply_effect(progress_of(old(self)@, asked), m, effect),
            now.double_push ==> final(self).wf(),
            final(self).num_half_moves == old(self).num_half_moves,
            final(self).num_moves == old(self).num_moves,
            final(self).player_turn == old(self).player_turn,
    {
        let mut now = asked;
        match effect {
            SideEffect::EnPassantTake(enemy_pawn_coords) => {
                self.set_square(enemy_pawn_coords, None);
            },
            SideEffect::DoublePawnMove(square) => {
                self.set_en_passant(square);
                now.reset_clock = true;
                now.double_push = true;
            },
            SideEffect::Castle(rook_origin, rook_destination, color) => {
                self.move_piece(rook_origin, rook_destination);
                self.revoke_castling(color);
            },
            SideEffect::KingMove(color) => {
                self.revoke_castling(color);
            },
            SideEffect::InitialRookMove(rook_type) => {
                self.revoke_castling_with(rook_type);
            },
            SideEffect::PawnMove => now.reset_clock = true,
            SideEffect::PieceTaken(_) => now.reset_clock = true,
            SideEffect::Promotion => {
                if let Some(valid_piece) = request {
                    if self.promote(origin, destination, valid_piece) {
                        now.promoted = true;
                    }
                }
            },
        }
        now
    }

    /// Does the board work of `move_struct`, with `request` for its promotion
    /// choice, and says whether the half-move clock starts again.
    pub(crate) fn carry_out(&mut self, move_struct: &Move, request: Option<PieceKind>) -> (reset: bool)
        requires
            move_struct@.wf(),
        ensures
            final(self)@ == carry_out(old(self)@, move_struct@.with_request(request)).pos,
            reset == carry_out(old(self)@, move_struct@.with_request(request)).reset_clock,
            final(self).wf(),
            final(self).num_half_moves == old(self).num_half_moves,
            final(self).num_moves == old(self).num_moves,
            final(self).player_turn == old(self).player_turn,
    {
        let ghost m = move_struct@.with_request(request);
        let ghost start = Progress {
            pos: old(self)@.put(m.destination, None),
            reset_clock: false,
            double_push: false,
            promoted: false,
        };
        let origin = move_struct.piece_move.origin;
        let destination = move_struct.piece_move.destination;
        let mut asked = Asked { reset_clock: false, double_push: false, promoted: false };
        self.set_square(destination, None);
        for i in 0..move_struct.side_effects.len()
            invariant
                m == move_struct@.with_request(request),
                m.wf(),
                origin == m.origin,
                destination == m.destination,
                request == m.promotion_request,
                asked.double_push ==> self.wf(),
                self.num_half_moves == old(self).num_half_moves,
                self.num_moves == old(self).num_moves,
                self.player_turn == old(self).player_turn,
                progress_of(self@, asked) == apply_effects(start, m, m.side_effects.take(i as int)),
        {
            proof {
                let upto = m.side_effects.take(i + 1);
                assert(upto.drop_last() =~= m.side_effects.take(i as int));
                assert(upto.last() == m.side_effects[i as int]);
                assert(effect_on_board(m.side_effects[i as int]));
            }
            asked = self.apply_side_effect(
                move_struct.side_effects[i],
                origin,
                destination,
                request,
                asked,
                Ghost(m),
            );
        }
        assert(m.side_effects.take(m.side_effects.len() as int) =~= m.side_effects);
        if !asked.promoted {
            self.move_piece(origin, destination);
        }
        if !asked.double_push {
            self.en_passant_square = None;
        }
        asked.reset_clock
    }

    /// Applies `move_struct` to the position, short of handing the turn
    /// over. A move that promotes a pawn is refused, and the position left as
    /// it was, unless its request names a queen, a rook, a bishop or a knight.
    pub fn handle_move(&mut self, move_struct: &Move) -> (outcome: MoveOutcome)
        requires
            move_struct@.wf(),
            old(self).num_half_moves < usize::MAX,
        ensures
            match promotion_verdict(move_struct@) {
                Some(refusal) => outcome@ == refusal && *final(self) == *old(self),
                None => outcome@ == MoveOutcomeView::Success && final(self)@ == apply_move(
                    old(self)@,
                    move_struct@,
                ),
            },
            promotion_verdict(move_struct@) is None ==> final(self).wf(),
            final(self).num_moves == old(self).num_moves,
            final(self).player_turn == old(self).player_turn,
    {
        if let Some(refusal) = Self::check_promotion(move_struct) {
            return refusal;
        }
        assert(move_struct@.with_request(move_struct@.promotion_request) == move_struct@);
        let reset = self.carry_out(move_struct, move_struct.piece_move.promotion_request);
        if reset {
            self.num_half_moves = 0;
        } else {
            self.num_half_moves += 1;
        }
        MoveOutcome::Success
    }
}

} // verus!
