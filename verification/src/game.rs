//! Playing on a board: the legal moves, the state of the game, and making a
//! move.

use vstd::prelude::*;
use crate::board::Board;
use crate::helpers::{get_move_from_vec, invalid_move_text, is_checked, move_causes_check_on_self};
use crate::models::{
    move_views, Color, GameStatus, Move, MoveOutcome, MoveOutcomeView, MoveView, PieceKind,
    UserMove, ValidMove,
};
use crate::moves::{
    all_wf, bishop_moves, castle_moves, king_moves, knight_moves, pawn_attacking_moves, pawn_moves,
    queen_moves, rook_moves,
};
use crate::position::{apply_move, pass_turn, promotion_verdict, Position};
use crate::rules::{
    endpoints, find_move, legal_moves, lemma_pseudo_legal_moves_wf, moves_before, moves_from,
    pseudo_legal_moves, safe_moves, status,
};

verus! {

/// What a request to move comes to: the game is over; or no legal move goes
/// from the request's origin to its destination; or the first such move
/// promotes a pawn and the request's choice is missing or names a king or a
/// pawn; or the move is made.
pub open spec fn make_move_outcome(pos: Position, request: UserMove) -> MoveOutcomeView {
    if status(pos) != GameStatus::Ongoing {
        MoveOutcomeView::GameIsOver(status(pos))
    } else {
        match find_move(legal_moves(pos), request.origin, request.destination) {
            None => MoveOutcomeView::InvalidMove(
                invalid_move_text(request.origin, request.destination),
            ),
            Some(m) => match promotion_verdict(m.with_request(request.promotion_request)) {
                Some(refusal) => refusal,
                None => MoveOutcomeView::Success,
            },
        }
    }
}

/// The position after a request to move: the chosen legal move applied with
/// the request's promotion choice and the turn handed over, where the move is
/// made; the position as it was, where it is not.
pub open spec fn make_move_position(pos: Position, request: UserMove) -> Position {
    if make_move_outcome(pos, request) == MoveOutcomeView::Success {
        pass_turn(
            apply_move(
                pos,
                find_move(legal_moves(pos), request.origin, request.destination).unwrap()
                    .with_request(request.promotion_request),
            ),
        )
    } else {
        pos
    }
}

/// Appending one list of moves to another appends the values.
fn append_moves(moves: &mut Vec<Move>, mut more: Vec<Move>)
    ensures
        move_views(final(moves)@) == move_views(old(moves)@) + move_views(more@),
{
    let ghost added = more@;
    moves.append(&mut more);
    assert(move_views(moves@) =~= move_views(old(moves)@) + move_views(added));
}

impl Board {
    /// The candidate moves of the side to move, square by square.
    pub(crate) fn get_all_moves_list(&self) -> (moves: Vec<Move>)
        ensures
            move_views(moves@) == pseudo_legal_moves(self@),
            all_wf(move_views(moves@)),
    {
        let mut moves: Vec<Move> = Vec::new();
        assert(move_views(moves@) =~= Seq::<MoveView>::empty());
        for row in 0..8usize
            invariant
                move_views(moves@) == moves_before(self@, row as int, 0),
        {
            assert(moves_before(self@, row as int, 0) == if row == 0 {
                Seq::<MoveView>::empty()
            } else {
                moves_before(self@, row - 1, 8)
            });
            for column in 0..8usize
                invariant
                    row < 8,
                    move_views(moves@) == if row == 0 && column == 0 {
                        Seq::<MoveView>::empty()
                    } else if column == 0 {
                        moves_before(self@, row - 1, 8)
                    } else {
                        moves_before(self@, row as int, column as int)
                    },
            {
                let ghost before = move_views(moves@);
                let ghost here = (row, column);
                match &self.board[row][column] {
                    Some(piece) => {
                        if piece.color == self.player_turn {
                            match piece.kind {
                                PieceKind::King => {
                                    append_moves(
                                        &mut moves,
                                        king_moves(&self, &self.player_turn, (row, column)),
                                    );
                                    append_moves(
                                        &mut moves,
                                        castle_moves(&self, &self.player_turn, (row, column)),
                                    );
                                },
                                PieceKind::Queen => append_moves(
                                    &mut moves,
                                    queen_moves(&self, &self.player_turn, (row, column)),
                                ),
                                PieceKind::Rook => append_moves(
                                    &mut moves,
                                    rook_moves(&self, &self.player_turn, (row, column)),
                                ),
                                PieceKind::Bishop => append_moves(
                                    &mut moves,
                                    bishop_moves(&self, &self.player_turn, (row, column)),
                                ),
                                PieceKind::Knight => append_moves(
                                    &mut moves,
                                    knight_moves(&self, &piece.color, (row, column)),
                                ),
                                PieceKind::Pawn => {
                                    append_moves(
                                        &mut moves,
                                        pawn_moves(&self, &piece.color, (row, column)),
                                    );
                                    append_moves(
                                        &mut moves,
                                        pawn_attacking_moves(&self, &piece.color, (row, column)),
                                    );
                                },
                            }
                        }
                    },
                    None => {},
                }
                assert(move_views(moves@) =~= before + moves_from(self@, here));
                assert(moves_before(self@, row as int, column + 1) == moves_before(
                    self@,
                    row as int,
                    column as int,
                ) + moves_from(self@, here));
            }
        }
        proof {
            lemma_pseudo_legal_moves_wf(self@);
        }
        moves
    }

    /// A copy of the board to try moves on.
    pub(crate) fn copy_board(&self) -> (copy: Board)
        ensures
            copy == *self,
    {
        *self
    }

    /// Those of `moves`, in order, that do not leave the mover's king
    /// attacked.
    pub(crate) fn get_valid_moves(&self, moves: Vec<Move>) -> (valid_moves: Vec<Move>)
        requires
            all_wf(move_views(moves@)),
        ensures
            move_views(valid_moves@) == safe_moves(self@, move_views(moves@)),
    {
        let mut valid_moves: Vec<Move> = Vec::new();
        let board = self.copy_board();
        let ghost all = move_views(moves@);
        assert(move_views(valid_moves@) =~= Seq::<MoveView>::empty());
        assert(all.take(0) =~= Seq::<MoveView>::empty());
        for m in it: moves
            invariant
                board == *self,
                all == move_views(moves@),
                all == move_views(it.seq()),
                all_wf(all),
                move_views(valid_moves@) == safe_moves(self@, all.take(it.index() as int)),
        {
            proof {
                let upto = all.take(it.index() + 1);
                assert(upto.drop_last() =~= all.take(it.index() as int));
                assert(upto.last() == m@);
                assert(all[it.index() as int].wf());
            }
            let ghost kept = move_views(valid_moves@);
            if !move_causes_check_on_self(board, &m) {
                valid_moves.push(m);
                assert(move_views(valid_moves@) =~= kept.push(m@));
            }
        }
        assert(all.take(all.len() as int) =~= all);
        valid_moves
    }

    /// The legal moves of the side to move.
    fn legal_moves_list(&self) -> (moves: Vec<Move>)
        ensures
            move_views(moves@) == legal_moves(self@),
    {
        self.get_valid_moves(self.get_all_moves_list())
    }

    /// How the game stands, given the legal moves of the side to move.
    fn status_with(&self, moves: &Vec<Move>) -> (game_status: GameStatus)
        requires
            move_views(moves@) == legal_moves(self@),
        ensures
            game_status == status(self@),
    {
        if moves.len() == 0 {
            if is_checked(self) {
                GameStatus::Checkmate(self.player_turn.get_opposite_color())
            } else {
                GameStatus::Draw
            }
        } else if self.num_half_moves >= 100 {
            GameStatus::Draw
        } else {
            GameStatus::Ongoing
        }
    }

    /// How the game stands for the side to move. The answer is a function of
    /// the position alone: asked twice without a move in between, it is the
    /// same.
    pub fn game_status(&self) -> (game_status: GameStatus)
        ensures
            game_status == status(self@),
    {
        let moves = self.legal_moves_list();
        self.status_with(&moves)
    }

    /// Origin and destination of each legal move of the side to move.
    pub fn valid_moves(&self) -> (valid_move_vec: Vec<ValidMove>)
        ensures
            valid_move_vec@ == endpoints(legal_moves(self@)),
    {
        let mut valid_move_vec: Vec<ValidMove> = Vec::new();
        let moves = self.legal_moves_list();
        for i in 0..moves.len()
            invariant
                move_views(moves@) == legal_moves(self@),
                valid_move_vec@ == endpoints(legal_moves(self@)).take(i as int),
        {
            valid_move_vec.push(
                ValidMove {
                    origin: moves[i].piece_move.origin,
                    destination: moves[i].piece_move.destination,
                },
            );
            assert(move_views(moves@)[i as int] == moves@[i as int]@);
            assert(valid_move_vec@ =~= endpoints(legal_moves(self@)).take(i + 1));
        }
        assert(valid_move_vec@ =~= endpoints(legal_moves(self@)));
        valid_move_vec
    }

    /// Makes the legal move that goes from the origin of `piece_move` to its
    /// destination, with its promotion choice, and hands the turn over.
    /// Where the game is over, no such move is legal, or the promotion
    /// choice does not fit, the outcome says so and the position stays as it
    /// was.
    pub fn make_move(&mut self, piece_move: &UserMove) -> (outcome: MoveOutcome)
        requires
            old(self).num_moves < usize::MAX,
        ensures
            outcome@ == make_move_outcome(old(self)@, *piece_move),
            final(self)@ == make_move_position(old(self)@, *piece_move),
            outcome@ != MoveOutcomeView::Success ==> *final(self) == *old(self),
            old(self).wf() ==> final(self).wf(),
    {
        let moves = self.legal_moves_list();
        let game_status = self.status_with(&moves);
        match game_status {
            GameStatus::Ongoing => {},
            _ => {
                return MoveOutcome::GameIsOver(game_status);
            },
        }
        proof {
            lemma_pseudo_legal_moves_wf(self@);
            lemma_safe_moves_wf(self@, pseudo_legal_moves(self@));
            lemma_find_move_is_member(
                legal_moves(self@),
                piece_move.origin,
                piece_move.destination,
            );
        }
        match get_move_from_vec(moves, piece_move) {
            Ok(mut m) => {
                let ghost chosen = m@;
                m.piece_move = *piece_move;
                assert(m@ == chosen.with_request(piece_move.promotion_request));
                match self.handle_move(&m) {
                    MoveOutcome::Success => {
                        if self.player_turn == Color::Black {
                            self.num_moves += 1;
                        }
                        self.player_turn = self.player_turn.get_opposite_color();
                    },
                    refusal => {
                        return refusal;
                    },
                }
            },
            Err(outcome) => {
                return outcome;
            },
        }
        MoveOutcome::Success
    }
}

/// Whether `m` is one of `moves`.
pub open spec fn is_member(moves: Seq<MoveView>, m: MoveView) -> bool {
    exists|i: int| 0 <= i < moves.len() && #[trigger] moves[i] == m
}

/// What `find_move` finds is one of the moves, and goes from the origin to
/// the destination asked for.
pub proof fn lemma_find_move_is_member(
    moves: Seq<MoveView>,
    origin: (usize, usize),
    destination: (usize, usize),
)
    ensures
        find_move(moves, origin, destination) matches Some(m) ==> is_member(moves, m) && m.origin
            == origin && m.destination == destination,
    decreases moves.len(),
{
    if moves.len() > 0 {
        if moves.first().origin == origin && moves.first().destination == destination {
            assert(moves[0] == moves.first());
        } else {
            lemma_find_move_is_member(moves.drop_first(), origin, destination);
            if let Some(m) = find_move(moves.drop_first(), origin, destination) {
                let i = choose|i: int|
                    0 <= i < moves.drop_first().len() && #[trigger] moves.drop_first()[i] == m;
                assert(moves[i + 1] == m);
            }
        }
    }
}

/// Every move that the legality filter keeps is one of the moves it was
/// given, and does not leave the mover's king attacked.
pub proof fn lemma_safe_moves_members(pos: Position, moves: Seq<MoveView>, m: MoveView)
    requires
        is_member(safe_moves(pos, moves), m),
    ensures
        is_member(moves, m),
        !crate::rules::exposes_king(pos, m),
    decreases moves.len(),
{
    if moves.len() > 0 {
        let rest = safe_moves(pos, moves.drop_last());
        let i = choose|i: int|
            0 <= i < safe_moves(pos, moves).len() && #[trigger] safe_moves(pos, moves)[i] == m;
        if !crate::rules::exposes_king(pos, moves.last()) && i == rest.len() {
            assert(moves[moves.len() - 1] == m);
        } else {
            assert(rest[i] == m);
            lemma_safe_moves_members(pos, moves.drop_last(), m);
            let j = choose|j: int|
                0 <= j < moves.drop_last().len() && #[trigger] moves.drop_last()[j] == m;
            assert(moves[j] == m);
        }
    }
}

/// The legality filter keeps moves that name squares of the board only,
/// where it was given such moves.
pub proof fn lemma_safe_moves_wf(pos: Position, moves: Seq<MoveView>)
    requires
        all_wf(moves),
    ensures
        all_wf(safe_moves(pos, moves)),
{
    assert forall|i: int| 0 <= i < safe_moves(pos, moves).len() implies (#[trigger] safe_moves(
        pos,
        moves,
    )[i]).wf() by {
        let m = safe_moves(pos, moves)[i];
        lemma_safe_moves_members(pos, moves, m);
        let j = choose|j: int| 0 <= j < moves.len() && #[trigger] moves[j] == m;
    }
}

/// Every move that the legality filter was given and that does not leave the
/// mover's king attacked is one of the moves that it keeps.
pub proof fn lemma_safe_moves_keep(pos: Position, moves: Seq<MoveView>, m: MoveView)
    requires
        is_member(moves, m),
        !crate::rules::exposes_king(pos, m),
    ensures
        is_member(safe_moves(pos, moves), m),
    decreases moves.len(),
{
    let i = choose|i: int| 0 <= i < moves.len() && #[trigger] moves[i] == m;
    let rest = safe_moves(pos, moves.drop_last());
    let kept = safe_moves(pos, moves);
    if i == moves.len() - 1 {
        assert(kept[rest.len() as int] == m);
    } else {
        assert(moves.drop_last()[i] == m);
        lemma_safe_moves_keep(pos, moves.drop_last(), m);
        let j = choose|j: int| 0 <= j < rest.len() && #[trigger] rest[j] == m;
        assert(kept[j] == m);
    }
}

} // verus!
