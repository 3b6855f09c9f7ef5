//! The value types of the game: colours, pieces, squares, moves and the
//! outcomes that the engine reports.

use vstd::prelude::*;

verus! {

/// A square of the board as `(row, column)`: row 0 is White's back rank,
/// column 0 is the a-file. A square is on the board when both are below 8.
pub type Square = (usize, usize);

/// Whether `sq` lies on the 8x8 board.
pub open spec fn on_board(sq: Square) -> bool {
    sq.0 < 8 && sq.1 < 8
}

/// Whether the signed coordinates `(r, c)` name a square of the board.
pub open spec fn in_bounds(r: int, c: int) -> bool {
    0 <= r <= 7 && 0 <= c <= 7
}

/// The square with the given coordinates.
pub open spec fn square(r: int, c: int) -> Square {
    (r as usize, c as usize)
}

/// The two sides.
#[derive(Clone, Copy, PartialEq, Eq, Structural, Debug)]
pub enum Color {
    White,
    Black,
}

impl Color {
    /// The other colour.
    pub open spec fn opposite(self) -> Color {
        match self {
            Color::White => Color::Black,
            Color::Black => Color::White,
        }
    }

    /// The other colour.
    pub fn get_opposite_color(&self) -> (other: Color)
        ensures
            other == self.opposite(),
    {
        match self {
            Color::White => Color::Black,
            Color::Black => Color::White,
        }
    }
}

/// The six kinds of piece.
#[derive(Clone, Copy, PartialEq, Eq, Structural, Debug)]
pub enum PieceKind {
    King,
    Queen,
    Rook,
    Bishop,
    Knight,
    Pawn,
}

/// A piece: its kind and its colour. Two pieces of the same kind and colour
/// are the same piece.
#[derive(Clone, Copy, PartialEq, Eq, Structural, Debug)]
pub struct Piece {
    pub kind: PieceKind,
    pub color: Color,
}

impl Piece {
    /// The piece of the given kind and colour.
    pub fn new(kind: PieceKind, color: Color) -> (piece: Piece)
        ensures
            piece == (Piece { kind, color }),
    {
        Piece { kind, color }
    }
}

/// The four castling rights, each independent of the others.
#[derive(Clone, Copy, PartialEq, Eq, Structural, Debug)]
pub struct CastleRights {
    pub white_queen_side: bool,
    pub white_king_side: bool,
    pub black_queen_side: bool,
    pub black_king_side: bool,
}

impl CastleRights {
    /// The castling rights that the field `fen` names: each of the letters
    /// `K`, `Q`, `k`, `q` gives its right, and a hyphen ends the reading.
    /// Any other character before a hyphen makes the field unreadable.
    pub fn from_fen(fen: &str) -> (rights: Option<CastleRights>)
        ensures
            rights == crate::fen::parse_rights(fen@),
    {
        let mut castle_rights = CastleRights {
            white_queen_side: false,
            white_king_side: false,
            black_queen_side: false,
            black_king_side: false,
        };
        assert(fen@.skip(0) =~= fen@);
        for c in it: fen.chars()
            invariant
                it.seq() == fen@,
                crate::fen::parse_rights(fen@) == crate::fen::read_rights(
                    castle_rights,
                    fen@.skip(it.index() as int),
                ),
        {
            proof {
                let rest = fen@.skip(it.index() as int);
                assert(rest.len() > 0);
                assert(rest.first() == c);
                assert(rest.drop_first() =~= fen@.skip(it.index() + 1));
            }
            match c {
                'q' => castle_rights.black_queen_side = true,
                'Q' => castle_rights.white_queen_side = true,
                'k' => castle_rights.black_king_side = true,
                'K' => castle_rights.white_king_side = true,
                '-' => {
                    return Some(castle_rights);
                },
                _ => {
                    return None;
                },
            }
        }
        assert(fen@.skip(fen@.len() as int) =~= Seq::<char>::empty());
        Some(castle_rights)
    }

    /// The rights that remain once `color` has lost both of its own.
    pub open spec fn without(self, color: Color) -> CastleRights {
        match color {
            Color::White => CastleRights {
                white_king_side: false,
                white_queen_side: false,
                ..self
            },
            Color::Black => CastleRights {
                black_king_side: false,
                black_queen_side: false,
                ..self
            },
        }
    }

    /// The rights that remain once the rook of `corner` has left its square.
    pub open spec fn without_rook(self, corner: RookType) -> CastleRights {
        match corner {
            RookType::WhiteKingSide => CastleRights { white_king_side: false, ..self },
            RookType::WhiteQueenSide => CastleRights { white_queen_side: false, ..self },
            RookType::BlackKingSide => CastleRights { black_king_side: false, ..self },
            RookType::BlackQueenSide => CastleRights { black_queen_side: false, ..self },
        }
    }
}

/// A rook's home corner, named by the castling right that depends on it.
#[derive(Clone, Copy, PartialEq, Eq, Structural, Debug)]
pub enum RookType {
    WhiteKingSide,
    WhiteQueenSide,
    BlackKingSide,
    BlackQueenSide,
}

/// What a move does besides taking a piece from its origin to its
/// destination. The executor learns of a move's bookkeeping from these
/// tags alone.
#[derive(Clone, Copy, PartialEq, Eq, Debug)]
pub enum SideEffect {
    /// An en-passant capture; holds the square of the captured pawn.
    EnPassantTake((usize, usize)),
    PawnMove,
    PieceTaken(Piece),
    /// A pawn's double step; holds the square that it passed over.
    DoublePawnMove((usize, usize)),
    /// Castling; holds the rook's origin, the rook's destination and the
    /// colour that castles.
    Castle((usize, usize), (usize, usize), Color),
    KingMove(Color),
    InitialRookMove(RookType),
    /// The move takes a pawn to its last rank and needs a promotion choice.
    Promotion,
}

/// A move as a caller asks for it.
#[derive(Clone, Copy, PartialEq, Eq, Debug)]
pub struct UserMove {
    pub origin: (usize, usize),
    pub destination: (usize, usize),
    pub promotion_request: Option<PieceKind>,
}

impl UserMove {
    /// The request to move from `origin` to `destination` with the given
    /// promotion choice.
    pub fn new(
        origin: (usize, usize),
        destination: (usize, usize),
        promotion_request: Option<PieceKind>,
    ) -> (user_move: UserMove)
        ensures
            user_move == (UserMove { origin, destination, promotion_request }),
    {
        UserMove { origin, destination, promotion_request }
    }
}

/// Origin and destination of a legal move.
#[derive(Clone, Copy, PartialEq, Eq, Debug)]
pub struct ValidMove {
    pub origin: (usize, usize),
    pub destination: (usize, usize),
}

/// A candidate move with the side effects that the generator tagged it with.
#[derive(Clone, Debug)]
pub struct Move {
    pub piece_move: UserMove,
    pub side_effects: Vec<SideEffect>,
}

/// The mathematical value of a [`Move`].
pub struct MoveView {
    pub origin: Square,
    pub destination: Square,
    pub promotion_request: Option<PieceKind>,
    pub side_effects: Seq<SideEffect>,
}

impl View for Move {
    type V = MoveView;

    open spec fn view(&self) -> MoveView {
        MoveView {
            origin: self.piece_move.origin,
            destination: self.piece_move.destination,
            promotion_request: self.piece_move.promotion_request,
            side_effects: self.side_effects@,
        }
    }
}

/// The values of a sequence of moves, in order.
pub open spec fn move_views(moves: Seq<Move>) -> Seq<MoveView> {
    Seq::new(moves.len(), |i: int| moves[i]@)
}

/// The move from `origin` to `destination` with the given tags and no
/// promotion choice, as the generator produces it.
pub open spec fn plain_move(
    origin: Square,
    destination: Square,
    side_effects: Seq<SideEffect>,
) -> MoveView {
    MoveView { origin, destination, promotion_request: None, side_effects }
}

/// Whether the squares that `effect` names are squares of the board.
pub open spec fn effect_on_board(effect: SideEffect) -> bool {
    match effect {
        SideEffect::EnPassantTake(sq) => on_board(sq),
        SideEffect::DoublePawnMove(sq) => on_board(sq),
        SideEffect::Castle(rook_origin, rook_destination, _) => on_board(rook_origin) && on_board(
            rook_destination,
        ),
        _ => true,
    }
}

impl MoveView {
    /// Every square that the move names is a square of the board.
    pub open spec fn wf(self) -> bool {
        &&& on_board(self.origin)
        &&& on_board(self.destination)
        &&& forall|i: int|
            0 <= i < self.side_effects.len() ==> effect_on_board(#[trigger] self.side_effects[i])
    }

    /// Whether the move carries the given tag.
    pub open spec fn has_effect(self, effect: SideEffect) -> bool {
        self.side_effects.contains(effect)
    }

    /// The same move with another promotion choice.
    pub open spec fn with_request(self, request: Option<PieceKind>) -> MoveView {
        MoveView { promotion_request: request, ..self }
    }
}

impl Move {
    /// The candidate move from `origin` to `destination` with the given tags and
    /// no promotion choice.
    pub fn new(
        origin: (usize, usize),
        destination: (usize, usize),
        side_effects: Vec<SideEffect>,
    ) -> (candidate: Move)
        ensures
            candidate@ == plain_move(origin, destination, side_effects@),
    {
        Move {
            piece_move: UserMove { origin, destination, promotion_request: None },
            side_effects,
        }
    }
}

/// How a game stands.
#[derive(Clone, Copy, PartialEq, Eq, Structural, Debug)]
pub enum GameStatus {
    Ongoing,
    /// Checkmate; holds the winner.
    Checkmate(Color),
    Draw,
}

/// What came of a request to move.
#[derive(Clone, PartialEq, Eq, Debug)]
pub enum MoveOutcome {
    /// The move is not among the legal moves; holds a message that names
    /// both squares.
    InvalidMove(String),
    /// The move promotes a pawn and the request names a king or a pawn.
    InvalidPromotion(PieceKind),
    /// The move promotes a pawn and the request names no piece.
    PromotionNotProvided,
    /// The game had ended before the request; holds how.
    GameIsOver(GameStatus),
    Success,
}

/// The mathematical value of a [`MoveOutcome`].
pub enum MoveOutcomeView {
    InvalidMove(Seq<char>),
    InvalidPromotion(PieceKind),
    PromotionNotProvided,
    GameIsOver(GameStatus),
    Success,
}

impl View for MoveOutcome {
    type V = MoveOutcomeView;

    open spec fn view(&self) -> MoveOutcomeView {
        match self {
            MoveOutcome::InvalidMove(message) => MoveOutcomeView::InvalidMove(message@),
            MoveOutcome::InvalidPromotion(kind) => MoveOutcomeView::InvalidPromotion(*kind),
            MoveOutcome::PromotionNotProvided => MoveOutcomeView::PromotionNotProvided,
            MoveOutcome::GameIsOver(status) => MoveOutcomeView::GameIsOver(*status),
            MoveOutcome::Success => MoveOutcomeView::Success,
        }
    }
}

} // verus!
