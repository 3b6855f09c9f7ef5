//! Attack maps, check detection, and the text form of a position's fields.

use vstd::prelude::*;
use vstd::string::{StrSliceExecFns, StringExecFns};
use crate::board::{grid_pieces, Board};
use crate::fen::{
    all_digits, castle_text, counter_digits, decimal_text, decimal_value, flag_text, gap_text,
    is_digit, letter_piece, parse_counter, parse_placement, parse_square, piece_letter,
    placement_text, rank_text, ranks_text, read_symbols, Cursor,
};
use crate::models::{
    move_views, on_board, CastleRights, Color, Move, MoveOutcome, MoveView, Piece, PieceKind,
    Square, UserMove,
};
use crate::moves::{
    bishop_moves, bishop_moves_spec, king_moves, king_moves_spec, knight_moves, knight_moves_spec,
    pawn_attacking_moves, pawn_attacking_moves_spec, queen_moves, queen_moves_spec, rook_moves,
    rook_moves_spec,
};
use crate::position::{carry_out, piece_on, Position};
use crate::rules::{exposes_king, find_move};

verus! {

/// The moves by which `piece` on `origin` attacks: the captures of a pawn,
/// never its advances, and the candidate moves of any other piece, castling
/// left out.
pub open spec fn attack_pattern(
    pieces: Map<Square, Piece>,
    en_passant: Option<Square>,
    piece: Piece,
    origin: Square,
) -> Seq<MoveView> {
    match piece.kind {
        PieceKind::King => king_moves_spec(pieces, piece.color, origin),
        PieceKind::Queen => queen_moves_spec(pieces, piece.color, origin),
        PieceKind::Rook => rook_moves_spec(pieces, piece.color, origin),
        PieceKind::Bishop => bishop_moves_spec(pieces, piece.color, origin),
        PieceKind::Knight => knight_moves_spec(pieces, piece.color, origin),
        PieceKind::Pawn => pawn_attacking_moves_spec(pieces, en_passant, piece.color, origin),
    }
}

/// Whether one of the first `count` moves of `moves` ends on `target`.
pub open spec fn reaches_within(moves: Seq<MoveView>, count: int, target: Square) -> bool {
    exists|i: int| 0 <= i < count && i < moves.len() && (#[trigger] moves[i]).destination == target
}

/// Whether one of `moves` ends on `target`.
pub open spec fn reaches(moves: Seq<MoveView>, target: Square) -> bool {
    reaches_within(moves, moves.len() as int, target)
}

/// Whether the piece on `origin` is an opponent of `defender` and attacks
/// `target`.
pub open spec fn attacks(
    pieces: Map<Square, Piece>,
    en_passant: Option<Square>,
    defender: Color,
    origin: Square,
    target: Square,
) -> bool {
    &&& on_board(origin)
    &&& piece_on(pieces, origin) matches Some(piece)
    &&& piece.color != defender
    &&& reaches(attack_pattern(pieces, en_passant, piece, origin), target)
}

/// The squares that the opponents of `defender` attack.
///
/// A square counts as attacked when a generated attacking move ends on it.
/// So a square that holds a piece of the attacker's own colour is never
/// attacked, and a pawn attacks a diagonal square only while an enemy piece
/// stands there or while it is the en-passant target.
pub open spec fn attacked_squares(
    pieces: Map<Square, Piece>,
    en_passant: Option<Square>,
    defender: Color,
) -> Set<Square> {
    Set::new(
        |target: Square|
            exists|origin: Square| attacks(pieces, en_passant, defender, origin, target),
    )
}

/// Whether `origin` comes before `(row, column)` when the board is walked
/// row by row, each row from column 0.
pub open spec fn precedes(origin: Square, row: int, column: int) -> bool {
    on_board(origin) && (origin.0 < row || (origin.0 == row && origin.1 < column))
}

/// Whether a piece on a square before `(row, column)` attacks `target`.
pub open spec fn attacked_before(
    pieces: Map<Square, Piece>,
    en_passant: Option<Square>,
    defender: Color,
    row: int,
    column: int,
    target: Square,
) -> bool {
    exists|origin: Square|
        precedes(origin, row, column) && attacks(pieces, en_passant, defender, origin, target)
}

/// One more move reaches what the moves before it reach, and its own
/// destination.
pub proof fn lemma_reaches_within_step(moves: Seq<MoveView>, count: int, target: Square)
    requires
        0 <= count < moves.len(),
    ensures
        reaches_within(moves, count + 1, target) <==> reaches_within(moves, count, target)
            || moves[count].destination == target,
{
    if reaches_within(moves, count + 1, target) {
        let i = choose|i: int|
            0 <= i < count + 1 && i < moves.len() && (#[trigger] moves[i]).destination == target;
        if i < count {
            assert(reaches_within(moves, count, target));
        }
    }
    if reaches_within(moves, count, target) {
        let i = choose|i: int|
            0 <= i < count && i < moves.len() && (#[trigger] moves[i]).destination == target;
        assert(reaches_within(moves, count + 1, target));
    }
    if moves[count].destination == target {
        assert(reaches_within(moves, count + 1, target));
    }
}

/// Whether `sq` is in `squares`.
pub fn contains_square(squares: &Vec<(usize, usize)>, sq: (usize, usize)) -> (found: bool)
    ensures
        found == squares@.contains(sq),
{
    for i in 0..squares.len()
        invariant
            forall|j: int| 0 <= j < i ==> squares@[j] != sq,
    {
        if squares[i].0 == sq.0 && squares[i].1 == sq.1 {
            return true;
        }
    }
    false
}

/// Adds `sq` to `squares` unless it is there.
fn insert_square(squares: &mut Vec<(usize, usize)>, sq: (usize, usize))
    requires
        old(squares)@.no_duplicates(),
    ensures
        final(squares)@.no_duplicates(),
        forall|other: Square|
            final(squares)@.contains(other) <==> old(squares)@.contains(other) || other == sq,
{
    if !contains_square(squares, sq) {
        squares.push(sq);
        assert forall|other: Square|
            squares@.contains(other) <==> old(squares)@.contains(other) || other == sq by {
            if old(squares)@.contains(other) {
                let i = choose|i: int| 0 <= i < old(squares)@.len() && old(squares)@[i] == other;
                assert(squares@[i] == other);
            }
            if other == sq {
                assert(squares@[squares@.len() - 1] == other);
            }
        }
    }
}

/// The attacking moves of `piece` on `origin`.
fn attacking_moves(board: &Board, piece: Piece, origin: (usize, usize)) -> (moves: Vec<Move>)
    requires
        on_board(origin),
    ensures
        move_views(moves@) == attack_pattern(board@.pieces, board@.en_passant, piece, origin),
{
    match piece.kind {
        PieceKind::King => king_moves(board, &piece.color, origin),
        PieceKind::Queen => queen_moves(board, &piece.color, origin),
        PieceKind::Rook => rook_moves(board, &piece.color, origin),
        PieceKind::Bishop => bishop_moves(board, &piece.color, origin),
        PieceKind::Knight => knight_moves(board, &piece.color, origin),
        PieceKind::Pawn => pawn_attacking_moves(board, &piece.color, origin),
    }
}

/// The squares that the opponents of `player_turn` attack, each once.
pub fn get_attacked_squares(board: &Board, player_turn: Color) -> (attacked: Vec<(usize, usize)>)
    ensures
        attacked@.no_duplicates(),
        attacked@.to_set() == attacked_squares(board@.pieces, board@.en_passant, player_turn),
{
    let mut found: Vec<(usize, usize)> = Vec::new();
    for row in 0..8usize
        invariant
            found@.no_duplicates(),
            forall|target: Square|
                found@.contains(target) <==> attacked_before(
                    board@.pieces,
 board@.en_passant,
                    player_turn,
                    row as int,
                    0,
                    target,
                ),
    {
        for column in 0..8usize
            invariant
                row < 8,
                found@.no_duplicates(),
                forall|target: Square|
                    found@.contains(target) <==> attacked_before(
                        board@.pieces,
 board@.en_passant,
                        player_turn,
                        row as int,
                        column as int,
                        target,
                    ),
        {
            let ghost here: Square = (row, column);
            let ghost previous = found@;
            let mut attacker: Option<Piece> = None;
            if let Some(piece) = board.board[row][column] {
                if piece.color != player_turn {
                    attacker = Some(piece);
                }
            }
            if let Some(piece) = attacker {
                let moves = attacking_moves(board, piece, (row, column));
                let mut k: usize = 0;
                while k < moves.len()
                    invariant
                        k <= moves.len(),
                        found@.no_duplicates(),
                        move_views(moves@) == attack_pattern(board@.pieces, board@.en_passant, piece, here),
                        forall|target: Square|
                            #![trigger found@.contains(target)]
                            found@.contains(target) <==> previous.contains(target)
                                || reaches_within(move_views(moves@), k as int, target),
                    decreases moves.len() - k,
                {
                    let ghost earlier = found@;
                    insert_square(&mut found, moves[k].piece_move.destination);
                    proof {
                        let views = move_views(moves@);
                        assert(views[k as int].destination == moves[k as int].piece_move.destination);
                        assert forall|target: Square|
                            #![trigger found@.contains(target)]
                            found@.contains(target) <==> previous.contains(target)
                                || reaches_within(views, k + 1, target) by {
                            lemma_reaches_within_step(views, k as int, target);
                            assert(earlier.contains(target) <==> previous.contains(target)
                                || reaches_within(views, k as int, target));
                        }
                    }
                    k += 1;
                }
            }
            assert forall|target: Square|
                found@.contains(target) <==> attacked_before(
                    board@.pieces,
 board@.en_passant,
                    player_turn,
                    row as int,
                    column + 1,
                    target,
                ) by {
                let pos = board@;
                assert(pos.at(here) == board.board[row as int][column as int]);
                let from_here = attacks(pos.pieces,
 pos.en_passant, player_turn, here, target);
                assert(found@.contains(target) <==> previous.contains(target)
                    || from_here);
                if attacked_before(pos.pieces, pos.en_passant, player_turn, row as int, column + 1, target) {
                    let origin = choose|origin: Square|
                        precedes(origin, row as int, column + 1) && attacks(
                            pos.pieces,
 pos.en_passant,
                            player_turn,
                            origin,
                            target,
                        );
                    if origin != here {
                        assert(precedes(origin, row as int, column as int));
                    }
                }
                if attacked_before(pos.pieces, pos.en_passant, player_turn, row as int, column as int, target) {
                    let origin = choose|origin: Square|
                        precedes(origin, row as int, column as int) && attacks(
                            pos.pieces,
 pos.en_passant,
                            player_turn,
                            origin,
                            target,
                        );
                    assert(precedes(origin, row as int, column + 1));
                }
                if from_here {
                    assert(precedes(here, row as int, column + 1));
                }
            }
        }
        assert forall|target: Square|
            attacked_before(board@.pieces,
 board@.en_passant, player_turn, row as int, 8, target) <==> attacked_before(
                board@.pieces,
 board@.en_passant,
                player_turn,
                row + 1,
                0,
                target,
            ) by {
            let pos = board@;
            if attacked_before(pos.pieces, pos.en_passant, player_turn, row as int, 8, target) {
                let origin = choose|origin: Square|
                    precedes(origin, row as int, 8) && attacks(pos.pieces,
 pos.en_passant, player_turn, origin, target);
                assert(precedes(origin, row + 1, 0));
            }
            if attacked_before(pos.pieces, pos.en_passant, player_turn, row + 1, 0, target) {
                let origin = choose|origin: Square|
                    precedes(origin, row + 1, 0) && attacks(pos.pieces,
 pos.en_passant, player_turn, origin, target);
                assert(precedes(origin, row as int, 8));
            }
        }
    }
    assert forall|target: Square|
        found@.contains(target) <==> attacked_squares(board@.pieces, board@.en_passant, player_turn).contains(
            target,
        ) by {
        let pos = board@;
        if attacked_before(pos.pieces, pos.en_passant, player_turn, 8, 0, target) {
            let origin = choose|origin: Square|
                precedes(origin, 8, 0) && attacks(pos.pieces,
 pos.en_passant, player_turn, origin, target);
            assert(attacks(pos.pieces,
 pos.en_passant, player_turn, origin, target));
        }
        if attacked_squares(pos.pieces, pos.en_passant, player_turn).contains(target) {
            let origin = choose|origin: Square| attacks(pos.pieces,
 pos.en_passant, player_turn, origin, target);
            assert(precedes(origin, 8, 0));
        }
    }
    assert(found@.to_set() =~= attacked_squares(board@.pieces, board@.en_passant, player_turn));
    found
}

/// Whether the king of `color` stands on `sq`.
pub open spec fn is_king_of(pieces: Map<Square, Piece>, color: Color, sq: Square) -> bool {
    piece_on(pieces, sq) == Some(Piece { kind: PieceKind::King, color })
}

/// The first square that holds the king of `color`, when the board is walked
/// row by row from `(row, column)` on; `(0, 0)` where none does.
pub open spec fn king_square_from(
    pieces: Map<Square, Piece>,
    color: Color,
    row: int,
    column: int,
) -> Square
    decreases 8 - row, 8 - column,
{
    if row >= 8 || row < 0 || column < 0 {
        (0, 0)
    } else if column >= 8 {
        king_square_from(pieces, color, row + 1, 0)
    } else if is_king_of(pieces, color, (row as usize, column as usize)) {
        (row as usize, column as usize)
    } else {
        king_square_from(pieces, color, row, column + 1)
    }
}

/// The square of the king of `color`: the first one that holds such a king,
/// row by row from `(0, 0)`; `(0, 0)` where the board holds none.
pub open spec fn king_square(pieces: Map<Square, Piece>, color: Color) -> Square {
    king_square_from(pieces, color, 0, 0)
}

/// Whether the side to move is attacked on its king's square.
pub open spec fn in_check(pos: Position) -> bool {
    attacked_squares(pos.pieces, pos.en_passant, pos.turn).contains(king_square(pos.pieces, pos.turn))
}

/// The square of the king of `color`: the first that holds one, row by row
/// from `(0, 0)`; `(0, 0)` where `board` holds none.
pub fn get_king_square(board: [[Option<Piece>; 8]; 8], color: &Color) -> (sq: (usize, usize))
    ensures
        sq == king_square(grid_pieces(board), *color),
        on_board(sq),
{
    for row in 0..8usize
        invariant
            king_square(grid_pieces(board), *color) == king_square_from(
                grid_pieces(board),
                *color,
                row as int,
                0,
            ),
    {
        for column in 0..8usize
            invariant
                row < 8,
                king_square(grid_pieces(board), *color) == king_square_from(
                    grid_pieces(board),
                    *color,
                    row as int,
                    column as int,
                ),
        {
            if let Some(piece) = board[row][column] {
                if piece.kind == PieceKind::King && piece.color == *color {
                    return (row, column);
                }
            }
        }
    }
    (0, 0)
}

/// Whether an opponent attacks the square of the king of the side to move.
pub fn is_checked(board: &Board) -> (checked: bool)
    ensures
        checked == in_check(board@),
{
    let attacked_squares = get_attacked_squares(board, board.player_turn);
    let king_square = get_king_square(board.board, &board.player_turn);
    contains_square(&attacked_squares, king_square)
}

/// Whether `simulated_move`, made on `board`, leaves the mover's king
/// attacked. The move is tried on a copy, with a queen for its promotion
/// choice.
pub fn move_causes_check_on_self(mut board: Board, simulated_move: &Move) -> (exposed: bool)
    requires
        simulated_move@.wf(),
    ensures
        exposed == exposes_king(board@, simulated_move@),
{
    board.carry_out(simulated_move, Some(PieceKind::Queen));
    is_checked(&board)
}

/// The letter of the file `column`, in lower case.
pub open spec fn file_letter(column: usize) -> char {
    (97 + column) as char
}

/// The digit of the rank `row`: '1' for row 0.
pub open spec fn rank_digit(row: usize) -> char {
    (49 + row) as char
}

/// The text of an optional square: the file's letter and the rank's digit,
/// or a hyphen for none.
pub open spec fn square_text(tuple: Option<Square>) -> Seq<char> {
    match tuple {
        Some(sq) => seq![file_letter(sq.1), rank_digit(sq.0)],
        None => seq!['-'],
    }
}

/// The name of a square as messages show it: the file's letter in upper case
/// and the rank's digit; two question marks for what is no square of the
/// board.
pub open spec fn square_label(sq: Square) -> Seq<char> {
    if on_board(sq) {
        seq![(65 + sq.1) as char, rank_digit(sq.0)]
    } else {
        seq!['?', '?']
    }
}

/// The message for a request that no legal move answers.
pub open spec fn invalid_move_text(origin: Square, destination: Square) -> Seq<char> {
    square_label(origin) + " to "@ + square_label(destination) + " is not a valid move."@
}

/// `String::push` of the standard library: it appends the character to the
/// end of the string and leaves what was there as it was.
pub assume_specification[ String::push ](text: &mut String, c: char)
    ensures
        final(text)@ == old(text)@.push(c),
;

/// The text of an optional square: the letter of its file and the digit of
/// its rank, or a hyphen for none.
pub fn tuple_to_square(tuple: Option<(usize, usize)>) -> (text: String)
    requires
        tuple matches Some(sq) ==> on_board(sq),
    ensures
        text@ == square_text(tuple),
{
    match tuple {
        Some(t) => {
            let mut square = String::new();
            let row: char = (t.0 as u8 + 49) as char;
            let column: char = (t.1 as u8 + 97) as char;
            square.push(column);
            square.push(row);
            assert(square@ =~= square_text(tuple));
            square
        },
        None => {
            proof {
                reveal_strlit("-");
            }
            let text = String::from_str("-");
            assert(text@ =~= square_text(tuple));
            text
        },
    }
}

/// Appends the label of `sq` to `text`.
fn push_square_label(text: &mut String, sq: (usize, usize))
    ensures
        final(text)@ == old(text)@ + square_label(sq),
{
    if sq.0 < 8 && sq.1 < 8 {
        text.push((sq.1 as u8 + 65) as char);
        text.push((sq.0 as u8 + 49) as char);
    } else {
        text.push('?');
        text.push('?');
    }
    assert(text@ =~= old(text)@ + square_label(sq));
}

/// The message for a request that no legal move answers.
fn invalid_move_message(origin: (usize, usize), destination: (usize, usize)) -> (message: String)
    ensures
        message@ == invalid_move_text(origin, destination),
{
    let mut message = String::new();
    push_square_label(&mut message, origin);
    message.append(" to ");
    push_square_label(&mut message, destination);
    message.append(" is not a valid move.");
    assert(message@ =~= invalid_move_text(origin, destination));
    message
}

/// The first move of `move_vec` that goes from the origin of `move_struct` to
/// its destination; the message that names both squares where there is none.
pub fn get_move_from_vec(move_vec: Vec<Move>, move_struct: &UserMove) -> (found: Result<
    Move,
    MoveOutcome,
>)
    ensures
        match find_move(move_views(move_vec@), move_struct.origin, move_struct.destination) {
            Some(first) => found matches Ok(m) && m@ == first,
            None => found matches Err(MoveOutcome::InvalidMove(message)) && message@
                == invalid_move_text(move_struct.origin, move_struct.destination),
        },
{
    let ghost all = move_views(move_vec@);
    let ghost wanted = find_move(all, move_struct.origin, move_struct.destination);
    assert(all.skip(0) =~= all);
    for m in it: move_vec
        invariant
            move_views(it.seq()) == all,
            wanted == find_move(all, move_struct.origin, move_struct.destination),
            all == move_views(move_vec@),
            wanted == find_move(
                all.skip(it.index() as int),
                move_struct.origin,
                move_struct.destination,
            ),
    {
        proof {
            let rest = all.skip(it.index() as int);
            assert(rest.len() > 0);
            assert(rest.first() == m@);
            assert(m@.origin == m.piece_move.origin);
            assert(m@.destination == m.piece_move.destination);
            assert(rest.drop_first() =~= all.skip(it.index() + 1));
        }
        if m.piece_move.origin.0 == move_struct.origin.0 && m.piece_move.origin.1
            == move_struct.origin.1 && m.piece_move.destination.0 == move_struct.destination.0
            && m.piece_move.destination.1 == move_struct.destination.1 {
            return Ok(m);
        }
    }
    Err(MoveOutcome::InvalidMove(invalid_move_message(move_struct.origin, move_struct.destination)))
}

/// The letter of `piece`.
fn letter_of(piece: Piece) -> (c: char)
    ensures
        c == piece_letter(piece),
{
    match piece.color {
        Color::White => match piece.kind {
            PieceKind::King => 'K',
            PieceKind::Queen => 'Q',
            PieceKind::Rook => 'R',
            PieceKind::Bishop => 'B',
            PieceKind::Knight => 'N',
            PieceKind::Pawn => 'P',
        },
        Color::Black => match piece.kind {
            PieceKind::King => 'k',
            PieceKind::Queen => 'q',
            PieceKind::Rook => 'r',
            PieceKind::Bishop => 'b',
            PieceKind::Knight => 'n',
            PieceKind::Pawn => 'p',
        },
    }
}

/// The placement field of `board`: the eighth rank first, the ranks parted
/// by slashes, each run of empty squares written as its length.
pub fn board_to_fen(board: [[Option<Piece>; 8]; 8]) -> (fen: String)
    ensures
        fen@ == placement_text(grid_pieces(board)),
{
    let ghost pieces = grid_pieces(board);
    let mut fen = String::new();
    assert(fen@ + ranks_text(pieces, 7) =~= placement_text(pieces));
    for i in 0..8usize
        invariant
            pieces == grid_pieces(board),
            i < 8 ==> fen@ + ranks_text(pieces, 7 - i) == placement_text(pieces),
            i == 8 ==> fen@ == placement_text(pieces),
    {
        let row: usize = 7 - i;
        let ghost start = fen@;
        let mut num_empty_squares: u8 = 0;
        assert(fen@ + rank_text(pieces, row as int, 0, 0) =~= start + rank_text(
            pieces,
            row as int,
            0,
            0,
        ));
        for column in 0..8usize
            invariant
                pieces == grid_pieces(board),
                row < 8,
                num_empty_squares <= column,
                fen@ + rank_text(pieces, row as int, column as int, num_empty_squares as int)
                    == start + rank_text(pieces, row as int, 0, 0),
        {
            let ghost before = fen@;
            let ghost gap = num_empty_squares as int;
            assert(piece_on(pieces, (row, column)) == board[row as int][column as int]);
            match board[row][column] {
                Some(piece) => {
                    if num_empty_squares != 0 {
                        fen.push((48 + num_empty_squares) as char);
                        num_empty_squares = 0;
                    }
                    fen.push(letter_of(piece));
                    assert(fen@ =~= before + gap_text(gap) + seq![piece_letter(piece)]);
                    assert(fen@ + rank_text(pieces, row as int, column + 1, 0) =~= before
                        + rank_text(pieces, row as int, column as int, gap));
                },
                None => num_empty_squares += 1,
            }
        }
        if num_empty_squares != 0 {
            fen.push((48 + num_empty_squares) as char);
        }
        assert(fen@ =~= start + rank_text(pieces, row as int, 0, 0));
        if i != 7 {
            fen.push('/');
            assert(fen@ + ranks_text(pieces, row - 1) =~= start + ranks_text(pieces, row as int));
        }
    }
    fen
}

/// The castling field of `castle_rights`.
pub fn castle_rights_to_fen(castle_rights: &CastleRights) -> (fen: String)
    ensures
        fen@ == castle_text(*castle_rights),
{
    let mut fen = String::new();
    let mut empty = true;
    if castle_rights.white_king_side {
        fen.push('K');
        empty = false;
    }
    if castle_rights.white_queen_side {
        fen.push('Q');
        empty = false;
    }
    if castle_rights.black_king_side {
        fen.push('k');
        empty = false;
    }
    if castle_rights.black_queen_side {
        fen.push('q');
        empty = false;
    }
    let ghost letters = flag_text(castle_rights.white_king_side, 'K') + flag_text(
        castle_rights.white_queen_side,
        'Q',
    ) + flag_text(castle_rights.black_king_side, 'k') + flag_text(
        castle_rights.black_queen_side,
        'q',
    );
    assert(fen@ =~= letters);
    assert(empty == (letters.len() == 0));
    if empty {
        fen.push('-');
        assert(fen@ =~= seq!['-']);
        return fen;
    }
    fen
}

/// Appends the decimal digits of `n` to `text`.
pub(crate) fn push_decimal(text: &mut String, n: usize)
    ensures
        final(text)@ == old(text)@ + decimal_text(n as nat),
    decreases n,
{
    if n >= 10 {
        push_decimal(text, n / 10);
    }
    let digit: u8 = (n % 10) as u8;
    text.push((48 + digit) as char);
    assert(text@ =~= old(text)@ + decimal_text(n as nat));
}

/// The text of the error that `square_to_tuple` gives.
pub open spec fn invalid_input_text() -> Seq<char> {
    "Invalid Input"@
}

/// The square that `square` starts with: a file letter, in either case, and
/// a rank digit from 1 to 8. What follows the two is not read.
pub fn square_to_tuple(square: &str) -> (tuple: Result<(usize, usize), String>)
    ensures
        match parse_square(square@) {
            Some(sq) => tuple == Ok::<(usize, usize), String>(sq),
            None => tuple matches Err(message) && message@ == invalid_input_text(),
        },
        tuple matches Ok(sq) ==> on_board(sq),
{
    if square.unicode_len() < 2 {
        return Err(String::from_str("Invalid Input"));
    }
    let file = square.get_char(0);
    let rank = square.get_char(1);
    let column: usize = if file >= 'a' && file <= 'h' {
        (file as u8 - 97) as usize
    } else if file >= 'A' && file <= 'H' {
        (file as u8 - 65) as usize
    } else {
        return Err(String::from_str("Invalid Input"));
    };
    if rank >= '1' && rank <= '8' {
        let row: usize = (rank as u8 - 49) as usize;
        Ok((row, column))
    } else {
        Err(String::from_str("Invalid Input"))
    }
}

/// The en-passant target that the field `square` names: none where the
/// field names no square.
pub fn parse_en_passant_fen(square: &str) -> (target: Option<(usize, usize)>)
    ensures
        target == parse_square(square@),
        target matches Some(sq) ==> on_board(sq),
{
    match square_to_tuple(square) {
        Ok(tuple) => Some(tuple),
        _ => None,
    }
}

/// The piece that the letter `c` stands for.
fn piece_of(c: char) -> (piece: Option<Piece>)
    ensures
        piece == letter_piece(c),
{
    match c {
        'r' => Some(Piece::new(PieceKind::Rook, Color::Black)),
        'R' => Some(Piece::new(PieceKind::Rook, Color::White)),
        'n' => Some(Piece::new(PieceKind::Knight, Color::Black)),
        'N' => Some(Piece::new(PieceKind::Knight, Color::White)),
        'b' => Some(Piece::new(PieceKind::Bishop, Color::Black)),
        'B' => Some(Piece::new(PieceKind::Bishop, Color::White)),
        'q' => Some(Piece::new(PieceKind::Queen, Color::Black)),
        'Q' => Some(Piece::new(PieceKind::Queen, Color::White)),
        'k' => Some(Piece::new(PieceKind::King, Color::Black)),
        'K' => Some(Piece::new(PieceKind::King, Color::White)),
        'p' => Some(Piece::new(PieceKind::Pawn, Color::Black)),
        'P' => Some(Piece::new(PieceKind::Pawn, Color::White)),
        _ => None,
    }
}

/// Puts the pieces of the placement field `fen` onto `board` and says
/// whether the field describes eight ranks of eight squares each. Where it
/// does not, `board` is left as it was.
pub fn populate_board_from_fen(board: &mut [[Option<Piece>; 8]; 8], fen: &str) -> (placed: bool)
    ensures
        match parse_placement(grid_pieces(*old(board)), fen@) {
            Some(pieces) => placed && grid_pieces(*final(board)) == pieces,
            None => !placed && *final(board) == *old(board),
        },
{
    let mut grid: [[Option<Piece>; 8]; 8] = *board;
    let mut rank: usize = 0;
    let mut column: usize = 0;
    let ghost first = Cursor { pieces: grid_pieces(*board), rank: 0, column: 0 };
    let ghost whole = read_symbols(first, fen@);
    assert(fen@.skip(0) =~= fen@);
    for c in it: fen.chars()
        invariant
            *board == *old(board),
            it.seq() == fen@,
            whole == read_symbols(first, fen@),
            first == (Cursor { pieces: grid_pieces(*old(board)), rank: 0, column: 0 }),
            rank <= 7,
            column <= 8,
            whole == read_symbols(
                Cursor { pieces: grid_pieces(grid), rank: rank as int, column: column as int },
                fen@.skip(it.index() as int),
            ),
    {
        let ghost cursor = Cursor {
            pieces: grid_pieces(grid),
            rank: rank as int,
            column: column as int,
        };
        proof {
            let rest = fen@.skip(it.index() as int);
            assert(rest.len() > 0);
            assert(rest.first() == c);
            assert(rest.drop_first() =~= fen@.skip(it.index() + 1));
        }
        if let Some(piece) = piece_of(c) {
            if column >= 8 {
                return false;
            }
            let row: usize = 7 - rank;
            grid[row][column] = Some(piece);
            assert(grid_pieces(grid) =~= cursor.pieces.insert((row, column), piece));
            column += 1;
        } else if c >= '1' && c <= '8' {
            let run: usize = (c as u8 - 48) as usize;
            if column + run > 8 {
                return false;
            }
            column += run;
        } else if c == '/' {
            if column != 8 || rank >= 7 {
                return false;
            }
            column = 0;
            rank += 1;
        } else {
            return false;
        }
    }
    assert(fen@.skip(fen@.len() as int) =~= Seq::<char>::empty());
    if rank == 7 && column == 8 {
        *board = grid;
        true
    } else {
        false
    }
}

/// The counter that the field `text` writes: one or more decimal digits,
/// after a plus sign or none; none where the number does not fit.
pub fn parse_counter_field(text: &str) -> (counter: Option<usize>)
    ensures
        counter == parse_counter(text@),
{
    let ghost digits = counter_digits(text@);
    let ghost lead: int = text@.len() - digits.len();
    let mut value: usize = 0;
    let mut count: usize = 0;
    let mut signed = false;
    let mut at_start = true;
    let length = text.unicode_len();
    for c in it: text.chars()
        invariant
            it.seq() == text@,
            length == text@.len(),
            at_start == (it.index() == 0),
            digits == counter_digits(text@),
            lead == text@.len() - digits.len(),
            lead == 0 || lead == 1,
            it.index() == 0 ==> !signed && count == 0,
            it.index() > 0 ==> count + lead == it.index(),
            signed ==> lead == 1,
            (it.index() > 0 && lead == 1) ==> signed,
            count <= digits.len(),
            all_digits(digits.take(count as int)),
            value == decimal_value(digits.take(count as int)),
    {
        if at_start && c == '+' {
            signed = true;
            at_start = false;
            assert(digits.take(0) =~= Seq::<char>::empty());
        } else {
            at_start = false;
            proof {
                assert(text@[it.index() as int] == c);
                assert(digits[count as int] == c);
                let upto = digits.take(count + 1);
                assert(upto.drop_last() =~= digits.take(count as int));
                assert(upto.last() == c);
            }
            if !(c >= '0' && c <= '9') {
                assert(!all_digits(digits));
                return None;
            }
            let digit: usize = (c as u8 - 48) as usize;
            if value > (usize::MAX - digit) / 10 {
                proof {
                    if all_digits(digits) {
                        lemma_decimal_value_grows(digits, count + 1);
                    }
                }
                return None;
            }
            value = value * 10 + digit;
            count += 1;
        }
    }
    assert(digits.take(digits.len() as int) =~= digits);
    if count == 0 {
        None
    } else {
        Some(value)
    }
}

/// The number that decimal digits write is no smaller than the number that
/// any of their beginnings writes.
pub proof fn lemma_decimal_value_grows(digits: Seq<char>, count: int)
    requires
        0 <= count <= digits.len(),
        all_digits(digits),
    ensures
        decimal_value(digits.take(count)) <= decimal_value(digits),
    decreases digits.len(),
{
    if count == digits.len() {
        assert(digits.take(count) =~= digits);
    } else {
        assert(all_digits(digits.drop_last())) by {
            assert forall|i: int| 0 <= i < digits.drop_last().len() implies is_digit(
                #[trigger] digits.drop_last()[i],
            ) by {
                assert(digits.drop_last()[i] == digits[i]);
            }
        }
        lemma_decimal_value_grows(digits.drop_last(), count);
        assert(digits.drop_last().take(count) =~= digits.take(count));
        assert(is_digit(digits[digits.len() - 1]));
    }
}

} // verus!
