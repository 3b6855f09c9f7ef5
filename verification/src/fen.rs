//! The text record of a position, field by field: what the export writes
//! and what the import reads.
//!
//! A record has six fields, each parted from the next by one space: the
//! placement of the pieces, from the eighth rank down to the first, the ranks
//! parted by slashes; the side to move; the castling rights; the en-passant
//! target; the half-move clock; the number of the full move.

use vstd::prelude::*;
use crate::helpers::square_text;
use crate::models::{square, CastleRights, Color, Piece, PieceKind, Square};
use crate::position::{piece_on, Position};

verus! {

/// The letter of a piece: upper case for White, lower case for Black.
pub open spec fn piece_letter(piece: Piece) -> char {
    match piece.color {
        Color::White => match piece.kind {
            PieceKind::King => 'K',
            PieceKind::Queen => 'Q',
            PieceKind::Rook => 'R',
            PieceKind::Bishop => 'B',
            PieceKind::Knight => 'N',
            PieceKind::Pawn => 'P',
        },
        Color::Black => match piece.kind {
            PieceKind::King => 'k',
            PieceKind::Queen => 'q',
            PieceKind::Rook => 'r',
            PieceKind::Bishop => 'b',
            PieceKind::Knight => 'n',
            PieceKind::Pawn => 'p',
        },
    }
}

/// The piece that a letter stands for.
pub open spec fn letter_piece(c: char) -> Option<Piece> {
    if c == 'K' {
        Some(Piece { kind: PieceKind::King, color: Color::White })
    } else if c == 'Q' {
        Some(Piece { kind: PieceKind::Queen, color: Color::White })
    } else if c == 'R' {
        Some(Piece { kind: PieceKind::Rook, color: Color::White })
    } else if c == 'B' {
        Some(Piece { kind: PieceKind::Bishop, color: Color::White })
    } else if c == 'N' {
        Some(Piece { kind: PieceKind::Knight, color: Color::White })
    } else if c == 'P' {
        Some(Piece { kind: PieceKind::Pawn, color: Color::White })
    } else if c == 'k' {
        Some(Piece { kind: PieceKind::King, color: Color::Black })
    } else if c == 'q' {
        Some(Piece { kind: PieceKind::Queen, color: Color::Black })
    } else if c == 'r' {
        Some(Piece { kind: PieceKind::Rook, color: Color::Black })
    } else if c == 'b' {
        Some(Piece { kind: PieceKind::Bishop, color: Color::Black })
    } else if c == 'n' {
        Some(Piece { kind: PieceKind::Knight, color: Color::Black })
    } else if c == 'p' {
        Some(Piece { kind: PieceKind::Pawn, color: Color::Black })
    } else {
        None
    }
}

/// The character of the digit `d`.
pub open spec fn digit_char(d: int) -> char {
    (48 + d) as char
}

/// The text for `gap` empty squares in a row: their number, or nothing for
/// none.
pub open spec fn gap_text(gap: int) -> Seq<char> {
    if gap > 0 {
        seq![digit_char(gap)]
    } else {
        Seq::empty()
    }
}

/// The text of the row `row` from the column `column` on, after `gap` empty
/// squares that are not written yet.
pub open spec fn rank_text(pieces: Map<Square, Piece>, row: int, column: int, gap: int) -> Seq<
    char,
>
    decreases 8 - column,
{
    if column >= 8 {
        gap_text(gap)
    } else {
        match piece_on(pieces, (row as usize, column as usize)) {
            Some(piece) => gap_text(gap) + seq![piece_letter(piece)] + rank_text(
                pieces,
                row,
                column + 1,
                0,
            ),
            None => rank_text(pieces, row, column + 1, gap + 1),
        }
    }
}

/// The text of the rows from `row` down to row 0, parted by slashes.
pub open spec fn ranks_text(pieces: Map<Square, Piece>, row: int) -> Seq<char>
    decreases row,
{
    if row <= 0 {
        rank_text(pieces, 0, 0, 0)
    } else {
        rank_text(pieces, row, 0, 0) + seq!['/'] + ranks_text(pieces, row - 1)
    }
}

/// The placement field: the eighth rank first.
pub open spec fn placement_text(pieces: Map<Square, Piece>) -> Seq<char> {
    ranks_text(pieces, 7)
}

/// The field of the side to move.
pub open spec fn turn_text(turn: Color) -> Seq<char> {
    match turn {
        Color::White => seq!['w'],
        Color::Black => seq!['b'],
    }
}

/// The letter `c` where `held` is true, nothing where it is not.
pub open spec fn flag_text(held: bool, c: char) -> Seq<char> {
    if held {
        seq![c]
    } else {
        Seq::empty()
    }
}

/// The castling field: the letters of the rights held, in the order `KQkq`;
/// a hyphen where none is held.
pub open spec fn castle_text(rights: CastleRights) -> Seq<char> {
    let letters = flag_text(rights.white_king_side, 'K') + flag_text(rights.white_queen_side, 'Q')
        + flag_text(rights.black_king_side, 'k') + flag_text(rights.black_queen_side, 'q');
    if letters.len() == 0 {
        seq!['-']
    } else {
        letters
    }
}

/// The decimal digits of `n`, without leading zeros.
pub open spec fn decimal_text(n: nat) -> Seq<char>
    decreases n,
{
    if n < 10 {
        seq![digit_char(n as int)]
    } else {
        decimal_text(n / 10).push(digit_char((n % 10) as int))
    }
}

/// The record of a position.
pub open spec fn fen_text(pos: Position) -> Seq<char> {
    placement_text(pos.pieces) + seq![' '] + turn_text(pos.turn) + seq![' '] + castle_text(
        pos.castle_rights,
    ) + seq![' '] + square_text(pos.en_passant) + seq![' '] + decimal_text(pos.half_moves)
        + seq![' '] + decimal_text(pos.moves)
}

/// Where the reading of a placement field stands: the pieces placed so far,
/// the number of ranks finished, and the column that the next symbol
/// speaks of.
pub struct Cursor {
    pub pieces: Map<Square, Piece>,
    pub rank: int,
    pub column: int,
}

/// Whether `c` is one of the digits `1` to `8`.
pub open spec fn is_run_digit(c: char) -> bool {
    '1' <= c && c <= '8'
}

/// The reading of one symbol of a placement field. A letter puts its piece
/// on the square at hand; a digit from 1 to 8 passes over that many squares;
/// a slash closes a rank of eight squares, unless it is the last. A symbol
/// that leads beyond the eighth square of a rank is no reading, nor is any
/// other character.
pub open spec fn read_symbol(cursor: Cursor, c: char) -> Option<Cursor> {
    if letter_piece(c) is Some {
        if cursor.column < 8 {
            Some(
                Cursor {
                    pieces: cursor.pieces.insert(
                        square(7 - cursor.rank, cursor.column),
                        letter_piece(c).unwrap(),
                    ),
                    column: cursor.column + 1,
                    ..cursor
                },
            )
        } else {
            None
        }
    } else if is_run_digit(c) {
        if cursor.column + (c as int - 48) <= 8 {
            Some(Cursor { column: cursor.column + (c as int - 48), ..cursor })
        } else {
            None
        }
    } else if c == '/' {
        if cursor.column == 8 && cursor.rank < 7 {
            Some(Cursor { rank: cursor.rank + 1, column: 0, ..cursor })
        } else {
            None
        }
    } else {
        None
    }
}

/// The reading of the symbols of `text`, one after the other.
pub open spec fn read_symbols(cursor: Cursor, text: Seq<char>) -> Option<Cursor>
    decreases text.len(),
{
    if text.len() == 0 {
        Some(cursor)
    } else {
        match read_symbol(cursor, text.first()) {
            Some(next) => read_symbols(next, text.drop_first()),
            None => None,
        }
    }
}

/// The pieces that the placement field `text` puts onto `onto`: none unless
/// the field describes eight ranks of eight squares each.
pub open spec fn parse_placement(onto: Map<Square, Piece>, text: Seq<char>) -> Option<
    Map<Square, Piece>,
> {
    match read_symbols(Cursor { pieces: onto, rank: 0, column: 0 }, text) {
        Some(cursor) => if cursor.rank == 7 && cursor.column == 8 {
            Some(cursor.pieces)
        } else {
            None
        },
        None => None,
    }
}

/// The side to move that the field `text` names.
pub open spec fn parse_turn(text: Seq<char>) -> Option<Color> {
    if text == seq!['w'] {
        Some(Color::White)
    } else if text == seq!['b'] {
        Some(Color::Black)
    } else {
        None
    }
}

/// The castling rights that the letters of `text` add to `rights`. The
/// reading ends at the first hyphen; any character but `K`, `Q`, `k`, `q`
/// before it is no reading.
pub open spec fn read_rights(rights: CastleRights, text: Seq<char>) -> Option<CastleRights>
    decreases text.len(),
{
    if text.len() == 0 {
        Some(rights)
    } else if text.first() == 'q' {
        read_rights(CastleRights { black_queen_side: true, ..rights }, text.drop_first())
    } else if text.first() == 'Q' {
        read_rights(CastleRights { white_queen_side: true, ..rights }, text.drop_first())
    } else if text.first() == 'k' {
        read_rights(CastleRights { black_king_side: true, ..rights }, text.drop_first())
    } else if text.first() == 'K' {
        read_rights(CastleRights { white_king_side: true, ..rights }, text.drop_first())
    } else if text.first() == '-' {
        Some(rights)
    } else {
        None
    }
}

/// No castling right.
pub open spec fn no_rights() -> CastleRights {
    CastleRights {
        white_queen_side: false,
        white_king_side: false,
        black_queen_side: false,
        black_king_side: false,
    }
}

/// The castling rights that the field `text` names.
pub open spec fn parse_rights(text: Seq<char>) -> Option<CastleRights> {
    read_rights(no_rights(), text)
}

/// The column that the file letter `c` names, in either case.
pub open spec fn file_column(c: char) -> Option<usize> {
    if 'a' <= c && c <= 'h' {
        Some((c as int - 97) as usize)
    } else if 'A' <= c && c <= 'H' {
        Some((c as int - 65) as usize)
    } else {
        None
    }
}

/// The square that `text` starts with: a file letter and a rank digit.
/// Whatever follows them is not read.
pub open spec fn parse_square(text: Seq<char>) -> Option<Square> {
    if text.len() >= 2 && file_column(text[0]) is Some && is_run_digit(text[1]) {
        Some(((text[1] as int - 49) as usize, file_column(text[0]).unwrap()))
    } else {
        None
    }
}

/// Whether `c` is a decimal digit.
pub open spec fn is_digit(c: char) -> bool {
    '0' <= c && c <= '9'
}

/// Whether `text` holds decimal digits only.
pub open spec fn all_digits(text: Seq<char>) -> bool {
    forall|i: int| 0 <= i < text.len() ==> is_digit(#[trigger] text[i])
}

/// The number that the decimal digits `digits` write.
pub open spec fn decimal_value(digits: Seq<char>) -> nat
    decreases digits.len(),
{
    if digits.len() == 0 {
        0
    } else {
        (decimal_value(digits.drop_last()) * 10 + (digits.last() as int - 48)) as nat
    }
}

/// The digits of a counter field: the field without a leading plus sign.
pub open spec fn counter_digits(text: Seq<char>) -> Seq<char> {
    if text.len() > 0 && text.first() == '+' {
        text.drop_first()
    } else {
        text
    }
}

/// The counter that the field `text` writes: one or more decimal digits,
/// after a plus sign or none, whose number fits the machine's word.
pub open spec fn parse_counter(text: Seq<char>) -> Option<usize> {
    let digits = counter_digits(text);
    if digits.len() > 0 && all_digits(digits) && decimal_value(digits) <= usize::MAX {
        Some(decimal_value(digits) as usize)
    } else {
        None
    }
}

/// The place of the first space in `text`; the length of `text` where it
/// holds none.
pub open spec fn first_space(text: Seq<char>) -> int
    decreases text.len(),
{
    if text.len() == 0 || text.first() == ' ' {
        0
    } else {
        1 + first_space(text.drop_first())
    }
}

/// The field number `n` of `text`, counted from 0, where fields are parted
/// by single spaces; none where `text` has fewer fields.
pub open spec fn field(text: Seq<char>, n: nat) -> Option<Seq<char>>
    decreases n,
{
    if n == 0 {
        Some(text.take(first_space(text)))
    } else if first_space(text) >= text.len() {
        None
    } else {
        field(text.skip(first_space(text) + 1), (n - 1) as nat)
    }
}

/// The position that the record `text` describes: none unless `text` has
/// six fields or more, a placement of eight ranks of eight squares, `w` or
/// `b` for the side to move, castling letters, and two counters. A fourth
/// field that names no square stands for no en-passant target; fields after
/// the sixth are not read.
pub open spec fn parse_fen(text: Seq<char>) -> Option<Position> {
    if field(text, 5) is None {
        None
    } else {
        let pieces = parse_placement(Map::empty(), field(text, 0).unwrap());
        let turn = parse_turn(field(text, 1).unwrap());
        let castle_rights = parse_rights(field(text, 2).unwrap());
        let en_passant = parse_square(field(text, 3).unwrap());
        let half_moves = parse_counter(field(text, 4).unwrap());
        let moves = parse_counter(field(text, 5).unwrap());
        if pieces is Some && turn is Some && castle_rights is Some && half_moves is Some
            && moves is Some {
            Some(
                Position {
                    pieces: pieces.unwrap(),
                    turn: turn.unwrap(),
                    castle_rights: castle_rights.unwrap(),
                    en_passant,
                    half_moves: half_moves.unwrap() as nat,
                    moves: moves.unwrap() as nat,
                },
            )
        } else {
            None
        }
    }
}

} // verus!
