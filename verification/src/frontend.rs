//! What a front end needs besides the rules: the picture of a board as
//! text, and the reading of a typed move.

use vstd::prelude::*;
use vstd::string::{StrSliceExecFns, StringExecFns};
use crate::board::Board;
use crate::fen::parse_square;
use crate::helpers::{invalid_input_text, square_to_tuple};
use crate::models::{Color, Piece, PieceKind, UserMove};

verus! {

/// The figurine of a piece.
pub open spec fn piece_symbol(piece: Piece) -> char {
    match piece.color {
        Color::White => match piece.kind {
            PieceKind::King => '\u{2654}',
            PieceKind::Queen => '\u{2655}',
            PieceKind::Rook => '\u{2656}',
            PieceKind::Bishop => '\u{2657}',
            PieceKind::Knight => '\u{2658}',
            PieceKind::Pawn => '\u{2659}',
        },
        Color::Black => match piece.kind {
            PieceKind::King => '\u{265A}',
            PieceKind::Queen => '\u{265B}',
            PieceKind::Rook => '\u{265C}',
            PieceKind::Bishop => '\u{265D}',
            PieceKind::Knight => '\u{265E}',
            PieceKind::Pawn => '\u{265F}',
        },
    }
}

/// The figurine of `piece`.
pub fn piece_char_symbol(piece: &Piece) -> (symbol: char)
    ensures
        symbol == piece_symbol(*piece),
{
    match piece.color {
        Color::White => match piece.kind {
            PieceKind::King => '\u{2654}',
            PieceKind::Queen => '\u{2655}',
            PieceKind::Rook => '\u{2656}',
            PieceKind::Bishop => '\u{2657}',
            PieceKind::Knight => '\u{2658}',
            PieceKind::Pawn => '\u{2659}',
        },
        Color::Black => match piece.kind {
            PieceKind::King => '\u{265A}',
            PieceKind::Queen => '\u{265B}',
            PieceKind::Rook => '\u{265C}',
            PieceKind::Bishop => '\u{265D}',
            PieceKind::Knight => '\u{265E}',
            PieceKind::Pawn => '\u{265F}',
        },
    }
}

/// What the picture shows on a square: the figurine of its piece, or a
/// centred dot.
pub open spec fn square_symbol(content: Option<Piece>) -> char {
    match content {
        Some(piece) => piece_symbol(piece),
        None => '\u{00B7}',
    }
}

/// The cells of the row `row` from the column `column` on: each a symbol
/// between two spaces.
pub open spec fn row_cells(board: Board, row: int, column: int) -> Seq<char>
    decreases 8 - column,
{
    if column >= 8 || column < 0 {
        Seq::empty()
    } else {
        seq![' ', square_symbol(board.board[row][column]), ' '] + row_cells(board, row, column + 1)
    }
}

/// The line of the row `row`: its number between two spaces, its cells, and
/// a line feed.
pub open spec fn row_line(board: Board, row: int) -> Seq<char> {
    seq![' ', (49 + row) as char, ' '] + row_cells(board, row, 0) + seq!['\n']
}

/// The lines of the rows from `row` down to row 0.
pub open spec fn row_lines(board: Board, row: int) -> Seq<char>
    decreases row + 1,
{
    if row < 0 {
        Seq::empty()
    } else {
        row_line(board, row) + row_lines(board, row - 1)
    }
}

/// The line of file letters under the picture.
pub open spec fn files_line() -> Seq<char> {
    "    A  B  C  D  E  F  G  H \n"@
}

/// The picture of a board: the eighth rank on top, the file letters below.
pub open spec fn board_picture(board: Board) -> Seq<char> {
    row_lines(board, 7) + files_line()
}

/// The picture of `board` as text.
pub fn render(board: &Board) -> (picture: String)
    ensures
        picture@ == board_picture(*board),
{
    let mut picture = String::new();
    assert(picture@ + row_lines(*board, 7) =~= row_lines(*board, 7));
    for i in 0..8usize
        invariant
            picture@ + row_lines(*board, 7 - i) == row_lines(*board, 7),
    {
        let row: usize = 7 - i;
        let ghost start = picture@;
        picture.push(' ');
        picture.push((49 + row as u8) as char);
        picture.push(' ');
        assert(picture@ + row_cells(*board, row as int, 0) =~= start + seq![
            ' ',
            (49 + row) as char,
            ' ',
        ] + row_cells(*board, row as int, 0));
        for column in 0..8usize
            invariant
                row < 8,
                picture@ + row_cells(*board, row as int, column as int) == start + seq![
                    ' ',
                    (49 + row) as char,
                    ' ',
                ] + row_cells(*board, row as int, 0),
        {
            let ghost before = picture@;
            let c = match &board.board[row][column] {
                Some(piece) => piece_char_symbol(piece),
                None => '\u{00B7}',
            };
            picture.push(' ');
            picture.push(c);
            picture.push(' ');
            assert(picture@ + row_cells(*board, row as int, column + 1) =~= before + row_cells(
                *board,
                row as int,
                column as int,
            ));
        }
        picture.push('\n');
        assert(picture@ + row_lines(*board, row - 1) =~= start + row_lines(*board, row as int));
    }
    picture.append("    A  B  C  D  E  F  G  H \n");
    assert(picture@ =~= board_picture(*board));
    picture
}

/// Whether `c` is white space, as Unicode defines it.
pub open spec fn is_white_space(c: char) -> bool {
    let code = c as int;
    (0x09 <= code <= 0x0D) || code == 0x20 || code == 0x85 || code == 0xA0 || code == 0x1680 || (
    0x2000 <= code <= 0x200A) || code == 0x2028 || code == 0x2029 || code == 0x202F || code
        == 0x205F || code == 0x3000
}

/// `text` without the white space that it starts with.
pub open spec fn trim_start(text: Seq<char>) -> Seq<char>
    decreases text.len(),
{
    if text.len() > 0 && is_white_space(text.first()) {
        trim_start(text.drop_first())
    } else {
        text
    }
}

/// The piece that the first letter of `text` asks for, in either case: `q`
/// a queen, `r` a rook, `b` a bishop, `n` a knight; none for anything else.
pub open spec fn promotion_choice(text: Seq<char>) -> Option<PieceKind> {
    if text.len() == 0 {
        None
    } else if text.first() == 'q' || text.first() == 'Q' {
        Some(PieceKind::Queen)
    } else if text.first() == 'r' || text.first() == 'R' {
        Some(PieceKind::Rook)
    } else if text.first() == 'b' || text.first() == 'B' {
        Some(PieceKind::Bishop)
    } else if text.first() == 'n' || text.first() == 'N' {
        Some(PieceKind::Knight)
    } else {
        None
    }
}

/// The move that the words `inputs` ask for. Two words are the origin and
/// the destination, each read after the white space that it starts with.
/// Three words are the origin, the destination and the promotion choice.
/// Any other number of words, or a word that names no square where one is
/// due, asks for nothing.
pub open spec fn move_request(inputs: Seq<&str>) -> Option<UserMove> {
    if inputs.len() == 2 {
        match (parse_square(trim_start(inputs[0]@)), parse_square(trim_start(inputs[1]@))) {
            (Some(origin), Some(destination)) => Some(
                UserMove { origin, destination, promotion_request: None },
            ),
            _ => None,
        }
    } else if inputs.len() == 3 {
        match (parse_square(inputs[0]@), parse_square(inputs[1]@)) {
            (Some(origin), Some(destination)) => Some(
                UserMove { origin, destination, promotion_request: promotion_choice(inputs[2]@) },
            ),
            _ => None,
        }
    } else {
        None
    }
}

fn white_space(c: char) -> (white: bool)
    ensures
        white == is_white_space(c),
{
    let code = c as u32;
    (0x09 <= code && code <= 0x0D) || code == 0x20 || code == 0x85 || code == 0xA0 || code
        == 0x1680 || (0x2000 <= code && code <= 0x200A) || code == 0x2028 || code == 0x2029
        || code == 0x202F || code == 0x205F || code == 0x3000
}

/// The square that `word` names after the white space that it starts with.
fn square_after_space(word: &str) -> (tuple: Result<(usize, usize), String>)
    ensures
        match parse_square(trim_start(word@)) {
            Some(sq) => tuple == Ok::<(usize, usize), String>(sq),
            None => tuple matches Err(message) && message@ == invalid_input_text(),
        },
{
    let length = word.unicode_len();
    let mut start: usize = 0;
    assert(word@.skip(0) =~= word@);
    while start < length && white_space(word.get_char(start))
        invariant
            length == word@.len(),
            start <= length,
            trim_start(word@) == trim_start(word@.skip(start as int)),
        decreases length - start,
    {
        proof {
            let rest = word@.skip(start as int);
            assert(rest.first() == word@[start as int]);
            assert(rest.drop_first() =~= word@.skip(start + 1));
        }
        start += 1;
    }
    proof {
        let rest = word@.skip(start as int);
        if start < length {
            assert(rest.first() == word@[start as int]);
        }
        assert(trim_start(rest) == rest);
        assert(rest =~= word@.subrange(start as int, length as int));
    }
    square_to_tuple(word.substring_char(start, length))
}

/// The promotion choice that `word` asks for.
fn choice_of(word: &str) -> (choice: Option<PieceKind>)
    ensures
        choice == promotion_choice(word@),
{
    if word.unicode_len() == 0 {
        return None;
    }
    match word.get_char(0) {
        'q' | 'Q' => Some(PieceKind::Queen),
        'r' | 'R' => Some(PieceKind::Rook),
        'b' | 'B' => Some(PieceKind::Bishop),
        'n' | 'N' => Some(PieceKind::Knight),
        _ => None,
    }
}

/// The move that the words `inputs` ask for.
pub fn handle_move_input(inputs: &Vec<&str>) -> (request: Result<UserMove, String>)
    ensures
        match move_request(inputs@) {
            Some(user_move) => request == Ok::<UserMove, String>(user_move),
            None => request matches Err(message) && message@ == invalid_input_text(),
        },
{
    if inputs.len() == 2 {
        let origin = match square_after_space(inputs[0]) {
            Ok(tuple) => tuple,
            Err(error) => {
                return Err(error);
            },
        };
        let destination = match square_after_space(inputs[1]) {
            Ok(tuple) => tuple,
            Err(error) => {
                return Err(error);
            },
        };
        Ok(UserMove { origin, destination, promotion_request: None })
    } else if inputs.len() == 3 {
        let origin = match square_to_tuple(inputs[0]) {
            Ok(tuple) => tuple,
            Err(error) => {
                return Err(error);
            },
        };
        let destination = match square_to_tuple(inputs[1]) {
            Ok(tuple) => tuple,
            Err(error) => {
                return Err(error);
            },
        };
        let promotion_request = choice_of(inputs[2]);
        Ok(UserMove { origin, destination, promotion_request })
    } else {
        Err(String::from_str("Invalid Input"))
    }
}

} // verus!
