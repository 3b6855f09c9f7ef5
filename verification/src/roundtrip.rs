//! The record that the export writes is read back as the position that it
//! was written from.

use vstd::prelude::*;
use crate::fen::{
    all_digits, castle_text, counter_digits, decimal_text, decimal_value, digit_char, fen_text,
    field, file_column, first_space, flag_text, gap_text, is_digit, is_run_digit, letter_piece,
    no_rights, parse_counter, parse_fen, parse_placement, parse_rights, parse_square, parse_turn,
    piece_letter, placement_text, rank_text, ranks_text, read_rights, read_symbol, read_symbols,
    turn_text, Cursor,
};
use crate::helpers::square_text;
use crate::models::{on_board, square, CastleRights, Color, Piece, Square};
use crate::position::{piece_on, Position};

verus! {

/// Whether `text` holds no space.
pub open spec fn no_space(text: Seq<char>) -> bool {
    forall|i: int| 0 <= i < text.len() ==> #[trigger] text[i] != ' '
}

/// Whether `sq` is read before `(row, column)` when the board is read as the
/// placement field writes it: the eighth rank first, each rank from the
/// a-file.
pub open spec fn read_before(sq: Square, row: int, column: int) -> bool {
    on_board(sq) && (sq.0 > row || (sq.0 == row && sq.1 < column))
}

/// Those of `pieces` that are read before `(row, column)`.
pub open spec fn pieces_before(pieces: Map<Square, Piece>, row: int, column: int) -> Map<
    Square,
    Piece,
> {
    Map::new(
        |sq: Square| pieces.dom().contains(sq) && read_before(sq, row, column),
        |sq: Square| pieces[sq],
    )
}

/// A letter is read back as the piece that it was written for, and is no
/// digit, slash or space.
pub proof fn lemma_letter_reads_back(piece: Piece)
    ensures
        letter_piece(piece_letter(piece)) == Some(piece),
        !is_run_digit(piece_letter(piece)),
        piece_letter(piece) != '/',
        piece_letter(piece) != ' ',
{
}

/// Reading one text after another is reading the second from where the
/// first has led.
pub proof fn lemma_read_symbols_append(cursor: Cursor, first: Seq<char>, second: Seq<char>)
    ensures
        read_symbols(cursor, first + second) == match read_symbols(cursor, first) {
            Some(next) => read_symbols(next, second),
            None => None,
        },
    decreases first.len(),
{
    if first.len() == 0 {
        assert(first + second =~= second);
    } else {
        let whole = first + second;
        assert(whole.first() == first.first());
        assert(whole.drop_first() =~= first.drop_first() + second);
        if let Some(next) = read_symbol(cursor, first.first()) {
            lemma_read_symbols_append(next, first.drop_first(), second);
        }
    }
}

/// Reading a single symbol.
pub proof fn lemma_read_one_symbol(cursor: Cursor, c: char)
    ensures
        read_symbols(cursor, seq![c]) == read_symbol(cursor, c),
{
    let text = seq![c];
    assert(text.first() == c);
    assert(text.drop_first() =~= Seq::<char>::empty());
    if let Some(next) = read_symbol(cursor, c) {
        assert(read_symbols(next, text.drop_first()) == Some(next));
    }
}

/// The run of `gap` empty squares is read back as `gap` squares passed
/// over.
pub proof fn lemma_gap_reads_back(cursor: Cursor, gap: int)
    requires
        0 <= gap,
        0 <= cursor.column,
        cursor.column + gap <= 8,
    ensures
        read_symbols(cursor, gap_text(gap)) == Some(
            Cursor { column: cursor.column + gap, ..cursor },
        ),
        no_space(gap_text(gap)),
{
    if gap > 0 {
        let c = digit_char(gap);
        assert(c as int == 48 + gap);
        assert(is_run_digit(c));
        assert(letter_piece(c) is None);
        lemma_read_one_symbol(cursor, c);
    }
}

/// The text of a rank, from any column on, is read back as the pieces of
/// that rank, and ends on the eighth square.
pub proof fn lemma_rank_reads_back(
    pieces: Map<Square, Piece>,
    row: int,
    column: int,
    gap: int,
    cursor: Cursor,
)
    requires
        0 <= row < 8,
        0 <= gap <= column <= 8,
        cursor.rank == 7 - row,
        cursor.column == column - gap,
        cursor.pieces == pieces_before(pieces, row, column),
    ensures
        read_symbols(cursor, rank_text(pieces, row, column, gap)) == Some(
            Cursor { pieces: pieces_before(pieces, row, 8), rank: 7 - row, column: 8 },
        ),
        no_space(rank_text(pieces, row, column, gap)),
    decreases 8 - column,
{
    if column >= 8 {
        lemma_gap_reads_back(cursor, gap);
    } else {
        let here: Square = (row as usize, column as usize);
        match piece_on(pieces, here) {
            Some(piece) => {
                let letter = piece_letter(piece);
                let rest = rank_text(pieces, row, column + 1, 0);
                lemma_letter_reads_back(piece);
                lemma_gap_reads_back(cursor, gap);
                let after_gap = Cursor { column: column, ..cursor };
                lemma_read_one_symbol(after_gap, letter);
                let after_piece = Cursor {
                    pieces: cursor.pieces.insert(here, piece),
                    rank: 7 - row,
                    column: column + 1,
                };
                assert(square(7 - after_gap.rank, after_gap.column) == here);
                assert(read_symbol(after_gap, letter) == Some(after_piece));
                assert(after_piece.pieces =~= pieces_before(pieces, row, column + 1));
                lemma_rank_reads_back(pieces, row, column + 1, 0, after_piece);
                lemma_read_symbols_append(cursor, gap_text(gap), seq![letter]);
                lemma_read_symbols_append(cursor, gap_text(gap) + seq![letter], rest);
            },
            None => {
                assert(pieces_before(pieces, row, column + 1) =~= pieces_before(
                    pieces,
                    row,
                    column,
                ));
                lemma_rank_reads_back(pieces, row, column + 1, gap + 1, cursor);
            },
        }
    }
}

/// The text of the ranks from `row` down is read back as their pieces, and
/// ends on the eighth square of the first rank.
pub proof fn lemma_ranks_read_back(pieces: Map<Square, Piece>, row: int, cursor: Cursor)
    requires
        0 <= row < 8,
        cursor.rank == 7 - row,
        cursor.column == 0,
        cursor.pieces == pieces_before(pieces, row, 0),
    ensures
        read_symbols(cursor, ranks_text(pieces, row)) == Some(
            Cursor { pieces: pieces_before(pieces, 0, 8), rank: 7, column: 8 },
        ),
        no_space(ranks_text(pieces, row)),
    decreases row,
{
    lemma_rank_reads_back(pieces, row, 0, 0, cursor);
    if row > 0 {
        let rank = rank_text(pieces, row, 0, 0);
        let rest = ranks_text(pieces, row - 1);
        let at_end = Cursor { pieces: pieces_before(pieces, row, 8), rank: 7 - row, column: 8 };
        let next = Cursor { pieces: pieces_before(pieces, row - 1, 0), rank: 8 - row, column: 0 };
        assert(pieces_before(pieces, row, 8) =~= pieces_before(pieces, row - 1, 0));
        assert(letter_piece('/') is None);
        assert(read_symbol(at_end, '/') == Some(next));
        lemma_read_one_symbol(at_end, '/');
        lemma_ranks_read_back(pieces, row - 1, next);
        lemma_read_symbols_append(cursor, rank, seq!['/']);
        lemma_read_symbols_append(cursor, rank + seq!['/'], rest);
    }
}

/// The placement field is read back as the pieces that it was written for.
pub proof fn lemma_placement_reads_back(pieces: Map<Square, Piece>)
    requires
        forall|sq: Square| #[trigger] pieces.dom().contains(sq) ==> on_board(sq),
    ensures
        parse_placement(Map::empty(), placement_text(pieces)) == Some(pieces),
        no_space(placement_text(pieces)),
{
    let cursor = Cursor { pieces: Map::empty(), rank: 0, column: 0 };
    assert(cursor.pieces =~= pieces_before(pieces, 7, 0));
    lemma_ranks_read_back(pieces, 7, cursor);
    assert forall|sq: Square| pieces.dom().contains(sq) implies read_before(sq, 0, 8) by {
        assert(on_board(sq));
    }
    assert(pieces_before(pieces, 0, 8) =~= pieces);
}

/// The field of the side to move is read back as that side.
pub proof fn lemma_turn_reads_back(turn: Color)
    ensures
        parse_turn(turn_text(turn)) == Some(turn),
        no_space(turn_text(turn)),
{
    assert(seq!['w'][0] == 'w');
    assert(seq!['b'][0] == 'b');
    assert(seq!['w'] != seq!['b']) by {
        if seq!['w'] == seq!['b'] {
            assert(seq!['w'][0] == seq!['b'][0]);
        }
    }
}

/// The rights `rights` with the one that the letter `c` names.
pub open spec fn with_right(rights: CastleRights, c: char) -> CastleRights {
    if c == 'K' {
        CastleRights { white_king_side: true, ..rights }
    } else if c == 'Q' {
        CastleRights { white_queen_side: true, ..rights }
    } else if c == 'k' {
        CastleRights { black_king_side: true, ..rights }
    } else {
        CastleRights { black_queen_side: true, ..rights }
    }
}

/// A castling letter, where it is written, is read as its right.
pub proof fn lemma_flag_reads_back(rights: CastleRights, held: bool, c: char, rest: Seq<char>)
    requires
        c == 'K' || c == 'Q' || c == 'k' || c == 'q',
    ensures
        read_rights(rights, flag_text(held, c) + rest) == read_rights(
            if held {
                with_right(rights, c)
            } else {
                rights
            },
            rest,
        ),
{
    if held {
        let text = flag_text(held, c) + rest;
        assert(text.first() == c);
        assert(text.drop_first() =~= rest);
    } else {
        assert(flag_text(held, c) + rest =~= rest);
    }
}

/// The castling field is read back as the rights that it was written for.
pub proof fn lemma_rights_read_back(rights: CastleRights)
    ensures
        parse_rights(castle_text(rights)) == Some(rights),
        no_space(castle_text(rights)),
{
    let k = flag_text(rights.white_king_side, 'K');
    let q = flag_text(rights.white_queen_side, 'Q');
    let bk = flag_text(rights.black_king_side, 'k');
    let bq = flag_text(rights.black_queen_side, 'q');
    let letters = k + q + bk + bq;
    let none = Seq::<char>::empty();
    if letters.len() == 0 {
        let text = seq!['-'];
        assert(text.first() == '-');
        assert(rights == no_rights());
    } else {
        assert(letters =~= k + (q + (bk + (bq + none))));
        let r0 = no_rights();
        let r1 = if rights.white_king_side {
            with_right(r0, 'K')
        } else {
            r0
        };
        let r2 = if rights.white_queen_side {
            with_right(r1, 'Q')
        } else {
            r1
        };
        let r3 = if rights.black_king_side {
            with_right(r2, 'k')
        } else {
            r2
        };
        let r4 = if rights.black_queen_side {
            with_right(r3, 'q')
        } else {
            r3
        };
        lemma_flag_reads_back(r0, rights.white_king_side, 'K', q + (bk + (bq + none)));
        lemma_flag_reads_back(r1, rights.white_queen_side, 'Q', bk + (bq + none));
        lemma_flag_reads_back(r2, rights.black_king_side, 'k', bq + none);
        lemma_flag_reads_back(r3, rights.black_queen_side, 'q', none);
        assert(read_rights(r4, none) == Some(r4));
        assert(r4 == rights);
    }
}

/// The en-passant field is read back as the target that it was written for.
pub proof fn lemma_square_reads_back(target: Option<Square>)
    requires
        target matches Some(sq) ==> on_board(sq),
    ensures
        parse_square(square_text(target)) == target,
        no_space(square_text(target)),
{
    match target {
        Some(sq) => {
            let text = square_text(target);
            assert(text[0] as int == 97 + sq.1);
            assert(text[1] as int == 49 + sq.0);
            assert(file_column(text[0]) == Some(sq.1));
        },
        None => {
            assert(square_text(target).len() == 1);
        },
    }
}

/// The decimal digits of a number are digits, and write that number.
pub proof fn lemma_decimal_reads_back(n: nat)
    ensures
        decimal_text(n).len() > 0,
        all_digits(decimal_text(n)),
        decimal_value(decimal_text(n)) == n,
        no_space(decimal_text(n)),
    decreases n,
{
    if n < 10 {
        let text = decimal_text(n);
        assert(text.drop_last() =~= Seq::<char>::empty());
        assert(text.last() == digit_char(n as int));
        assert(decimal_value(text.drop_last()) == 0);
    } else {
        lemma_decimal_reads_back(n / 10);
        let front = decimal_text(n / 10);
        let text = decimal_text(n);
        assert(text.drop_last() =~= front);
        assert(text.last() == digit_char((n % 10) as int));
        assert forall|i: int| 0 <= i < text.len() implies is_digit(#[trigger] text[i]) by {
            if i < front.len() {
                assert(text[i] == front[i]);
            }
        }
        assert forall|i: int| 0 <= i < text.len() implies #[trigger] text[i] != ' ' by {
            if i < front.len() {
                assert(text[i] == front[i]);
            }
        }
    }
}

/// A counter field is read back as the counter that it was written for.
pub proof fn lemma_counter_reads_back(n: nat)
    requires
        n <= usize::MAX,
    ensures
        parse_counter(decimal_text(n)) == Some(n as usize),
        no_space(decimal_text(n)),
{
    lemma_decimal_reads_back(n);
    let text = decimal_text(n);
    assert(is_digit(text[0]));
    assert(text.first() != '+');
    assert(counter_digits(text) == text);
}

/// A text without a space is its own first field.
pub proof fn lemma_first_space_none(text: Seq<char>)
    requires
        no_space(text),
    ensures
        first_space(text) == text.len(),
    decreases text.len(),
{
    if text.len() > 0 {
        assert(text[0] != ' ');
        assert forall|i: int| 0 <= i < text.drop_first().len() implies #[trigger] text.drop_first()[i]
            != ' ' by {
            assert(text.drop_first()[i] == text[i + 1]);
        }
        lemma_first_space_none(text.drop_first());
    }
}

/// The first space of a text that starts with a field and a space comes
/// right after the field.
pub proof fn lemma_first_space_joined(head: Seq<char>, rest: Seq<char>)
    requires
        no_space(head),
    ensures
        first_space(head + seq![' '] + rest) == head.len(),
    decreases head.len(),
{
    let text = head + seq![' '] + rest;
    if head.len() == 0 {
        assert(text.first() == ' ');
    } else {
        assert(text.first() == head[0]);
        assert(head[0] != ' ');
        assert(text.drop_first() =~= head.drop_first() + seq![' '] + rest);
        assert forall|i: int| 0 <= i < head.drop_first().len() implies #[trigger] head.drop_first()[i]
            != ' ' by {
            assert(head.drop_first()[i] == head[i + 1]);
        }
        lemma_first_space_joined(head.drop_first(), rest);
    }
}

/// Of a field, a space and more text, the first field is that field, and
/// every later field is a field of the rest.
pub proof fn lemma_fields_joined(head: Seq<char>, rest: Seq<char>, n: nat)
    requires
        no_space(head),
    ensures
        field(head + seq![' '] + rest, 0) == Some(head),
        field(head + seq![' '] + rest, n + 1) == field(rest, n),
{
    let text = head + seq![' '] + rest;
    lemma_first_space_joined(head, rest);
    assert(text.take(head.len() as int) =~= head);
    assert(text.skip(head.len() as int + 1) =~= rest);
}

/// Six fields without spaces, joined by single spaces.
pub open spec fn joined(
    f0: Seq<char>,
    f1: Seq<char>,
    f2: Seq<char>,
    f3: Seq<char>,
    f4: Seq<char>,
    f5: Seq<char>,
) -> Seq<char> {
    f0 + seq![' '] + f1 + seq![' '] + f2 + seq![' '] + f3 + seq![' '] + f4 + seq![' '] + f5
}

/// Six fields without spaces, joined by single spaces, are found again as
/// the six fields of the text.
pub proof fn lemma_joined_fields(
    f0: Seq<char>,
    f1: Seq<char>,
    f2: Seq<char>,
    f3: Seq<char>,
    f4: Seq<char>,
    f5: Seq<char>,
)
    requires
        no_space(f0),
        no_space(f1),
        no_space(f2),
        no_space(f3),
        no_space(f4),
        no_space(f5),
    ensures
        field(joined(f0, f1, f2, f3, f4, f5), 0) == Some(f0),
        field(joined(f0, f1, f2, f3, f4, f5), 1) == Some(f1),
        field(joined(f0, f1, f2, f3, f4, f5), 2) == Some(f2),
        field(joined(f0, f1, f2, f3, f4, f5), 3) == Some(f3),
        field(joined(f0, f1, f2, f3, f4, f5), 4) == Some(f4),
        field(joined(f0, f1, f2, f3, f4, f5), 5) == Some(f5),
{
    let space = seq![' '];
    let t5 = f5;
    let t4 = f4 + space + t5;
    let t3 = f3 + space + t4;
    let t2 = f2 + space + t3;
    let t1 = f1 + space + t2;
    let t0 = f0 + space + t1;
    assert(joined(f0, f1, f2, f3, f4, f5) =~= t0);
    lemma_first_space_none(f5);
    assert(f5.take(f5.len() as int) =~= f5);
    assert(field(t5, 0) == Some(f5));
    lemma_fields_joined(f4, t5, 0);
    assert(field(t4, 0) == Some(f4) && field(t4, 1) == Some(f5));
    lemma_fields_joined(f3, t4, 0);
    lemma_fields_joined(f3, t4, 1);
    assert(field(t3, 0) == Some(f3) && field(t3, 1) == Some(f4) && field(t3, 2) == Some(f5));
    lemma_fields_joined(f2, t3, 0);
    lemma_fields_joined(f2, t3, 1);
    lemma_fields_joined(f2, t3, 2);
    assert(field(t2, 0) == Some(f2) && field(t2, 1) == Some(f3) && field(t2, 2) == Some(f4)
        && field(t2, 3) == Some(f5));
    lemma_fields_joined(f1, t2, 0);
    lemma_fields_joined(f1, t2, 1);
    lemma_fields_joined(f1, t2, 2);
    lemma_fields_joined(f1, t2, 3);
    assert(field(t1, 0) == Some(f1) && field(t1, 1) == Some(f2) && field(t1, 2) == Some(f3)
        && field(t1, 3) == Some(f4) && field(t1, 4) == Some(f5));
    lemma_fields_joined(f0, t1, 0);
    lemma_fields_joined(f0, t1, 1);
    lemma_fields_joined(f0, t1, 2);
    lemma_fields_joined(f0, t1, 3);
    lemma_fields_joined(f0, t1, 4);
}

/// The record of a well-formed position is read back as that position.
pub proof fn law_record_reads_back(pos: Position)
    requires
        pos.wf(),
    ensures
        parse_fen(fen_text(pos)) == Some(pos),
{
    let f0 = placement_text(pos.pieces);
    let f1 = turn_text(pos.turn);
    let f2 = castle_text(pos.castle_rights);
    let f3 = square_text(pos.en_passant);
    let f4 = decimal_text(pos.half_moves);
    let f5 = decimal_text(pos.moves);
    let text = fen_text(pos);
    assert(text == joined(f0, f1, f2, f3, f4, f5));
    lemma_placement_reads_back(pos.pieces);
    lemma_turn_reads_back(pos.turn);
    lemma_rights_read_back(pos.castle_rights);
    lemma_square_reads_back(pos.en_passant);
    lemma_counter_reads_back(pos.half_moves);
    lemma_counter_reads_back(pos.moves);
    lemma_joined_fields(f0, f1, f2, f3, f4, f5);
    let parsed = parse_fen(text).unwrap();
    assert(parsed.pieces == pos.pieces);
    assert(parsed.half_moves == pos.half_moves);
    assert(parsed.moves == pos.moves);
}

/// Round trip: writing a position, reading the record and writing again
/// gives the first record.
pub proof fn law_record_round_trip(pos: Position)
    requires
        pos.wf(),
    ensures
        parse_fen(fen_text(pos)) is Some,
        fen_text(parse_fen(fen_text(pos)).unwrap()) == fen_text(pos),
{
    law_record_reads_back(pos);
}

} // verus!
