//! Reading a position from its text record and writing it back.

use vstd::prelude::*;
use vstd::string::{StrSliceExecFns, StringExecFns};
use crate::board::Board;
use crate::fen::{fen_text, field, first_space, parse_fen};
use crate::helpers::{
    board_to_fen, castle_rights_to_fen, parse_counter_field, parse_en_passant_fen,
    populate_board_from_fen, push_decimal, tuple_to_square,
};
use crate::models::{CastleRights, Color};

verus! {

/// The field after the first is the first field of what follows the first
/// space.
pub proof fn lemma_field_after_space(text: Seq<char>, n: nat)
    requires
        first_space(text) < text.len(),
    ensures
        field(text, n + 1) == field(text.skip(first_space(text) + 1), n),
{
}

/// The characters of `text`, one by one.
fn characters(text: &str) -> (chars: Vec<char>)
    ensures
        chars@ == text@,
{
    let mut chars: Vec<char> = Vec::new();
    for c in it: text.chars()
        invariant
            it.seq() == text@,
            chars@.len() == it.index(),
            forall|i: int| 0 <= i < chars@.len() ==> chars@[i] == text@[i],
    {
        chars.push(c);
    }
    assert(chars@ =~= text@);
    chars
}

/// The end of the field that starts at `start`: the place of the next space,
/// or the end of the text.
fn field_end(chars: &Vec<char>, start: usize) -> (end: usize)
    requires
        start <= chars@.len(),
    ensures
        start <= end <= chars@.len(),
        end - start == first_space(chars@.skip(start as int)),
{
    let mut end = start;
    while end < chars.len() && chars[end] != ' '
        invariant
            start <= end <= chars@.len(),
            first_space(chars@.skip(start as int)) == (end - start) + first_space(
                chars@.skip(end as int),
            ),
        decreases chars@.len() - end,
    {
        proof {
            let rest = chars@.skip(end as int);
            assert(rest.first() == chars@[end as int]);
            assert(rest.drop_first() =~= chars@.skip(end + 1));
        }
        end += 1;
    }
    proof {
        let rest = chars@.skip(end as int);
        if end < chars@.len() {
            assert(rest.first() == chars@[end as int]);
        }
    }
    end
}

impl Board {
    /// The position that the record `fen` describes; none unless the record
    /// has six fields or more, a placement of eight ranks of eight squares,
    /// `w` or `b` for the side to move, castling letters, and two counters
    /// that fit the machine's word. A fourth field that names no square
    /// stands for no en-passant target.
    pub fn from_fen(fen: &str) -> (parsed: Option<Board>)
        ensures
            match parse_fen(fen@) {
                Some(pos) => parsed matches Some(board) && board@ == pos && board.wf(),
                None => parsed is None,
            },
    {
        let chars = characters(fen);
        let mut bounds: Vec<(usize, usize)> = Vec::new();
        let mut start: usize = 0;
        assert(fen@.skip(0) =~= fen@);
        for k in 0..6usize
            invariant
                chars@ == fen@,
                start <= fen@.len(),
                bounds@.len() == k,
                forall|j: int|
                    0 <= j < k ==> (#[trigger] bounds@[j]).0 <= bounds@[j].1 <= fen@.len()
                        && field(fen@, j as nat) == Some(
                        fen@.subrange(bounds@[j].0 as int, bounds@[j].1 as int),
                    ),
                forall|n: nat|
                    k < 6 ==> field(fen@, k as nat + n) == #[trigger] field(
                        fen@.skip(start as int),
                        n,
                    ),
        {
            let end = field_end(&chars, start);
            let ghost rest = fen@.skip(start as int);
            proof {
                assert(field(fen@, k as nat + 0) == field(rest, 0));
                assert(rest.take(end - start) =~= fen@.subrange(start as int, end as int));
            }
            bounds.push((start, end));
            if k < 5 {
                if end >= chars.len() {
                    assert(field(fen@, k as nat + (5 - k) as nat) == field(rest, (5 - k) as nat));
                    return None;
                }
                proof {
                    assert(rest.skip(end - start + 1) =~= fen@.skip(end + 1));
                    assert forall|n: nat|
                        field(fen@, (k + 1) as nat + n) == #[trigger] field(
                            fen@.skip(end + 1),
                            n,
                        ) by {
                        assert(field(fen@, k as nat + (n + 1)) == field(rest, n + 1));
                        lemma_field_after_space(rest, n);
                    }
                }
                start = end + 1;
            }
        }
        let placement = fen.substring_char(bounds[0].0, bounds[0].1);
        let turn = fen.substring_char(bounds[1].0, bounds[1].1);
        let castling = fen.substring_char(bounds[2].0, bounds[2].1);
        let passant = fen.substring_char(bounds[3].0, bounds[3].1);
        let half = fen.substring_char(bounds[4].0, bounds[4].1);
        let full = fen.substring_char(bounds[5].0, bounds[5].1);
        proof {
            assert(field(fen@, 0) == Some(placement@));
            assert(field(fen@, 1) == Some(turn@));
            assert(field(fen@, 2) == Some(castling@));
            assert(field(fen@, 3) == Some(passant@));
            assert(field(fen@, 4) == Some(half@));
            assert(field(fen@, 5) == Some(full@));
        }
        let mut board = Self::generate_empty_board();
        if !populate_board_from_fen(&mut board, placement) {
            return None;
        }
        let player_turn = if turn.unicode_len() == 1 && turn.get_char(0) == 'w' {
            assert(turn@ =~= seq!['w']);
            Color::White
        } else if turn.unicode_len() == 1 && turn.get_char(0) == 'b' {
            assert(turn@ =~= seq!['b']);
            Color::Black
        } else {
            assert(turn@ != seq!['w'] && turn@ != seq!['b']) by {
                if turn@.len() == 1 {
                    assert(seq!['w'][0] == 'w');
                    assert(seq!['b'][0] == 'b');
                }
            }
            return None;
        };
        let castle_rights = match CastleRights::from_fen(castling) {
            Some(rights) => rights,
            None => {
                return None;
            },
        };
        let en_passant_square = parse_en_passant_fen(passant);
        let num_half_moves = match parse_counter_field(half) {
            Some(count) => count,
            None => {
                return None;
            },
        };
        let num_moves = match parse_counter_field(full) {
            Some(count) => count,
            None => {
                return None;
            },
        };
        Some(
            Board {
                board,
                player_turn,
                castle_rights,
                en_passant_square,
                num_half_moves,
                num_moves,
            },
        )
    }

    /// The record of the position.
    pub fn to_fen(&self) -> (fen: String)
        requires
            self.wf(),
        ensures
            fen@ == fen_text(self@),
    {
        let mut fen = board_to_fen(self.board);
        fen.push(' ');
        match self.player_turn {
            Color::White => fen.push('w'),
            Color::Black => fen.push('b'),
        }
        fen.push(' ');
        let castle_rights = castle_rights_to_fen(&self.castle_rights);
        fen.append(castle_rights.as_str());
        fen.push(' ');
        let en_passant = tuple_to_square(self.en_passant_square);
        fen.append(en_passant.as_str());
        fen.push(' ');
        push_decimal(&mut fen, self.num_half_moves);
        fen.push(' ');
        push_decimal(&mut fen, self.num_moves);
        assert(fen@ =~= fen_text(self@));
        fen
    }
}

} // verus!
