use chess::helpers::{get_attacked_squares, get_king_square, is_checked};
use chess::{Board, Color, GameStatus, MoveOutcome, Piece, PieceKind, UserMove};

const START: &str = "rnbqkbnr/pppppppp/8/8/8/8/PPPPPPPP/RNBQKBNR w KQkq - 0 1";

fn board(fen: &str) -> Board {
    Board::from_fen(fen).expect("a well-formed record")
}

fn play(board: &mut Board, origin: (usize, usize), destination: (usize, usize)) -> MoveOutcome {
    board.make_move(&UserMove::new(origin, destination, None))
}

#[test]
fn opening_position_has_twenty_legal_moves() {
    let b = board(START);
    assert_eq!(b.valid_moves().len(), 20);
    assert_eq!(b.game_status(), GameStatus::Ongoing);
}

#[test]
fn opening_position_has_twenty_replies() {
    let mut b = board(START);
    assert_eq!(play(&mut b, (1, 4), (3, 4)), MoveOutcome::Success);
    assert_eq!(b.valid_moves().len(), 20);
}

#[test]
fn known_positions_have_known_move_counts() {
    let kiwipete = "r3k2r/p1ppqpb1/bn2pnp1/3PN3/1p2P3/2N2Q1p/PPPBBPPP/R3K2R w KQkq - 0 1";
    assert_eq!(board(kiwipete).valid_moves().len(), 48);
    let endgame = "8/2p5/3p4/KP5r/1R3p1k/8/4P1P1/8 w - - 0 1";
    assert_eq!(board(endgame).valid_moves().len(), 14);
    let middle = "r4rk1/1pp1qppp/p1np1n2/2b1p1B1/2B1P1b1/P1NP1N2/1PP1QPPP/R4RK1 w - - 0 10";
    assert_eq!(board(middle).valid_moves().len(), 46);
}

#[test]
fn promotion_counts_once_among_the_legal_moves() {
    let b = board("rnbq1k1r/pp1Pbppp/2p5/8/2B5/8/PPP1NnPP/RNBQK2R w KQ - 1 8");
    assert_eq!(b.valid_moves().len(), 41);
}

#[test]
fn corner_mate_is_checkmate() {
    let b = board("7k/6Q1/6K1/8/8/8/8/8 b - - 0 1");
    assert_eq!(b.valid_moves().len(), 0);
    assert!(is_checked(&b));
    assert_eq!(b.game_status(), GameStatus::Checkmate(Color::White));
}

#[test]
fn cornered_kings_with_moves_left_play_on() {
    let b = board("k6K/3P4/8/8/8/8/6rp/8 b - - 0 1");
    assert!(!is_checked(&b));
    assert_eq!(b.valid_moves().len(), 17);
    assert_eq!(b.game_status(), GameStatus::Ongoing);
    // The rook goes to g8 and gives check; the king takes it or steps
    // aside to h7.
    let mut c = b;
    assert_eq!(play(&mut c, (1, 6), (7, 6)), MoveOutcome::Success);
    assert!(is_checked(&c));
    assert_eq!(c.valid_moves().len(), 2);
    assert_eq!(c.game_status(), GameStatus::Ongoing);
}

#[test]
fn back_rank_mate_is_checkmate() {
    let b = board("R5k1/5ppp/8/8/8/8/8/4K3 b - - 0 1");
    assert_eq!(b.valid_moves().len(), 0);
    assert_eq!(b.game_status(), GameStatus::Checkmate(Color::White));
}

#[test]
fn fools_mate_is_checkmate_for_black() {
    let mut b = board(START);
    assert_eq!(play(&mut b, (1, 5), (2, 5)), MoveOutcome::Success);
    assert_eq!(play(&mut b, (6, 4), (4, 4)), MoveOutcome::Success);
    assert_eq!(play(&mut b, (1, 6), (3, 6)), MoveOutcome::Success);
    assert_eq!(play(&mut b, (7, 3), (3, 7)), MoveOutcome::Success);
    assert_eq!(b.game_status(), GameStatus::Checkmate(Color::Black));
    assert_eq!(
        play(&mut b, (1, 0), (2, 0)),
        MoveOutcome::GameIsOver(GameStatus::Checkmate(Color::Black))
    );
}

#[test]
fn stalemate_is_a_draw() {
    let b = board("7k/5Q2/6K1/8/8/8/8/8 b - - 0 1");
    assert_eq!(b.valid_moves().len(), 0);
    assert!(!is_checked(&b));
    assert_eq!(b.game_status(), GameStatus::Draw);
}

#[test]
fn fifty_move_rule_is_a_draw() {
    let b = board("4k3/8/8/8/8/8/8/4K3 w - - 100 60");
    assert!(b.valid_moves().len() > 0);
    assert_eq!(b.game_status(), GameStatus::Draw);
    let before = board("4k3/8/8/8/8/8/8/4K3 w - - 99 60");
    assert_eq!(before.game_status(), GameStatus::Ongoing);
}

#[test]
fn no_move_is_made_once_the_game_is_over() {
    let mut b = board("4k3/8/8/8/8/8/8/4K3 w - - 100 60");
    let fen = b.to_fen();
    assert_eq!(play(&mut b, (0, 4), (0, 3)), MoveOutcome::GameIsOver(GameStatus::Draw));
    assert_eq!(b.to_fen(), fen);
}

#[test]
fn status_is_the_same_when_asked_twice() {
    for fen in [
        START,
        "7k/6Q1/6K1/8/8/8/8/8 b - - 0 1",
        "7k/5Q2/6K1/8/8/8/8/8 b - - 0 1",
        "4k3/8/8/8/8/8/8/4K3 w - - 100 60",
    ] {
        let b = board(fen);
        assert_eq!(b.game_status(), b.game_status());
    }
}

#[test]
fn illegal_move_names_both_squares() {
    let mut b = board(START);
    let outcome = play(&mut b, (1, 0), (4, 0));
    assert_eq!(outcome, MoveOutcome::InvalidMove("A2 to A5 is not a valid move.".to_string()));
    assert_eq!(b.to_fen(), START);
}

#[test]
fn move_from_outside_the_board_is_refused_without_a_crash() {
    let mut b = board(START);
    let outcome = play(&mut b, (9, 0), (4, 12));
    assert_eq!(outcome, MoveOutcome::InvalidMove("?? to ?? is not a valid move.".to_string()));
    assert_eq!(b.to_fen(), START);
}

#[test]
fn moving_the_other_sides_piece_is_refused() {
    let mut b = board(START);
    assert_eq!(
        play(&mut b, (6, 0), (5, 0)),
        MoveOutcome::InvalidMove("A7 to A6 is not a valid move.".to_string())
    );
}

#[test]
fn a_pinned_piece_may_not_leave_the_line() {
    // The knight on e2 shields the king on e1 from the rook on e8.
    let mut b = board("4r1k1/8/8/8/8/8/4N3/4K3 w - - 0 1");
    assert_eq!(
        play(&mut b, (1, 4), (3, 5)),
        MoveOutcome::InvalidMove("E2 to F4 is not a valid move.".to_string())
    );
    assert_eq!(play(&mut b, (0, 4), (0, 3)), MoveOutcome::Success);
}

#[test]
fn legal_moves_never_leave_the_mover_in_check() {
    for fen in [
        START,
        "r3k2r/p1ppqpb1/bn2pnp1/3PN3/1p2P3/2N2Q1p/PPPBBPPP/R3K2R w KQkq - 0 1",
        "4r1k1/8/8/8/8/8/4N3/4K3 w - - 0 1",
        "8/2p5/3p4/KP5r/1R3p1k/8/4P1P1/8 w - - 0 1",
        "rnbq1k1r/pp1Pbppp/2p5/8/2B5/8/PPP1NnPP/RNBQK2R w KQ - 1 8",
    ] {
        let b = board(fen);
        for m in b.valid_moves() {
            let mut copy = b;
            let request = UserMove::new(m.origin, m.destination, Some(PieceKind::Rook));
            assert_eq!(copy.make_move(&request), MoveOutcome::Success);
            // The turn has passed; hand it back to ask about the side that moved.
            copy.player_turn = b.player_turn;
            assert!(!is_checked(&copy), "{} {:?}", fen, m);
        }
    }
}

#[test]
fn counters_follow_the_moves() {
    let mut b = board(START);
    assert_eq!(play(&mut b, (0, 6), (2, 5)), MoveOutcome::Success);
    assert_eq!((b.num_half_moves, b.num_moves), (1, 1));
    assert_eq!(b.player_turn, Color::Black);
    assert_eq!(play(&mut b, (7, 6), (5, 5)), MoveOutcome::Success);
    assert_eq!((b.num_half_moves, b.num_moves), (2, 2));
    assert_eq!(b.player_turn, Color::White);
    assert_eq!(play(&mut b, (1, 4), (2, 4)), MoveOutcome::Success);
    assert_eq!((b.num_half_moves, b.num_moves), (0, 2));
    assert_eq!(b.to_fen(), "rnbqkb1r/pppppppp/5n2/8/8/4PN2/PPPP1PPP/RNBQKB1R b KQkq - 0 2");
}

#[test]
fn capture_resets_the_half_move_clock() {
    let mut b = board("4k3/8/8/3p4/4N3/8/8/4K3 w - - 7 30");
    assert_eq!(play(&mut b, (3, 4), (5, 5)), MoveOutcome::Success);
    assert_eq!(b.num_half_moves, 8);
    let mut c = board("4k3/8/8/8/4N3/8/3p4/4K3 w - - 7 30");
    assert_eq!(play(&mut c, (3, 4), (1, 3)), MoveOutcome::Success);
    assert_eq!(c.num_half_moves, 0);
    assert_eq!(c.board[1][3], Some(Piece::new(PieceKind::Knight, Color::White)));
}

#[test]
fn king_square_and_attacks_are_found() {
    let b = board(START);
    assert_eq!(get_king_square(b.board, &Color::White), (0, 4));
    assert_eq!(get_king_square(b.board, &Color::Black), (7, 4));
    let empty = board("8/8/8/8/8/8/8/8 w - - 0 1");
    assert_eq!(get_king_square(empty.board, &Color::White), (0, 0));
    // At the start Black's knights alone reach empty squares; a pawn
    // attacks no empty square.
    let attacked = get_attacked_squares(&b, Color::White);
    assert_eq!(attacked.len(), 4);
    for column in [0, 2, 5, 7] {
        assert!(attacked.contains(&(5, column)));
    }
    assert!(!is_checked(&b));
}

#[test]
fn a_piece_does_not_attack_squares_of_its_own_side() {
    let b = board("4k3/8/8/8/8/8/3PPP2/4K3 b - - 0 1");
    let attacked = get_attacked_squares(&b, Color::Black);
    // The king defends its pawns, yet their squares do not count as attacked.
    assert!(!attacked.contains(&(1, 4)));
    assert!(attacked.contains(&(0, 3)));
    assert!(attacked.contains(&(0, 5)));
    // A pawn attacks no empty square.
    assert!(!attacked.contains(&(2, 4)));
}

#[test]
fn check_is_seen() {
    let b = board("4k3/8/8/8/8/8/4r3/4K3 w - - 0 1");
    assert!(is_checked(&b));
    assert_eq!(b.game_status(), GameStatus::Ongoing);
}
