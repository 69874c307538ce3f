use kaik::board::Board;
use kaik::eval::{eval, MAX_SCORE, MIN_SCORE};
use kaik::game::{Event, Game, InfoData, SearchParams};
use kaik::moves::Move;
use kaik::pieces::Piece::{self, WhitePawn, BlackPawn, WhiteKnight, BlackKnight, WhiteBishop, WhiteRook, WhiteQueen, WhiteKing, BlackKing};
use kaik::search::{alphabeta, mate_in, mated_in, negamax, run, Result, MATE_SCORE};
use kaik::squares::Square::{A1, B1, C1, D1, E1, F1, G1, H1, A2, B2, D2, E2, F2, H2, A3, B3, C3, D3, E3, F3, G3, H3, A4, B4, C4, D4, E4, F4, G4, H4, A5, B5, C5, D5, E5, F5, G5, H5, B6, C6, D6, E6, F6, G6, H6, A7, B7, C7, E7, F7, G7, H7, B8, C8, D8, E8, G8, H8};
use kaik::zobrist::Keys;
use std::sync::atomic::AtomicBool;
use std::sync::mpsc;

fn board(fen: &str, keys: &Keys) -> Board {
    Board::from_fen(fen, keys).unwrap()
}

#[test]
fn test_white_king_moves() {
    let keys = Keys::new();
    let b = board("2k5/8/8/8/8/8/2Pp4/2K5 w - - 0 1", &keys);
    let moves = b.generate_moves_for(&[WhiteKing]);
    assert_eq!(
        moves,
        &[
            Move::quiet(C1, B1, WhiteKing),
            Move::quiet(C1, D1, WhiteKing),
            Move::quiet(C1, B2, WhiteKing),
            Move::capture(C1, D2, WhiteKing),
        ]
    );
}

#[test]
fn test_black_king_moves() {
    let keys = Keys::new();
    let b = board("2k5/2Pp4/8/8/8/8/8/2K5 b - - 0 1", &keys);
    let moves = b.generate_moves_for(&[BlackKing]);
    assert_eq!(
        moves,
        &[
            Move::quiet(C8, B7, BlackKing),
            Move::capture(C8, C7, BlackKing),
            Move::quiet(C8, B8, BlackKing),
            Move::quiet(C8, D8, BlackKing),
        ]
    );
}

#[test]
fn test_white_knight_moves() {
    let keys = Keys::new();
    let b = board("8/8/6p1/5N2/8/1N6/8/8 w - - 0 1", &keys);
    let moves = b.generate_moves_for(&[WhiteKnight]);
    assert_eq!(
        moves,
        &[
            Move::quiet(B3, A1, WhiteKnight),
            Move::quiet(B3, C1, WhiteKnight),
            Move::quiet(B3, D2, WhiteKnight),
            Move::quiet(B3, D4, WhiteKnight),
            Move::quiet(B3, A5, WhiteKnight),
            Move::quiet(B3, C5, WhiteKnight),
            Move::quiet(F5, E3, WhiteKnight),
            Move::quiet(F5, G3, WhiteKnight),
            Move::quiet(F5, D4, WhiteKnight),
            Move::quiet(F5, H4, WhiteKnight),
            Move::quiet(F5, D6, WhiteKnight),
            Move::quiet(F5, H6, WhiteKnight),
            Move::quiet(F5, E7, WhiteKnight),
            Move::quiet(F5, G7, WhiteKnight),
        ]
    );
}

#[test]
fn move_gen_test_white_pawn_moves() {
    let keys = Keys::new();
    let b = board("8/8/8/8/4N3/n1pB2P1/PPPPPPPP/8 w - - 0 1", &keys);
    let moves = b.generate_moves_for(&[WhitePawn]);
    assert_eq!(
        moves,
        &[
            Move::capture(B2, A3, WhitePawn),
            Move::quiet(B2, B3, WhitePawn),
            Move::capture(B2, C3, WhitePawn),
            Move::quiet(B2, B4, WhitePawn),
            Move::capture(D2, C3, WhitePawn),
            Move::quiet(E2, E3, WhitePawn),
            Move::quiet(F2, F3, WhitePawn),
            Move::quiet(F2, F4, WhitePawn),
            Move::quiet(H2, H3, WhitePawn),
            Move::quiet(H2, H4, WhitePawn),
            Move::quiet(G3, G4, WhitePawn),
        ]
    );
}

#[test]
fn test_black_pawn_moves() {
    let keys = Keys::new();
    let b = board("8/pppppppp/n1pB2P1/4N3/8/8/8/8 b - - 0 1", &keys);
    let moves = b.generate_moves_for(&[BlackPawn]);
    assert_eq!(
        moves,
        &[
            Move::quiet(C6, C5, BlackPawn),
            Move::quiet(B7, B5, BlackPawn),
            Move::quiet(B7, B6, BlackPawn),
            Move::capture(C7, D6, BlackPawn),
            Move::capture(E7, D6, BlackPawn),
            Move::quiet(E7, E6, BlackPawn),
            Move::quiet(F7, F5, BlackPawn),
            Move::quiet(F7, F6, BlackPawn),
            Move::capture(F7, G6, BlackPawn),
            Move::quiet(H7, H5, BlackPawn),
            Move::capture(H7, G6, BlackPawn),
            Move::quiet(H7, H6, BlackPawn),
        ]
    );
}

#[test]
fn test_en_passant_attacks_1() {
    let keys = Keys::new();
    let b = board("2r3k1/1q1nbppp/r3p3/3pP3/pPpP4/P1Q2N2/2RN1PPP/2R4K b - b3 0 23", &keys);
    let moves = b.generate_moves_for(&[BlackPawn]);
    assert_eq!(
        moves,
        &[
            Move::capture(A4, B3, BlackPawn),
            Move::capture(C4, B3, BlackPawn),
            Move::quiet(F7, F5, BlackPawn),
            Move::quiet(F7, F6, BlackPawn),
            Move::quiet(G7, G5, BlackPawn),
            Move::quiet(G7, G6, BlackPawn),
            Move::quiet(H7, H5, BlackPawn),
            Move::quiet(H7, H6, BlackPawn),
        ]
    );
}

#[test]
fn test_en_passant_attacks_2() {
    let keys = Keys::new();
    let b = board("8/8/8/3k4/2pP4/1B6/6K1/8 b - d3 0 2", &keys);
    let moves = b.generate_moves_for(&[BlackPawn]);
    assert_eq!(
        moves,
        &[
            Move::capture(C4, B3, BlackPawn),
            Move::quiet(C4, C3, BlackPawn),
            Move::capture(C4, D3, BlackPawn),
        ]
    );
}

#[test]
fn test_generate_castling() {
    let keys = Keys::new();
    let b = board("rnbq1k1r/pp1Pbppp/2p5/8/2B5/8/PPP1NnPP/RNBQK2R w KQ - 1 8", &keys);
    let moves = b.generate_moves_for(&[WhiteKing]);
    assert_eq!(
        moves,
        &[
            Move::quiet(E1, F1, WhiteKing),
            Move::quiet(E1, D2, WhiteKing),
            Move::capture(E1, F2, WhiteKing),
            Move::quiet(E1, G1, WhiteKing),
        ]
    );
}

#[test]
fn promotions_in_order() {
    let keys = Keys::new();
    let b = board("4k3/1P6/8/8/8/8/8/4K3 w - - 0 1", &keys);
    let moves = b.generate_moves_for(&[WhitePawn]);
    assert_eq!(
        moves,
        &[
            Move::new(B7, B8, Some(WhiteQueen), WhitePawn, false),
            Move::new(B7, B8, Some(WhiteKnight), WhitePawn, false),
            Move::new(B7, B8, Some(WhiteRook), WhitePawn, false),
            Move::new(B7, B8, Some(WhiteBishop), WhitePawn, false),
        ]
    );
}

#[test]
fn test_update_by_move() {
    let keys = Keys::new();
    let mut b = Board::initial_board(&keys);
    b.update_by_move(Move::quiet(B2, B3, WhitePawn), &keys);
    assert_eq!(
        b.as_fen(),
        "rnbqkbnr/pppppppp/8/8/8/1P6/P1PPPPPP/RNBQKBNR b KQkq - 0 1"
    );
    b.update_by_move(Move::quiet(G8, F6, BlackKnight), &keys);
    b.update_by_move(Move::quiet(G1, F3, WhiteKnight), &keys);
    assert_eq!(
        b.as_fen(),
        "rnbqkb1r/pppppppp/5n2/8/8/1P3N2/P1PPPPPP/RNBQKB1R b KQkq - 2 2"
    );
    b.update_by_move(Move::quiet(B8, C6, BlackKnight), &keys);
    b.update_by_move(Move::quiet(C1, B2, WhiteBishop), &keys);
    b.update_by_move(Move::quiet(C6, B4, BlackKnight), &keys);
    assert_eq!(
        b.as_fen(),
        "r1bqkb1r/pppppppp/5n2/8/1n6/1P3N2/PBPPPPPP/RN1QKB1R w KQkq - 5 4"
    );
    b.update_by_move(Move::capture(B2, F6, WhiteBishop), &keys);
    assert_eq!(
        b.as_fen(),
        "r1bqkb1r/pppppppp/5B2/8/1n6/1P3N2/P1PPPPPP/RN1QKB1R b KQkq - 0 4"
    );
}

#[test]
fn test_update_by_move_capture() {
    let keys = Keys::new();
    let mut b = board("2k5/8/8/8/8/8/2Pp4/2K5 w - - 3 1", &keys);
    b.update_by_move(Move::capture(C1, D2, WhiteKing), &keys);
    assert_eq!(b.as_fen(), "2k5/8/8/8/8/8/2PK4/8 b - - 0 1");

    let mut b = board("rnbqkbnr/ppp1pppp/8/3p4/8/2N5/PPPPPPPP/R1BQKBNR w KQkq - 4 1", &keys);
    b.update_by_move(Move::capture(C3, D5, WhiteKnight), &keys);
    assert_eq!(
        b.as_fen(),
        "rnbqkbnr/ppp1pppp/8/3N4/8/8/PPPPPPPP/R1BQKBNR b KQkq - 0 1"
    );
}

#[test]
fn test_update_by_move_capture_2() {
    let keys = Keys::new();
    let mut b = board("8/8/8/3k4/2pP4/1B6/6K1/8 b - - 4 1", &keys);
    b.update_by_move(Move::capture(C4, B3, BlackPawn), &keys);
    assert_eq!(b.as_fen(), "8/8/8/3k4/3P4/1p6/6K1/8 w - - 0 2");
    assert_eq!(b.pieces[Piece::WhiteBishop.index()], 0);
}

#[test]
fn test_update_by_move_double_push() {
    let keys = Keys::new();
    let mut b = Board::initial_board(&keys);
    b.update_by_move(Move::quiet(B2, B4, WhitePawn), &keys);
    assert_eq!(
        b,
        board("rnbqkbnr/pppppppp/8/8/1P6/8/P1PPPPPP/RNBQKBNR b KQkq b3 0 1", &keys)
    );
    b.update_by_move(Move::quiet(G8, F6, BlackKnight), &keys);
    assert_eq!(b.en_passant_target_square, None);
}

#[test]
fn test_update_by_move_castling() {
    let keys = Keys::new();
    let mut b = board("4k3/8/8/8/8/8/PPPPPPPP/R3K1NR w Q - 0 1", &keys);
    b.update_by_move(Move::quiet(E1, C1, WhiteKing), &keys);
    assert_eq!(b, board("4k3/8/8/8/8/8/PPPPPPPP/2KR2NR b - - 1 1", &keys));
}

#[test]
fn test_update_by_move_castling_clearing() {
    let keys = Keys::new();
    let mut b = board("rnbqkbnr/ppp1pppp/3p4/8/8/5P2/PPPPP1PP/RNBQKBNR w KQkq - 0 1", &keys);
    b.update_by_move(Move::quiet(E1, F2, WhiteKing), &keys);
    assert_eq!(
        b,
        board("rnbqkbnr/ppp1pppp/3p4/8/8/5P2/PPPPPKPP/RNBQ1BNR b kq - 1 1", &keys)
    );
}

#[test]
fn rook_capture_clears_enemy_right() {
    let keys = Keys::new();
    let mut b = board("r3k2r/8/8/8/8/8/8/R3K2R w KQkq - 0 1", &keys);
    b.update_by_move(Move::capture(H1, H8, WhiteRook), &keys);
    assert_eq!(b.as_fen(), "r3k2R/8/8/8/8/8/8/R3K3 b Qq - 0 1");
}

#[test]
fn test_update_by_move_promotion() {
    let keys = Keys::new();
    let mut b = board("4k3/1P6/8/8/8/8/8/4K3 w - - 2 1", &keys);
    b.update_by_move(Move::new(B7, B8, Some(WhiteQueen), WhitePawn, false), &keys);
    assert_eq!(b, board("1Q2k3/8/8/8/8/8/8/4K3 b - - 0 1", &keys));
}

#[test]
fn test_update_by_move_en_passant_capture() {
    let keys = Keys::new();
    let mut b = board("rnbqkbnr/2pppppp/p7/Pp6/8/8/1PPPPPPP/RNBQKBNR w KQkq b6 0 3", &keys);
    b.update_by_move(Move::capture(A5, B6, WhitePawn), &keys);
    assert_eq!(
        b,
        board("rnbqkbnr/2pppppp/pP6/8/8/8/1PPPPPPP/RNBQKBNR b KQkq - 0 3", &keys)
    );
}

#[test]
fn test_copy_with_move_in_check_castling() {
    let keys = Keys::new();
    let b = board("r3k2r/p1pp1pb1/bn2Qnp1/2qPN3/1p2P3/2N5/PPPBBPPP/R3K2R b KQkq - 3 2", &keys);
    assert_eq!(b.copy_with_move(Move::quiet(E8, G8, BlackKing), &keys), None);
}

#[test]
fn test_copy_with_move_castling_over_attacked_square() {
    let keys = Keys::new();
    let b = board("r3k2r/1b4bq/8/8/8/8/7B/3RK2R b Kkq - 1 1", &keys);
    assert_eq!(b.copy_with_move(Move::quiet(E8, C8, BlackKing), &keys), None);
}

#[test]
fn test_copy_with_move_castling_rook_attacked() {
    let keys = Keys::new();
    let b = board("rnb2k1r/pp1Pbppp/2p5/q7/2B5/8/PPPQNnPP/RNB1K2R w KQ - 3 9", &keys);
    assert!(b.copy_with_move(Move::quiet(E1, G1, WhiteKing), &keys).is_some());
}

#[test]
fn test_copy_with_move_king_moves_next_to_king() {
    let keys = Keys::new();
    let b = board("8/2kp4/8/K1P4r/8/8/8/8 w - - 1 2", &keys);
    assert_eq!(b.copy_with_move(Move::quiet(A5, B6, WhiteKing), &keys), None);
}

#[test]
fn test_copy_with_move_en_passant() {
    let keys = Keys::new();
    let b = board("8/8/8/3k4/2pP4/1B6/6K1/8 b - d3 0 2", &keys);
    assert_eq!(b.copy_with_move(Move::quiet(C4, C3, BlackPawn), &keys), None);
    assert_eq!(b.copy_with_move(Move::capture(C4, D3, BlackPawn), &keys), None);
    assert!(b.copy_with_move(Move::capture(C4, B3, BlackPawn), &keys).is_some());
}

#[test]
fn perft_test_perft_divide() {
    let keys = Keys::new();
    let b = Board::initial_board(&keys);
    assert_eq!(
        b.perft(2, &keys),
        b.divide(2, &keys).iter().map(|(_, count)| *count).sum::<u64>()
    );
}

#[test]
fn perft_test_perft_initial() {
    let keys = Keys::new();
    let b = Board::initial_board(&keys);
    assert_eq!(b.perft(0, &keys), 1);
    assert_eq!(b.perft(1, &keys), 20);
    assert_eq!(b.perft(2, &keys), 400);
    assert_eq!(b.perft(3, &keys), 8902);
}

#[test]
fn test_peterellisjones() {
    let keys = Keys::new();
    let cases: [(&str, usize, u64); 7] = [
        ("r6r/1b2k1bq/8/8/7B/8/8/R3K2R b KQ - 3 2", 1, 8),
        ("8/8/8/2k5/2pP4/8/B7/4K3 b - d3 0 3", 1, 8),
        ("r1bqkbnr/pppppppp/n7/8/8/P7/1PPPPPPP/RNBQKBNR w KQkq - 2 2", 1, 19),
        ("2kr3r/p1ppqpb1/bn2Qnp1/3PN3/1p2P3/2N5/PPPBBPPP/R3K2R b KQ - 3 2", 1, 44),
        ("rnb2k1r/pp1Pbppp/2p5/q7/2B5/8/PPPQNnPP/RNB1K2R w KQ - 3 9", 1, 39),
        ("2r5/3pk3/8/2P5/8/2K5/8/8 w - - 5 4", 1, 9),
        ("r4rk1/1pp1qppp/p1np1n2/2b1p1B1/2B1P1b1/P1NP1N2/1PP1QPPP/R4RK1 w - - 0 10", 3, 89890),
    ];
    for (fen, depth, expected) in cases {
        assert_eq!(board(fen, &keys).perft(depth, &keys), expected, "{fen}");
    }
}

#[test]
fn kiwipete_perft() {
    let keys = Keys::new();
    let b = board("r3k2r/p1ppqpb1/bn2pnp1/3PN3/1p2P3/2N2Q1p/PPPBBPPP/R3K2R w KQkq - 0 1", &keys);
    assert_eq!(b.perft(1, &keys), 48);
    assert_eq!(b.perft(2, &keys), 2039);
}

#[test]
fn material_evaluation() {
    let keys = Keys::new();
    let b = Board::initial_board(&keys);
    assert_eq!(eval(&b), 0);
    let b = board("4k3/8/8/8/8/8/8/3QK3 b - - 0 1", &keys);
    assert_eq!(b.material_scores(), (20900, 20000));
    assert_eq!(b.eval(), -900);
}

fn search(b: &Board, keys: &Keys) -> (i32, usize, Vec<Move>) {
    let mut nodes_count = 0;
    let mut pv_line = Vec::new();
    let (score, stopped) = alphabeta(
        b,
        4,
        MIN_SCORE,
        MAX_SCORE,
        MATE_SCORE,
        &AtomicBool::new(false),
        &mut nodes_count,
        &mut pv_line,
        keys,
    );
    assert!(!stopped);
    (score, nodes_count, pv_line)
}

#[test]
fn test_startpos_depth_4() {
    let keys = Keys::new();
    let b = Board::initial_board(&keys);
    let (score, nodes_count, pv_line) = search(&b, &keys);
    assert_eq!(pv_line[0], Move::quiet(A2, A3, WhitePawn));
    assert_eq!(score, 0);
    assert_eq!(nodes_count, 2024);
    assert_eq!(
        pv_line,
        [
            Move::quiet(A2, A3, WhitePawn),
            Move::quiet(A7, A5, BlackPawn),
            Move::quiet(B2, B3, WhitePawn),
            Move::quiet(A5, A4, BlackPawn),
        ]
    );
    assert_eq!(mate_in(score), None);
    assert_eq!(mated_in(score), None);
}

#[test]
fn test_mated_minus_1() {
    let keys = Keys::new();
    let b = board("2kr1b2/Rp3pp1/8/8/2b1K2r/4P1pP/8/1NB1nBNR w - - 0 40", &keys);
    let (score, _, pv_line) = search(&b, &keys);
    assert_eq!(pv_line[0], Move::quiet(E4, E5, WhiteKing));
    assert_eq!(mated_in(score), Some(1));
    assert_eq!(mate_in(score), None);
    assert_eq!(score, -MATE_SCORE + 2);
}

#[test]
fn test_smothered_mate() {
    let keys = Keys::new();
    let b = board("2r4k/6pp/8/4N3/8/1Q6/B5PP/7K w - - 0 1", &keys);
    let (score, _, pv_line) = search(&b, &keys);
    assert_eq!(pv_line[0], Move::quiet(E5, G6, WhiteKnight));
    assert_eq!(mate_in(score), Some(2));
    assert_eq!(mated_in(score), None);
    assert_eq!(score, MATE_SCORE - 3);
}

#[test]
fn test_stalemate() {
    let keys = Keys::new();
    let b = board("4k3/4P3/4Q3/8/8/8/8/5K2 b - - 0 1", &keys);
    let (score, _, pv_line) = search(&b, &keys);
    assert!(pv_line.is_empty());
    assert_eq!(score, 0);
    assert_eq!(mate_in(score), None);
    assert_eq!(mated_in(score), None);
}

#[test]
fn mate_score_distances() {
    for k in 1..=500 {
        assert_eq!(mate_in(MATE_SCORE - 2 * k + 1), Some(k));
    }
    for k in 0..=500 {
        assert_eq!(mated_in(-MATE_SCORE + 2 * k), Some(k));
    }
    assert_eq!(mated_in(-MATE_SCORE), Some(0));
    assert_eq!(mate_in(0), None);
}

#[test]
fn negamax_test_negamax_mate_minus_1() {
    let keys = Keys::new();
    let b = board("2kr1b2/Rp3pp1/8/8/2b1K2r/4P1pP/8/1NB1nBNR w - - 0 40", &keys);
    let mut nodes_count = 0;
    let (r, stopped) = negamax(&b, 4, &AtomicBool::new(false), &mut nodes_count, &keys);
    assert!(!stopped);
    assert_eq!(r, Result::BestMove(Move::quiet(E4, E5, WhiteKing), MIN_SCORE));
}

#[test]
fn run_reports_and_stops() {
    let keys = Keys::new();
    let (tx, rx) = mpsc::channel();
    let b = board("2r4k/6pp/8/4N3/8/1Q6/B5PP/7K w - - 0 1", &keys);
    let (r, stopped) = run(&b, &SearchParams { depth: Some(4) }, &tx, &AtomicBool::new(false), &keys);
    assert!(!stopped);
    match r {
        Result::BestMove(mv, _) => assert_eq!(mv, Move::quiet(E5, G6, WhiteKnight)),
        other => panic!("unexpected {:?}", other),
    }
    let events: Vec<Event> = rx.try_iter().collect();
    assert_eq!(events.len(), 4);
    match &events[0] {
        Event::Info(items) => assert!(matches!(items[0], InfoData::Depth(1))),
        other => panic!("unexpected {:?}", other),
    }

    let stale = board("4k3/4P3/4Q3/8/8/8/8/5K2 b - - 0 1", &keys);
    let (r, _) = run(&stale, &SearchParams { depth: Some(3) }, &tx, &AtomicBool::new(false), &keys);
    assert_eq!(r, Result::StaleMate);
    let events: Vec<Event> = rx.try_iter().collect();
    assert_eq!(events.len(), 1);
    match &events[0] {
        Event::Info(items) => {
            assert!(matches!(items[0], InfoData::Depth(1)));
            assert!(matches!(items[1], InfoData::Nodes(0)));
            assert!(matches!(&items[2], InfoData::Pv(v) if v.is_empty()));
            assert!(matches!(items[3], InfoData::Score(0)));
        }
        other => panic!("unexpected {:?}", other),
    }

    let mated = board("2kr1b2/Rp3pp1/8/8/2b1K2r/4P1pP/8/1NB1nBNR w - - 0 40", &keys);
    let mut after = mated;
    after.update_by_move(Move::quiet(E4, E5, WhiteKing), &keys);
    let mut moves = after.generate_moves();
    moves.retain(|m| after.copy_with_move(*m, &keys).is_some());
    let reply = moves
        .iter()
        .find(|m| {
            let c = after.copy_with_move(**m, &keys).unwrap();
            c.in_check() && c.generate_moves().iter().all(|n| c.copy_with_move(*n, &keys).is_none())
        })
        .copied()
        .unwrap();
    let checkmated = after.copy_with_move(reply, &keys).unwrap();
    let (r, _) = run(&checkmated, &SearchParams { depth: Some(2) }, &tx, &AtomicBool::new(false), &keys);
    assert_eq!(r, Result::CheckMate);
    assert_eq!(rx.try_iter().count(), 0);
}

#[test]
fn game_moves() {
    let mut game = Game::new();
    let played = game.apply_moves(&["e2e4".to_string(), "e7e5".to_string(), "x".to_string()]);
    assert_eq!(played, 2);
    assert_eq!(
        game.get_board().as_fen(),
        "rnbqkbnr/pppp1ppp/8/4p3/4P3/8/PPPP1PPP/RNBQKBNR w KQkq e6 0 2"
    );
    assert!(game.set_to_fen("bad").is_err());
    game.set_to_startpos();
    assert_eq!(game.get_board(), Board::initial_board(&Keys::new()));
    game.set_debug(true);
    assert!(game.debug);
    assert!(game.display_board().contains("FEN: "));
}

fn assert_sets_consistent(b: &Board) {
    for i in 0..12 {
        for j in 0..12 {
            if i != j {
                assert_eq!(b.pieces[i] & b.pieces[j], 0);
            }
        }
    }
    let white = b.pieces.iter().step_by(2).fold(0, |acc, x| acc | x);
    let black = b.pieces.iter().skip(1).step_by(2).fold(0, |acc, x| acc | x);
    assert_eq!(b.all, [white, black]);
    assert_eq!(b.occupied, white | black);
    assert_eq!(b.pieces[WhiteKing.index()].count_ones(), 1);
    assert_eq!(b.pieces[BlackKing.index()].count_ones(), 1);
}

#[test]
fn sets_stay_consistent_along_a_game() {
    let keys = Keys::new();
    let mut b = board("r3k2r/p1ppqpb1/bn2pnp1/3PN3/1p2P3/2N2Q1p/PPPBBPPP/R3K2R w KQkq - 0 1", &keys);
    for _ in 0..12 {
        assert_sets_consistent(&b);
        let moves = b.generate_moves();
        let next = moves.iter().rev().find_map(|mv| b.copy_with_move(*mv, &keys));
        match next {
            Some(n) => b = n,
            None => break,
        }
        assert_eq!(b.zobrist_key, Board::gen_zobrist_key(&b, &keys));
    }
    assert_sets_consistent(&b);
}

#[test]
fn move_and_back_restores_sets() {
    let keys = Keys::new();
    let start = board("4k3/8/8/8/8/8/8/R3K3 w - - 0 1", &keys);
    let mut b = start;
    b.update_by_move(Move::quiet(A1, A5, WhiteRook), &keys);
    b.update_by_move(Move::quiet(E8, D8, BlackKing), &keys);
    b.update_by_move(Move::quiet(A5, A1, WhiteRook), &keys);
    b.update_by_move(Move::quiet(D8, E8, BlackKing), &keys);
    assert_eq!(b.pieces, start.pieces);
    assert_eq!(b.all, start.all);
    assert_eq!(b.occupied, start.occupied);
    assert_eq!(b.zobrist_key, start.zobrist_key);
}

#[test]
fn coordinate_en_passant_is_a_capture() {
    let keys = Keys::new();
    let b = board("4k3/8/8/3pP3/8/8/8/4K3 w - d6 0 1", &keys);
    let mv = b.new_move_from_pure("e5d6").unwrap();
    assert!(mv.is_capture());
    let mut game = Game::new();
    assert!(game.set_to_fen("4k3/8/8/3pP3/8/8/8/4K3 w - d6 0 1").is_ok());
    assert_eq!(game.apply_moves(&["e5d6".to_string()]), 1);
    assert_eq!(game.get_board().as_fen(), "4k3/8/3P4/8/8/8/8/4K3 b - - 0 1");
}

#[test]
fn run_at_depth_zero_searches_one_ply() {
    let keys = Keys::new();
    let (tx, _rx) = mpsc::channel();
    let mated = board("k7/1Q6/1K6/8/8/8/8/8 b - - 0 1", &keys);
    let (r, stopped) = run(&mated, &SearchParams { depth: Some(0) }, &tx, &AtomicBool::new(false), &keys);
    assert!(!stopped);
    assert_eq!(r, Result::CheckMate);
    let start = Board::initial_board(&keys);
    let (r, _) = run(&start, &SearchParams { depth: Some(0) }, &tx, &AtomicBool::new(false), &keys);
    assert!(matches!(r, Result::BestMove(_, _)));
}

#[test]
fn run_stopped_before_start_keeps_first_line() {
    let keys = Keys::new();
    let (tx, rx) = mpsc::channel();
    let start = Board::initial_board(&keys);
    let (r, stopped) = run(&start, &SearchParams { depth: Some(3) }, &tx, &AtomicBool::new(true), &keys);
    assert!(stopped);
    assert_eq!(r, Result::StaleMate);
    assert_eq!(rx.try_iter().count(), 0);
}

#[test]
fn coordinate_move_with_stray_letter_is_refused() {
    let keys = Keys::new();
    let b = Board::initial_board(&keys);
    assert_eq!(b.new_move_from_pure("e2e4q"), None);
    assert!(b.new_move_from_pure("e2e4").is_some());
}
