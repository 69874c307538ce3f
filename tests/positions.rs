use kaik::board::Board;
use kaik::colors::Color;
use kaik::fen::{self, FenError};
use kaik::moves::Move;
use kaik::pieces::Piece::{self, WhitePawn, BlackPawn, WhiteKnight, BlackKnight, WhiteBishop, WhiteRook, WhiteQueen, BlackQueen, WhiteKing, BlackKing};
use kaik::squares::Square::{A1, D1, E1, E2, E4, D5, E5, C6, F6, D7, E7, E8, G8};
use kaik::zobrist::Keys;

const START_POSITION: &str = "rnbqkbnr/pppppppp/8/8/8/8/PPPPPPPP/RNBQKBNR w KQkq - 0 1";

fn board(fen: &str, keys: &Keys) -> Board {
    Board::from_fen(fen, keys).unwrap()
}

#[test]
fn test_initial_board() {
    let keys = Keys::new();
    let b = Board::initial_board(&keys);
    assert_eq!(b.pieces.len(), 12);
    assert_eq!(b.all.len(), 2);
    assert_eq!(b, board(START_POSITION, &keys));
    assert_eq!(b.side_to_move, Color::White);
    assert_eq!(b.en_passant_target_square, None);
}

#[test]
fn test_empty_board() {
    let keys = Keys::new();
    let b = Board::empty(&keys);
    assert_eq!(b.pieces, [0; 12]);
    assert_eq!(b.all, [0; 2]);
    assert_eq!(b.occupied, 0);
    assert_eq!(b.side_to_move, Color::White);
    assert_eq!(b.en_passant_target_square, None);
}

#[test]
fn test_from_fen() {
    let keys = Keys::new();
    let b = board(START_POSITION, &keys);
    assert_eq!(b.pieces.len(), 12);
    assert_eq!(b.all.len(), 2);
    assert_eq!(b.side_to_move, Color::White);
    assert_eq!(b, Board::initial_board(&keys));
    assert_eq!(b.en_passant_target_square, None);
    assert_eq!(b.as_fen(), START_POSITION);
}

#[test]
fn fen_errors() {
    let keys = Keys::new();
    assert_eq!(Board::from_fen("invalid fen string", &keys), Err(FenError::FieldCount));
    assert_eq!(
        Board::from_fen("rnbqkbnr/pppppppp/8/8/8/8/PPPPPPPP/RNBQKBN w KQkq - 0 1", &keys),
        Err(FenError::Placement)
    );
    assert_eq!(
        Board::from_fen("rnbqkbnr/pppppppp/8/8/8/8/PPPPPPPP/RNBQKBNX w KQkq - 0 1", &keys),
        Err(FenError::Placement)
    );
    assert_eq!(
        Board::from_fen("8/8/8/8/8/8/8/8 x - - 0 1", &keys),
        Err(FenError::SideToMove)
    );
    assert_eq!(
        Board::from_fen("8/8/8/8/8/8/8/8 w KX - 0 1", &keys),
        Err(FenError::Castling)
    );
    assert_eq!(
        Board::from_fen("8/8/8/8/8/8/8/8 w - z9 0 1", &keys),
        Err(FenError::EnPassant)
    );
    assert_eq!(
        Board::from_fen("8/8/8/8/8/8/8/8 w - - x 1", &keys),
        Err(FenError::Counter)
    );
    assert_eq!(
        Board::from_fen("8/8/8/8/8/8/8/8 w - - 0 99999999999", &keys),
        Err(FenError::Counter)
    );
}

#[test]
fn fen_round_trip() {
    let keys = Keys::new();
    for fen in [
        START_POSITION,
        "r3k2r/p1ppqpb1/bn2pnp1/3PN3/1p2P3/2N2Q1p/PPPBBPPP/R3K2R w KQkq - 0 1",
        "rnbqkbnr/pp1ppppp/8/2p5/4P3/8/PPPP1PPP/RNBQKBNR w KQkq c6 0 2",
        "8/8/8/8/8/8/8/8 b - - 7 40",
    ] {
        let b = board(fen, &keys);
        assert_eq!(b.as_fen(), fen);
        assert_eq!(board(&b.as_fen(), &keys), b);
    }
}

#[test]
fn zobrist_key_is_recomputed() {
    let keys = Keys::new();
    let mut b = Board::initial_board(&keys);
    for mv in [
        Move::quiet(E2, E4, WhitePawn),
        Move::quiet(D7, D5, BlackPawn),
        Move::capture(E4, D5, WhitePawn),
        Move::quiet(G8, F6, BlackKnight),
    ] {
        b.update_by_move(mv, &keys);
        assert_eq!(b.zobrist_key, Board::gen_zobrist_key(&b, &keys));
    }
    let other = board(&b.as_fen(), &keys);
    assert_eq!(other.zobrist_key, b.zobrist_key);
    assert_ne!(b.zobrist_key, Board::initial_board(&keys).zobrist_key);
}

#[test]
fn test_attacks() {
    let keys = Keys::new();
    let b = board("4k3/5P2/5N2/1B6/8/8/8/4RK1R b Kkq - 1 1", &keys);
    let attacks_king_bb = b.attacks_king(Color::Black);
    let attacks_bb = b.attacks_to(E8);
    assert_eq!(attacks_king_bb, attacks_bb);
    assert!(b.in_check());
}

#[test]
fn test_attacks_king_king_next_to_king() {
    let keys = Keys::new();
    let b = board("8/2kp4/1K6/2P4r/8/8/8/8 w - - 1 2", &keys);
    let bb = b.attacks_king(Color::White);
    assert_eq!(
        bb,
        0b0000000000000100000000000000000000000000000000000000000000000000
    );
}

#[test]
fn test_new_move() {
    let keys = Keys::new();
    let b = Board::initial_board(&keys);
    let mv = b.new_move(E2, E4).unwrap();
    assert_eq!(mv.get_from(), E2);
    assert_eq!(mv.get_to(), E4);
    assert_eq!(mv.get_piece(), Piece::WhitePawn);
    assert!(!mv.is_capture());
    assert!(mv.get_promotion().is_none());
    assert_eq!(b.new_move(E4, E5), None);
}

#[test]
fn test_new_move_capture() {
    let keys = Keys::new();
    let b = board("rnbqkbnr/pppp1ppp/8/8/4p3/2N2P2/PPPPP1PP/R1BQKBNR w KQkq - 0 3", &keys);
    let mv = b.new_move(E2, E4).unwrap();
    assert_eq!(mv.get_from(), E2);
    assert_eq!(mv.get_to(), E4);
    assert_eq!(mv.get_piece(), Piece::WhitePawn);
    assert!(mv.is_capture());
    assert!(mv.get_promotion().is_none());
}

#[test]
fn test_new_move_promotion() {
    let keys = Keys::new();
    let b = board("6k1/4P3/8/8/8/8/8/4K3 w - - 0 1", &keys);
    let mv = b.new_move(E7, E8).unwrap();
    assert_eq!(mv.get_from(), E7);
    assert_eq!(mv.get_to(), E8);
    assert_eq!(mv.get_piece(), Piece::WhitePawn);
    assert!(!mv.is_capture());
    assert_eq!(mv.get_promotion(), Some(Piece::WhiteQueen));
}

#[test]
fn new_move_from_pure_text() {
    let keys = Keys::new();
    let b = board("6k1/4P3/8/8/8/8/8/4K3 w - - 0 1", &keys);
    assert_eq!(
        b.new_move_from_pure("e7e8n"),
        Some(Move::new(E7, E8, Some(WhiteKnight), WhitePawn, false))
    );
    assert_eq!(b.new_move_from_pure("e7e8"), None);
    assert_eq!(b.new_move_from_pure("e7e8x"), None);
    assert_eq!(b.new_move_from_pure("a1a2"), None);
    assert_eq!(b.new_move_from_pure("e1"), None);
    assert_eq!(
        b.new_move_from_pure("e1d1"),
        Some(Move::quiet(E1, D1, WhiteKing))
    );
    assert_eq!(b.find_piece_on(G8), Some(BlackKing));
    assert_eq!(b.find_piece_on(A1), None);
}

#[test]
fn board_drawing() {
    let keys = Keys::new();
    let b = Board::initial_board(&keys);
    let text = b.write();
    assert!(text.starts_with("  8  r n b q k b n r\n"));
    assert!(text.contains("  1  R N B Q K B N R\n =>  a b c d e f g h\n\nFEN: "));
    assert!(text.ends_with(&format!("{}\n", START_POSITION)));
}

#[test]
fn test_create_rank() {
    let rank = [
        Some(WhiteRook),
        Some(WhiteKnight),
        Some(WhiteBishop),
        Some(WhiteQueen),
        Some(WhiteKing),
        Some(WhiteBishop),
        Some(WhiteKnight),
        Some(WhiteRook),
    ];
    assert_eq!(fen::create_rank(&rank), "RNBQKBNR");

    let rank = [None; 8];
    assert_eq!(fen::create_rank(&rank), "8");

    let rank = [None, None, None, None, Some(WhitePawn), None, None, None];
    assert_eq!(fen::create_rank(&rank), "4P3");

    let rank = [
        Some(WhiteRook),
        None,
        None,
        None,
        Some(WhitePawn),
        None,
        None,
        Some(BlackKing),
    ];
    assert_eq!(fen::create_rank(&rank), "R3P2k");
}

#[test]
fn fen_test_create_rank() {
    let rank = [None, Some(BlackPawn), None, None, None, None, None, None];
    assert_eq!(fen::create_rank(&rank), "1p6");
}

#[test]
fn test_create_starting_position() {
    let piece_placement = Piece::build_list_board(
        "rnbqkbnr pppppppp ........ ........ ........ ........ PPPPPPPP RNBQKBNR",
    );
    let castling_ability = [WhiteKing, WhiteQueen, BlackKing, BlackQueen];
    let fen = fen::create(&piece_placement, Color::White, &castling_ability, None, 0, 1);
    assert_eq!(fen, START_POSITION);
}

#[test]
fn test_create_rank_starting_position() {
    let piece_placement = Piece::build_list_board(
        "rnbqkbnr pppppppp ........ ........ ........ ........ PPPPPPPP RNBQKBNR",
    );
    let castling_ability = [WhiteKing, WhiteQueen, BlackKing, BlackQueen];
    let fen = fen::create(&piece_placement, Color::White, &castling_ability, None, 0, 1);
    assert_eq!(
        fen,
        "rnbqkbnr/pppppppp/8/8/8/8/PPPPPPPP/RNBQKBNR w KQkq - 0 1"
    );
}

#[test]
fn test_create_2nd_position() {
    let piece_placement = Piece::build_list_board(
        "rnbqkbnr pp.ppppp ........ ..p..... ....P... ........ PPPP.PPP RNBQKBNR",
    );
    let castling_ability = [WhiteKing, WhiteQueen, BlackKing, BlackQueen];
    let fen = fen::create(&piece_placement, Color::White, &castling_ability, Some(C6), 0, 2);
    assert_eq!(
        fen,
        "rnbqkbnr/pp1ppppp/8/2p5/4P3/8/PPPP1PPP/RNBQKBNR w KQkq c6 0 2"
    );
}

#[test]
fn test_create_rank_2nd_position() {
    let piece_placement = Piece::build_list_board(
        "rnbqkbnr pp.ppppp ........ ..p..... ....P... ........ PPPP.PPP RNBQKBNR",
    );
    let castling_ability = [WhiteKing, WhiteQueen, BlackKing, BlackQueen];
    let fen = fen::create(&piece_placement, Color::White, &castling_ability, Some(C6), 0, 2);
    assert_eq!(
        fen,
        "rnbqkbnr/pp1ppppp/8/2p5/4P3/8/PPPP1PPP/RNBQKBNR w KQkq c6 0 2"
    );
}

#[test]
fn fen_test_parse_starting_position() {
    let fen = "rnbqkbnr/pppppppp/8/8/8/8/PPPPPPPP/RNBQKBNR w KQkq - 0 1";
    let (pieces, side, castling, en_passant, half_move, full_move) = fen::parse(fen).unwrap();

    assert_eq!(pieces.len(), 64);
    assert_eq!(
        pieces,
        Piece::build_list_board(
            "rnbqkbnr pppppppp ........ ........ ........ ........ PPPPPPPP RNBQKBNR",
        )
    );
    assert_eq!(side, Color::White);
    assert_eq!(castling.len(), 4);
    assert!(castling.contains(&Piece::WhiteKing));
    assert!(castling.contains(&Piece::WhiteQueen));
    assert!(castling.contains(&Piece::BlackKing));
    assert!(castling.contains(&Piece::BlackQueen));
    assert_eq!(en_passant, None);
    assert_eq!(half_move, 0);
    assert_eq!(full_move, 1);
}

#[test]
fn fen_test_parse_middle_game_position() {
    let fen = "r1bqkbnr/pppppppp/2n5/8/4P3/5N2/PPPP1PPP/RNBQKB1R b KQkq e3 0 3";
    let (pieces, side, castling, en_passant, half_move, full_move) = fen::parse(fen).unwrap();

    assert_eq!(pieces.len(), 64);
    assert_eq!(
        pieces,
        Piece::build_list_board(
            "r.bqkbnr pppppppp ..n..... ........ ....P... .....N.. PPPP.PPP RNBQKB.R",
        )
    );
    assert_eq!(side, Color::Black);
    assert_eq!(castling.len(), 4);
    assert!(castling.contains(&Piece::WhiteKing));
    assert!(castling.contains(&Piece::WhiteQueen));
    assert!(castling.contains(&Piece::BlackKing));
    assert!(castling.contains(&Piece::BlackQueen));
    assert_eq!(en_passant, Some(kaik::squares::Square::parse("e3").unwrap()));
    assert_eq!(half_move, 0);
    assert_eq!(full_move, 3);
}

#[test]
fn fen_test_parse_end_game_position() {
    let fen = "8/8/8/8/8/8/8/8 w - - 0 1";
    let (pieces, side, castling, en_passant, half_move, full_move) = fen::parse(fen).unwrap();

    assert_eq!(pieces.len(), 64);
    assert!(pieces.iter().all(|p| p.is_none()));
    assert_eq!(side, Color::White);
    assert_eq!(castling.len(), 0);
    assert_eq!(en_passant, None);
    assert_eq!(half_move, 0);
    assert_eq!(full_move, 1);
}

#[test]
fn fen_test_parse_invalid_fen() {
    assert_eq!(fen::parse("invalid fen string"), Err(FenError::FieldCount));
}

#[test]
fn parse_pieces_defaults() {
    let (pieces, side, castling, en_passant, half_move, full_move) =
        fen::parse_pieces("8/8/8/8/8/8/8/4K3").unwrap();
    assert_eq!(pieces[60], Some(WhiteKing));
    assert_eq!(side, Color::White);
    assert_eq!(castling, vec![WhiteKing, WhiteQueen, BlackKing, BlackQueen]);
    assert_eq!(en_passant, None);
    assert_eq!((half_move, full_move), (0, 1));
}
