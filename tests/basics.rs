use kaik::castling::CastlingAbility;
use kaik::colors::Color;
use kaik::eval::{MAX_SCORE, MIN_SCORE};
use kaik::moves::{format_moves_as_pure_string, Move};
use kaik::pieces::Piece;
use kaik::squares::Square;

#[test]
fn test_min_max_score() {
    assert_eq!(-MIN_SCORE, MAX_SCORE);
    assert_eq!(-MAX_SCORE, MIN_SCORE);
}

#[test]
fn test_order() {
    assert_eq!(Piece::WhitePawn.index(), 0);
    assert_eq!(Piece::BlackPawn.index(), 1);
    assert_eq!(Piece::WhiteKnight.index(), 2);
    assert_eq!(Piece::BlackKnight.index(), 3);
    assert_eq!(Piece::WhiteBishop.index(), 4);
    assert_eq!(Piece::BlackBishop.index(), 5);
    assert_eq!(Piece::WhiteRook.index(), 6);
    assert_eq!(Piece::BlackRook.index(), 7);
    assert_eq!(Piece::WhiteQueen.index(), 8);
    assert_eq!(Piece::BlackQueen.index(), 9);
    assert_eq!(Piece::WhiteKing.index(), 10);
    assert_eq!(Piece::BlackKing.index(), 11);
}

#[test]
fn piece_helpers() {
    assert_eq!(Piece::get_rook_of(Color::Black), Piece::BlackRook);
    assert_eq!(Piece::get_king_of(Color::White), Piece::WhiteKing);
    assert_eq!(Piece::BlackKnight.get_color(), Color::Black);
    assert!(Piece::WhiteQueen.is_queen());
    assert!(!Piece::WhiteQueen.is_rook());
    assert_eq!(Piece::from_char('n'), Some(Piece::BlackKnight));
    assert_eq!(Piece::from_char('x'), None);
    assert_eq!(Piece::WhiteKing.as_unicode(), '\u{2654}');
    assert_eq!(Piece::BlackPawn.as_unicode(), '\u{265f}');
    assert_eq!(
        Piece::build_list_board("Kq. x\nP"),
        vec![
            Some(Piece::WhiteKing),
            Some(Piece::BlackQueen),
            None,
            Some(Piece::WhitePawn)
        ]
    );
    assert_eq!(Color::White.opposite(), Color::Black);
    assert_eq!(Color::new(1), Color::Black);
}

#[test]
fn test_from_u8() {
    assert_eq!(Square::from_index(32), Square::A5);
    assert_eq!(Square::new(4, 0), Square::A5);
    assert_eq!(Square::new(2, 2), Square::C3);
}

#[test]
fn squares_test_get_rank() {
    assert_eq!(Square::A1.get_rank(), 0);
    assert_eq!(Square::B3.get_rank(), 2);
    assert_eq!(Square::H8.get_rank(), 7);
}

#[test]
fn squares_test_get_file() {
    assert_eq!(Square::A1.get_file(), 0);
    assert_eq!(Square::B5.get_file(), 1);
    assert_eq!(Square::C1.get_file(), 2);
    assert_eq!(Square::D8.get_file(), 3);
    assert_eq!(Square::E7.get_file(), 4);
    assert_eq!(Square::F3.get_file(), 5);
    assert_eq!(Square::G6.get_file(), 6);
    assert_eq!(Square::H8.get_file(), 7);
}

#[test]
fn square_names() {
    assert_eq!(Square::E4.name(), "e4");
    assert_eq!(Square::parse("e3"), Some(Square::E3));
    assert_eq!(Square::parse("H8"), Some(Square::H8));
    assert_eq!(Square::parse("i1"), None);
    assert_eq!(Square::parse("e33"), None);
}

#[test]
fn test_castling_ability() {
    let all = CastlingAbility::all();
    assert!(all.white_can_castle_king_side());
    assert!(all.white_can_castle_queen_side());
    assert!(all.black_can_castle_king_side());
    assert!(all.black_can_castle_queen_side());

    let none = CastlingAbility::none();
    assert!(!none.white_can_castle_king_side());
    assert!(!none.white_can_castle_queen_side());
    assert!(!none.black_can_castle_king_side());
    assert!(!none.black_can_castle_queen_side());
    assert!(!none.any());
}

#[test]
fn test_clear_white_king() {
    let mut castling_ability = CastlingAbility::all();
    castling_ability.clear(Square::E1);
    assert!(!castling_ability.white_can_castle_king_side());
    assert!(!castling_ability.white_can_castle_queen_side());
    assert!(castling_ability.black_can_castle_king_side());
    assert!(castling_ability.black_can_castle_queen_side());
}

#[test]
fn test_clear_white_rooks() {
    let mut castling_ability = CastlingAbility::all();
    castling_ability.clear(Square::A1);
    assert!(castling_ability.white_can_castle_king_side());
    assert!(!castling_ability.white_can_castle_queen_side());
    castling_ability.clear(Square::H1);
    assert!(!castling_ability.white_can_castle_king_side());
    assert!(!castling_ability.white_can_castle_queen_side());
    assert!(castling_ability.black_can_castle_king_side());
    assert!(castling_ability.black_can_castle_queen_side());
}

#[test]
fn test_clear_black_king() {
    let mut castling_ability = CastlingAbility::all();
    castling_ability.clear(Square::E8);
    assert!(castling_ability.white_can_castle_king_side());
    assert!(castling_ability.white_can_castle_queen_side());
    assert!(!castling_ability.black_can_castle_king_side());
    assert!(!castling_ability.black_can_castle_queen_side());
}

#[test]
fn test_clear_black_queen_side() {
    let mut castling_ability = CastlingAbility::all();
    castling_ability.clear(Square::A8);
    assert!(castling_ability.white_can_castle_king_side());
    assert!(castling_ability.white_can_castle_queen_side());
    assert!(castling_ability.black_can_castle_king_side());
    assert!(!castling_ability.black_can_castle_queen_side());
}

#[test]
fn castling_from_pieces() {
    let c = CastlingAbility::new(&[Piece::WhiteKing, Piece::BlackQueen]);
    assert_eq!(c.0, 0b1001);
    assert!(c.can_castle_king_side(Color::White));
    assert!(!c.can_castle_queen_side(Color::White));
    assert!(c.can_castle_queen_side(Color::Black));
    assert_eq!(c.as_pieces_iter(), vec![Piece::WhiteKing, Piece::BlackQueen]);
}

#[test]
fn test_move_new() {
    let mv = Move::new(Square::E2, Square::E4, None, Piece::WhitePawn, false);
    assert_eq!(mv.get_from(), Square::E2);
    assert_eq!(mv.get_to(), Square::E4);
    assert_eq!(mv.get_promotion(), None);
    assert_eq!(mv.get_piece(), Piece::WhitePawn);
    assert_eq!(mv.is_capture(), false);
}

#[test]
fn test_move_quiet() {
    let mv = Move::quiet(Square::E2, Square::E4, Piece::WhitePawn);
    assert_eq!(mv.get_from(), Square::E2);
    assert_eq!(mv.get_to(), Square::E4);
    assert_eq!(mv.get_promotion(), None);
    assert_eq!(mv.get_piece(), Piece::WhitePawn);
    assert_eq!(mv.is_capture(), false);
}

#[test]
fn test_move_capture() {
    let mv = Move::capture(Square::E2, Square::E4, Piece::WhitePawn);
    assert_eq!(mv.get_from(), Square::E2);
    assert_eq!(mv.get_to(), Square::E4);
    assert_eq!(mv.get_promotion(), None);
    assert_eq!(mv.get_piece(), Piece::WhitePawn);
    assert_eq!(mv.is_capture(), true);
}

#[test]
fn test_is_pawn_double_push() {
    let mv = Move::quiet(Square::E2, Square::E4, Piece::WhitePawn);
    assert!(mv.is_pawn_double_push());
    let mv = Move::quiet(Square::E2, Square::E3, Piece::WhitePawn);
    assert!(!mv.is_pawn_double_push());
}

#[test]
fn test_get_en_passant_target_square() {
    let mv = Move::quiet(Square::E2, Square::E4, Piece::WhitePawn);
    assert_eq!(mv.get_en_passant_target_square(), Some(Square::E3));
    let mv = Move::quiet(Square::E2, Square::E3, Piece::WhitePawn);
    assert_eq!(mv.get_en_passant_target_square(), None);
}

#[test]
fn test_get_castling_rook_move() {
    let mv = Move::quiet(Square::E1, Square::G1, Piece::WhiteKing);
    assert_eq!(
        mv.get_castling_rook_move(),
        Some(Move::quiet(Square::H1, Square::F1, Piece::WhiteRook))
    );
    let mv = Move::quiet(Square::E1, Square::C1, Piece::WhiteKing);
    assert_eq!(
        mv.get_castling_rook_move(),
        Some(Move::quiet(Square::A1, Square::D1, Piece::WhiteRook))
    );
    let mv = Move::quiet(Square::E8, Square::G8, Piece::BlackKing);
    assert_eq!(
        mv.get_castling_rook_move(),
        Some(Move::quiet(Square::H8, Square::F8, Piece::BlackRook))
    );
    let mv = Move::quiet(Square::E8, Square::C8, Piece::BlackKing);
    assert_eq!(
        mv.get_castling_rook_move(),
        Some(Move::quiet(Square::A8, Square::D8, Piece::BlackRook))
    );
}

#[test]
fn test_fmt_as_pure() {
    let mv = Move::quiet(Square::E2, Square::E4, Piece::WhitePawn);
    assert_eq!(mv.pure(), "e2e4");
    let mv = Move::new(
        Square::E7,
        Square::E8,
        Some(Piece::WhiteQueen),
        Piece::WhitePawn,
        false,
    );
    assert_eq!(mv.pure(), "e7e8q");
}

#[test]
fn test_fmt_as_lan() {
    let mv = Move::quiet(Square::E2, Square::E4, Piece::WhitePawn);
    assert_eq!(mv.lan(), "E2-E4");
    let mv = Move::capture(Square::E2, Square::E4, Piece::WhitePawn);
    assert_eq!(mv.lan(), "E2xE4");
    let mv = Move::new(
        Square::E7,
        Square::E8,
        Some(Piece::WhiteQueen),
        Piece::WhitePawn,
        false,
    );
    assert_eq!(mv.lan(), "E7-E8Q");
}

#[test]
fn test_format_moves_as_string() {
    let moves = [
        Move::quiet(Square::E2, Square::E4, Piece::WhitePawn),
        Move::capture(Square::D7, Square::D8, Piece::BlackPawn),
    ];
    assert_eq!(format_moves_as_pure_string(&moves), "e2e4 d7d8");
    assert_eq!(format_moves_as_pure_string(&[]), "");
}
