use kaik::bitboard::{self, BitBoard};
use kaik::movements::{
    get_king_moves, get_knight_moves, get_white_pawn_moves, MASK_RANK_3, NOT_A_FILE, NOT_H_FILE,
};
use kaik::sliding::{
    anti_diagonal_mask, diagonal_mask, file_mask, generate_rank_attack_mask, get_bishop_attacks,
    get_rook_attacks, rank_mask,
};
use kaik::squares::Square;

const SAMPLE_BB: &str = r"
        . . . . . . . .
        . . 1 . 1 . . .
        . 1 . . . 1 . .
        . . . . . . . .
        . 1 . . . 1 . .
        . . 1 . 1 . . .
        . . . . . . . .
        . . . . . . . .";

#[test]
fn bitboard_test_from_square() {
    let bb = bitboard::from_square(Square::C3);
    assert_eq!(
        bb,
        0b0000_0000_0000_0000_0000_0000_0000_0000_0000_0000_0000_0100_0000_0000_0000_0000
    );
}

#[test]
fn bitboard_test_get_index() {
    let bb = BitBoard::new(bitboard::from_str(SAMPLE_BB));
    assert_eq!(bb.get_index(), 18);
}

#[test]
fn bitboard_test_ls1b() {
    let bb = BitBoard::new(bitboard::from_str(SAMPLE_BB));
    assert_eq!(
        bb.get_ls1b().0,
        bitboard::from_str(
            r"
            . . . . . . . .
            . . . . . . . .
            . . . . . . . .
            . . . . . . . .
            . . . . . . . .
            . . 1 . . . . .
            . . . . . . . .
            . . . . . . . ."
        )
    );
}

#[test]
fn test_neg() {
    let x = BitBoard::new(bitboard::from_str(SAMPLE_BB));
    assert_eq!(
        x.wrapping_neg().0,
        bitboard::from_str(
            r"
                1 1 1 1 1 1 1 1
                1 1 . 1 . 1 1 1
                1 . 1 1 1 . 1 1
                1 1 1 1 1 1 1 1
                1 . 1 1 1 . 1 1
                . . 1 1 . 1 1 1
                . . . . . . . .
                . . . . . . . ."
        )
    );
}

#[test]
fn bitboard_test_subtraction() {
    let x = BitBoard::new(bitboard::from_str(SAMPLE_BB));
    let one = BitBoard::new(1);
    assert_eq!(
        x.wrapping_sub(one).0,
        bitboard::from_str(
            r"
            . . . . . . . .
            . . 1 . 1 . . .
            . 1 . . . 1 . .
            . . . . . . . .
            . 1 . . . 1 . .
            1 1 . . 1 . . .
            1 1 1 1 1 1 1 1
            1 1 1 1 1 1 1 1"
        )
    );
}

#[test]
fn bb_type_test_create_set() {
    let black_pawns = BitBoard::new(71776119061217280);
    let mut b = BitBoard::new(0);
    for square in [
        Square::A7,
        Square::B7,
        Square::C7,
        Square::D7,
        Square::E7,
        Square::F7,
        Square::G7,
        Square::H7,
    ] {
        b.set(square.index());
    }
    assert_eq!(b, black_pawns);
}

#[test]
fn bitboard_type_test_create_set() {
    let black_pawns = BitBoard::new(71776119061217280);
    let mut b = BitBoard::new(0);
    for square in [
        Square::A7,
        Square::B7,
        Square::C7,
        Square::D7,
        Square::E7,
        Square::F7,
        Square::G7,
        Square::H7,
    ] {
        b.set(square.index());
    }
    assert_eq!(b, black_pawns);
    b.clear(Square::A7.index());
    assert!(!b.is_set(Square::A7.index()));
    assert!(b.is_set(Square::B7.index()));
    assert!(!b.is_null());
    assert!(b.intersects(BitBoard::new(1 << 49)));
    assert!(!b.contains(BitBoard::new(1)));
}

#[test]
fn bb_type_test_from_str() {
    let not_a_file = bitboard::from_str(
        r"0 1 1 1 1 1 1 1
        0 1 1 1 1 1 1 1
        0 1 1 1 1 1 1 1
        0 1 1 1 1 1 1 1
        0 1 1 1 1 1 1 1
        0 1 1 1 1 1 1 1
        0 1 1 1 1 1 1 1
        0 1 1 1 1 1 1 1",
    );
    assert_eq!(not_a_file, 18374403900871474942);
}

#[test]
fn debug_test_from_str() {
    let not_a_file = bitboard::from_str(
        r"0 1 1 1 1 1 1 1
            0 1 1 1 1 1 1 1
            0 1 1 1 1 1 1 1
            0 1 1 1 1 1 1 1
            0 1 1 1 1 1 1 1
            0 1 1 1 1 1 1 1
            0 1 1 1 1 1 1 1
            0 1 1 1 1 1 1 1",
    );
    assert_eq!(not_a_file, 18374403900871474942);
}

#[test]
fn bb_type_test_from_square() {
    let bb = BitBoard::new(bitboard::from_square(Square::C3));
    assert_eq!(
        bb.0,
        0b0000_0000_0000_0000_0000_0000_0000_0000_0000_0000_0000_0100_0000_0000_0000_0000
    );
}

#[test]
fn bitboard_type_test_from_square() {
    let bb = BitBoard::new(bitboard::from_square(Square::C3));
    assert_eq!(bb.0, 1 << 18);
}

#[test]
fn bb_type_test_get_index() {
    let x = BitBoard::new(bitboard::from_str(SAMPLE_BB));
    assert_eq!(x.get_index(), 18);
}

#[test]
fn bitboard_type_test_get_index() {
    let x = BitBoard::new(bitboard::from_str(SAMPLE_BB));
    assert_eq!(x.get_index(), 18);
    assert_eq!(BitBoard::new(0).get_index(), 64);
}

#[test]
fn bb_type_test_subtraction() {
    let x = BitBoard::new(bitboard::from_str(SAMPLE_BB));
    assert_eq!(x.wrapping_sub(BitBoard::new(1)).0, x.0 - 1);
}

#[test]
fn bitboard_type_test_subtraction() {
    let x = BitBoard::new(0);
    assert_eq!(x.wrapping_sub(BitBoard::new(1)).0, u64::MAX);
}

#[test]
fn bb_type_test_ls1b() {
    let x = BitBoard::new(bitboard::from_str(SAMPLE_BB));
    assert_eq!(x.get_ls1b().0, 1 << 18);
    assert_eq!(x.reset_ls1b().0, x.0 & !(1 << 18));
}

#[test]
fn bitboard_type_test_ls1b() {
    let x = BitBoard::new(bitboard::from_str(SAMPLE_BB));
    let mut it = x.into_iter();
    let mut seen = Vec::new();
    while let Some(b) = it.next() {
        seen.push(b.get_index());
    }
    assert_eq!(seen, vec![18, 20, 25, 29, 41, 45, 50, 52]);
}

#[test]
fn constants_test_clipping_bitboards() {
    assert_eq!(
        NOT_A_FILE,
        bitboard::from_str(
            r"0 1 1 1 1 1 1 1
              0 1 1 1 1 1 1 1
              0 1 1 1 1 1 1 1
              0 1 1 1 1 1 1 1
              0 1 1 1 1 1 1 1
              0 1 1 1 1 1 1 1
              0 1 1 1 1 1 1 1
              0 1 1 1 1 1 1 1"
        )
    );
    assert_eq!(
        NOT_H_FILE,
        bitboard::from_str(
            r"1 1 1 1 1 1 1 0
              1 1 1 1 1 1 1 0
              1 1 1 1 1 1 1 0
              1 1 1 1 1 1 1 0
              1 1 1 1 1 1 1 0
              1 1 1 1 1 1 1 0
              1 1 1 1 1 1 1 0
              1 1 1 1 1 1 1 0"
        )
    );
}

#[test]
fn test_clear_file() {
    assert_eq!(NOT_A_FILE & 0x0101_0101_0101_0101, 0);
    assert_eq!(NOT_H_FILE & 0x8080_8080_8080_8080, 0);
}

#[test]
fn constants_test_masks() {
    assert_eq!(
        MASK_RANK_3,
        bitboard::from_str(
            r"0 0 0 0 0 0 0 0
              0 0 0 0 0 0 0 0
              0 0 0 0 0 0 0 0
              0 0 0 0 0 0 0 0
              0 0 0 0 0 0 0 0
              1 1 1 1 1 1 1 1
              0 0 0 0 0 0 0 0
              0 0 0 0 0 0 0 0"
        )
    );
}

#[test]
fn movements_test_king_moves_empty_board() {
    let king = bitboard::from_square(Square::E1);
    let moves = get_king_moves(king, 0);
    assert_eq!(
        moves,
        bitboard::from_str(
            r"
            0 0 0 0 0 0 0 0
            0 0 0 0 0 0 0 0
            0 0 0 0 0 0 0 0
            0 0 0 0 0 0 0 0
            0 0 0 0 0 0 0 0
            0 0 0 0 0 0 0 0
            0 0 0 1 1 1 0 0
            0 0 0 1 0 1 0 0"
        )
    );

    let king = bitboard::from_square(Square::H4);
    let moves = get_king_moves(king, 0);
    assert_eq!(
        moves,
        bitboard::from_str(
            r"
            0 0 0 0 0 0 0 0
            0 0 0 0 0 0 0 0
            0 0 0 0 0 0 0 0
            0 0 0 0 0 0 1 1
            0 0 0 0 0 0 1 0
            0 0 0 0 0 0 1 1
            0 0 0 0 0 0 0 0
            0 0 0 0 0 0 0 0"
        )
    );

    let king = bitboard::from_square(Square::A8);
    let moves = get_king_moves(king, 0);
    assert_eq!(
        moves,
        bitboard::from_str(
            r"
            0 1 0 0 0 0 0 0
            1 1 0 0 0 0 0 0
            0 0 0 0 0 0 0 0
            0 0 0 0 0 0 0 0
            0 0 0 0 0 0 0 0
            0 0 0 0 0 0 0 0
            0 0 0 0 0 0 0 0
            0 0 0 0 0 0 0 0"
        )
    );
}

#[test]
fn movements_test_king_moves_not_empty_board() {
    let king = bitboard::from_square(Square::E1);
    let own_pieces = bitboard::from_square(Square::D2) | bitboard::from_square(Square::F1);
    let moves = get_king_moves(king, own_pieces);
    assert_eq!(
        moves,
        bitboard::from_str(
            r"
            0 0 0 0 0 0 0 0
            0 0 0 0 0 0 0 0
            0 0 0 0 0 0 0 0
            0 0 0 0 0 0 0 0
            0 0 0 0 0 0 0 0
            0 0 0 0 0 0 0 0
            0 0 0 0 1 1 0 0
            0 0 0 1 0 0 0 0"
        )
    );
}

#[test]
fn test_knight_moves() {
    let knight = bitboard::from_square(Square::B4);
    let own_pieces = bitboard::from_square(Square::D4)
        | bitboard::from_square(Square::A2)
        | bitboard::from_square(Square::D1);
    let moves = get_knight_moves(knight, own_pieces);
    assert_eq!(
        moves,
        bitboard::from_str(
            r"
            0 0 0 0 0 0 0 0
            0 0 0 0 0 0 0 0
            1 0 1 0 0 0 0 0
            0 0 0 1 0 0 0 0
            0 0 0 0 0 0 0 0
            0 0 0 1 0 0 0 0
            0 0 1 0 0 0 0 0
            0 0 0 0 0 0 0 0"
        )
    );
}

#[test]
fn movements_test_white_pawn_moves() {
    let pawns = bitboard::from_str(
        r"
            0 0 0 0 0 0 0 0
            0 0 0 0 0 0 0 0
            0 0 0 0 0 0 0 0
            0 0 0 0 0 0 0 0
            0 0 0 0 0 0 0 0
            0 0 0 0 0 0 1 0
            1 1 1 1 1 1 1 1
            0 0 0 0 0 0 0 0",
    );
    let all_pieces = bitboard::from_str(
        r"
            0 0 0 0 0 0 0 0
            0 0 0 0 0 0 0 0
            0 0 0 0 0 0 0 0
            0 0 0 0 0 0 0 0
            0 0 0 0 1 0 0 0
            1 0 1 1 0 0 1 0
            1 1 1 1 1 1 1 1
            0 0 0 0 0 0 0 0",
    );
    let all_black_pieces = bitboard::from_str(
        r"
            0 0 0 0 0 0 0 0
            0 0 0 0 0 0 0 0
            0 0 0 0 0 0 0 0
            0 0 0 0 0 0 0 0
            0 0 0 0 0 0 0 0
            1 0 1 0 0 0 0 0
            0 0 0 0 0 0 0 0
            0 0 0 0 0 0 0 0",
    );
    let moves = get_white_pawn_moves(pawns, all_pieces, all_black_pieces);
    assert_eq!(
        moves,
        bitboard::from_str(
            r"
            0 0 0 0 0 0 0 0
            0 0 0 0 0 0 0 0
            0 0 0 0 0 0 0 0
            0 0 0 0 0 0 0 0
            0 1 0 0 0 1 1 1
            1 1 1 0 1 1 0 1
            0 0 0 0 0 0 0 0
            0 0 0 0 0 0 0 0"
        )
    );
}

#[test]
fn sliding_pieces_with_hq_test_masks() {
    const C5: u64 = 34;
    assert_eq!(rank_mask(C5), 1095216660480);
    assert_eq!(file_mask(C5), 289360691352306692);
    assert_eq!(diagonal_mask(C5), 2310355422147575808);
    assert_eq!(anti_diagonal_mask(C5), 283691315109952);
}

#[test]
fn test_bishop_attacks() {
    const C5: u8 = 34;
    let occupancy = bitboard::from_str(
        r"
            . . . . . 1 . .
            . . . . 1 . . .
            . 1 . . . . . .
            . . 1 . . . . .
            . . . . . . . .
            . . . . 1 . 1 .
            1 1 1 1 1 . 1 1
            . . . . . . 1 .",
    );
    let attacks = get_bishop_attacks(occupancy, C5);
    assert_eq!(
        attacks,
        bitboard::from_str(
            r"
            . . . . . . . .
            . . . . 1 . . .
            . 1 . 1 . . . .
            . . . . . . . .
            . 1 . 1 . . . .
            1 . . . 1 . . .
            . . . . . . . .
            . . . . . . . .
            "
        )
    );
}

#[test]
fn test_rook_attacks() {
    const C5: u8 = 34;
    let occupancy = bitboard::from_str(
        r"
            . . . . . 1 . .
            . . . . 1 . . .
            . 1 . . . . . .
            . . 1 . . 1 . .
            . . . . . . . .
            . . . . 1 . 1 .
            1 1 1 1 1 . 1 1
            . . . . . . 1 .",
    );
    let attacks = get_rook_attacks(occupancy, C5);
    assert_eq!(
        attacks,
        bitboard::from_str(
            r"
            . . 1 . . . . .
            . . 1 . . . . .
            . . 1 . . . . .
            1 1 . 1 1 1 . .
            . . 1 . . . . .
            . . 1 . . . . .
            . . 1 . . . . .
            . . . . . . . .
            "
        )
    );
}

#[test]
fn rank_attack_mask_stops_at_first_blocker() {
    // Slider on file d (3), blockers on b (1) and g (6).
    let occ = (1 << 1) | (1 << 6);
    assert_eq!(generate_rank_attack_mask(occ, 3), 0b0111_0110);
    assert_eq!(generate_rank_attack_mask(0, 0), 0b1111_1110);
}
