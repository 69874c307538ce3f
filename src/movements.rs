//! Attack and move sets of each kind of piece, computed on whole sets of squares.
use crate::colors::Color;
use crate::sliding::{self, bishop_attacks_spec, rook_attacks_spec};
use vstd::prelude::*;

verus! {

/// Every file but A.
pub const NOT_A_FILE: u64 = 18374403900871474942;

/// Every file but H.
pub const NOT_H_FILE: u64 = 9187201950435737471;

/// Every file but G and H.
pub const NOT_HG_FILE: u64 = 4557430888798830399;

/// Every file but A and B.
pub const NOT_AB_FILE: u64 = 18229723555195321596;

/// Rank 3.
pub const MASK_RANK_3: u64 = 16711680;

/// Rank 6.
pub const MASK_RANK_6: u64 = 280375465082880;

/// The squares between king and rook for king-side castling: F1 G1, then F8 G8.
pub const CASTLING_KING_SIDE_WHITE: u64 = 0b0110_0000;

pub const CASTLING_KING_SIDE_BLACK: u64 = 0x6000_0000_0000_0000;

/// The squares between king and rook for queen-side castling: B1 C1 D1, then B8 C8 D8.
pub const CASTLING_QUEEN_SIDE_WHITE: u64 = 0b0000_1110;

pub const CASTLING_QUEEN_SIDE_BLACK: u64 = 0x0E00_0000_0000_0000;

/// The squares a king on any square of `b` attacks: shifts by 1, 7, 8 and 9 both ways,
/// with the files that would wrap around masked out first.
pub open spec fn king_attacks_spec(b: u64) -> u64 {
    let h = b & NOT_H_FILE;
    let a = b & NOT_A_FILE;
    (a << 7u64) | (b << 8u64) | (h << 9u64) | (h << 1u64) | (h >> 7u64) | (b >> 8u64) | (a >> 9u64) | (a
        >> 1u64)
}

/// The squares a knight on any square of `b` attacks: shifts by 6, 10, 15 and 17 both
/// ways, with the files that would wrap around masked out first.
pub open spec fn knight_attacks_spec(b: u64) -> u64 {
    let ab = b & NOT_AB_FILE;
    let a = b & NOT_A_FILE;
    let h = b & NOT_H_FILE;
    let hg = b & NOT_HG_FILE;
    (ab << 6u64) | (a << 15u64) | (h << 17u64) | (hg << 10u64) | (hg >> 6u64) | (h >> 15u64) | (a
        >> 17u64) | (ab >> 10u64)
}

/// The squares white pawns on `b` attack: one rank up, one file aside.
pub open spec fn white_pawn_attacks_spec(b: u64) -> u64 {
    ((b & NOT_A_FILE) << 7u64) | ((b & NOT_H_FILE) << 9u64)
}

/// The squares black pawns on `b` attack: one rank down, one file aside.
pub open spec fn black_pawn_attacks_spec(b: u64) -> u64 {
    ((b & NOT_A_FILE) >> 9u64) | ((b & NOT_H_FILE) >> 7u64)
}

pub open spec fn pawn_attacks_spec(color: Color, b: u64) -> u64 {
    if color == Color::White {
        white_pawn_attacks_spec(b)
    } else {
        black_pawn_attacks_spec(b)
    }
}

/// White pawn pushes: one step to an empty square, and a second one from rank 3 (so
/// from the home rank) to an empty square.
pub open spec fn white_pawn_pushes_spec(b: u64, all: u64) -> u64 {
    let one = (b << 8u64) & !all;
    let two = ((one & MASK_RANK_3) << 8u64) & !all;
    one | two
}

/// Black pawn pushes, as for White but downwards and through rank 6.
pub open spec fn black_pawn_pushes_spec(b: u64, all: u64) -> u64 {
    let one = (b >> 8u64) & !all;
    let two = ((one & MASK_RANK_6) >> 8u64) & !all;
    one | two
}

pub fn get_king_attacks(king_pos: u64) -> (r: u64)
    ensures
        r == king_attacks_spec(king_pos),
{
    let king_clip_file_h = king_pos & NOT_H_FILE;
    let king_clip_file_a = king_pos & NOT_A_FILE;

    let spot_1 = king_clip_file_a << 7u64;
    let spot_2 = king_pos << 8u64;
    let spot_3 = king_clip_file_h << 9u64;
    let spot_4 = king_clip_file_h << 1u64;

    let spot_5 = king_clip_file_h >> 7u64;
    let spot_6 = king_pos >> 8u64;
    let spot_7 = king_clip_file_a >> 9u64;
    let spot_8 = king_clip_file_a >> 1u64;

    spot_1 | spot_2 | spot_3 | spot_4 | spot_5 | spot_6 | spot_7 | spot_8
}

pub fn get_king_moves(king_pos: u64, own_pieces: u64) -> (r: u64)
    ensures
        r == king_attacks_spec(king_pos) & !own_pieces,
{
    get_king_attacks(king_pos) & !own_pieces
}

pub fn get_knight_attacks(knights_pos: u64) -> (r: u64)
    ensures
        r == knight_attacks_spec(knights_pos),
{
    let knight_clip_file_ab = knights_pos & NOT_AB_FILE;
    let knight_clip_file_a = knights_pos & NOT_A_FILE;
    let knight_clip_file_h = knights_pos & NOT_H_FILE;
    let knight_clip_file_hg = knights_pos & NOT_HG_FILE;

    let spot_1 = knight_clip_file_ab << 6u64;
    let spot_2 = knight_clip_file_a << 15u64;
    let spot_3 = knight_clip_file_h << 17u64;
    let spot_4 = knight_clip_file_hg << 10u64;

    let spot_5 = knight_clip_file_hg >> 6u64;
    let spot_6 = knight_clip_file_h >> 15u64;
    let spot_7 = knight_clip_file_a >> 17u64;
    let spot_8 = knight_clip_file_ab >> 10u64;

    spot_1 | spot_2 | spot_3 | spot_4 | spot_5 | spot_6 | spot_7 | spot_8
}

pub fn get_knight_moves(knights_pos: u64, own_pieces: u64) -> (r: u64)
    ensures
        r == knight_attacks_spec(knights_pos) & !own_pieces,
{
    get_knight_attacks(knights_pos) & !own_pieces
}

pub fn get_white_pawn_attacks(pawns_pos: u64) -> (r: u64)
    ensures
        r == white_pawn_attacks_spec(pawns_pos),
{
    let pawn_left_attack = (pawns_pos & NOT_A_FILE) << 7u64;
    let pawn_right_attack = (pawns_pos & NOT_H_FILE) << 9u64;
    pawn_left_attack | pawn_right_attack
}

/// The squares of `all_other_pieces` that white pawns on `pawns_pos` attack.
pub fn get_valid_white_pawn_attacks(pawns_pos: u64, all_other_pieces: u64) -> (r: u64)
    ensures
        r == white_pawn_attacks_spec(pawns_pos) & all_other_pieces,
{
    get_white_pawn_attacks(pawns_pos) & all_other_pieces
}

/// White pawn moves: pushes to empty squares and captures of `all_other_pieces`.
pub fn get_white_pawn_moves(pawns_pos: u64, all_pieces: u64, all_other_pieces: u64) -> (r: u64)
    ensures
        r == white_pawn_pushes_spec(pawns_pos, all_pieces) | (white_pawn_attacks_spec(pawns_pos)
            & all_other_pieces),
{
    let pawn_one_step = (pawns_pos << 8u64) & !all_pieces;
    let pawn_two_steps = ((pawn_one_step & MASK_RANK_3) << 8u64) & !all_pieces;
    let pawn_valid_moves = pawn_one_step | pawn_two_steps;
    let pawn_valid_attacks = get_valid_white_pawn_attacks(pawns_pos, all_other_pieces);
    pawn_valid_moves | pawn_valid_attacks
}

pub fn get_black_pawn_attacks(pawns_pos: u64) -> (r: u64)
    ensures
        r == black_pawn_attacks_spec(pawns_pos),
{
    let pawn_left_attack = (pawns_pos & NOT_A_FILE) >> 9u64;
    let pawn_right_attack = (pawns_pos & NOT_H_FILE) >> 7u64;
    pawn_left_attack | pawn_right_attack
}

/// The squares of `all_other_pieces` that black pawns on `pawns_pos` attack.
pub fn get_valid_black_pawn_attacks(pawns_pos: u64, all_other_pieces: u64) -> (r: u64)
    ensures
        r == black_pawn_attacks_spec(pawns_pos) & all_other_pieces,
{
    get_black_pawn_attacks(pawns_pos) & all_other_pieces
}

/// Black pawn moves: pushes to empty squares and captures of `all_other_pieces`.
pub fn get_black_pawn_moves(pawns_pos: u64, all_pieces: u64, all_other_pieces: u64) -> (r: u64)
    ensures
        r == black_pawn_pushes_spec(pawns_pos, all_pieces) | (black_pawn_attacks_spec(pawns_pos)
            & all_other_pieces),
{
    let pawn_one_step = (pawns_pos >> 8u64) & !all_pieces;
    let pawn_two_steps = ((pawn_one_step & MASK_RANK_6) >> 8u64) & !all_pieces;
    let pawn_valid_moves = pawn_one_step | pawn_two_steps;
    let pawn_valid_attacks = get_valid_black_pawn_attacks(pawns_pos, all_other_pieces);
    pawn_valid_moves | pawn_valid_attacks
}

/// The squares a bishop on square `sq` attacks, given the occupied squares.
pub fn get_bishop_attacks(sq: u8, all_pieces: u64) -> (r: u64)
    requires
        sq < 64,
    ensures
        r == bishop_attacks_spec(all_pieces, sq as u64),
{
    sliding::get_bishop_attacks(all_pieces, sq)
}

/// The squares a rook on square `sq` attacks, given the occupied squares.
pub fn get_rook_attacks(sq: u8, all_pieces: u64) -> (r: u64)
    requires
        sq < 64,
    ensures
        r == rook_attacks_spec(all_pieces, sq as u64),
{
    sliding::get_rook_attacks(all_pieces, sq)
}

pub fn get_bishop_moves(sq: u8, all_pieces: u64, own_pieces: u64) -> (r: u64)
    requires
        sq < 64,
    ensures
        r == bishop_attacks_spec(all_pieces, sq as u64) & !own_pieces,
{
    sliding::get_bishop_attacks(all_pieces, sq) & !own_pieces
}

pub fn get_rook_moves(sq: u8, all_pieces: u64, own_pieces: u64) -> (r: u64)
    requires
        sq < 64,
    ensures
        r == rook_attacks_spec(all_pieces, sq as u64) & !own_pieces,
{
    sliding::get_rook_attacks(all_pieces, sq) & !own_pieces
}

pub fn get_queen_moves(sq: u8, all_pieces: u64, own_pieces: u64) -> (r: u64)
    requires
        sq < 64,
    ensures
        r == (rook_attacks_spec(all_pieces, sq as u64) | bishop_attacks_spec(all_pieces, sq as u64))
            & !own_pieces,
{
    sliding::get_queen_attacks(all_pieces, sq) & !own_pieces
}

pub open spec fn castling_path(color: Color, king_side: bool) -> u64 {
    if king_side {
        if color == Color::White {
            CASTLING_KING_SIDE_WHITE
        } else {
            CASTLING_KING_SIDE_BLACK
        }
    } else {
        if color == Color::White {
            CASTLING_QUEEN_SIDE_WHITE
        } else {
            CASTLING_QUEEN_SIDE_BLACK
        }
    }
}

/// Whether the squares between the king and the king-side rook of `color` are empty.
pub fn can_castle_king_side(occupied: u64, color: Color) -> (r: bool)
    ensures
        r == (occupied & castling_path(color, true) == 0),
{
    let path = match color {
        Color::White => CASTLING_KING_SIDE_WHITE,
        Color::Black => CASTLING_KING_SIDE_BLACK,
    };
    occupied & path == 0
}

/// Whether the squares between the king and the queen-side rook of `color` are empty.
pub fn can_castle_queen_side(occupied: u64, color: Color) -> (r: bool)
    ensures
        r == (occupied & castling_path(color, false) == 0),
{
    let path = match color {
        Color::White => CASTLING_QUEEN_SIDE_WHITE,
        Color::Black => CASTLING_QUEEN_SIDE_BLACK,
    };
    occupied & path == 0
}

} // verus!
