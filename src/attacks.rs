//! Check and attack detection.
use crate::bitboard::lowest_square;
use crate::board::{Board, Position};
use crate::colors::Color;
use crate::movements::{
    black_pawn_attacks_spec, get_bishop_attacks, get_black_pawn_attacks, get_king_attacks,
    get_knight_attacks, get_rook_attacks, get_white_pawn_attacks, king_attacks_spec,
    knight_attacks_spec, pawn_attacks_spec, white_pawn_attacks_spec,
};
use crate::pieces::Piece;
use crate::sliding::{bishop_attacks_spec, rook_attacks_spec};
use crate::squares::Square;
use vstd::prelude::*;

verus! {

/// The pieces of color `1 - c` that attack the king of color `c` (none if `c` has no
/// king). A king is found by looking from its square as each kind of piece in turn;
/// sliders look from the lowest square of the king set.
pub open spec fn attacks_king_spec(p: Position, c: Color) -> u64 {
    let k = p.pieces[10 + c.idx() as int];
    let o: int = 1 - c.idx() as int;
    let sq = k.trailing_zeros() as u64;
    if k == 0 {
        0
    } else {
        (pawn_attacks_spec(c, k) & p.pieces[o]) | (knight_attacks_spec(k) & p.pieces[2 + o]) | (
        king_attacks_spec(k) & p.pieces[10 + o]) | (bishop_attacks_spec(p.occupied, sq) & (p.pieces[8
            + o] | p.pieces[4 + o])) | (rook_attacks_spec(p.occupied, sq) & (p.pieces[8 + o]
            | p.pieces[6 + o]))
    }
}

/// The pieces of either color that attack square `sq`.
pub open spec fn attacks_to_spec(p: Position, sq: nat) -> u64 {
    let b = 1u64 << sq;
    (white_pawn_attacks_spec(b) & p.pieces[1]) | (black_pawn_attacks_spec(b) & p.pieces[0]) | (
    knight_attacks_spec(b) & (p.pieces[2] | p.pieces[3])) | (king_attacks_spec(b) & (p.pieces[10]
        | p.pieces[11])) | (bishop_attacks_spec(p.occupied, sq as u64) & ((p.pieces[8] | p.pieces[9])
        | (p.pieces[4] | p.pieces[5]))) | (rook_attacks_spec(p.occupied, sq as u64) & ((p.pieces[8]
        | p.pieces[9]) | (p.pieces[6] | p.pieces[7])))
}

/// Whether the side to move is in check.
pub open spec fn in_check_spec(p: Position) -> bool {
    attacks_king_spec(p, p.side) != 0
}

impl Board {
    /// Whether the side to move is in check.
    pub fn in_check(&self) -> (r: bool)
        ensures
            r == in_check_spec(self@),
    {
        self.attacks_king(self.get_side_to_move()) != 0
    }

    /// The opposing pieces that attack the king of `king_color`.
    pub fn attacks_king(&self, king_color: Color) -> (r: u64)
        ensures
            r == attacks_king_spec(self@, king_color),
    {
        let king_bb = self.pieces[Piece::get_king_of(king_color).index()];
        if king_bb == 0 {
            return 0;
        }
        let sq = lowest_square(king_bb) as u8;
        let opp = king_color.opposite();
        let opposite_pawns = self.pieces[Piece::get_pawn_of(opp).index()];
        let opposite_knights = self.pieces[Piece::get_knight_of(opp).index()];
        let opposite_king = self.pieces[Piece::get_king_of(opp).index()];
        let opposite_rooks_queens = self.pieces[Piece::get_queen_of(opp).index()]
            | self.pieces[Piece::get_rook_of(opp).index()];
        let opposite_bishops_queens = self.pieces[Piece::get_queen_of(opp).index()]
            | self.pieces[Piece::get_bishop_of(opp).index()];
        let pawn_attacks = match king_color {
            Color::White => get_white_pawn_attacks(king_bb),
            Color::Black => get_black_pawn_attacks(king_bb),
        };
        (pawn_attacks & opposite_pawns) | (get_knight_attacks(king_bb) & opposite_knights) | (
        get_king_attacks(king_bb) & opposite_king) | (get_bishop_attacks(sq, self.occupied)
            & opposite_bishops_queens) | (get_rook_attacks(sq, self.occupied) & opposite_rooks_queens)
    }

    /// The pieces of either color that attack `square`.
    pub fn attacks_to(&self, square: Square) -> (r: u64)
        ensures
            r == attacks_to_spec(self@, square.idx()),
    {
        let bb = 1u64 << square.index();
        let sq = square.index();
        let white_pawns = self.pieces[0];
        let black_pawns = self.pieces[1];
        let knights = self.pieces[2] | self.pieces[3];
        let kings = self.pieces[10] | self.pieces[11];
        let queens = self.pieces[8] | self.pieces[9];
        let rooks_queens = queens | (self.pieces[6] | self.pieces[7]);
        let bishops_queens = queens | (self.pieces[4] | self.pieces[5]);
        (get_white_pawn_attacks(bb) & black_pawns) | (get_black_pawn_attacks(bb) & white_pawns) | (
        get_knight_attacks(bb) & knights) | (get_king_attacks(bb) & kings) | (get_bishop_attacks(
            sq,
            self.occupied,
        ) & bishops_queens) | (get_rook_attacks(sq, self.occupied) & rooks_queens)
    }
}

} // verus!
