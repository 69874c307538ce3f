//! Castling rights: a four-bit set, 1 White king side, 2 White queen side,
//! 4 Black king side, 8 Black queen side.
use crate::colors::Color;
use crate::pieces::Piece;
use crate::squares::Square;
use vstd::prelude::*;

verus! {

#[derive(Debug, Clone, Copy, PartialEq, Eq, Structural, PartialOrd, Ord, Hash)]
pub struct CastlingAbility(pub u8);

/// The rights that survive a move touching square `sq`: moving from or to the home
/// square of a king or a rook drops the rights that depend on that piece.
pub open spec fn rights_kept(sq: nat) -> u8 {
    if sq == 0 {
        0b1101
    } else if sq == 4 {
        0b1100
    } else if sq == 7 {
        0b1110
    } else if sq == 56 {
        0b0111
    } else if sq == 60 {
        0b0011
    } else if sq == 63 {
        0b1011
    } else {
        0b1111
    }
}

/// The right that the FEN letter of a king or queen stands for.
pub open spec fn right_of_piece(p: Piece) -> u8 {
    if p == Piece::WhiteKing {
        1
    } else if p == Piece::WhiteQueen {
        2
    } else if p == Piece::BlackKing {
        4
    } else {
        8
    }
}

pub open spec fn is_castling_letter_piece(p: Piece) -> bool {
    p == Piece::WhiteKing || p == Piece::WhiteQueen || p == Piece::BlackKing || p == Piece::BlackQueen
}

/// The union of the rights that the pieces stand for.
pub open spec fn rights_of_pieces(ps: Seq<Piece>) -> u8
    decreases ps.len(),
{
    if ps.len() == 0 {
        0
    } else {
        rights_of_pieces(ps.drop_last()) | right_of_piece(ps.last())
    }
}

/// The rights as FEN pieces, in the order `K`, `Q`, `k`, `q`.
pub open spec fn castling_pieces(r: u8) -> Seq<Piece> {
    (if r & 1 != 0 { seq![Piece::WhiteKing] } else { seq![] }) + (if r & 2 != 0 { seq![Piece::WhiteQueen] } else { seq![] })
        + (if r & 4 != 0 { seq![Piece::BlackKing] } else { seq![] }) + (if r & 8 != 0 { seq![Piece::BlackQueen] } else { seq![] })
}

/// The FEN field of a set of rights: `KQkq` letters in that order, or `-` for none.
pub open spec fn castling_text(r: u8) -> Seq<char> {
    let s = (if r & 1 != 0 { seq!['K'] } else { seq![] }) + (if r & 2 != 0 { seq!['Q'] } else { seq![] })
        + (if r & 4 != 0 { seq!['k'] } else { seq![] }) + (if r & 8 != 0 { seq!['q'] } else { seq![] });
    if s.len() == 0 {
        seq!['-']
    } else {
        s
    }
}

impl CastlingAbility {
    pub open spec fn wf(self) -> bool {
        self.0 < 16
    }

    /// Every right.
    pub fn all() -> (r: CastlingAbility)
        ensures
            r.0 == 15,
    {
        CastlingAbility(0b1111)
    }

    /// No right.
    pub fn none() -> (r: CastlingAbility)
        ensures
            r.0 == 0,
    {
        CastlingAbility(0)
    }

    /// The right named by a king (king side) or a queen (queen side) of a color.
    pub fn get_mask_for_piece(piece: Piece) -> (r: u8)
        requires
            is_castling_letter_piece(piece),
        ensures
            r == right_of_piece(piece),
    {
        match piece {
            Piece::WhiteKing => 0b0001,
            Piece::WhiteQueen => 0b0010,
            Piece::BlackKing => 0b0100,
            _ => 0b1000,
        }
    }

    /// The rights named by kings and queens, as in FEN (`K` is White's king side).
    pub fn new(pieces: &[Piece]) -> (r: CastlingAbility)
        requires
            forall|i: int| 0 <= i < pieces@.len() ==> is_castling_letter_piece(#[trigger] pieces@[i]),
        ensures
            r.0 == rights_of_pieces(pieces@),
            r.wf(),
    {
        let mut acc: u8 = 0;
        let mut i: usize = 0;
        while i < pieces.len()
            invariant
                i <= pieces@.len(),
                forall|j: int| 0 <= j < pieces@.len() ==> is_castling_letter_piece(#[trigger] pieces@[j]),
                acc == rights_of_pieces(pieces@.subrange(0, i as int)),
                acc < 16,
            decreases pieces@.len() - i,
        {
            let m = CastlingAbility::get_mask_for_piece(pieces[i]);
            assert(acc | m < 16) by (bit_vector)
                requires
                    acc < 16,
                    m < 16,
            ;
            proof {
                let s1 = pieces@.subrange(0, i + 1);
                assert(s1.drop_last() =~= pieces@.subrange(0, i as int));
            }
            acc = acc | m;
            i += 1;
        }
        proof {
            assert(pieces@.subrange(0, pieces@.len() as int) =~= pieces@);
        }
        CastlingAbility(acc)
    }

    /// Whether any right is left.
    pub fn any(self) -> (r: bool)
        ensures
            r == (self.0 != 0),
    {
        self.0 != 0
    }

    pub fn white_can_castle_king_side(self) -> (r: bool)
        ensures
            r == (self.0 & 1 != 0),
    {
        self.0 & 0b0001 != 0
    }

    pub fn white_can_castle_queen_side(self) -> (r: bool)
        ensures
            r == (self.0 & 2 != 0),
    {
        self.0 & 0b0010 != 0
    }

    pub fn black_can_castle_king_side(self) -> (r: bool)
        ensures
            r == (self.0 & 4 != 0),
    {
        self.0 & 0b0100 != 0
    }

    pub fn black_can_castle_queen_side(self) -> (r: bool)
        ensures
            r == (self.0 & 8 != 0),
    {
        self.0 & 0b1000 != 0
    }

    /// The king-side right of `color`.
    pub open spec fn king_side_right(color: Color) -> u8 {
        if color == Color::White {
            1
        } else {
            4
        }
    }

    /// The queen-side right of `color`.
    pub open spec fn queen_side_right(color: Color) -> u8 {
        if color == Color::White {
            2
        } else {
            8
        }
    }

    pub fn can_castle_king_side(self, color: Color) -> (r: bool)
        ensures
            r == (self.0 & CastlingAbility::king_side_right(color) != 0),
    {
        match color {
            Color::White => self.white_can_castle_king_side(),
            Color::Black => self.black_can_castle_king_side(),
        }
    }

    pub fn can_castle_queen_side(self, color: Color) -> (r: bool)
        ensures
            r == (self.0 & CastlingAbility::queen_side_right(color) != 0),
    {
        match color {
            Color::White => self.white_can_castle_queen_side(),
            Color::Black => self.black_can_castle_queen_side(),
        }
    }

    /// The rights as FEN pieces, in the order `K`, `Q`, `k`, `q`.
    pub fn as_pieces_iter(self) -> (r: Vec<Piece>)
        ensures
            r@ == castling_pieces(self.0),
            forall|i: int| 0 <= i < r@.len() ==> is_castling_letter_piece(#[trigger] r@[i]),
    {
        let mut v: Vec<Piece> = Vec::new();
        if self.white_can_castle_king_side() {
            v.push(Piece::WhiteKing);
        }
        if self.white_can_castle_queen_side() {
            v.push(Piece::WhiteQueen);
        }
        if self.black_can_castle_king_side() {
            v.push(Piece::BlackKing);
        }
        if self.black_can_castle_queen_side() {
            v.push(Piece::BlackQueen);
        }
        proof {
            assert(v@ =~= castling_pieces(self.0));
        }
        v
    }

    /// The FEN field of the rights: `KQkq` letters in that order, or `-` for none.
    pub fn push_fen(self, out: &mut Vec<char>)
        ensures
            final(out)@ == old(out)@ + castling_text(self.0),
    {
        let start = out.len();
        if self.white_can_castle_king_side() {
            out.push('K');
        }
        if self.white_can_castle_queen_side() {
            out.push('Q');
        }
        if self.black_can_castle_king_side() {
            out.push('k');
        }
        if self.black_can_castle_queen_side() {
            out.push('q');
        }
        if out.len() == start {
            out.push('-');
        }
        proof {
            assert(final(out)@ =~= old(out)@ + castling_text(self.0));
        }
    }

    /// Drops the rights that depend on a king or rook standing on `sq`.
    pub fn clear(&mut self, sq: Square)
        ensures
            final(self).0 == old(self).0 & rights_kept(sq.idx()),
    {
        let i = sq.index();
        let m: u8 = if i == 0 {
            0b1101
        } else if i == 4 {
            0b1100
        } else if i == 7 {
            0b1110
        } else if i == 56 {
            0b0111
        } else if i == 60 {
            0b0011
        } else if i == 63 {
            0b1011
        } else {
            0b1111
        };
        self.0 = self.0 & m;
    }
}

} // verus!
