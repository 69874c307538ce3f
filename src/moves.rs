//! Moves: what moves, from where, to where, and what it becomes.
use crate::colors::Color;
use crate::pieces::{piece_letters, Piece};
use crate::squares::{square_name, square_name_upper, Square};
use crate::text::chars_to_string;
use vstd::prelude::*;

verus! {

/// A move. A castling move is the king's two-square move; the rook's move follows from it.
#[derive(Debug, Clone, Copy, PartialEq, Eq, Structural)]
pub struct Move {
    pub from: Square,
    pub to: Square,
    /// What a pawn turns into on the last rank: never a pawn or a king.
    pub promotion: Option<Piece>,
    /// The moving piece.
    pub piece: Piece,
    /// Whether the move takes a piece, en passant included.
    pub is_capture: bool,
}

/// The letter of a promotion piece in coordinate notation.
pub open spec fn promotion_letter(kind: nat) -> char {
    if kind == 1 {
        'n'
    } else if kind == 2 {
        'b'
    } else if kind == 3 {
        'r'
    } else {
        'q'
    }
}

/// A move in pure coordinate notation, such as `e2e4` or `e7e8q`.
pub open spec fn pure_text(m: Move) -> Seq<char> {
    let base = square_name(m.from.idx()) + square_name(m.to.idx());
    match m.promotion {
        Some(p) => base.push(promotion_letter(p.kind())),
        None => base,
    }
}

/// A move in long algebraic notation, such as `E2-E4`, `E2xE4`, `E7-E8Q` or `Nb1-c3`.
pub open spec fn lan_text(m: Move) -> Seq<char> {
    let sep = if m.is_capture { 'x' } else { '-' };
    let body = square_name_upper(m.from.idx()).push(sep) + square_name_upper(m.to.idx());
    if m.piece.kind() == 0 {
        match m.promotion {
            Some(p) => body.push(piece_letters()[(2 * p.kind()) as int]),
            None => body,
        }
    } else {
        seq![piece_letters()[m.piece.idx() as int]] + body
    }
}

/// The texts of `items` with `sep` between each two.
pub open spec fn joined(items: Seq<Seq<char>>, sep: Seq<char>) -> Seq<char>
    decreases items.len(),
{
    if items.len() == 0 {
        seq![]
    } else if items.len() == 1 {
        items[0]
    } else {
        joined(items.drop_last(), sep) + sep + items.last()
    }
}

/// The moves in pure coordinate notation, separated by spaces.
pub open spec fn pure_line(moves: Seq<Move>) -> Seq<char> {
    joined(moves.map_values(|m: Move| pure_text(m)), seq![' '])
}

/// Relies on itertools::Itertools::join: the items in order, with `sep` between each two.
#[verifier::external_body]
fn join_strings(items: &Vec<String>, sep: &str) -> (r: String)
    ensures
        r@ == joined(items@.map_values(|s: String| s@), sep@),
{
    itertools::Itertools::join(&mut items.iter(), sep)
}

impl Move {
    pub open spec fn wf(self) -> bool {
        match self.promotion {
            Some(p) => p.is_promotion_piece(),
            None => true,
        }
    }

    pub open spec fn is_double_push(self) -> bool {
        self.piece.kind() == 0 && (self.from.rank_of() == self.to.rank_of() + 2
            || self.to.rank_of() == self.from.rank_of() + 2)
    }

    /// The square a double pawn push skips over.
    pub open spec fn skipped_square(self) -> nat {
        ((self.from.rank_of() + self.to.rank_of()) / 2) * 8 + self.from.file_of()
    }

    /// The rook move that comes with a castling move, if this is one: the king going
    /// from E1 to G1 or C1, or from E8 to G8 or C8.
    pub open spec fn castling_rook_move(self) -> Option<(nat, nat, Piece)> {
        if self.piece == Piece::WhiteKing && self.from == Square::E1 && self.to == Square::G1 {
            Some((7nat, 5nat, Piece::WhiteRook))
        } else if self.piece == Piece::WhiteKing && self.from == Square::E1 && self.to == Square::C1 {
            Some((0nat, 3nat, Piece::WhiteRook))
        } else if self.piece == Piece::BlackKing && self.from == Square::E8 && self.to == Square::G8 {
            Some((63nat, 61nat, Piece::BlackRook))
        } else if self.piece == Piece::BlackKing && self.from == Square::E8 && self.to == Square::C8 {
            Some((56nat, 59nat, Piece::BlackRook))
        } else {
            None
        }
    }

    /// A move; a promotion, if any, is neither to a pawn nor to a king.
    pub fn new(from: Square, to: Square, promotion: Option<Piece>, piece: Piece, is_capture: bool) -> (r: Move)
        requires
            promotion matches Some(p) ==> p.is_promotion_piece(),
        ensures
            r == (Move { from, to, promotion, piece, is_capture }),
            r.wf(),
    {
        Move { from, to, promotion, piece, is_capture }
    }

    /// A move that takes nothing and promotes nothing.
    pub fn quiet(from: Square, to: Square, piece: Piece) -> (r: Move)
        ensures
            r == (Move { from, to, promotion: None, piece, is_capture: false }),
            r.wf(),
    {
        Move::new(from, to, None, piece, false)
    }

    /// A move that takes a piece and promotes nothing.
    pub fn capture(from: Square, to: Square, piece: Piece) -> (r: Move)
        ensures
            r == (Move { from, to, promotion: None, piece, is_capture: true }),
            r.wf(),
    {
        Move::new(from, to, None, piece, true)
    }

    pub fn get_from(self) -> (r: Square)
        ensures
            r == self.from,
    {
        self.from
    }

    pub fn get_to(self) -> (r: Square)
        ensures
            r == self.to,
    {
        self.to
    }

    pub fn get_promotion(self) -> (r: Option<Piece>)
        ensures
            r == self.promotion,
    {
        self.promotion
    }

    pub fn get_piece(self) -> (r: Piece)
        ensures
            r == self.piece,
    {
        self.piece
    }

    pub fn is_capture(self) -> (r: bool)
        ensures
            r == self.is_capture,
    {
        self.is_capture
    }

    /// Whether a pawn moves two ranks.
    pub fn is_pawn_double_push(self) -> (r: bool)
        ensures
            r == self.is_double_push(),
    {
        let a = self.from.get_rank();
        let b = self.to.get_rank();
        self.piece.is_pawn() && (a == b + 2 || b == a + 2)
    }

    /// The square skipped by a double pawn push; none for any other move.
    pub fn get_en_passant_target_square(self) -> (r: Option<Square>)
        ensures
            self.is_double_push() ==> (r matches Some(s) && s.idx() == self.skipped_square()),
            !self.is_double_push() ==> r is None,
    {
        if self.is_pawn_double_push() {
            let rank = (self.from.get_rank() + self.to.get_rank()) / 2;
            Some(Square::new(rank, self.from.get_file()))
        } else {
            None
        }
    }

    /// The king's move for castling on the king side.
    pub fn king_side_castling(color: Color) -> (r: Move)
        ensures
            r.castling_rook_move() is Some,
            r.piece.color() == color,
            r.piece.kind() == 5,
            color == Color::White ==> r == Move::quiet_spec(Square::E1, Square::G1, Piece::WhiteKing),
            color == Color::Black ==> r == Move::quiet_spec(Square::E8, Square::G8, Piece::BlackKing),
    {
        match color {
            Color::White => Move::quiet(Square::E1, Square::G1, Piece::WhiteKing),
            Color::Black => Move::quiet(Square::E8, Square::G8, Piece::BlackKing),
        }
    }

    /// The king's move for castling on the queen side.
    pub fn queen_side_castling(color: Color) -> (r: Move)
        ensures
            r.castling_rook_move() is Some,
            r.piece.color() == color,
            r.piece.kind() == 5,
            color == Color::White ==> r == Move::quiet_spec(Square::E1, Square::C1, Piece::WhiteKing),
            color == Color::Black ==> r == Move::quiet_spec(Square::E8, Square::C8, Piece::BlackKing),
    {
        match color {
            Color::White => Move::quiet(Square::E1, Square::C1, Piece::WhiteKing),
            Color::Black => Move::quiet(Square::E8, Square::C8, Piece::BlackKing),
        }
    }

    pub open spec fn quiet_spec(from: Square, to: Square, piece: Piece) -> Move {
        Move { from, to, promotion: None, piece, is_capture: false }
    }

    /// For a castling move (the king's), the rook's move that goes with it.
    pub fn get_castling_rook_move(self) -> (r: Option<Move>)
        ensures
            match self.castling_rook_move() {
                Some((f, t, p)) => (r matches Some(m) && m == Move::quiet_spec(m.from, m.to, p)
                    && m.from.idx() == f && m.to.idx() == t),
                None => r is None,
            },
    {
        if self.piece == Piece::WhiteKing && self.from == Square::E1 {
            if self.to == Square::G1 {
                return Some(Move::quiet(Square::H1, Square::F1, Piece::WhiteRook));
            } else if self.to == Square::C1 {
                return Some(Move::quiet(Square::A1, Square::D1, Piece::WhiteRook));
            }
        } else if self.piece == Piece::BlackKing && self.from == Square::E8 {
            if self.to == Square::G8 {
                return Some(Move::quiet(Square::H8, Square::F8, Piece::BlackRook));
            } else if self.to == Square::C8 {
                return Some(Move::quiet(Square::A8, Square::D8, Piece::BlackRook));
            }
        }
        None
    }

    /// Appends the move in pure coordinate notation to `out`.
    pub fn push_pure(self, out: &mut Vec<char>)
        requires
            self.wf(),
        ensures
            final(out)@ == old(out)@ + pure_text(self),
    {
        self.from.push_name(out);
        self.to.push_name(out);
        match self.promotion {
            Some(p) => {
                let c = if p.is_knight() {
                    'n'
                } else if p.is_bishop() {
                    'b'
                } else if p.is_rook() {
                    'r'
                } else {
                    'q'
                };
                out.push(c);
            },
            None => {},
        }
        proof {
            assert(final(out)@ =~= old(out)@ + pure_text(self));
        }
    }

    /// The move in pure coordinate notation, such as `e2e4` or `e7e8q`.
    pub fn pure(&self) -> (r: String)
        requires
            self.wf(),
        ensures
            r@ == pure_text(*self),
    {
        let mut v: Vec<char> = Vec::new();
        self.push_pure(&mut v);
        proof {
            assert(v@ =~= pure_text(*self));
        }
        chars_to_string(&v)
    }

    /// The move in long algebraic notation, such as `E2-E4`, `E2xE4`, `E7-E8Q` or `NB1-C3`.
    pub fn lan(&self) -> (r: String)
        requires
            self.wf(),
        ensures
            r@ == lan_text(*self),
    {
        let mut v: Vec<char> = Vec::new();
        if !self.piece.is_pawn() {
            v.push(self.piece.to_char());
        }
        v.push((('A' as u8) + self.from.get_file()) as char);
        v.push((('1' as u8) + self.from.get_rank()) as char);
        v.push(if self.is_capture { 'x' } else { '-' });
        v.push((('A' as u8) + self.to.get_file()) as char);
        v.push((('1' as u8) + self.to.get_rank()) as char);
        if self.piece.is_pawn() {
            match self.promotion {
                Some(p) => {
                    let w = Piece::new_of((p.index() / 2) as u8, Color::White);
                    v.push(w.to_char());
                },
                None => {},
            }
        }
        proof {
            assert(v@ =~= lan_text(*self));
        }
        chars_to_string(&v)
    }
}

/// The moves in pure coordinate notation, separated by spaces.
pub fn format_moves_as_pure_string(moves: &[Move]) -> (r: String)
    requires
        forall|i: int| 0 <= i < moves@.len() ==> (#[trigger] moves@[i]).wf(),
    ensures
        r@ == pure_line(moves@),
{
    let mut texts: Vec<String> = Vec::new();
    let mut i: usize = 0;
    while i < moves.len()
        invariant
            i <= moves@.len(),
            forall|j: int| 0 <= j < moves@.len() ==> (#[trigger] moves@[j]).wf(),
            texts@.len() == i,
            forall|j: int| 0 <= j < i ==> (#[trigger] texts@[j])@ == pure_text(moves@[j]),
        decreases moves@.len() - i,
    {
        texts.push(moves[i].pure());
        i += 1;
    }
    proof {
        assert(texts@.map_values(|s: String| s@) =~= moves@.map_values(|m: Move| pure_text(m)));
        reveal_strlit(" ");
        assert(" "@ =~= seq![' ']);
    }
    join_strings(&texts, " ")
}

} // verus!
