//! Pseudo-legal move generation. Whether a move leaves the king attacked is decided
//! later, when the move is applied.
use crate::bitboard::{bit, lemma_bits};
use crate::board::{Board, Position};
use crate::castling::CastlingAbility;
use crate::colors::Color;
use crate::movements::{
    black_pawn_pushes_spec, can_castle_king_side, can_castle_queen_side, castling_path,
    get_bishop_moves, get_black_pawn_moves, get_king_moves, get_knight_moves, get_queen_moves,
    get_rook_moves, get_valid_black_pawn_attacks, get_valid_white_pawn_attacks,
    get_white_pawn_moves, king_attacks_spec, knight_attacks_spec, pawn_attacks_spec,
    white_pawn_pushes_spec, black_pawn_attacks_spec, white_pawn_attacks_spec,
};
use crate::moves::Move;
use crate::pieces::Piece;
use crate::sliding::{bishop_attacks_spec, rook_attacks_spec};
use crate::squares::{lemma_square_at, square_at, Square};
use vstd::prelude::*;

verus! {

/// The squares piece `p` of the side to move may go to from square `from`, en passant and
/// castling aside: its attacks minus its own side's pieces; for a pawn, its pushes to
/// empty squares and its attacks on the other side's pieces.
pub open spec fn target_mask(s: Position, p: Piece, from: nat) -> u64 {
    let own = s.all[p.color().idx() as int];
    let opp = s.all[1 - p.color().idx() as int];
    let b = 1u64 << from;
    if p.kind() == 0 {
        if p.color() == Color::White {
            white_pawn_pushes_spec(b, s.occupied) | (white_pawn_attacks_spec(b) & opp)
        } else {
            black_pawn_pushes_spec(b, s.occupied) | (black_pawn_attacks_spec(b) & opp)
        }
    } else if p.kind() == 1 {
        knight_attacks_spec(b) & !own
    } else if p.kind() == 2 {
        bishop_attacks_spec(s.occupied, from as u64) & !own
    } else if p.kind() == 3 {
        rook_attacks_spec(s.occupied, from as u64) & !own
    } else if p.kind() == 4 {
        (rook_attacks_spec(s.occupied, from as u64) | bishop_attacks_spec(s.occupied, from as u64))
            & !own
    } else {
        king_attacks_spec(b) & !own
    }
}

/// An ordinary move of the side to move: a piece of its own goes to a square of its
/// target mask; it captures when the square holds an opposing piece; a pawn reaching the
/// last rank promotes to a queen, knight, rook or bishop of its color, and nothing else
/// promotes.
pub open spec fn is_ordinary_move(s: Position, mv: Move) -> bool {
    let c = mv.piece.color();
    &&& c == s.side
    &&& bit(s.pieces[mv.piece.idx() as int], mv.from.idx() as u64)
    &&& bit(target_mask(s, mv.piece, mv.from.idx()), mv.to.idx() as u64)
    &&& mv.is_capture == bit(s.all[1 - c.idx() as int], mv.to.idx() as u64)
    &&& if mv.piece.kind() == 0 && mv.to.rank_of() == (if c == Color::White { 7nat } else { 0nat }) {
        mv.promotion matches Some(q) && q.color() == c && q.is_promotion_piece()
    } else {
        mv.promotion is None
    }
}

/// An en-passant capture: a pawn of the side to move takes on the en-passant square,
/// which one of its attacks reaches.
pub open spec fn is_en_passant_move(s: Position, mv: Move) -> bool {
    &&& mv.piece.color() == s.side
    &&& mv.piece.kind() == 0
    &&& bit(s.pieces[mv.piece.idx() as int], mv.from.idx() as u64)
    &&& s.ep == Some(mv.to)
    &&& bit(pawn_attacks_spec(s.side, 1u64 << mv.from.idx()), mv.to.idx() as u64)
    &&& mv.is_capture
    &&& mv.promotion is None
}

/// A castling move of the side to move: the right is held and the squares between king
/// and rook are empty.
pub open spec fn is_castling_move(s: Position, mv: Move) -> bool {
    let c = s.side;
    ||| (mv == Move::quiet_spec(
        if c == Color::White { Square::E1 } else { Square::E8 },
        if c == Color::White { Square::G1 } else { Square::G8 },
        Piece::of(5, c),
    ) && s.castling & CastlingAbility::king_side_right(c) != 0 && s.occupied & castling_path(c, true) == 0)
    ||| (mv == Move::quiet_spec(
        if c == Color::White { Square::E1 } else { Square::E8 },
        if c == Color::White { Square::C1 } else { Square::C8 },
        Piece::of(5, c),
    ) && s.castling & CastlingAbility::queen_side_right(c) != 0 && s.occupied & castling_path(c, false) == 0)
}

/// An ordinary or en-passant move of `piece` from square `from`.
pub open spec fn is_move_from(s: Position, m: Move, piece: Piece, from: nat) -> bool {
    (is_ordinary_move(s, m) || is_en_passant_move(s, m)) && m.wf() && m.piece == piece && m.from.idx() == from
}

/// A pseudo-legal move: ordinary, en passant, or castling.
pub open spec fn is_pseudo_legal(s: Position, mv: Move) -> bool {
    mv.wf() && (is_ordinary_move(s, mv) || is_en_passant_move(s, mv) || is_castling_move(s, mv))
}

/// The move of `piece` from square `from` to square `t` with the given promotion; it
/// captures when `t` holds a piece of the other side.
pub open spec fn move_to(s: Position, piece: Piece, from: nat, t: nat, promotion: Option<Piece>) -> Move {
    Move {
        from: square_at(from),
        to: square_at(t),
        promotion,
        piece,
        is_capture: bit(s.all[1 - piece.color().idx() as int], t as u64),
    }
}

/// Whether a pawn of color `c` promotes on square `t`.
pub open spec fn promotes_on(c: Color, t: nat) -> bool {
    t / 8 == if c == Color::White { 7nat } else { 0nat }
}

/// The ordinary moves of `piece` from `from` to the squares of its target mask below
/// `to`, by increasing target square; a promotion comes as four moves, to a queen, a
/// knight, a rook and a bishop.
pub open spec fn targets_seq(s: Position, piece: Piece, from: nat, to: nat) -> Seq<Move>
    decreases to,
{
    if to == 0 {
        seq![]
    } else {
        let t = (to - 1) as nat;
        let prev = targets_seq(s, piece, from, t);
        let c = piece.color();
        if !bit(target_mask(s, piece, from), t as u64) {
            prev
        } else if piece.kind() == 0 && promotes_on(c, t) {
            prev + seq![
                move_to(s, piece, from, t, Some(Piece::of(4, c))),
                move_to(s, piece, from, t, Some(Piece::of(1, c))),
                move_to(s, piece, from, t, Some(Piece::of(3, c))),
                move_to(s, piece, from, t, Some(Piece::of(2, c))),
            ]
        } else {
            prev.push(move_to(s, piece, from, t, None))
        }
    }
}

/// The en-passant capture of a pawn from `from`, if one of its attacks reaches the
/// en-passant square.
pub open spec fn ep_seq(s: Position, piece: Piece, from: nat) -> Seq<Move> {
    match s.ep {
        Some(e) => if piece.kind() == 0 && bit(pawn_attacks_spec(piece.color(), 1u64 << from), e.idx() as u64) {
            seq![Move { from: square_at(from), to: e, promotion: None, piece, is_capture: true }]
        } else {
            seq![]
        },
        None => seq![],
    }
}

/// The moves of `piece` from its squares below `f`, by increasing origin square.
pub open spec fn from_seq(s: Position, piece: Piece, f: nat) -> Seq<Move>
    decreases f,
{
    if f == 0 {
        seq![]
    } else {
        let g = (f - 1) as nat;
        let prev = from_seq(s, piece, g);
        if bit(s.pieces[piece.idx() as int], g as u64) {
            prev + targets_seq(s, piece, g, 64) + ep_seq(s, piece, g)
        } else {
            prev
        }
    }
}

/// The moves of the first `i` pieces of `ps` that belong to the side to move.
pub open spec fn pieces_seq(s: Position, ps: Seq<Piece>, i: nat) -> Seq<Move>
    decreases i,
{
    if i == 0 {
        seq![]
    } else {
        let prev = pieces_seq(s, ps, (i - 1) as nat);
        let p = ps[i - 1];
        if p.color() == s.side {
            prev + from_seq(s, p, 64)
        } else {
            prev
        }
    }
}

/// The castling moves: king side, then queen side, when the right is held and the
/// squares between king and rook are empty.
pub open spec fn castle_seq(s: Position) -> Seq<Move> {
    let c = s.side;
    let home = if c == Color::White { Square::E1 } else { Square::E8 };
    let ks = s.castling & CastlingAbility::king_side_right(c) != 0 && s.occupied & castling_path(c, true) == 0;
    let qs = s.castling & CastlingAbility::queen_side_right(c) != 0 && s.occupied & castling_path(c, false) == 0;
    (if ks {
        seq![Move::quiet_spec(home, if c == Color::White { Square::G1 } else { Square::G8 }, Piece::of(5, c))]
    } else {
        seq![]
    }) + (if qs {
        seq![Move::quiet_spec(home, if c == Color::White { Square::C1 } else { Square::C8 }, Piece::of(5, c))]
    } else {
        seq![]
    })
}

/// The moves generated for the pieces `ps`, in generation order: piece by piece as
/// listed, origin squares increasing, target squares increasing, the en-passant capture
/// after the ordinary moves of a pawn, and the castling moves last.
pub open spec fn moves_spec(s: Position, ps: Seq<Piece>) -> Seq<Move> {
    pieces_seq(s, ps, ps.len()) + castle_seq(s)
}

/// The twelve pieces in piece order.
pub open spec fn all_pieces() -> Seq<Piece> {
    seq![
        Piece::WhitePawn,
        Piece::BlackPawn,
        Piece::WhiteKnight,
        Piece::BlackKnight,
        Piece::WhiteBishop,
        Piece::BlackBishop,
        Piece::WhiteRook,
        Piece::BlackRook,
        Piece::WhiteQueen,
        Piece::BlackQueen,
        Piece::WhiteKing,
        Piece::BlackKing,
    ]
}

/// Every move the side to move generates, in generation order.
pub open spec fn all_moves_spec(s: Position) -> Seq<Move> {
    moves_spec(s, all_pieces())
}

pub proof fn lemma_piece_of(kind: nat, c: Color)
    requires
        kind < 6,
    ensures
        Piece::of(kind, c).idx() == 2 * kind + c.idx(),
        Piece::of(kind, c).kind() == kind,
        Piece::of(kind, c).color() == c,
{
    let p = if kind == 0 {
        if c == Color::White { Piece::WhitePawn } else { Piece::BlackPawn }
    } else if kind == 1 {
        if c == Color::White { Piece::WhiteKnight } else { Piece::BlackKnight }
    } else if kind == 2 {
        if c == Color::White { Piece::WhiteBishop } else { Piece::BlackBishop }
    } else if kind == 3 {
        if c == Color::White { Piece::WhiteRook } else { Piece::BlackRook }
    } else if kind == 4 {
        if c == Color::White { Piece::WhiteQueen } else { Piece::BlackQueen }
    } else {
        if c == Color::White { Piece::WhiteKing } else { Piece::BlackKing }
    };
    assert(p.idx() == 2 * kind + c.idx());
}

impl Board {
    /// The target mask of `piece` on `from`.
    fn targets(&self, piece: Piece, from: u8) -> (r: u64)
        requires
            from < 64,
            self@.all.len() == 2,
        ensures
            r == target_mask(self@, piece, from as nat),
    {
        let color = piece.get_color();
        let own_bb = self.all[color.index()];
        let opposite_bb = self.all[color.opposite().index()];
        let from_bb = 1u64 << from;
        match piece {
            Piece::WhiteKing | Piece::BlackKing => get_king_moves(from_bb, own_bb),
            Piece::WhiteKnight | Piece::BlackKnight => get_knight_moves(from_bb, own_bb),
            Piece::WhitePawn => get_white_pawn_moves(from_bb, self.occupied, opposite_bb),
            Piece::BlackPawn => get_black_pawn_moves(from_bb, self.occupied, opposite_bb),
            Piece::WhiteBishop | Piece::BlackBishop => get_bishop_moves(from, self.occupied, own_bb),
            Piece::WhiteRook | Piece::BlackRook => get_rook_moves(from, self.occupied, own_bb),
            Piece::WhiteQueen | Piece::BlackQueen => get_queen_moves(from, self.occupied, own_bb),
        }
    }

    /// Appends the ordinary and en-passant moves of `piece` from `from`, by increasing
    /// target square, promotions in the order queen, knight, rook, bishop.
    #[verifier::rlimit(100)]
    fn push_moves_from(&self, piece: Piece, from: u8, moves: &mut Vec<Move>)
        requires
            from < 64,
            self@.all.len() == 2,
            self@.pieces.len() == 12,
            piece.color() == self.side_to_move,
            bit(self.pieces[piece.idx() as int], from as u64),
        ensures
            final(moves)@.len() >= old(moves)@.len(),
            forall|k: int| 0 <= k < old(moves)@.len() ==> final(moves)@[k] == old(moves)@[k],
            forall|k: int| old(moves)@.len() <= k < final(moves)@.len() ==> is_pseudo_legal(self@, #[trigger] final(moves)@[k]),
            forall|m: Move| #[trigger] is_move_from(self@, m, piece, from as nat) ==> final(moves)@.contains(m),
            final(moves)@ == old(moves)@ + targets_seq(self@, piece, from as nat, 64) + ep_seq(self@, piece, from as nat),
    {
        let color = piece.get_color();
        let opposite_bb = self.all[color.opposite().index()];
        let moves_bb = self.targets(piece, from);
        let from_square = Square::from_index(from);
        proof {
            lemma_square_at(from as nat);
            crate::update::lemma_square_idx_injective(from_square, square_at(from as nat));
        }
        let ghost start = moves@.len();
        let mut to: u8 = 0;
        while to < 64
            invariant
                to <= 64,
                from_square.idx() == from,
                color == piece.color(),
                piece.color() == self.side_to_move,
                self@.all.len() == 2,
                bit(self.pieces[piece.idx() as int], from as u64),
                moves_bb == target_mask(self@, piece, from as nat),
                opposite_bb == self@.all[1 - color.idx() as int],
                moves@.len() >= old(moves)@.len(),
                start == old(moves)@.len(),
                forall|k: int| 0 <= k < old(moves)@.len() ==> moves@[k] == old(moves)@[k],
                forall|k: int| start <= k < moves@.len() ==> is_pseudo_legal(self@, #[trigger] moves@[k]),
                forall|m: Move| #[trigger] is_move_from(self@, m, piece, from as nat) && is_ordinary_move(self@, m) && m.to.idx() < to ==> moves@.contains(m),
                moves@ == old(moves)@ + targets_seq(self@, piece, from as nat, to as nat),
                from_square == square_at(from as nat),
            decreases 64 - to,
        {
            proof {
                lemma_bits();
            }
            let ghost before = moves@;
            if moves_bb & (1u64 << to) != 0 {
                let to_square = Square::from_index(to);
                proof {
                    lemma_square_at(to as nat);
                    crate::update::lemma_square_idx_injective(to_square, square_at(to as nat));
                    lemma_piece_of(4, color);
                    lemma_piece_of(1, color);
                    lemma_piece_of(3, color);
                    lemma_piece_of(2, color);
                }
                let is_capture = opposite_bb & (1u64 << to) != 0;
                if piece.is_pawn() && to_square.is_promotion_rank_for(color) {
                    moves.push(Move::new(from_square, to_square, Some(Piece::get_queen_of(color)), piece, is_capture));
                    moves.push(Move::new(from_square, to_square, Some(Piece::get_knight_of(color)), piece, is_capture));
                    moves.push(Move::new(from_square, to_square, Some(Piece::get_rook_of(color)), piece, is_capture));
                    moves.push(Move::new(from_square, to_square, Some(Piece::get_bishop_of(color)), piece, is_capture));
                } else {
                    moves.push(Move::new(from_square, to_square, None, piece, is_capture));
                }
                proof {
                    assert forall|m: Move| #[trigger] is_move_from(self@, m, piece, from as nat) && is_ordinary_move(self@, m) && m.to.idx() < to + 1 implies moves@.contains(m) by {
                        if m.to.idx() < to {
                            let k = choose|k: int| 0 <= k < before.len() && before[k] == m;
                            assert(moves@[k] == m);
                        } else {
                            crate::update::lemma_square_idx_injective(m.to, to_square);
                            crate::update::lemma_square_idx_injective(m.from, from_square);
                            let n = before.len() as int;
                            match m.promotion {
                                Some(q) => {
                                    let j: int = if q.kind() == 4 { 0 } else if q.kind() == 1 { 1 } else if q.kind() == 3 { 2 } else { 3 };
                                    crate::notation::lemma_piece_idx_injective(q, moves@[n + j].promotion.unwrap());
                                    assert(moves@[n + j] == m);
                                },
                                None => {
                                    assert(moves@[n] == m);
                                },
                            }
                        }
                    }
                }
            } else {
                proof {
                    assert forall|m: Move| #[trigger] is_move_from(self@, m, piece, from as nat) && is_ordinary_move(self@, m) && m.to.idx() < to + 1 implies moves@.contains(m) by {
                        if m.to.idx() == to {
                            assert(bit(moves_bb, to as u64));
                        }
                    }
                }
            }
            to += 1;
        }
        if piece.is_pawn() {
            match self.en_passant_target_square {
                Some(en_passant) => {
                    let target_bb = 1u64 << en_passant.index();
                    let from_bb = 1u64 << from;
                    let ep_attacks_bb = match color {
                        Color::White => get_valid_white_pawn_attacks(from_bb, target_bb),
                        Color::Black => get_valid_black_pawn_attacks(from_bb, target_bb),
                    };
                    if ep_attacks_bb != 0 {
                        proof {
                            lemma_bits();
                            assert(bit(ep_attacks_bb, en_passant.idx() as u64)) by {
                                assert(forall|t: u64| t < 64 && t != en_passant.idx() ==> !#[trigger] bit(target_bb, t));
                                if !bit(ep_attacks_bb, en_passant.idx() as u64) {
                                    assert(forall|t: u64| t < 64 ==> !#[trigger] bit(ep_attacks_bb, t));
                                    crate::bitboard::lemma_bits_ext(ep_attacks_bb, 0);
                                }
                            }
                        }
                        let ghost before = moves@;
                        moves.push(Move::capture(from_square, en_passant, piece));
                        proof {
                            assert forall|m: Move| #[trigger] is_move_from(self@, m, piece, from as nat) implies moves@.contains(m) by {
                                if is_ordinary_move(self@, m) {
                                    let k = choose|k: int| 0 <= k < before.len() && before[k] == m;
                                    assert(moves@[k] == m);
                                } else {
                                    crate::update::lemma_square_idx_injective(m.from, from_square);
                                    assert(moves@[before.len() as int] == m);
                                }
                            }
                        }
                    } else {
                        proof {
                            lemma_bits();
                            assert forall|m: Move| #[trigger] is_move_from(self@, m, piece, from as nat) implies moves@.contains(m) by {
                                if !is_ordinary_move(self@, m) {
                                    assert(bit(ep_attacks_bb, en_passant.idx() as u64));
                                }
                            }
                        }
                    }
                },
                None => {},
            }
        }
    }

    /// The pseudo-legal moves of the pieces of `pieces` that belong to the side to move,
    /// then the castling moves: for each such piece, by increasing origin square. Every
    /// move listed is pseudo-legal, and every pseudo-legal move of a listed piece, and
    /// every castling move, is listed.
    pub fn generate_moves_for(&self, pieces: &[Piece]) -> (r: Vec<Move>)
        ensures
            forall|k: int| 0 <= k < r@.len() ==> is_pseudo_legal(self@, #[trigger] r@[k]),
            forall|m: Move| #[trigger] is_pseudo_legal(self@, m) && (pieces@.contains(m.piece) || is_castling_move(self@, m)) ==> r@.contains(m),
            r@ == moves_spec(self@, pieces@),
    {
        let mut moves_list: Vec<Move> = Vec::new();
        let side = self.side_to_move;
        let mut i: usize = 0;
        while i < pieces.len()
            invariant
                side == self.side_to_move,
                i <= pieces@.len(),
                forall|k: int| 0 <= k < moves_list@.len() ==> is_pseudo_legal(self@, #[trigger] moves_list@[k]),
                forall|m: Move| #[trigger] is_move_from(self@, m, m.piece, m.from.idx()) && pieces@.subrange(0, i as int).contains(m.piece) ==> moves_list@.contains(m),
                moves_list@ == pieces_seq(self@, pieces@, i as nat),
            decreases pieces@.len() - i,
        {
            let piece = pieces[i];
            if piece.get_color() == side {
                let pieces_bb = self.pieces[piece.index()];
                let mut from: u8 = 0;
                while from < 64
                    invariant
                        from <= 64,
                        i < pieces@.len(),
                        piece == pieces@[i as int],
                        piece.color() == self.side_to_move,
                        pieces_bb == self.pieces[piece.idx() as int],
                        forall|k: int| 0 <= k < moves_list@.len() ==> is_pseudo_legal(self@, #[trigger] moves_list@[k]),
                        forall|m: Move| #[trigger] is_move_from(self@, m, m.piece, m.from.idx()) && pieces@.subrange(0, i as int).contains(m.piece) ==> moves_list@.contains(m),
                        forall|m: Move| #[trigger] is_move_from(self@, m, m.piece, m.from.idx()) && m.piece == piece && m.from.idx() < from ==> moves_list@.contains(m),
                        moves_list@ == pieces_seq(self@, pieces@, i as nat) + from_seq(self@, piece, from as nat),
                    decreases 64 - from,
                {
                    proof {
                        lemma_bits();
                    }
                    let ghost before = moves_list@;
                    if pieces_bb & (1u64 << from) != 0 {
                        self.push_moves_from(piece, from, &mut moves_list);
                        proof {
                            assert forall|m: Move| #[trigger] is_move_from(self@, m, m.piece, m.from.idx()) && (pieces@.subrange(0, i as int).contains(m.piece) || (m.piece == piece && m.from.idx() < from + 1)) implies moves_list@.contains(m) by {
                                if m.piece == piece && m.from.idx() == from {
                                    assert(is_move_from(self@, m, piece, from as nat));
                                } else {
                                    assert(before.contains(m));
                                    let k = choose|k: int| 0 <= k < before.len() && before[k] == m;
                                    assert(moves_list@[k] == m);
                                }
                            }
                        }
                    } else {
                        proof {
                            assert forall|m: Move| #[trigger] is_move_from(self@, m, m.piece, m.from.idx()) && m.piece == piece && m.from.idx() < from + 1 implies moves_list@.contains(m) by {
                                if m.from.idx() == from {
                                    assert(bit(self.pieces[piece.idx() as int], from as u64));
                                }
                            }
                        }
                    }
                    from += 1;
                }
            }
            proof {
                assert forall|m: Move| #[trigger] is_move_from(self@, m, m.piece, m.from.idx()) && pieces@.subrange(0, i + 1).contains(m.piece) implies moves_list@.contains(m) by {
                    let sub = pieces@.subrange(0, i + 1);
                    let j = choose|j: int| 0 <= j < sub.len() && #[trigger] sub[j] == m.piece;
                    if j < i {
                        assert(pieces@.subrange(0, i as int)[j] == m.piece);
                    } else {
                        assert(m.piece == piece);
                        assert(m.piece.color() == self.side_to_move);
                    }
                }
            }
            i += 1;
        }
        proof {
            assert(pieces@.len() == i);
        }
        let ghost before = moves_list@;
        let ks = self.castling_ability.can_castle_king_side(side) && can_castle_king_side(self.occupied, side);
        if ks {
            let m = Move::king_side_castling(side);
            proof {
                lemma_piece_of(5, side);
            }
            moves_list.push(m);
        }
        let ghost middle = moves_list@;
        let qs = self.castling_ability.can_castle_queen_side(side) && can_castle_queen_side(self.occupied, side);
        if qs {
            let m = Move::queen_side_castling(side);
            proof {
                lemma_piece_of(5, side);
            }
            moves_list.push(m);
        }
        proof {
            lemma_piece_of(5, side);
            crate::notation::lemma_piece_idx_injective(Piece::of(5, side), if side == Color::White { Piece::WhiteKing } else { Piece::BlackKing });
            assert(moves_list@ =~= moves_spec(self@, pieces@));
            assert forall|m: Move| #[trigger] is_pseudo_legal(self@, m) && (pieces@.contains(m.piece) || is_castling_move(self@, m)) implies moves_list@.contains(m) by {
                if is_castling_move(self@, m) {
                    if m.to == Square::G1 || m.to == Square::G8 {
                        assert(moves_list@[before.len() as int] == m);
                    } else {
                        assert(moves_list@[middle.len() as int] == m);
                    }
                } else {
                    assert(pieces@.subrange(0, pieces@.len() as int) =~= pieces@);
                    assert(is_move_from(self@, m, m.piece, m.from.idx()));
                    assert(before.contains(m));
                    let k = choose|k: int| 0 <= k < before.len() && before[k] == m;
                    assert(moves_list@[k] == m);
                }
            }
        }
        moves_list
    }

    /// All pseudo-legal moves of the side to move: every move listed is pseudo-legal,
    /// and every pseudo-legal move is listed.
    pub fn generate_moves(&self) -> (r: Vec<Move>)
        ensures
            forall|k: int| 0 <= k < r@.len() ==> is_pseudo_legal(self@, #[trigger] r@[k]),
            forall|m: Move| #[trigger] is_pseudo_legal(self@, m) ==> r@.contains(m),
            r@ == all_moves_spec(self@),
    {
        let all: [Piece; 12] = [
            Piece::WhitePawn,
            Piece::BlackPawn,
            Piece::WhiteKnight,
            Piece::BlackKnight,
            Piece::WhiteBishop,
            Piece::BlackBishop,
            Piece::WhiteRook,
            Piece::BlackRook,
            Piece::WhiteQueen,
            Piece::BlackQueen,
            Piece::WhiteKing,
            Piece::BlackKing,
        ];
        proof {
            assert forall|p: Piece| #[trigger] all@.contains(p) by {
                assert(all@[p.idx() as int] == p);
            }
            assert(all@ =~= all_pieces());
        }
        self.generate_moves_for(&all)
    }
}

} // verus!
