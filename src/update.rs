//! Applying a move to a position, step by step, with the Zobrist key kept up to date.
use crate::attacks::{attacks_king_spec, attacks_to_spec};
use crate::bitboard::{bit, lemma_bits};
use crate::board::{Board, Position};
use crate::castling::rights_kept;
use crate::colors::Color;
use crate::moves::Move;
use crate::pieces::Piece;
use crate::squares::Square;
use crate::zobrist::Keys;
use vstd::prelude::*;

verus! {

/// Adds one, stopping at the largest value.
pub open spec fn sat_inc(x: u32) -> u32 {
    if x < u32::MAX {
        (x + 1) as u32
    } else {
        x
    }
}

/// Step 1: piece `p` goes from `from` to `to` in its own set, its color's set and the
/// occupancy (all by XOR), and the key loses `p` on `from` and gains it on `to`.
pub open spec fn slide_spec(s: Position, p: Piece, from: nat, to: nat, keys: Keys) -> Position {
    let m = (1u64 << from) ^ (1u64 << to);
    let c = p.color().idx() as int;
    Position {
        pieces: s.pieces.update(p.idx() as int, s.pieces[p.idx() as int] ^ m),
        all: s.all.update(c, s.all[c] ^ m),
        occupied: s.occupied ^ m,
        key: s.key ^ keys.piece(from, p.idx()) ^ keys.piece(to, p.idx()),
        ..s
    }
}

/// The square of the piece that a capture takes: `to`, except for a pawn moving to the
/// en-passant square, which takes the pawn one rank behind (none if off the board).
pub open spec fn captured_square(s: Position, mv: Move) -> Option<nat> {
    let t = mv.to.idx();
    if mv.piece.kind() == 0 && s.ep == Some(mv.to) {
        if mv.piece.color() == Color::White {
            if t >= 8 {
                Some((t - 8) as nat)
            } else {
                None
            }
        } else {
            if t < 56 {
                Some(t + 8)
            } else {
                None
            }
        }
    } else {
        Some(t)
    }
}

/// The first of the sets `opp + 2k`, for k from `k` to 5, that holds square `sq`.
pub open spec fn first_holder(pieces: Seq<u64>, opp: int, sq: nat, k: nat) -> Option<nat>
    decreases 6 - k,
{
    if k >= 6 {
        None
    } else if bit(pieces[opp + 2 * k], sq as u64) {
        Some((opp + 2 * k) as nat)
    } else {
        first_holder(pieces, opp, sq, k + 1)
    }
}

/// Step 2: a capture removes the opposing piece found on the captured square from its
/// set, its color's set, the occupancy and the key. Nothing happens if none is there.
pub open spec fn capture_spec(s: Position, mv: Move, keys: Keys) -> Position {
    let opp = 1 - mv.piece.color().idx() as int;
    if !mv.is_capture {
        s
    } else {
        match captured_square(s, mv) {
            None => s,
            Some(cs) => match first_holder(s.pieces, opp, cs, 0) {
                None => s,
                Some(q) => {
                    let b = 1u64 << cs;
                    Position {
                        pieces: s.pieces.update(q as int, s.pieces[q as int] ^ b),
                        all: s.all.update(opp, s.all[opp] ^ b),
                        occupied: s.occupied ^ b,
                        key: s.key ^ keys.piece(cs, q),
                        ..s
                    }
                },
            },
        }
    }
}

/// Step 3: the castling rights that depend on `from` or `to` are dropped, and the key
/// swaps the old rights' key for the new one.
pub open spec fn rights_spec(s: Position, mv: Move, keys: Keys) -> Position {
    let r = s.castling & rights_kept(mv.from.idx()) & rights_kept(mv.to.idx());
    Position {
        castling: r,
        key: s.key ^ keys.castling_key_of(s.castling) ^ keys.castling_key_of(r),
        ..s
    }
}

/// Step 4: a promotion takes the pawn off `to` and puts the new piece there.
pub open spec fn promotion_spec(s: Position, mv: Move, keys: Keys) -> Position {
    match mv.promotion {
        None => s,
        Some(q) => {
            let b = 1u64 << mv.to.idx();
            let p = mv.piece.idx() as int;
            let pieces1 = s.pieces.update(p, s.pieces[p] & !b);
            Position {
                pieces: pieces1.update(q.idx() as int, pieces1[q.idx() as int] | b),
                key: s.key ^ keys.piece(mv.to.idx(), mv.piece.idx()) ^ keys.piece(mv.to.idx(), q.idx()),
                ..s
            }
        },
    }
}

/// The en-passant square after a move: the square a double pawn push skipped, or none.
pub open spec fn ep_after(mv: Move) -> Option<Square> {
    if mv.is_double_push() {
        Some(choose|sq: Square| sq.idx() == mv.skipped_square())
    } else {
        None
    }
}

/// Step 5: the en-passant square is set by a double push and cleared otherwise.
pub open spec fn ep_spec(s: Position, mv: Move, keys: Keys) -> Position {
    let e = ep_after(mv);
    Position { ep: e, key: s.key ^ keys.ep_key(s.ep) ^ keys.ep_key(e), ..s }
}

/// Step 6: a castling king move brings the rook's move with it.
pub open spec fn rook_spec(s: Position, mv: Move, keys: Keys) -> Position {
    match mv.castling_rook_move() {
        Some((f, t, rp)) => slide_spec(s, rp, f, t, keys),
        None => s,
    }
}

/// Steps 7 and 8: the counters move on, and the other side is to move.
pub open spec fn turn_spec(s: Position, mv: Move, keys: Keys) -> Position {
    let next = s.side.opposite_spec();
    Position {
        full: if s.side == Color::Black { sat_inc(s.full) } else { s.full },
        half: if mv.is_capture || mv.piece.kind() == 0 { 0 } else { sat_inc(s.half) },
        side: next,
        key: s.key ^ keys.side_key(s.side) ^ keys.side_key(next),
        ..s
    }
}

/// The position after `mv`.
pub open spec fn apply_spec(s: Position, mv: Move, keys: Keys) -> Position {
    let s1 = slide_spec(s, mv.piece, mv.from.idx(), mv.to.idx(), keys);
    let s2 = capture_spec(s1, mv, keys);
    let s3 = rights_spec(s2, mv, keys);
    let s4 = promotion_spec(s3, mv, keys);
    let s5 = ep_spec(s4, mv, keys);
    let s6 = rook_spec(s5, mv, keys);
    turn_spec(s6, mv, keys)
}

/// Whether `mv` may be played: the mover's king is not attacked afterwards, and for
/// castling the king is not in check before and the square it passes is not attacked.
pub open spec fn legal_spec(s: Position, mv: Move, keys: Keys) -> bool {
    let c = mv.piece.color();
    let after = apply_spec(s, mv, keys);
    &&& attacks_king_spec(after, c) == 0
    &&& match mv.castling_rook_move() {
        Some((f, t, rp)) => attacks_king_spec(s, c) == 0 && attacks_to_spec(s, t) & s.all[1
            - c.idx() as int] == 0,
        None => true,
    }
}

pub proof fn lemma_square_idx_injective(a: Square, b: Square)
    requires
        a.idx() == b.idx(),
    ensures
        a == b,
{
}

impl Board {
    /// Step 1 for piece `piece` going from `from` to `to`.
    fn slide_piece(&mut self, piece: Piece, from: Square, to: Square, keys: &Keys)
        requires
            keys.wf(),
        ensures
            final(self)@ == slide_spec(old(self)@, piece, from.idx(), to.idx(), *keys),
    {
        let color = piece.get_color();
        let from_to_bb = (1u64 << from.index()) ^ (1u64 << to.index());
        let p = piece.index();
        let c = color.index();
        self.pieces[p] = self.pieces[p] ^ from_to_bb;
        self.all[c] = self.all[c] ^ from_to_bb;
        self.occupied = self.occupied ^ from_to_bb;
        self.zobrist_key = self.zobrist_key ^ keys.piece_key(from, piece) ^ keys.piece_key(to, piece);
        proof {
            assert(final(self)@.pieces =~= slide_spec(old(self)@, piece, from.idx(), to.idx(), *keys).pieces);
            assert(final(self)@.all =~= slide_spec(old(self)@, piece, from.idx(), to.idx(), *keys).all);
        }
    }

    /// Step 2.
    fn remove_captured(&mut self, mv: Move, keys: &Keys)
        requires
            keys.wf(),
        ensures
            final(self)@ == capture_spec(old(self)@, mv, *keys),
    {
        if !mv.is_capture {
            return;
        }
        let color = mv.piece.get_color();
        let t = mv.to.index();
        let is_ep = mv.piece.is_pawn() && match self.en_passant_target_square {
            Some(sq) => sq == mv.to,
            None => false,
        };
        let cs: u8 = if is_ep {
            match color {
                Color::White => {
                    if t < 8 {
                        return;
                    }
                    t - 8
                },
                Color::Black => {
                    if t >= 56 {
                        return;
                    }
                    t + 8
                },
            }
        } else {
            t
        };
        assert(captured_square(old(self)@, mv) == Some(cs as nat));
        let opp = color.opposite().index();
        let b = 1u64 << cs;
        let mut k: usize = 0;
        while k < 6
            invariant
                keys.wf(),
                mv.is_capture,
                captured_square(old(self)@, mv) == Some(cs as nat),
                color == mv.piece.color(),
                k <= 6,
                cs < 64,
                opp == 1 - color.idx(),
                b == 1u64 << cs,
                *self == *old(self),
                first_holder(self@.pieces, opp as int, cs as nat, 0) == first_holder(self@.pieces, opp as int, cs as nat, k as nat),
            decreases 6 - k,
        {
            let q = opp + 2 * k;
            proof {
                lemma_bits();
            }
            if self.pieces[q] & b != 0 {
                proof {
                    assert(bit(self.pieces[q as int], cs as u64));
                    assert(first_holder(self@.pieces, opp as int, cs as nat, k as nat) == Some(q as nat));
                }
                self.pieces[q] = self.pieces[q] ^ b;
                self.all[opp] = self.all[opp] ^ b;
                self.occupied = self.occupied ^ b;
                let cap_sq = Square::from_index(cs);
                self.zobrist_key = self.zobrist_key ^ keys.piece_key(cap_sq, Piece::from_index(q));
                proof {
                    let sp = capture_spec(old(self)@, mv, *keys);
                    assert(self@.pieces =~= sp.pieces);
                    assert(self@.all =~= sp.all);
                }
                return;
            }
            k += 1;
        }
    }

    /// Step 3.
    fn update_rights(&mut self, mv: Move, keys: &Keys)
        requires
            keys.wf(),
            old(self).castling_ability.wf(),
        ensures
            final(self)@ == rights_spec(old(self)@, mv, *keys),
            final(self).castling_ability.wf(),
    {
        let old_key = keys.castling_key(self.castling_ability);
        let o = self.castling_ability.0;
        self.castling_ability.clear(mv.from);
        self.castling_ability.clear(mv.to);
        let r = self.castling_ability.0;
        proof {
            let kf = rights_kept(mv.from.idx());
            let kt = rights_kept(mv.to.idx());
            assert(r <= o) by (bit_vector)
                requires
                    r == (o & kf) & kt,
            ;
        }
        self.zobrist_key = self.zobrist_key ^ old_key ^ keys.castling_key(self.castling_ability);
    }

    /// Updates the position by `mv`: the piece moves, a capture removes the taken piece,
    /// castling rights touched by the move are dropped, a pawn promotes, the en-passant
    /// square is set or cleared, castling moves the rook, the counters move on and the
    /// other side is to move. The Zobrist key follows each step.
    pub fn update_by_move(&mut self, mv: Move, keys: &Keys)
        requires
            keys.wf(),
            old(self).castling_ability.wf(),
        ensures
            final(self)@ == apply_spec(old(self)@, mv, *keys),
            final(self).castling_ability.wf(),
    {
        self.slide_piece(mv.piece, mv.from, mv.to, keys);
        self.remove_captured(mv, keys);
        self.update_rights(mv, keys);
        proof {
            lemma_bits();
        }
        match mv.promotion {
            Some(promote_to) => {
                let to_bb = 1u64 << mv.to.index();
                let p = mv.piece.index();
                let q = promote_to.index();
                self.pieces[p] = self.pieces[p] & !to_bb;
                self.pieces[q] = self.pieces[q] | to_bb;
                self.zobrist_key = self.zobrist_key ^ keys.piece_key(mv.to, mv.piece) ^ keys.piece_key(mv.to, promote_to);
            },
            None => {},
        }
        let ghost s4 = self@;
        let new_ep = mv.get_en_passant_target_square();
        proof {
            if mv.is_double_push() {
                let c = choose|sq: Square| sq.idx() == mv.skipped_square();
                assert(new_ep matches Some(sq) && sq.idx() == mv.skipped_square());
                lemma_square_idx_injective(new_ep.unwrap(), c);
            }
        }
        self.zobrist_key = self.zobrist_key ^ keys.en_passant_key(self.en_passant_target_square) ^ keys.en_passant_key(new_ep);
        self.en_passant_target_square = new_ep;
        proof {
            assert(self@.pieces =~= ep_spec(s4, mv, *keys).pieces);
        }
        match mv.get_castling_rook_move() {
            Some(rook_mv) => {
                self.slide_piece(rook_mv.piece, rook_mv.from, rook_mv.to, keys);
            },
            None => {},
        }
        if self.side_to_move == Color::Black && self.full_move_counter < u32::MAX {
            self.full_move_counter = self.full_move_counter + 1;
        }
        if mv.is_capture || mv.piece.is_pawn() {
            self.half_move_clock = 0;
        } else if self.half_move_clock < u32::MAX {
            self.half_move_clock = self.half_move_clock + 1;
        }
        let next = self.side_to_move.opposite();
        self.zobrist_key = self.zobrist_key ^ keys.color_key(self.side_to_move) ^ keys.color_key(next);
        self.side_to_move = next;
        proof {
            let s1 = slide_spec(old(self)@, mv.piece, mv.from.idx(), mv.to.idx(), *keys);
            let s2 = capture_spec(s1, mv, *keys);
            let s3 = rights_spec(s2, mv, *keys);
            let promoted = promotion_spec(s3, mv, *keys);
            assert(s4.pieces =~= promoted.pieces);
            assert(final(self)@.pieces =~= apply_spec(old(self)@, mv, *keys).pieces);
            assert(final(self)@.all =~= apply_spec(old(self)@, mv, *keys).all);
        }
    }

    /// The position after `mv`, if `mv` is legal here: the mover's king must not be
    /// attacked afterwards; castling also needs the king out of check before, and the
    /// square it passes (where the rook goes) not attacked.
    pub fn copy_with_move(&self, mv: Move, keys: &Keys) -> (r: Option<Board>)
        requires
            keys.wf(),
            self.castling_ability.wf(),
        ensures
            r is Some <==> legal_spec(self@, mv, *keys),
            r matches Some(b) ==> b@ == apply_spec(self@, mv, *keys) && b.castling_ability.wf(),
    {
        let mut board_copy = *self;
        board_copy.update_by_move(mv, keys);
        let king_color = mv.piece.get_color();
        if board_copy.attacks_king(king_color) != 0 {
            return None;
        }
        match mv.get_castling_rook_move() {
            Some(rook_mv) => {
                if self.attacks_king(king_color) != 0 {
                    return None;
                }
                let opp = king_color.opposite();
                if self.attacks_to(rook_mv.to) & self.all[opp.index()] != 0 {
                    return None;
                }
            },
            None => {},
        }
        Some(board_copy)
    }
}

} // verus!
