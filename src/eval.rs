//! Static evaluation: material only, from the side to move's point of view.
use crate::bitboard::{bit, lemma_bits};
use crate::board::{Board, Position};
use crate::colors::Color;
use vstd::prelude::*;

verus! {

/// Centipawns.
pub type Score = i32;

/// Lower than any score, and safe to negate.
pub const MIN_SCORE: Score = -1073741824;

pub const MAX_SCORE: Score = 1073741824;

/// How many of the first `n` squares are in `b`.
pub open spec fn popcount(b: u64, n: nat) -> nat
    decreases n,
{
    if n == 0 {
        0
    } else {
        popcount(b, (n - 1) as nat) + if bit(b, (n - 1) as u64) { 1nat } else { 0nat }
    }
}

/// The value of a kind of piece: pawn 100, knight 320, bishop 330, rook 500, queen 900,
/// king 20000.
pub open spec fn piece_value(kind: nat) -> nat {
    if kind == 0 {
        100
    } else if kind == 1 {
        320
    } else if kind == 2 {
        330
    } else if kind == 3 {
        500
    } else if kind == 4 {
        900
    } else {
        20000
    }
}

/// The material of color `c`: the value of its pieces of the first `kinds` kinds.
pub open spec fn material(p: Position, c: nat, kinds: nat) -> nat
    decreases kinds,
{
    if kinds == 0 {
        0
    } else {
        let k = (kinds - 1) as nat;
        material(p, c, k) + popcount(p.pieces[(2 * k + c) as int], 64) * piece_value(k)
    }
}

/// The evaluation: the side to move's material minus the other side's.
pub open spec fn eval_spec(p: Position) -> int {
    let c = p.side.idx();
    material(p, c, 6) - material(p, (1 - c) as nat, 6)
}

/// The number of squares in `b`.
pub fn count_squares(b: u64) -> (r: u32)
    ensures
        r == popcount(b, 64),
        r <= 64,
{
    let mut n: u32 = 0;
    let mut i: u64 = 0;
    while i < 64
        invariant
            i <= 64,
            n == popcount(b, i as nat),
            n <= i,
        decreases 64 - i,
    {
        proof {
            lemma_bits();
        }
        if b & (1u64 << i) != 0 {
            n += 1;
        }
        i += 1;
    }
    n
}

impl Board {
    /// The material of White and of Black.
    pub fn material_scores(&self) -> (r: (u32, u32))
        requires
            self@.pieces.len() == 12,
        ensures
            r.0 == material(self@, 0, 6),
            r.1 == material(self@, 1, 6),
            r.0 <= 1417600 * 6,
            r.1 <= 1417600 * 6,
    {
        let values: [u32; 6] = [100, 320, 330, 500, 900, 20000];
        let mut white: u32 = 0;
        let mut black: u32 = 0;
        let mut k: usize = 0;
        while k < 6
            invariant
                k <= 6,
                self@.pieces.len() == 12,
                values@ == seq![100u32, 320, 330, 500, 900, 20000],
                white == material(self@, 0, k as nat),
                black == material(self@, 1, k as nat),
                white <= 1417600 * k,
                black <= 1417600 * k,
            decreases 6 - k,
        {
            let w = count_squares(self.pieces[2 * k]);
            let b = count_squares(self.pieces[2 * k + 1]);
            assert(values[k as int] == piece_value(k as nat));
            assert(w * values[k as int] <= 1280000) by (nonlinear_arith)
                requires
                    w <= 64,
                    values[k as int] <= 20000,
            ;
            assert(b * values[k as int] <= 1280000) by (nonlinear_arith)
                requires
                    b <= 64,
                    values[k as int] <= 20000,
            ;
            let wv = w * values[k];
            let bv = b * values[k];
            assert(white + wv <= 1417600 * (k + 1));
            assert(black + bv <= 1417600 * (k + 1));
            white = white + wv;
            black = black + bv;
            k += 1;
        }
        (white, black)
    }

    /// The material balance from the side to move's point of view.
    pub fn eval(&self) -> (r: Score)
        requires
            self@.pieces.len() == 12,
        ensures
            r == eval_spec(self@),
    {
        let (white_score, black_score) = self.material_scores();
        match self.side_to_move {
            Color::White => white_score as i32 - black_score as i32,
            Color::Black => black_score as i32 - white_score as i32,
        }
    }
}

/// The material balance of `board` from the side to move's point of view.
pub fn eval(board: &Board) -> (r: Score)
    requires
        board@.pieces.len() == 12,
    ensures
        r == eval_spec(board@),
{
    board.eval()
}

} // verus!
