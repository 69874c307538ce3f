//! Zobrist keys: a fixed table of pseudo-random 64-bit numbers, one per feature of a
//! position, drawn from a generator with a fixed seed so that every process agrees.
use crate::castling::CastlingAbility;
use crate::colors::Color;
use crate::pieces::Piece;
use crate::squares::Square;
use rand::rngs::StdRng;
use vstd::prelude::*;

verus! {

#[verifier::external_type_specification]
#[verifier::external_body]
pub struct ExStdRng(StdRng);

/// Relies on rand_core's SeedableRng::seed_from_u64, which builds the generator from
/// the seed alone.
#[verifier::external_body]
fn seeded_rng(seed: u64) -> StdRng {
    <StdRng as rand::SeedableRng>::seed_from_u64(seed)
}

/// Relies on rand's Rng::gen::<u64>, which draws the next number of the generator.
#[verifier::external_body]
fn next_u64(rng: &mut StdRng) -> u64 {
    rand::Rng::gen::<u64>(rng)
}

/// The seed of the key table.
pub const SEED: u64 = 9476900812072076987;

/// The key table.
pub struct Keys {
    /// The key of piece `p` on square `s` is at `12 * s + p`.
    pub pieces: Vec<u64>,
    /// One key per side to move.
    pub side: Vec<u64>,
    /// One key per set of castling rights.
    pub castling: Vec<u64>,
    /// One key per file of the en-passant square.
    pub en_passant: Vec<u64>,
    /// The key for no en-passant square.
    pub en_passant_none: u64,
}

/// Draws `n` numbers from `rng` into a vector.
fn draw(rng: &mut StdRng, n: usize) -> (r: Vec<u64>)
    ensures
        r@.len() == n,
{
    let mut v: Vec<u64> = Vec::new();
    let mut i: usize = 0;
    while i < n
        invariant
            i <= n,
            v@.len() == i,
        decreases n - i,
    {
        v.push(next_u64(rng));
        i += 1;
    }
    v
}

impl Keys {
    pub open spec fn wf(&self) -> bool {
        &&& self.pieces@.len() == 768
        &&& self.side@.len() == 2
        &&& self.castling@.len() == 16
        &&& self.en_passant@.len() == 8
    }

    pub open spec fn piece(&self, sq: nat, p: nat) -> u64 {
        self.pieces@[(12 * sq + p) as int]
    }

    pub open spec fn side_key(&self, c: Color) -> u64 {
        self.side@[c.idx() as int]
    }

    pub open spec fn castling_key_of(&self, r: u8) -> u64 {
        self.castling@[r as int]
    }

    pub open spec fn ep_key(&self, ep: Option<Square>) -> u64 {
        match ep {
            Some(s) => self.en_passant@[s.file_of() as int],
            None => self.en_passant_none,
        }
    }

    /// Draws the table from the fixed seed: the pieces square by square, then the
    /// sides, the castling rights, the en-passant files and the no-en-passant key.
    pub fn new() -> (r: Keys)
        ensures
            r.wf(),
    {
        let mut rng = seeded_rng(SEED);
        let pieces = draw(&mut rng, 768);
        let side = draw(&mut rng, 2);
        let castling = draw(&mut rng, 16);
        let en_passant = draw(&mut rng, 8);
        let en_passant_none = next_u64(&mut rng);
        Keys { pieces, side, castling, en_passant, en_passant_none }
    }

    pub fn piece_key(&self, square: Square, piece: Piece) -> (r: u64)
        requires
            self.wf(),
        ensures
            r == self.piece(square.idx(), piece.idx()),
    {
        self.pieces[12 * (square.index() as usize) + piece.index()]
    }

    pub fn color_key(&self, color: Color) -> (r: u64)
        requires
            self.wf(),
        ensures
            r == self.side_key(color),
    {
        self.side[color.index()]
    }

    pub fn castling_key(&self, castling: CastlingAbility) -> (r: u64)
        requires
            self.wf(),
            castling.wf(),
        ensures
            r == self.castling_key_of(castling.0),
    {
        self.castling[castling.0 as usize]
    }

    pub fn en_passant_key(&self, en_passant_square: Option<Square>) -> (r: u64)
        requires
            self.wf(),
        ensures
            r == self.ep_key(en_passant_square),
    {
        match en_passant_square {
            Some(sq) => self.en_passant[sq.get_file() as usize],
            None => self.en_passant_none,
        }
    }
}

} // verus!
