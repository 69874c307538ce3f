//! The position: piece sets, side to move, en-passant square, castling rights,
//! move counters and Zobrist key.
use crate::bitboard::{bit, lemma_bits};
use crate::castling::CastlingAbility;
use crate::colors::Color;
use crate::squares::Square;
use crate::zobrist::Keys;
use vstd::prelude::*;

verus! {

/// A position.
#[derive(Debug, Clone, Copy)]
pub struct Board {
    /// One set per piece, in piece order: even entries White, odd entries Black.
    pub pieces: [u64; 12],
    /// The squares of each color.
    pub all: [u64; 2],
    pub occupied: u64,
    pub side_to_move: Color,
    /// The square a pawn skipped with a double push on the last move.
    pub en_passant_target_square: Option<Square>,
    pub castling_ability: CastlingAbility,
    pub half_move_clock: u32,
    pub full_move_counter: u32,
    pub zobrist_key: u64,
}

/// The mathematical model of a position.
pub struct Position {
    pub pieces: Seq<u64>,
    pub all: Seq<u64>,
    pub occupied: u64,
    pub side: Color,
    pub ep: Option<Square>,
    pub castling: u8,
    pub half: u32,
    pub full: u32,
    pub key: u64,
}

/// The union of the six sets of color `c`.
pub open spec fn color_union(pieces: Seq<u64>, c: int) -> u64 {
    pieces[c] | pieces[c + 2] | pieces[c + 4] | pieces[c + 6] | pieces[c + 8] | pieces[c + 10]
}

/// The XOR of the keys of the (square, piece) pairs among the first `n` (square-major
/// order) whose square holds that piece.
pub open spec fn pieces_hash(pieces: Seq<u64>, keys: Keys, n: nat) -> u64
    decreases n,
{
    if n == 0 {
        0
    } else {
        let k = (n - 1) as nat;
        let term = if bit(pieces[(k % 12) as int], (k / 12) as u64) {
            keys.piece(k / 12, k % 12)
        } else {
            0
        };
        pieces_hash(pieces, keys, k) ^ term
    }
}

/// The Zobrist key of a position, computed from scratch.
pub open spec fn zobrist_of(p: Position, keys: Keys) -> u64 {
    pieces_hash(p.pieces, keys, 768) ^ keys.side_key(p.side) ^ keys.castling_key_of(p.castling)
        ^ keys.ep_key(p.ep)
}

impl Position {
    /// No square holds two pieces.
    pub open spec fn disjoint(self) -> bool {
        forall|i: int, j: int| 0 <= i < 12 && 0 <= j < 12 && i != j ==> #[trigger] self.pieces[i] & #[trigger] self.pieces[j] == 0
    }

    /// The color sets and the occupancy agree with the piece sets.
    pub open spec fn unions_agree(self) -> bool {
        &&& self.all[0] == color_union(self.pieces, 0)
        &&& self.all[1] == color_union(self.pieces, 1)
        &&& self.occupied == self.all[0] | self.all[1]
    }

    pub open spec fn wf(self) -> bool {
        &&& self.pieces.len() == 12
        &&& self.all.len() == 2
        &&& self.disjoint()
        &&& self.unions_agree()
        &&& self.castling < 16
    }

    /// The key agrees with a computation from scratch.
    pub open spec fn key_agrees(self, keys: Keys) -> bool {
        self.key == zobrist_of(self, keys)
    }
}

impl View for Board {
    type V = Position;

    open spec fn view(&self) -> Position {
        Position {
            pieces: self.pieces@,
            all: self.all@,
            occupied: self.occupied,
            side: self.side_to_move,
            ep: self.en_passant_target_square,
            castling: self.castling_ability.0,
            half: self.half_move_clock,
            full: self.full_move_counter,
            key: self.zobrist_key,
        }
    }
}

impl PartialEq for Board {
    fn eq(&self, other: &Board) -> (r: bool) {
        let mut same = self.occupied == other.occupied && self.all[0] == other.all[0] && self.all[1]
            == other.all[1] && self.side_to_move == other.side_to_move
            && self.en_passant_target_square == other.en_passant_target_square
            && self.castling_ability == other.castling_ability && self.half_move_clock
            == other.half_move_clock && self.full_move_counter == other.full_move_counter
            && self.zobrist_key == other.zobrist_key;
        let mut i: usize = 0;
        while i < 12
            invariant
                i <= 12,
                same == (self@.occupied == other@.occupied && self@.all =~= other@.all && self@.side
                    == other@.side && self@.ep == other@.ep && self@.castling == other@.castling
                    && self@.half == other@.half && self@.full == other@.full && self@.key
                    == other@.key && forall|k: int| 0 <= k < i ==> self.pieces[k] == other.pieces[k]),
            decreases 12 - i,
        {
            if self.pieces[i] != other.pieces[i] {
                same = false;
            }
            i += 1;
        }
        proof {
            if same {
                assert(self@.pieces =~= other@.pieces);
            }
        }
        same
    }
}

impl vstd::std_specs::cmp::PartialEqSpecImpl for Board {
    open spec fn obeys_eq_spec() -> bool {
        true
    }

    open spec fn eq_spec(&self, other: &Board) -> bool {
        self@ == other@
    }
}

impl Eq for Board {
}

/// The squares of each color: the union of the even sets, and of the odd ones.
pub fn get_all_bitboards(pieces: &[u64; 12]) -> (r: [u64; 2])
    ensures
        r[0] == color_union(pieces@, 0),
        r[1] == color_union(pieces@, 1),
{
    [
        pieces[0] | pieces[2] | pieces[4] | pieces[6] | pieces[8] | pieces[10],
        pieces[1] | pieces[3] | pieces[5] | pieces[7] | pieces[9] | pieces[11],
    ]
}

/// The occupied squares: the union of both colors.
pub fn get_occupied_bitboard(all: &[u64; 2]) -> (r: u64)
    ensures
        r == all[0] | all[1],
{
    all[0] | all[1]
}

impl Board {
    pub open spec fn wf(&self) -> bool {
        self@.wf()
    }

    /// The starting position: the pieces on their home squares, White to move, every
    /// castling right, no en-passant square, counters 0 and 1.
    pub open spec fn is_start_position(&self) -> bool {
        &&& self.pieces == [
            0x0000_0000_0000_FF00u64,
            0x00FF_0000_0000_0000,
            0x0000_0000_0000_0042,
            0x4200_0000_0000_0000,
            0x0000_0000_0000_0024,
            0x2400_0000_0000_0000,
            0x0000_0000_0000_0081,
            0x8100_0000_0000_0000,
            0x0000_0000_0000_0008,
            0x0800_0000_0000_0000,
            0x0000_0000_0000_0010,
            0x1000_0000_0000_0000,
        ]
        &&& self.side_to_move == Color::White
        &&& self.en_passant_target_square is None
        &&& self.castling_ability.0 == 15
        &&& self.half_move_clock == 0
        &&& self.full_move_counter == 1
    }

    /// A position from its piece sets and the rest of its state; the color sets, the
    /// occupancy and the Zobrist key are computed.
    pub fn from_parts(
        pieces: [u64; 12],
        side_to_move: Color,
        castling_ability: CastlingAbility,
        en_passant_target_square: Option<Square>,
        half_move_clock: u32,
        full_move_counter: u32,
        keys: &Keys,
    ) -> (r: Board)
        requires
            keys.wf(),
            castling_ability.wf(),
        ensures
            r.pieces == pieces,
            r.side_to_move == side_to_move,
            r.castling_ability == castling_ability,
            r.en_passant_target_square == en_passant_target_square,
            r.half_move_clock == half_move_clock,
            r.full_move_counter == full_move_counter,
            r@.unions_agree(),
            r@.key_agrees(*keys),
    {
        let all = get_all_bitboards(&pieces);
        let occupied = get_occupied_bitboard(&all);
        let mut b = Board {
            pieces,
            all,
            occupied,
            side_to_move,
            en_passant_target_square,
            castling_ability,
            half_move_clock,
            full_move_counter,
            zobrist_key: 0,
        };
        b.zobrist_key = Board::gen_zobrist_key(&b, keys);
        b
    }

    /// The position with no piece, White to move.
    pub fn empty(keys: &Keys) -> (r: Board)
        requires
            keys.wf(),
        ensures
            r.wf(),
            r@.key_agrees(*keys),
            forall|i: int| 0 <= i < 12 ==> r.pieces[i] == 0,
            r.side_to_move == Color::White,
            r.en_passant_target_square is None,
            r.castling_ability.0 == 0,
            r.half_move_clock == 0,
            r.full_move_counter == 1,
    {
        let r = Board::from_parts([0u64; 12], Color::White, CastlingAbility::none(), None, 0, 1, keys);
        proof {
            assert(0u64 & 0u64 == 0) by (bit_vector);
        }
        r
    }

    /// The starting position.
    pub fn initial_board(keys: &Keys) -> (r: Board)
        requires
            keys.wf(),
        ensures
            r.wf(),
            r@.key_agrees(*keys),
            r.is_start_position(),
            r.pieces == [
                0x0000_0000_0000_FF00u64,
                0x00FF_0000_0000_0000,
                0x0000_0000_0000_0042,
                0x4200_0000_0000_0000,
                0x0000_0000_0000_0024,
                0x2400_0000_0000_0000,
                0x0000_0000_0000_0081,
                0x8100_0000_0000_0000,
                0x0000_0000_0000_0008,
                0x0800_0000_0000_0000,
                0x0000_0000_0000_0010,
                0x1000_0000_0000_0000,
            ],
            r.side_to_move == Color::White,
            r.en_passant_target_square is None,
            r.castling_ability.0 == 15,
            r.half_move_clock == 0,
            r.full_move_counter == 1,
    {
        let pieces: [u64; 12] = [
            0x0000_0000_0000_FF00,
            0x00FF_0000_0000_0000,
            0x0000_0000_0000_0042,
            0x4200_0000_0000_0000,
            0x0000_0000_0000_0024,
            0x2400_0000_0000_0000,
            0x0000_0000_0000_0081,
            0x8100_0000_0000_0000,
            0x0000_0000_0000_0008,
            0x0800_0000_0000_0000,
            0x0000_0000_0000_0010,
            0x1000_0000_0000_0000,
        ];
        let r = Board::from_parts(pieces, Color::White, CastlingAbility::all(), None, 0, 1, keys);
        proof {
            assert forall|i: int, j: int| 0 <= i < 12 && 0 <= j < 12 && i != j implies #[trigger] r@.pieces[i] & #[trigger] r@.pieces[j] == 0 by {
                lemma_initial_disjoint(i, j);
            }
        }
        r
    }

    pub fn get_side_to_move(&self) -> (r: Color)
        ensures
            r == self.side_to_move,
    {
        self.side_to_move
    }

    pub fn opposite_side(&self) -> (r: Color)
        ensures
            r == self.side_to_move.opposite_spec(),
    {
        self.side_to_move.opposite()
    }

    /// The Zobrist key of a position, computed from scratch: the keys of every piece on
    /// its square, of the side to move, of the castling rights and of the en-passant file.
    pub fn gen_zobrist_key(board: &Board, keys: &Keys) -> (r: u64)
        requires
            keys.wf(),
            board.castling_ability.wf(),
        ensures
            r == zobrist_of(board@, *keys),
    {
        let mut key: u64 = 0;
        let mut n: usize = 0;
        while n < 768
            invariant
                keys.wf(),
                n <= 768,
                key == pieces_hash(board.pieces@, *keys, n as nat),
            decreases 768 - n,
        {
            let sq = n / 12;
            let p = n % 12;
            if board.pieces[p] & (1u64 << (sq as u64)) != 0 {
                proof {
                    lemma_bits();
                }
                key = key ^ keys.pieces[n];
            } else {
                proof {
                    lemma_bits();
                    assert(key ^ 0 == key) by (bit_vector);
                }
            }
            n += 1;
        }
        key = key ^ keys.color_key(board.side_to_move);
        key = key ^ keys.castling_key(board.castling_ability);
        key = key ^ keys.en_passant_key(board.en_passant_target_square);
        key
    }
}

proof fn lemma_initial_disjoint(i: int, j: int)
    requires
        0 <= i < 12,
        0 <= j < 12,
        i != j,
    ensures
        ({
            let s = seq![
                0x0000_0000_0000_FF00u64,
                0x00FF_0000_0000_0000,
                0x0000_0000_0000_0042,
                0x4200_0000_0000_0000,
                0x0000_0000_0000_0024,
                0x2400_0000_0000_0000,
                0x0000_0000_0000_0081,
                0x8100_0000_0000_0000,
                0x0000_0000_0000_0008,
                0x0800_0000_0000_0000,
                0x0000_0000_0000_0010,
                0x1000_0000_0000_0000,
            ];
            s[i] & s[j] == 0
        }),
{
    assert(
        (0x0000_0000_0000_FF00u64 & 0x00FF_0000_0000_0000u64 == 0) &&
        (0x0000_0000_0000_FF00u64 & 0x0000_0000_0000_0042u64 == 0) &&
        (0x0000_0000_0000_FF00u64 & 0x4200_0000_0000_0000u64 == 0) &&
        (0x0000_0000_0000_FF00u64 & 0x0000_0000_0000_0024u64 == 0) &&
        (0x0000_0000_0000_FF00u64 & 0x2400_0000_0000_0000u64 == 0) &&
        (0x0000_0000_0000_FF00u64 & 0x0000_0000_0000_0081u64 == 0) &&
        (0x0000_0000_0000_FF00u64 & 0x8100_0000_0000_0000u64 == 0) &&
        (0x0000_0000_0000_FF00u64 & 0x0000_0000_0000_0008u64 == 0) &&
        (0x0000_0000_0000_FF00u64 & 0x0800_0000_0000_0000u64 == 0) &&
        (0x0000_0000_0000_FF00u64 & 0x0000_0000_0000_0010u64 == 0) &&
        (0x0000_0000_0000_FF00u64 & 0x1000_0000_0000_0000u64 == 0) &&
        (0x00FF_0000_0000_0000u64 & 0x0000_0000_0000_FF00u64 == 0) &&
        (0x00FF_0000_0000_0000u64 & 0x0000_0000_0000_0042u64 == 0) &&
        (0x00FF_0000_0000_0000u64 & 0x4200_0000_0000_0000u64 == 0) &&
        (0x00FF_0000_0000_0000u64 & 0x0000_0000_0000_0024u64 == 0) &&
        (0x00FF_0000_0000_0000u64 & 0x2400_0000_0000_0000u64 == 0) &&
        (0x00FF_0000_0000_0000u64 & 0x0000_0000_0000_0081u64 == 0) &&
        (0x00FF_0000_0000_0000u64 & 0x8100_0000_0000_0000u64 == 0) &&
        (0x00FF_0000_0000_0000u64 & 0x0000_0000_0000_0008u64 == 0) &&
        (0x00FF_0000_0000_0000u64 & 0x0800_0000_0000_0000u64 == 0) &&
        (0x00FF_0000_0000_0000u64 & 0x0000_0000_0000_0010u64 == 0) &&
        (0x00FF_0000_0000_0000u64 & 0x1000_0000_0000_0000u64 == 0) &&
        (0x0000_0000_0000_0042u64 & 0x0000_0000_0000_FF00u64 == 0) &&
        (0x0000_0000_0000_0042u64 & 0x00FF_0000_0000_0000u64 == 0) &&
        (0x0000_0000_0000_0042u64 & 0x4200_0000_0000_0000u64 == 0) &&
        (0x0000_0000_0000_0042u64 & 0x0000_0000_0000_0024u64 == 0) &&
        (0x0000_0000_0000_0042u64 & 0x2400_0000_0000_0000u64 == 0) &&
        (0x0000_0000_0000_0042u64 & 0x0000_0000_0000_0081u64 == 0) &&
        (0x0000_0000_0000_0042u64 & 0x8100_0000_0000_0000u64 == 0) &&
        (0x0000_0000_0000_0042u64 & 0x0000_0000_0000_0008u64 == 0) &&
        (0x0000_0000_0000_0042u64 & 0x0800_0000_0000_0000u64 == 0) &&
        (0x0000_0000_0000_0042u64 & 0x0000_0000_0000_0010u64 == 0) &&
        (0x0000_0000_0000_0042u64 & 0x1000_0000_0000_0000u64 == 0) &&
        (0x4200_0000_0000_0000u64 & 0x0000_0000_0000_FF00u64 == 0) &&
        (0x4200_0000_0000_0000u64 & 0x00FF_0000_0000_0000u64 == 0) &&
        (0x4200_0000_0000_0000u64 & 0x0000_0000_0000_0042u64 == 0) &&
        (0x4200_0000_0000_0000u64 & 0x0000_0000_0000_0024u64 == 0) &&
        (0x4200_0000_0000_0000u64 & 0x2400_0000_0000_0000u64 == 0) &&
        (0x4200_0000_0000_0000u64 & 0x0000_0000_0000_0081u64 == 0) &&
        (0x4200_0000_0000_0000u64 & 0x8100_0000_0000_0000u64 == 0) &&
        (0x4200_0000_0000_0000u64 & 0x0000_0000_0000_0008u64 == 0) &&
        (0x4200_0000_0000_0000u64 & 0x0800_0000_0000_0000u64 == 0) &&
        (0x4200_0000_0000_0000u64 & 0x0000_0000_0000_0010u64 == 0) &&
        (0x4200_0000_0000_0000u64 & 0x1000_0000_0000_0000u64 == 0) &&
        (0x0000_0000_0000_0024u64 & 0x0000_0000_0000_FF00u64 == 0) &&
        (0x0000_0000_0000_0024u64 & 0x00FF_0000_0000_0000u64 == 0) &&
        (0x0000_0000_0000_0024u64 & 0x0000_0000_0000_0042u64 == 0) &&
        (0x0000_0000_0000_0024u64 & 0x4200_0000_0000_0000u64 == 0) &&
        (0x0000_0000_0000_0024u64 & 0x2400_0000_0000_0000u64 == 0) &&
        (0x0000_0000_0000_0024u64 & 0x0000_0000_0000_0081u64 == 0) &&
        (0x0000_0000_0000_0024u64 & 0x8100_0000_0000_0000u64 == 0) &&
        (0x0000_0000_0000_0024u64 & 0x0000_0000_0000_0008u64 == 0) &&
        (0x0000_0000_0000_0024u64 & 0x0800_0000_0000_0000u64 == 0) &&
        (0x0000_0000_0000_0024u64 & 0x0000_0000_0000_0010u64 == 0) &&
        (0x0000_0000_0000_0024u64 & 0x1000_0000_0000_0000u64 == 0) &&
        (0x2400_0000_0000_0000u64 & 0x0000_0000_0000_FF00u64 == 0) &&
        (0x2400_0000_0000_0000u64 & 0x00FF_0000_0000_0000u64 == 0) &&
        (0x2400_0000_0000_0000u64 & 0x0000_0000_0000_0042u64 == 0) &&
        (0x2400_0000_0000_0000u64 & 0x4200_0000_0000_0000u64 == 0) &&
        (0x2400_0000_0000_0000u64 & 0x0000_0000_0000_0024u64 == 0) &&
        (0x2400_0000_0000_0000u64 & 0x0000_0000_0000_0081u64 == 0) &&
        (0x2400_0000_0000_0000u64 & 0x8100_0000_0000_0000u64 == 0) &&
        (0x2400_0000_0000_0000u64 & 0x0000_0000_0000_0008u64 == 0) &&
        (0x2400_0000_0000_0000u64 & 0x0800_0000_0000_0000u64 == 0) &&
        (0x2400_0000_0000_0000u64 & 0x0000_0000_0000_0010u64 == 0) &&
        (0x2400_0000_0000_0000u64 & 0x1000_0000_0000_0000u64 == 0) &&
        (0x0000_0000_0000_0081u64 & 0x0000_0000_0000_FF00u64 == 0) &&
        (0x0000_0000_0000_0081u64 & 0x00FF_0000_0000_0000u64 == 0) &&
        (0x0000_0000_0000_0081u64 & 0x0000_0000_0000_0042u64 == 0) &&
        (0x0000_0000_0000_0081u64 & 0x4200_0000_0000_0000u64 == 0) &&
        (0x0000_0000_0000_0081u64 & 0x0000_0000_0000_0024u64 == 0) &&
        (0x0000_0000_0000_0081u64 & 0x2400_0000_0000_0000u64 == 0) &&
        (0x0000_0000_0000_0081u64 & 0x8100_0000_0000_0000u64 == 0) &&
        (0x0000_0000_0000_0081u64 & 0x0000_0000_0000_0008u64 == 0) &&
        (0x0000_0000_0000_0081u64 & 0x0800_0000_0000_0000u64 == 0) &&
        (0x0000_0000_0000_0081u64 & 0x0000_0000_0000_0010u64 == 0) &&
        (0x0000_0000_0000_0081u64 & 0x1000_0000_0000_0000u64 == 0) &&
        (0x8100_0000_0000_0000u64 & 0x0000_0000_0000_FF00u64 == 0) &&
        (0x8100_0000_0000_0000u64 & 0x00FF_0000_0000_0000u64 == 0) &&
        (0x8100_0000_0000_0000u64 & 0x0000_0000_0000_0042u64 == 0) &&
        (0x8100_0000_0000_0000u64 & 0x4200_0000_0000_0000u64 == 0) &&
        (0x8100_0000_0000_0000u64 & 0x0000_0000_0000_0024u64 == 0) &&
        (0x8100_0000_0000_0000u64 & 0x2400_0000_0000_0000u64 == 0) &&
        (0x8100_0000_0000_0000u64 & 0x0000_0000_0000_0081u64 == 0) &&
        (0x8100_0000_0000_0000u64 & 0x0000_0000_0000_0008u64 == 0) &&
        (0x8100_0000_0000_0000u64 & 0x0800_0000_0000_0000u64 == 0) &&
        (0x8100_0000_0000_0000u64 & 0x0000_0000_0000_0010u64 == 0) &&
        (0x8100_0000_0000_0000u64 & 0x1000_0000_0000_0000u64 == 0) &&
        (0x0000_0000_0000_0008u64 & 0x0000_0000_0000_FF00u64 == 0) &&
        (0x0000_0000_0000_0008u64 & 0x00FF_0000_0000_0000u64 == 0) &&
        (0x0000_0000_0000_0008u64 & 0x0000_0000_0000_0042u64 == 0) &&
        (0x0000_0000_0000_0008u64 & 0x4200_0000_0000_0000u64 == 0) &&
        (0x0000_0000_0000_0008u64 & 0x0000_0000_0000_0024u64 == 0) &&
        (0x0000_0000_0000_0008u64 & 0x2400_0000_0000_0000u64 == 0) &&
        (0x0000_0000_0000_0008u64 & 0x0000_0000_0000_0081u64 == 0) &&
        (0x0000_0000_0000_0008u64 & 0x8100_0000_0000_0000u64 == 0) &&
        (0x0000_0000_0000_0008u64 & 0x0800_0000_0000_0000u64 == 0) &&
        (0x0000_0000_0000_0008u64 & 0x0000_0000_0000_0010u64 == 0) &&
        (0x0000_0000_0000_0008u64 & 0x1000_0000_0000_0000u64 == 0) &&
        (0x0800_0000_0000_0000u64 & 0x0000_0000_0000_FF00u64 == 0) &&
        (0x0800_0000_0000_0000u64 & 0x00FF_0000_0000_0000u64 == 0) &&
        (0x0800_0000_0000_0000u64 & 0x0000_0000_0000_0042u64 == 0) &&
        (0x0800_0000_0000_0000u64 & 0x4200_0000_0000_0000u64 == 0) &&
        (0x0800_0000_0000_0000u64 & 0x0000_0000_0000_0024u64 == 0) &&
        (0x0800_0000_0000_0000u64 & 0x2400_0000_0000_0000u64 == 0) &&
        (0x0800_0000_0000_0000u64 & 0x0000_0000_0000_0081u64 == 0) &&
        (0x0800_0000_0000_0000u64 & 0x8100_0000_0000_0000u64 == 0) &&
        (0x0800_0000_0000_0000u64 & 0x0000_0000_0000_0008u64 == 0) &&
        (0x0800_0000_0000_0000u64 & 0x0000_0000_0000_0010u64 == 0) &&
        (0x0800_0000_0000_0000u64 & 0x1000_0000_0000_0000u64 == 0) &&
        (0x0000_0000_0000_0010u64 & 0x0000_0000_0000_FF00u64 == 0) &&
        (0x0000_0000_0000_0010u64 & 0x00FF_0000_0000_0000u64 == 0) &&
        (0x0000_0000_0000_0010u64 & 0x0000_0000_0000_0042u64 == 0) &&
        (0x0000_0000_0000_0010u64 & 0x4200_0000_0000_0000u64 == 0) &&
        (0x0000_0000_0000_0010u64 & 0x0000_0000_0000_0024u64 == 0) &&
        (0x0000_0000_0000_0010u64 & 0x2400_0000_0000_0000u64 == 0) &&
        (0x0000_0000_0000_0010u64 & 0x0000_0000_0000_0081u64 == 0) &&
        (0x0000_0000_0000_0010u64 & 0x8100_0000_0000_0000u64 == 0) &&
        (0x0000_0000_0000_0010u64 & 0x0000_0000_0000_0008u64 == 0) &&
        (0x0000_0000_0000_0010u64 & 0x0800_0000_0000_0000u64 == 0) &&
        (0x0000_0000_0000_0010u64 & 0x1000_0000_0000_0000u64 == 0) &&
        (0x1000_0000_0000_0000u64 & 0x0000_0000_0000_FF00u64 == 0) &&
        (0x1000_0000_0000_0000u64 & 0x00FF_0000_0000_0000u64 == 0) &&
        (0x1000_0000_0000_0000u64 & 0x0000_0000_0000_0042u64 == 0) &&
        (0x1000_0000_0000_0000u64 & 0x4200_0000_0000_0000u64 == 0) &&
        (0x1000_0000_0000_0000u64 & 0x0000_0000_0000_0024u64 == 0) &&
        (0x1000_0000_0000_0000u64 & 0x2400_0000_0000_0000u64 == 0) &&
        (0x1000_0000_0000_0000u64 & 0x0000_0000_0000_0081u64 == 0) &&
        (0x1000_0000_0000_0000u64 & 0x8100_0000_0000_0000u64 == 0) &&
        (0x1000_0000_0000_0000u64 & 0x0000_0000_0000_0008u64 == 0) &&
        (0x1000_0000_0000_0000u64 & 0x0800_0000_0000_0000u64 == 0) &&
        (0x1000_0000_0000_0000u64 & 0x0000_0000_0000_0010u64 == 0)
    ) by (bit_vector);
    assert(0 <= i < 12 ==> i == 0 || i == 1 || i == 2 || i == 3 || i == 4 || i == 5 || i == 6 || i == 7 || i == 8 || i == 9 || i == 10 || i == 11);
    assert(0 <= j < 12 ==> j == 0 || j == 1 || j == 2 || j == 3 || j == 4 || j == 5 || j == 6 || j == 7 || j == 8 || j == 9 || j == 10 || j == 11);
}

} // verus!
