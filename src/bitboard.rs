//! Bitboards: 64-bit sets of squares, bit `i` standing for square `i`.
use crate::squares::Square;
use vstd::prelude::*;

verus! {

/// Whether square `i` is in the set `b`.
pub open spec fn bit(b: u64, i: u64) -> bool {
    (b >> i) & 1u64 == 1u64
}

/// Two's complement negation on 64 bits.
pub open spec fn neg64(x: u64) -> u64 {
    sub64(0, x)
}

/// Subtraction on 64 bits, wrapping around.
pub open spec fn sub64(x: u64, y: u64) -> u64 {
    if x >= y {
        (x - y) as u64
    } else {
        (0x1_0000_0000_0000_0000 + x - y) as u64
    }
}

/// How set operations act on single squares.
pub proof fn lemma_bits()
    by (bit_vector)
    ensures
        forall|a: u64, b: u64, t: u64| t < 64 ==> (#[trigger] bit(a | b, t) == (bit(a, t) || bit(b, t))),
        forall|a: u64, b: u64, t: u64| t < 64 ==> (#[trigger] bit(a & b, t) == (bit(a, t) && bit(b, t))),
        forall|a: u64, b: u64, t: u64| t < 64 ==> (#[trigger] bit(a ^ b, t) == (bit(a, t) != bit(b, t))),
        forall|a: u64, t: u64| t < 64 ==> (#[trigger] bit(!a, t) == !bit(a, t)),
        forall|s: u64, t: u64| s < 64 && t < 64 ==> (#[trigger] bit(1u64 << s, t) == (s == t)),
        forall|t: u64| t < 64 ==> !(#[trigger] bit(0u64, t)),
        forall|a: u64, s: u64| s < 64 ==> ((a & (1u64 << s) != 0) == #[trigger] bit(a, s)),
{
}

/// Two sets with the same squares are equal.
pub proof fn lemma_bits_ext(a: u64, b: u64)
    requires
        forall|t: u64| t < 64 ==> bit(a, t) == bit(b, t),
    ensures
        a == b,
{
    assert(bit(a, 0) == bit(b, 0));
    assert(bit(a, 1) == bit(b, 1));
    assert(bit(a, 2) == bit(b, 2));
    assert(bit(a, 3) == bit(b, 3));
    assert(bit(a, 4) == bit(b, 4));
    assert(bit(a, 5) == bit(b, 5));
    assert(bit(a, 6) == bit(b, 6));
    assert(bit(a, 7) == bit(b, 7));
    assert(bit(a, 8) == bit(b, 8));
    assert(bit(a, 9) == bit(b, 9));
    assert(bit(a, 10) == bit(b, 10));
    assert(bit(a, 11) == bit(b, 11));
    assert(bit(a, 12) == bit(b, 12));
    assert(bit(a, 13) == bit(b, 13));
    assert(bit(a, 14) == bit(b, 14));
    assert(bit(a, 15) == bit(b, 15));
    assert(bit(a, 16) == bit(b, 16));
    assert(bit(a, 17) == bit(b, 17));
    assert(bit(a, 18) == bit(b, 18));
    assert(bit(a, 19) == bit(b, 19));
    assert(bit(a, 20) == bit(b, 20));
    assert(bit(a, 21) == bit(b, 21));
    assert(bit(a, 22) == bit(b, 22));
    assert(bit(a, 23) == bit(b, 23));
    assert(bit(a, 24) == bit(b, 24));
    assert(bit(a, 25) == bit(b, 25));
    assert(bit(a, 26) == bit(b, 26));
    assert(bit(a, 27) == bit(b, 27));
    assert(bit(a, 28) == bit(b, 28));
    assert(bit(a, 29) == bit(b, 29));
    assert(bit(a, 30) == bit(b, 30));
    assert(bit(a, 31) == bit(b, 31));
    assert(bit(a, 32) == bit(b, 32));
    assert(bit(a, 33) == bit(b, 33));
    assert(bit(a, 34) == bit(b, 34));
    assert(bit(a, 35) == bit(b, 35));
    assert(bit(a, 36) == bit(b, 36));
    assert(bit(a, 37) == bit(b, 37));
    assert(bit(a, 38) == bit(b, 38));
    assert(bit(a, 39) == bit(b, 39));
    assert(bit(a, 40) == bit(b, 40));
    assert(bit(a, 41) == bit(b, 41));
    assert(bit(a, 42) == bit(b, 42));
    assert(bit(a, 43) == bit(b, 43));
    assert(bit(a, 44) == bit(b, 44));
    assert(bit(a, 45) == bit(b, 45));
    assert(bit(a, 46) == bit(b, 46));
    assert(bit(a, 47) == bit(b, 47));
    assert(bit(a, 48) == bit(b, 48));
    assert(bit(a, 49) == bit(b, 49));
    assert(bit(a, 50) == bit(b, 50));
    assert(bit(a, 51) == bit(b, 51));
    assert(bit(a, 52) == bit(b, 52));
    assert(bit(a, 53) == bit(b, 53));
    assert(bit(a, 54) == bit(b, 54));
    assert(bit(a, 55) == bit(b, 55));
    assert(bit(a, 56) == bit(b, 56));
    assert(bit(a, 57) == bit(b, 57));
    assert(bit(a, 58) == bit(b, 58));
    assert(bit(a, 59) == bit(b, 59));
    assert(bit(a, 60) == bit(b, 60));
    assert(bit(a, 61) == bit(b, 61));
    assert(bit(a, 62) == bit(b, 62));
    assert(bit(a, 63) == bit(b, 63));
    assert(a == b) by (bit_vector)
        requires
            (((a >> 0u64) & 1u64 == 1u64) == ((b >> 0u64) & 1u64 == 1u64))
                && (((a >> 1u64) & 1u64 == 1u64) == ((b >> 1u64) & 1u64 == 1u64))
                && (((a >> 2u64) & 1u64 == 1u64) == ((b >> 2u64) & 1u64 == 1u64))
                && (((a >> 3u64) & 1u64 == 1u64) == ((b >> 3u64) & 1u64 == 1u64))
                && (((a >> 4u64) & 1u64 == 1u64) == ((b >> 4u64) & 1u64 == 1u64))
                && (((a >> 5u64) & 1u64 == 1u64) == ((b >> 5u64) & 1u64 == 1u64))
                && (((a >> 6u64) & 1u64 == 1u64) == ((b >> 6u64) & 1u64 == 1u64))
                && (((a >> 7u64) & 1u64 == 1u64) == ((b >> 7u64) & 1u64 == 1u64))
                && (((a >> 8u64) & 1u64 == 1u64) == ((b >> 8u64) & 1u64 == 1u64))
                && (((a >> 9u64) & 1u64 == 1u64) == ((b >> 9u64) & 1u64 == 1u64))
                && (((a >> 10u64) & 1u64 == 1u64) == ((b >> 10u64) & 1u64 == 1u64))
                && (((a >> 11u64) & 1u64 == 1u64) == ((b >> 11u64) & 1u64 == 1u64))
                && (((a >> 12u64) & 1u64 == 1u64) == ((b >> 12u64) & 1u64 == 1u64))
                && (((a >> 13u64) & 1u64 == 1u64) == ((b >> 13u64) & 1u64 == 1u64))
                && (((a >> 14u64) & 1u64 == 1u64) == ((b >> 14u64) & 1u64 == 1u64))
                && (((a >> 15u64) & 1u64 == 1u64) == ((b >> 15u64) & 1u64 == 1u64))
                && (((a >> 16u64) & 1u64 == 1u64) == ((b >> 16u64) & 1u64 == 1u64))
                && (((a >> 17u64) & 1u64 == 1u64) == ((b >> 17u64) & 1u64 == 1u64))
                && (((a >> 18u64) & 1u64 == 1u64) == ((b >> 18u64) & 1u64 == 1u64))
                && (((a >> 19u64) & 1u64 == 1u64) == ((b >> 19u64) & 1u64 == 1u64))
                && (((a >> 20u64) & 1u64 == 1u64) == ((b >> 20u64) & 1u64 == 1u64))
                && (((a >> 21u64) & 1u64 == 1u64) == ((b >> 21u64) & 1u64 == 1u64))
                && (((a >> 22u64) & 1u64 == 1u64) == ((b >> 22u64) & 1u64 == 1u64))
                && (((a >> 23u64) & 1u64 == 1u64) == ((b >> 23u64) & 1u64 == 1u64))
                && (((a >> 24u64) & 1u64 == 1u64) == ((b >> 24u64) & 1u64 == 1u64))
                && (((a >> 25u64) & 1u64 == 1u64) == ((b >> 25u64) & 1u64 == 1u64))
                && (((a >> 26u64) & 1u64 == 1u64) == ((b >> 26u64) & 1u64 == 1u64))
                && (((a >> 27u64) & 1u64 == 1u64) == ((b >> 27u64) & 1u64 == 1u64))
                && (((a >> 28u64) & 1u64 == 1u64) == ((b >> 28u64) & 1u64 == 1u64))
                && (((a >> 29u64) & 1u64 == 1u64) == ((b >> 29u64) & 1u64 == 1u64))
                && (((a >> 30u64) & 1u64 == 1u64) == ((b >> 30u64) & 1u64 == 1u64))
                && (((a >> 31u64) & 1u64 == 1u64) == ((b >> 31u64) & 1u64 == 1u64))
                && (((a >> 32u64) & 1u64 == 1u64) == ((b >> 32u64) & 1u64 == 1u64))
                && (((a >> 33u64) & 1u64 == 1u64) == ((b >> 33u64) & 1u64 == 1u64))
                && (((a >> 34u64) & 1u64 == 1u64) == ((b >> 34u64) & 1u64 == 1u64))
                && (((a >> 35u64) & 1u64 == 1u64) == ((b >> 35u64) & 1u64 == 1u64))
                && (((a >> 36u64) & 1u64 == 1u64) == ((b >> 36u64) & 1u64 == 1u64))
                && (((a >> 37u64) & 1u64 == 1u64) == ((b >> 37u64) & 1u64 == 1u64))
                && (((a >> 38u64) & 1u64 == 1u64) == ((b >> 38u64) & 1u64 == 1u64))
                && (((a >> 39u64) & 1u64 == 1u64) == ((b >> 39u64) & 1u64 == 1u64))
                && (((a >> 40u64) & 1u64 == 1u64) == ((b >> 40u64) & 1u64 == 1u64))
                && (((a >> 41u64) & 1u64 == 1u64) == ((b >> 41u64) & 1u64 == 1u64))
                && (((a >> 42u64) & 1u64 == 1u64) == ((b >> 42u64) & 1u64 == 1u64))
                && (((a >> 43u64) & 1u64 == 1u64) == ((b >> 43u64) & 1u64 == 1u64))
                && (((a >> 44u64) & 1u64 == 1u64) == ((b >> 44u64) & 1u64 == 1u64))
                && (((a >> 45u64) & 1u64 == 1u64) == ((b >> 45u64) & 1u64 == 1u64))
                && (((a >> 46u64) & 1u64 == 1u64) == ((b >> 46u64) & 1u64 == 1u64))
                && (((a >> 47u64) & 1u64 == 1u64) == ((b >> 47u64) & 1u64 == 1u64))
                && (((a >> 48u64) & 1u64 == 1u64) == ((b >> 48u64) & 1u64 == 1u64))
                && (((a >> 49u64) & 1u64 == 1u64) == ((b >> 49u64) & 1u64 == 1u64))
                && (((a >> 50u64) & 1u64 == 1u64) == ((b >> 50u64) & 1u64 == 1u64))
                && (((a >> 51u64) & 1u64 == 1u64) == ((b >> 51u64) & 1u64 == 1u64))
                && (((a >> 52u64) & 1u64 == 1u64) == ((b >> 52u64) & 1u64 == 1u64))
                && (((a >> 53u64) & 1u64 == 1u64) == ((b >> 53u64) & 1u64 == 1u64))
                && (((a >> 54u64) & 1u64 == 1u64) == ((b >> 54u64) & 1u64 == 1u64))
                && (((a >> 55u64) & 1u64 == 1u64) == ((b >> 55u64) & 1u64 == 1u64))
                && (((a >> 56u64) & 1u64 == 1u64) == ((b >> 56u64) & 1u64 == 1u64))
                && (((a >> 57u64) & 1u64 == 1u64) == ((b >> 57u64) & 1u64 == 1u64))
                && (((a >> 58u64) & 1u64 == 1u64) == ((b >> 58u64) & 1u64 == 1u64))
                && (((a >> 59u64) & 1u64 == 1u64) == ((b >> 59u64) & 1u64 == 1u64))
                && (((a >> 60u64) & 1u64 == 1u64) == ((b >> 60u64) & 1u64 == 1u64))
                && (((a >> 61u64) & 1u64 == 1u64) == ((b >> 61u64) & 1u64 == 1u64))
                && (((a >> 62u64) & 1u64 == 1u64) == ((b >> 62u64) & 1u64 == 1u64))
                && (((a >> 63u64) & 1u64 == 1u64) == ((b >> 63u64) & 1u64 == 1u64)),
    ;
}

/// A set of squares, as a 64-bit word.
#[derive(Debug, Clone, Copy, PartialEq, Eq, Structural, PartialOrd, Ord, Hash)]
pub struct BitBoard(pub u64);

impl BitBoard {
    pub fn new(v: u64) -> (r: BitBoard)
        ensures
            r.0 == v,
    {
        BitBoard(v)
    }

    /// Whether square `index` is in the set.
    pub fn is_set(self, index: u8) -> (r: bool)
        requires
            index < 64,
        ensures
            r == bit(self.0, index as u64),
    {
        proof {
            lemma_bits();
        }
        self.0 & (1u64 << index) != 0
    }

    /// Whether the two sets share a square.
    pub fn intersects(self, other: BitBoard) -> (r: bool)
        ensures
            r == (self.0 & other.0 != 0),
    {
        self.0 & other.0 != 0
    }

    /// Whether the two sets share a square.
    pub fn contains(self, other: BitBoard) -> (r: bool)
        ensures
            r == (self.0 & other.0 != 0),
    {
        self.intersects(other)
    }

    /// Adds square `index` to the set.
    pub fn set(&mut self, index: u8)
        requires
            index < 64,
        ensures
            final(self).0 == old(self).0 | (1u64 << index),
            forall|t: u64| t < 64 ==> bit(final(self).0, t) == (bit(old(self).0, t) || t == index),
    {
        proof {
            lemma_bits();
        }
        self.0 = self.0 | (1u64 << index);
    }

    /// Removes square `index` from the set.
    pub fn clear(&mut self, index: u8)
        requires
            index < 64,
        ensures
            final(self).0 == old(self).0 & !(1u64 << index),
            forall|t: u64| t < 64 ==> bit(final(self).0, t) == (bit(old(self).0, t) && t != index),
    {
        proof {
            lemma_bits();
        }
        self.0 = self.0 & !(1u64 << index);
    }

    pub fn is_zero(self) -> (r: bool)
        ensures
            r == (self.0 == 0),
    {
        self.0 == 0
    }

    pub fn is_null(self) -> (r: bool)
        ensures
            r == (self.0 == 0),
    {
        self.0 == 0
    }

    /// The lowest square of the set (64 for the empty set).
    pub fn get_index(self) -> (r: u32)
        ensures
            r == self.0.trailing_zeros(),
            self.0 != 0 ==> r < 64 && bit(self.0, r as u64),
            self.0 == 0 ==> r == 64,
    {
        lowest_square(self.0)
    }

    /// The set holding only the lowest square of this one: `b & -b`.
    pub fn get_ls1b(self) -> (r: BitBoard)
        ensures
            r.0 == self.0 & neg64(self.0),
    {
        BitBoard(self.0 & 0u64.wrapping_sub(self.0))
    }

    /// This set without its lowest square: `b & (b - 1)`.
    pub fn reset_ls1b(self) -> (r: BitBoard)
        ensures
            r.0 == self.0 & sub64(self.0, 1),
    {
        BitBoard(self.0 & self.0.wrapping_sub(1))
    }

    /// Two's complement negation, as a set.
    pub fn wrapping_neg(self) -> (r: BitBoard)
        ensures
            r.0 == neg64(self.0),
    {
        BitBoard(0u64.wrapping_sub(self.0))
    }

    /// Wrapping subtraction, as a set.
    pub fn wrapping_sub(self, other: BitBoard) -> (r: BitBoard)
        ensures
            r.0 == sub64(self.0, other.0),
    {
        BitBoard(self.0.wrapping_sub(other.0))
    }

    /// Walks the squares of the set, lowest first.
    pub fn into_iter(self) -> (r: BitBoardIterator)
        ensures
            r.0 == self.0,
    {
        BitBoardIterator(self.0)
    }
}

/// Yields the squares of a set one by one, each as a one-square set, lowest first.
pub struct BitBoardIterator(pub u64);

impl BitBoardIterator {
    /// The one-square set of the lowest remaining square, which is then dropped.
    pub fn next(&mut self) -> (r: Option<BitBoard>)
        ensures
            old(self).0 == 0 ==> r is None && final(self).0 == 0,
            old(self).0 != 0 ==> r == Some(BitBoard(old(self).0 & neg64(old(self).0)))
                && final(self).0 == old(self).0 & sub64(old(self).0, 1),
    {
        if self.0 == 0 {
            return None;
        }
        let ls1b = self.0 & 0u64.wrapping_sub(self.0);
        self.0 = self.0 & self.0.wrapping_sub(1);
        Some(BitBoard(ls1b))
    }
}

/// The lowest square of a nonempty set, or 64.
pub fn lowest_square(b: u64) -> (r: u32)
    ensures
        r == b.trailing_zeros(),
        b != 0 ==> r < 64 && bit(b, r as u64),
        b == 0 ==> r == 64,
{
    proof {
        vstd::std_specs::bits::axiom_u64_trailing_zeros(b);
    }
    b.trailing_zeros()
}

/// The set of the single square `square`.
pub fn from_square(square: Square) -> (r: u64)
    ensures
        r == 1u64 << square.idx(),
        forall|t: u64| t < 64 ==> bit(r, t) == (t == square.idx()),
{
    proof {
        lemma_bits();
    }
    1u64 << square.index()
}

/// The square that position `k` of a drawing stands for: the drawing starts at a8,
/// goes along rank 8, then rank 7, and ends at h1.
pub open spec fn drawn_square(k: nat) -> nat {
    ((7 - k / 8) * 8 + k % 8) as nat
}

/// Builds a set from 64 zeros and ones laid out as drawn, a8 first.
pub fn from_array(value: &[u64]) -> (r: u64)
    requires
        value@.len() == 64,
        forall|k: int| 0 <= k < 64 ==> value@[k] <= 1,
    ensures
        forall|k: int| 0 <= k < 64 ==> bit(r, drawn_square(k as nat) as u64) == (value@[k] == 1),
{
    let mut acc: u64 = 0;
    let mut k: usize = 0;
    proof {
        lemma_bits();
    }
    while k < 64
        invariant
            value@.len() == 64,
            forall|j: int| 0 <= j < 64 ==> value@[j] <= 1,
            k <= 64,
            forall|j: int| 0 <= j < k ==> bit(acc, #[trigger] drawn_square(j as nat) as u64) == (value@[j] == 1),
            forall|j: int| k <= j < 64 ==> !bit(acc, #[trigger] drawn_square(j as nat) as u64),
        decreases 64 - k,
    {
        let sq: u64 = ((7 - k / 8) * 8 + k % 8) as u64;
        let v = value[k];
        proof {
            lemma_set_one(acc, v, sq);
            assert forall|j: int| 0 <= j < 64 && j != k implies #[trigger] drawn_square(j as nat) != sq by {
                assert(j / 8 != k / 8 || j % 8 != k % 8);
            }
        }
        acc = acc | (v << sq);
        k += 1;
    }
    acc
}

proof fn lemma_set_one(acc: u64, v: u64, s: u64)
    requires
        v <= 1,
        s < 64,
    ensures
        forall|t: u64| t < 64 ==> #[trigger] bit(acc | (v << s), t) == (bit(acc, t) || (v == 1 && t == s)),
{
    assert(forall|t: u64| t < 64 ==> #[trigger] bit(acc | (v << s), t) == (bit(acc, t) || (v == 1 && t == s))) by (bit_vector)
        requires
            v <= 1,
            s < 64,
    ;
}

/// The cells of a drawn set: `1` a member, `0` or `.` an empty square; other characters
/// are skipped.
pub open spec fn drawn_cells(s: Seq<char>) -> Seq<u64>
    decreases s.len(),
{
    if s.len() == 0 {
        seq![]
    } else {
        let rest = drawn_cells(s.drop_last());
        let c = s.last();
        if c == '1' {
            rest.push(1u64)
        } else if c == '0' || c == '.' {
            rest.push(0u64)
        } else {
            rest
        }
    }
}

/// Reads a set drawn as 64 cells, a8 first and h1 last (see `drawn_cells`).
pub fn from_str(value: &str) -> (r: u64)
    requires
        drawn_cells(value@).len() == 64,
    ensures
        forall|k: int| 0 <= k < 64 ==> bit(r, drawn_square(k as nat) as u64) == (drawn_cells(value@)[k] == 1),
{
    let n = value.unicode_len();
    let mut cells: Vec<u64> = Vec::new();
    let mut i: usize = 0;
    while i < n
        invariant
            n == value@.len(),
            i <= n,
            cells@ == drawn_cells(value@.subrange(0, i as int)),
        decreases n - i,
    {
        let c = value.get_char(i);
        proof {
            let s1 = value@.subrange(0, i + 1);
            assert(s1.drop_last() =~= value@.subrange(0, i as int));
            assert(s1.last() == c);
        }
        if c == '1' {
            cells.push(1);
        } else if c == '0' || c == '.' {
            cells.push(0);
        }
        i += 1;
    }
    proof {
        assert(value@.subrange(0, n as int) =~= value@);
        lemma_drawn_cells_bits(value@);
    }
    from_array(cells.as_slice())
}

proof fn lemma_drawn_cells_bits(s: Seq<char>)
    ensures
        forall|k: int| 0 <= k < drawn_cells(s).len() ==> drawn_cells(s)[k] <= 1,
    decreases s.len(),
{
    if s.len() > 0 {
        let rest = s.drop_last();
        lemma_drawn_cells_bits(rest);
        assert forall|k: int| 0 <= k < drawn_cells(s).len() implies drawn_cells(s)[k] <= 1 by {
            if k < drawn_cells(rest).len() {
                assert(drawn_cells(rest)[k] <= 1);
            }
        }
    }
}

} // verus!
