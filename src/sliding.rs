//! Attacks of sliding pieces (rooks, bishops, queens) by Hyperbola Quintessence.
use crate::bitboard::{bit, lemma_bits, lemma_bits_ext, sub64};
use vstd::prelude::*;

verus! {

/// The bytes of `x` in reverse order.
pub open spec fn bswap64(x: u64) -> u64 {
    ((x >> 56) & 0xff) | ((x >> 40) & 0xff00) | ((x >> 24) & 0xff_0000) | ((x >> 8) & 0xff00_0000)
        | ((x << 8) & 0xff_0000_0000) | ((x << 24) & 0xff00_0000_0000) | ((x << 40)
        & 0xff_0000_0000_0000) | ((x << 56) & 0xff00_0000_0000_0000)
}

/// The bytes of `x` in reverse order.
fn swap_bytes(x: u64) -> (r: u64)
    ensures
        r == bswap64(x),
{
    ((x >> 56) & 0xff) | ((x >> 40) & 0xff00) | ((x >> 24) & 0xff_0000) | ((x >> 8) & 0xff00_0000)
        | ((x << 8) & 0xff_0000_0000) | ((x << 24) & 0xff00_0000_0000) | ((x << 40)
        & 0xff_0000_0000_0000) | ((x << 56) & 0xff00_0000_0000_0000)
}

/// The squares on the rank of `sq`.
pub open spec fn same_rank(sq: u64, t: u64) -> bool {
    t / 8 == sq / 8
}

/// The squares on the file of `sq`.
pub open spec fn same_file(sq: u64, t: u64) -> bool {
    t % 8 == sq % 8
}

/// The squares on the diagonal (a1-h8 direction) of `sq`.
pub open spec fn same_diagonal(sq: u64, t: u64) -> bool {
    (t % 8) as int - (t / 8) as int == (sq % 8) as int - (sq / 8) as int
}

/// The squares on the anti-diagonal (h1-a8 direction) of `sq`.
pub open spec fn same_anti_diagonal(sq: u64, t: u64) -> bool {
    (t % 8) + (t / 8) == (sq % 8) + (sq / 8)
}

pub fn rank_mask(sq: u64) -> (r: u64)
    requires
        sq < 64,
    ensures
        r == rank_mask_spec(sq),
        forall|t: u64| t < 64 ==> bit(r, t) == same_rank(sq, t),
{
    let r = 0xFFu64 << ((sq / 8) * 8);
    assert(forall|t: u64| t < 64 ==> bit(r, t) == same_rank(sq, t)) by (bit_vector)
        requires
            sq < 64,
            r == 0xFFu64 << ((sq / 8) * 8),
    ;
    r
}

pub fn file_mask(sq: u64) -> (r: u64)
    requires
        sq < 64,
    ensures
        r == file_mask_spec(sq),
        forall|t: u64| t < 64 ==> bit(r, t) == same_file(sq, t),
{
    let r = 0x0101010101010101u64 << (sq % 8);
    assert(forall|t: u64| t < 64 ==> bit(r, t) == same_file(sq, t)) by (bit_vector)
        requires
            sq < 64,
            r == 0x0101010101010101u64 << (sq % 8),
    ;
    r
}

pub fn diagonal_mask(sq: u64) -> (r: u64)
    requires
        sq < 64,
    ensures
        r == diagonal_mask_spec(sq),
        forall|t: u64| t < 64 ==> bit(r, t) == same_diagonal(sq, t),
{
    let main: u64 = 0x8040201008040201;
    let file = sq % 8;
    let rank = sq / 8;
    if file >= rank {
        let sh: u64 = (file - rank) * 8;
        let r = main >> sh;
        assert(forall|t: u64| t < 64 ==> bit(r, t) == ((t % 8) + (sq / 8) == (sq % 8) + (t / 8))) by (bit_vector)
            requires
                sq < 64,
                file == sq % 8,
                rank == sq / 8,
                file >= rank,
                sh == (file - rank) * 8,
                r == 0x8040201008040201u64 >> sh,
        ;
        r
    } else {
        let sh: u64 = (rank - file) * 8;
        let r = main << sh;
        assert(forall|t: u64| t < 64 ==> bit(r, t) == ((t % 8) + (sq / 8) == (sq % 8) + (t / 8))) by (bit_vector)
            requires
                sq < 64,
                file == sq % 8,
                rank == sq / 8,
                file < rank,
                sh == (rank - file) * 8,
                r == 0x8040201008040201u64 << sh,
        ;
        r
    }
}

pub fn anti_diagonal_mask(sq: u64) -> (r: u64)
    requires
        sq < 64,
    ensures
        r == anti_diagonal_mask_spec(sq),
        forall|t: u64| t < 64 ==> bit(r, t) == same_anti_diagonal(sq, t),
{
    let main: u64 = 0x0102040810204080;
    let file = sq % 8;
    let rank = sq / 8;
    if file + rank <= 7 {
        let sh: u64 = (7 - file - rank) * 8;
        let r = main >> sh;
        assert(forall|t: u64| t < 64 ==> bit(r, t) == ((t % 8) + (t / 8) == (sq % 8) + (sq / 8))) by (bit_vector)
            requires
                sq < 64,
                file == sq % 8,
                rank == sq / 8,
                file + rank <= 7,
                sh == (7 - file - rank) * 8,
                r == 0x0102040810204080u64 >> sh,
        ;
        r
    } else {
        let sh: u64 = (file + rank - 7) * 8;
        let r = main << sh;
        assert(forall|t: u64| t < 64 ==> bit(r, t) == ((t % 8) + (t / 8) == (sq % 8) + (sq / 8))) by (bit_vector)
            requires
                sq < 64,
                file == sq % 8,
                rank == sq / 8,
                file + rank > 7,
                sh == (file + rank - 7) * 8,
                r == 0x0102040810204080u64 << sh,
        ;
        r
    }
}


pub open spec fn rank_mask_spec(sq: u64) -> u64 {
    0xFFu64 << ((sq / 8) * 8)
}

/// No square strictly between `a` and `b` is in `occ`.
pub open spec fn clear_between(occ: u64, a: u64, b: u64) -> bool {
    forall|y: u64| a < y < b ==> !#[trigger] bit(occ, y)
}

/// Whether a slider on square `from` reaches square `to` along a line, given the
/// occupancy `occ` and the squares `step` apart between them: every square strictly
/// between is empty.
pub open spec fn ray_open(occ: u64, from: u64, to: u64) -> bool {
    if from < to {
        clear_between(occ, from, to)
    } else {
        clear_between(occ, to, from)
    }
}

/// The squares that a rook on file `file` of a one-rank board attacks along that rank:
/// each other square of the rank with no occupied square of `occ` strictly between.
pub open spec fn rank_ray_bit(occ: u64, file: u64, x: u64) -> bool {
    x < 8 && x != file && ray_open(occ, file, x)
}

/// Generates the attacks along one rank: the empty squares on each side of `file`, up to
/// and including the first occupied one.
pub fn generate_rank_attack_mask(occ: u64, file: u64) -> (r: u64)
    requires
        file < 8,
    ensures
        forall|x: u64| x < 64 ==> bit(r, x) == rank_ray_bit(occ, file, x),
{
    proof {
        lemma_bits();
    }
    let mut mask: u64 = 0;
    let mut x: u64 = file;
    let mut blocked = false;
    while x > 0 && !blocked
        invariant
            x <= file < 8,
            forall|t: u64| t < 64 ==> bit(mask, t) == (x <= t < file),
            clear_between(occ, x, file),
            blocked ==> bit(occ, x) && x < file,
            !blocked && x < file ==> !bit(occ, x),
        decreases x,
    {
        proof {
            lemma_bits();
        }
        x = x - 1;
        mask = mask | (1u64 << x);
        if occ & (1u64 << x) != 0 {
            blocked = true;
        }
    }
    let low = x;
    assert forall|t: u64| t < file implies bit(mask, t) == clear_between(occ, t, file) by {
        if t < low {
            assert(bit(occ, low));
        }
    }
    let mut x: u64 = file + 1;
    let mut blocked = false;
    while x < 8 && !blocked
        invariant
            file < x <= 8,
            forall|t: u64| t < 64 ==> bit(mask, t) == ((low <= t < file) || (file < t < x)),
            clear_between(occ, file, (x - 1) as u64),
            blocked ==> bit(occ, (x - 1) as u64) && file < x - 1,
            !blocked ==> clear_between(occ, file, x),
        decreases 8 - x,
    {
        proof {
            lemma_bits();
        }
        mask = mask | (1u64 << x);
        if occ & (1u64 << x) != 0 {
            blocked = true;
        }
        x = x + 1;
    }
    assert forall|t: u64| file < t < 64 implies bit(mask, t) == rank_ray_bit(occ, file, t) by {
        if t >= x && t < 8 {
            assert(bit(occ, (x - 1) as u64));
        }
    }
    mask
}

/// The attack table along one rank: entry `8 * o + f` holds the attacks of a slider on
/// file `f` when the inner six squares of the rank are occupied as the bits of `o`.
pub fn init_rank_attack_mask_array() -> (r: Vec<u64>)
    ensures
        r@.len() == 512,
        forall|i: int| 0 <= i < 512 ==> #[trigger] r@[i] == rank_table_entry(i as u64),
{
    let mut v: Vec<u64> = Vec::new();
    let mut i: u64 = 0;
    while i < 512
        invariant
            i <= 512,
            v@.len() == i,
            forall|j: int| 0 <= j < i ==> #[trigger] v@[j] == rank_table_entry(j as u64),
        decreases 512 - i,
    {
        let e = get_rank_attack_mask(i);
        v.push(e);
        i += 1;
    }
    v
}

/// Entry `i` of the rank attack table.
pub open spec fn rank_table_entry(i: u64) -> u64 {
    choose|r: u64| #[trigger] is_rank_attacks(r, ((i / 8) * 2) as u64, i % 8)
}

/// `r` holds exactly the squares of `rank_ray_bit`.
pub open spec fn is_rank_attacks(r: u64, occ: u64, file: u64) -> bool {
    forall|x: u64| x < 64 ==> bit(r, x) == rank_ray_bit(occ, file, x)
}

/// Entry `i` of the rank attack table.
pub fn get_rank_attack_mask(i: u64) -> (r: u64)
    requires
        i < 512,
    ensures
        r == rank_table_entry(i),
        forall|x: u64| x < 64 ==> bit(r, x) == rank_ray_bit(((i / 8) * 2) as u64, i % 8, x),
{
    let r = generate_rank_attack_mask((i / 8) * 2, i % 8);
    proof {
        assert(is_rank_attacks(r, ((i / 8) * 2) as u64, i % 8));
        let c = rank_table_entry(i);
        assert(is_rank_attacks(c, ((i / 8) * 2) as u64, i % 8));
        lemma_bits_ext(r, c);
    }
    r
}


proof fn lemma_shift_bits(g: u64, occ: u64, k: u64)
    requires
        k <= 56,
    ensures
        forall|t: u64| t < 64 ==> #[trigger] bit(g << k, t) == (t >= k && bit(g, (t - k) as u64)),
        forall|y: u64| y < 8 ==> #[trigger] bit((occ >> k) & 126, y) == (1 <= y <= 6 && bit(occ, (k + y) as u64)),
{
    assert(forall|t: u64| t < 64 ==> #[trigger] bit(g << k, t) == (t >= k && bit(g, (t - k) as u64))) by (bit_vector)
        requires
            k <= 56,
    ;
    assert(forall|y: u64| y < 8 ==> #[trigger] bit((occ >> k) & 126, y) == (1 <= y <= 6 && bit(occ, (k + y) as u64))) by (bit_vector)
        requires
            k <= 56,
    ;
}

/// Whether a rook on `sq` attacks `t` along the rank.
pub open spec fn rank_attack_bit(occ: u64, sq: u64, t: u64) -> bool {
    same_rank(sq, t) && t != sq && ray_open(occ, sq, t)
}

/// The squares a rook on `sq` attacks along its rank: the other squares of the rank with
/// no occupied square strictly between.
pub fn rank_attacks(occ: u64, sq: u8) -> (r: u64)
    requires
        sq < 64,
    ensures
        forall|t: u64| t < 64 ==> bit(r, t) == rank_attack_bit(occ, sq as u64, t),
{
    let file: u64 = (sq % 8) as u64;
    let k: u64 = ((sq / 8) * 8) as u64;
    let occ_x2 = (occ >> k) & 126;
    assert(occ_x2 <= 126) by (bit_vector)
        requires
            occ_x2 == (occ >> k) & 126,
    ;
    let g = get_rank_attack_mask(4 * occ_x2 + file);
    let r = g << k;
    proof {
        lemma_shift_bits(g, occ, k);
        assert(occ_x2 % 2 == 0) by (bit_vector)
            requires
                occ_x2 == (occ >> k) & 126,
        ;
        assert((4 * occ_x2 + file) / 8 * 2 == occ_x2);
        assert((4 * occ_x2 + file) % 8 == file);
        assert forall|t: u64| t < 64 implies bit(r, t) == rank_attack_bit(occ, sq as u64, t) by {
            if t >= k && t < k + 8 {
                let x = (t - k) as u64;
                assert(bit(r, t) == rank_ray_bit(occ_x2, file, x));
                assert(ray_open(occ_x2, file, x) == ray_open(occ, sq as u64, t)) by {
                    if file < x {
                        if clear_between(occ_x2, file, x) {
                            assert forall|y: u64| (sq as u64) < y < t implies !#[trigger] bit(occ, y) by {
                                assert(bit(occ_x2, (y - k) as u64) == bit(occ, y));
                            }
                        }
                        if clear_between(occ, sq as u64, t) {
                            assert forall|y: u64| file < y < x implies !#[trigger] bit(occ_x2, y) by {
                                assert(bit(occ, (k + y) as u64) == bit(occ_x2, y));
                            }
                        }
                    } else if x < file {
                        if clear_between(occ_x2, x, file) {
                            assert forall|y: u64| t < y < (sq as u64) implies !#[trigger] bit(occ, y) by {
                                assert(bit(occ_x2, (y - k) as u64) == bit(occ, y));
                            }
                        }
                        if clear_between(occ, t, sq as u64) {
                            assert forall|y: u64| x < y < file implies !#[trigger] bit(occ_x2, y) by {
                                assert(bit(occ, (k + y) as u64) == bit(occ_x2, y));
                            }
                        }
                    }
                }
            } else if t >= k + 8 {
                assert(!bit(g, (t - k) as u64));
            }
        }
    }
    r
}


pub open spec fn file_mask_spec(sq: u64) -> u64 {
    0x0101010101010101u64 << (sq % 8)
}

pub open spec fn diagonal_mask_spec(sq: u64) -> u64 {
    if sq % 8 >= sq / 8 {
        0x8040201008040201u64 >> (((sq % 8 - sq / 8) * 8) as u64)
    } else {
        0x8040201008040201u64 << (((sq / 8 - sq % 8) * 8) as u64)
    }
}

pub open spec fn anti_diagonal_mask_spec(sq: u64) -> u64 {
    if sq % 8 + sq / 8 <= 7 {
        0x0102040810204080u64 >> (((7 - sq % 8 - sq / 8) * 8) as u64)
    } else {
        0x0102040810204080u64 << (((sq % 8 + sq / 8 - 7) * 8) as u64)
    }
}

/// The squares of the file of `sq`, without `sq` itself.
pub fn file_mask_ex(sq: u64) -> (r: u64)
    requires
        sq < 64,
    ensures
        r == (1u64 << sq) ^ file_mask_spec(sq),
        forall|t: u64| t < 64 ==> bit(r, t) == (same_file(sq, t) && t != sq),
{
    proof {
        lemma_bits();
    }
    (1u64 << sq) ^ file_mask(sq)
}

/// The squares of the rank of `sq`, without `sq` itself.
pub fn rank_mask_ex(sq: u64) -> (r: u64)
    requires
        sq < 64,
    ensures
        r == (1u64 << sq) ^ rank_mask_spec(sq),
        forall|t: u64| t < 64 ==> bit(r, t) == (same_rank(sq, t) && t != sq),
{
    proof {
        lemma_bits();
    }
    (1u64 << sq) ^ rank_mask(sq)
}

/// The squares of the diagonal of `sq`, without `sq` itself.
pub fn diagonal_mask_ex(sq: u64) -> (r: u64)
    requires
        sq < 64,
    ensures
        r == (1u64 << sq) ^ diagonal_mask_spec(sq),
        forall|t: u64| t < 64 ==> bit(r, t) == (same_diagonal(sq, t) && t != sq),
{
    proof {
        lemma_bits();
    }
    (1u64 << sq) ^ diagonal_mask(sq)
}

/// The squares of the anti-diagonal of `sq`, without `sq` itself.
pub fn anti_diagonal_mask_ex(sq: u64) -> (r: u64)
    requires
        sq < 64,
    ensures
        r == (1u64 << sq) ^ anti_diagonal_mask_spec(sq),
        forall|t: u64| t < 64 ==> bit(r, t) == (same_anti_diagonal(sq, t) && t != sq),
{
    proof {
        lemma_bits();
    }
    (1u64 << sq) ^ anti_diagonal_mask(sq)
}

/// The line masks of one square.
pub struct MaskForSquare {
    /// The square's own bit.
    pub bit_mask: u64,
    pub diagonal_mask_ex: u64,
    pub anti_diagonal_mask_ex: u64,
    pub file_mask_ex: u64,
}

impl MaskForSquare {
    pub fn new(sq: u64) -> (r: MaskForSquare)
        requires
            sq < 64,
        ensures
            r.bit_mask == 1u64 << sq,
            r.diagonal_mask_ex == (1u64 << sq) ^ diagonal_mask_spec(sq),
            r.anti_diagonal_mask_ex == (1u64 << sq) ^ anti_diagonal_mask_spec(sq),
            r.file_mask_ex == (1u64 << sq) ^ file_mask_spec(sq),
    {
        MaskForSquare {
            bit_mask: 1u64 << sq,
            diagonal_mask_ex: diagonal_mask_ex(sq),
            anti_diagonal_mask_ex: anti_diagonal_mask_ex(sq),
            file_mask_ex: file_mask_ex(sq),
        }
    }
}

/// The line masks of every square, in square order.
pub fn init_mask_for_square() -> (r: Vec<MaskForSquare>)
    ensures
        r@.len() == 64,
        forall|i: int| 0 <= i < 64 ==> #[trigger] r@[i].bit_mask == 1u64 << (i as u64),
{
    let mut v: Vec<MaskForSquare> = Vec::new();
    let mut i: u64 = 0;
    while i < 64
        invariant
            i <= 64,
            v@.len() == i,
            forall|j: int| 0 <= j < i ==> #[trigger] v@[j].bit_mask == 1u64 << (j as u64),
        decreases 64 - i,
    {
        v.push(MaskForSquare::new(i));
        i += 1;
    }
    v
}

/// The line masks of square `sq`.
pub fn get_masks(sq: u8) -> (r: MaskForSquare)
    requires
        sq < 64,
    ensures
        r.bit_mask == 1u64 << sq,
        r.diagonal_mask_ex == (1u64 << sq) ^ diagonal_mask_spec(sq as u64),
        r.anti_diagonal_mask_ex == (1u64 << sq) ^ anti_diagonal_mask_spec(sq as u64),
        r.file_mask_ex == (1u64 << sq) ^ file_mask_spec(sq as u64),
{
    MaskForSquare::new(sq as u64)
}

/// Hyperbola Quintessence along one line through `sq`, given by `mask` (without `sq`):
/// the empty squares up to and including the first occupied one, on each side.
pub open spec fn line_attacks_spec(occ: u64, sq: u64, mask: u64) -> u64 {
    let b = 1u64 << sq;
    let forward = occ & mask;
    let reverse = bswap64(forward);
    (sub64(forward, b) ^ bswap64(sub64(reverse, bswap64(b)))) & mask
}

pub fn line_attacks(occ: u64, sq: u8, mask: u64) -> (r: u64)
    requires
        sq < 64,
    ensures
        r == line_attacks_spec(occ, sq as u64, mask),
        forall|t: u64| t < 64 && #[trigger] bit(r, t) ==> bit(mask, t),
{
    proof {
        lemma_bits();
    }
    let masks = get_masks(sq);
    let mut forward = occ & mask;
    let mut reverse = swap_bytes(forward);
    forward = forward.wrapping_sub(masks.bit_mask);
    reverse = reverse.wrapping_sub(swap_bytes(masks.bit_mask));
    forward = forward ^ swap_bytes(reverse);
    forward = forward & mask;
    forward
}

pub fn diagonal_attacks(occ: u64, sq: u8) -> (r: u64)
    requires
        sq < 64,
    ensures
        r == line_attacks_spec(occ, sq as u64, (1u64 << sq) ^ diagonal_mask_spec(sq as u64)),
        forall|t: u64| t < 64 && #[trigger] bit(r, t) ==> same_diagonal(sq as u64, t) && t != sq,
{
    line_attacks(occ, sq, diagonal_mask_ex(sq as u64))
}

pub fn anti_diagonal_attacks(occ: u64, sq: u8) -> (r: u64)
    requires
        sq < 64,
    ensures
        r == line_attacks_spec(occ, sq as u64, (1u64 << sq) ^ anti_diagonal_mask_spec(sq as u64)),
        forall|t: u64| t < 64 && #[trigger] bit(r, t) ==> same_anti_diagonal(sq as u64, t) && t != sq,
{
    line_attacks(occ, sq, anti_diagonal_mask_ex(sq as u64))
}

pub fn file_attacks(occ: u64, sq: u8) -> (r: u64)
    requires
        sq < 64,
    ensures
        r == line_attacks_spec(occ, sq as u64, (1u64 << sq) ^ file_mask_spec(sq as u64)),
        forall|t: u64| t < 64 && #[trigger] bit(r, t) ==> same_file(sq as u64, t) && t != sq,
{
    line_attacks(occ, sq, file_mask_ex(sq as u64))
}

/// The rank attacks of a rook on `sq`, as a set.
pub open spec fn rank_attacks_spec(occ: u64, sq: u64) -> u64 {
    choose|r: u64| #[trigger] is_rank_attack_set(r, occ, sq)
}

pub open spec fn is_rank_attack_set(r: u64, occ: u64, sq: u64) -> bool {
    forall|t: u64| t < 64 ==> bit(r, t) == rank_attack_bit(occ, sq, t)
}

/// The squares a rook on `sq` attacks.
pub open spec fn rook_attacks_spec(occ: u64, sq: u64) -> u64 {
    line_attacks_spec(occ, sq, (1u64 << sq) ^ file_mask_spec(sq)) | rank_attacks_spec(occ, sq)
}

/// The squares a bishop on `sq` attacks.
pub open spec fn bishop_attacks_spec(occ: u64, sq: u64) -> u64 {
    line_attacks_spec(occ, sq, (1u64 << sq) ^ diagonal_mask_spec(sq)) | line_attacks_spec(
        occ,
        sq,
        (1u64 << sq) ^ anti_diagonal_mask_spec(sq),
    )
}

/// The squares a rook on `sq` attacks, given the occupied squares `occ`: along the file
/// by Hyperbola Quintessence, and along the rank up to the first blocker on each side.
pub fn get_rook_attacks(occ: u64, sq: u8) -> (r: u64)
    requires
        sq < 64,
    ensures
        r == rook_attacks_spec(occ, sq as u64),
        forall|t: u64| t < 64 && same_rank(sq as u64, t) ==> (#[trigger] bit(r, t) == rank_attack_bit(occ, sq as u64, t)),
        forall|t: u64| t < 64 && #[trigger] bit(r, t) ==> (same_file(sq as u64, t) || same_rank(sq as u64, t)) && t != sq,
{
    let f = file_attacks(occ, sq);
    let k = rank_attacks(occ, sq);
    proof {
        lemma_bits();
        assert(is_rank_attack_set(k, occ, sq as u64));
        let c = rank_attacks_spec(occ, sq as u64);
        assert(is_rank_attack_set(c, occ, sq as u64));
        lemma_bits_ext(k, c);
        assert forall|t: u64| t < 64 && same_rank(sq as u64, t) implies (#[trigger] bit(f | k, t) == rank_attack_bit(occ, sq as u64, t)) by {
            if bit(f, t) {
                assert(same_file(sq as u64, t) && t != sq);
            }
        }
    }
    f | k
}

/// The squares a bishop on `sq` attacks, given the occupied squares `occ`.
pub fn get_bishop_attacks(occ: u64, sq: u8) -> (r: u64)
    requires
        sq < 64,
    ensures
        r == bishop_attacks_spec(occ, sq as u64),
        forall|t: u64| t < 64 && #[trigger] bit(r, t) ==> (same_diagonal(sq as u64, t) || same_anti_diagonal(sq as u64, t)) && t != sq,
{
    proof {
        lemma_bits();
    }
    diagonal_attacks(occ, sq) | anti_diagonal_attacks(occ, sq)
}

/// The squares a queen on `sq` attacks: those of a rook and of a bishop there.
pub fn get_queen_attacks(occ: u64, sq: u8) -> (r: u64)
    requires
        sq < 64,
    ensures
        r == rook_attacks_spec(occ, sq as u64) | bishop_attacks_spec(occ, sq as u64),
{
    get_rook_attacks(occ, sq) | get_bishop_attacks(occ, sq)
}

} // verus!



