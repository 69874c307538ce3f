//! Properties of the engine that relate several of its functions.
use crate::bitboard::{bit, lemma_bits, lemma_bits_ext};
use crate::board::{color_union, pieces_hash, Position};
use crate::move_gen::{is_castling_move, is_en_passant_move, is_ordinary_move, is_pseudo_legal, lemma_piece_of, target_mask};
use crate::movements::{king_attacks_spec, NOT_A_FILE, NOT_H_FILE};
use crate::colors::Color;
use crate::castling::rights_kept;
use crate::eval::{eval_spec, material, piece_value, popcount};
use crate::moves::Move;
use crate::pieces::Piece;
use crate::search::{mate_in_spec, mated_in_spec, MATE_SCORE};
use crate::squares::Square;
use crate::update::{apply_spec, capture_spec, captured_square, ep_spec, first_holder, promotion_spec, rights_spec, rook_spec, slide_spec, turn_spec};
use crate::zobrist::Keys;
use vstd::prelude::*;

verus! {

proof fn lemma_popcount_bounded(b: u64, n: nat)
    ensures
        popcount(b, n) <= n,
    decreases n,
{
    if n > 0 {
        lemma_popcount_bounded(b, (n - 1) as nat);
    }
}

proof fn lemma_material_bounded(p: Position, c: nat, kinds: nat)
    requires
        kinds <= 6,
    ensures
        material(p, c, kinds) <= 1417600 * kinds,
    decreases kinds,
{
    if kinds > 0 {
        let k = (kinds - 1) as nat;
        lemma_material_bounded(p, c, k);
        let n = popcount(p.pieces[(2 * k + c) as int], 64);
        lemma_popcount_bounded(p.pieces[(2 * k + c) as int], 64);
        assert(n * piece_value(k) <= 64 * 20000) by (nonlinear_arith)
            requires
                n <= 64,
                piece_value(k) <= 20000,
        ;
    }
}

/// Evaluations stay within the bound that searches rely on.
pub proof fn lemma_eval_bounded(p: Position)
    ensures
        -8_505_600 <= eval_spec(p) <= 8_505_600,
{
    lemma_material_bounded(p, p.side.idx(), 6);
    lemma_material_bounded(p, (1 - p.side.idx()) as nat, 6);
}


/// Moving a piece from `from` to `to` and then back from `to` to `from` restores the
/// piece sets, the color sets, the occupancy and the key bit for bit: each step is an
/// XOR, and XOR undoes itself.
pub proof fn lemma_slide_round_trip(s: Position, p: Piece, from: Square, to: Square, keys: Keys)
    requires
        s.pieces.len() == 12,
        s.all.len() == 2,
    ensures
        ({
            let back = slide_spec(slide_spec(s, p, from.idx(), to.idx(), keys), p, to.idx(), from.idx(), keys);
            back.pieces == s.pieces && back.all == s.all && back.occupied == s.occupied && back.key == s.key
        }),
{
    let f = from.idx();
    let t = to.idx();
    let s1 = slide_spec(s, p, f, t, keys);
    let back = slide_spec(s1, p, t, f, keys);
    let m1 = (1u64 << f) ^ (1u64 << t);
    let m2 = (1u64 << t) ^ (1u64 << f);
    assert(forall|x: u64, a: u64, b: u64| #[trigger] ((x ^ (a ^ b)) ^ (b ^ a)) == x) by (bit_vector);
    assert(forall|x: u64, a: u64, b: u64| #[trigger] (((x ^ a) ^ b) ^ b) ^ a == x) by (bit_vector);
    assert(back.pieces =~= s.pieces);
    assert(back.all =~= s.all);
}

/// After a move, the en-passant square is the square a double pawn push skipped, and
/// there is none after any other move.
pub proof fn lemma_en_passant_after_move(s: Position, mv: Move, keys: Keys)
    ensures
        mv.is_double_push() ==> (apply_spec(s, mv, keys).ep matches Some(sq) && sq.idx() == mv.skipped_square()),
        !mv.is_double_push() ==> apply_spec(s, mv, keys).ep is None,
{
    if mv.is_double_push() {
        crate::squares::lemma_square_at(mv.skipped_square());
        assert(crate::squares::square_at(mv.skipped_square()).idx() == mv.skipped_square());
    }
}

/// A move from or to the home square of a king or rook drops the castling rights tied
/// to that piece: E1 both of White's, A1 White's queen side, H1 White's king side, and
/// E8, A8, H8 the same for Black. A capture of a rook on its home square is a move to it.
pub proof fn lemma_castling_rights_cleared(s: Position, mv: Move, keys: Keys)
    ensures
        ({
            let r = apply_spec(s, mv, keys).castling;
            &&& (mv.from == Square::E1 || mv.to == Square::E1) ==> r & 3 == 0
            &&& (mv.from == Square::A1 || mv.to == Square::A1) ==> r & 2 == 0
            &&& (mv.from == Square::H1 || mv.to == Square::H1) ==> r & 1 == 0
            &&& (mv.from == Square::E8 || mv.to == Square::E8) ==> r & 12 == 0
            &&& (mv.from == Square::A8 || mv.to == Square::A8) ==> r & 8 == 0
            &&& (mv.from == Square::H8 || mv.to == Square::H8) ==> r & 4 == 0
        }),
{
    let c = s.castling;
    let kf = rights_kept(mv.from.idx());
    let kt = rights_kept(mv.to.idx());
    let r = (c & kf) & kt;
    assert(apply_spec(s, mv, keys).castling == r);
    assert(((kf == 12 || kt == 12) ==> r & 3 == 0) && ((kf == 13 || kt == 13) ==> r & 2 == 0) && ((kf == 14
        || kt == 14) ==> r & 1 == 0) && ((kf == 3 || kt == 3) ==> r & 12 == 0) && ((kf == 7 || kt == 7)
        ==> r & 8 == 0) && ((kf == 11 || kt == 11) ==> r & 4 == 0)) by (bit_vector)
        requires
            r == (c & kf) & kt,
    ;
}

/// Mate scores decode to the distance they encode: a score of `MATE_SCORE - 2k + 1` is a
/// mate in k (k from 1 to 500), and `-MATE_SCORE + 2k` is being mated in k (k from 0 to
/// 500; 0 means mated already).
pub proof fn lemma_mate_distances(k: int)
    ensures
        1 <= k <= 500 ==> mate_in_spec(MATE_SCORE - 2 * k + 1) == Some(k),
        0 <= k <= 500 ==> mated_in_spec(-MATE_SCORE + 2 * k) == Some(k),
        mated_in_spec(-MATE_SCORE as int) == Some(0int),
{
}


proof fn lemma_xor_facts()
    by (bit_vector)
    ensures
        forall|a: u64, b: u64, c: u64| #[trigger] ((a ^ b) ^ c) == (a ^ c) ^ b,
        forall|a: u64, b: u64| #[trigger] ((a ^ b) ^ b) == a,
        forall|a: u64| #[trigger] (a ^ 0u64) == a,
        forall|a: u64, b: u64, c: u64| #[trigger] ((a ^ b) ^ c) == a ^ (b ^ c),
{
}

/// Flipping one square of one piece set changes the from-scratch piece hash by that
/// (square, piece) key.
proof fn lemma_hash_toggle(pieces: Seq<u64>, keys: Keys, p: nat, sq: nat, n: nat)
    requires
        pieces.len() == 12,
        keys.wf(),
        p < 12,
        sq < 64,
        n <= 768,
    ensures
        pieces_hash(pieces.update(p as int, pieces[p as int] ^ (1u64 << sq)), keys, n) == pieces_hash(pieces, keys, n)
            ^ (if 12 * sq + p < n { keys.piece(sq, p) } else { 0u64 }),
    decreases n,
{
    lemma_xor_facts();
    lemma_bits();
    let q = pieces.update(p as int, pieces[p as int] ^ (1u64 << sq));
    if n > 0 {
        let k = (n - 1) as nat;
        lemma_hash_toggle(pieces, keys, p, sq, k);
        let t = if bit(pieces[(k % 12) as int], (k / 12) as u64) { keys.piece(k / 12, k % 12) } else { 0 };
        let flipped = if bit(q[(k % 12) as int], (k / 12) as u64) { keys.piece(k / 12, k % 12) } else { 0 };
        assert(k / 12 < 64);
        if k == 12 * sq + p {
            assert(k % 12 == p && k / 12 == sq);
            assert(bit(q[p as int], sq as u64) != bit(pieces[p as int], sq as u64));
            if bit(pieces[p as int], sq as u64) {
                assert(flipped == 0u64 && t == keys.piece(sq, p));
            } else {
                assert(t == 0u64 && flipped == keys.piece(sq, p));
            }
        } else {
            if k % 12 == p {
                assert(k / 12 != sq);
            }
            assert(flipped == t);
        }
    }
}

/// Moving a piece between two squares (an XOR of both) changes the hash by both keys.
proof fn lemma_hash_move(pieces: Seq<u64>, keys: Keys, p: nat, f: nat, t: nat)
    requires
        pieces.len() == 12,
        keys.wf(),
        p < 12,
        f < 64,
        t < 64,
    ensures
        pieces_hash(pieces.update(p as int, pieces[p as int] ^ ((1u64 << f) ^ (1u64 << t))), keys, 768)
            == pieces_hash(pieces, keys, 768) ^ keys.piece(f, p) ^ keys.piece(t, p),
{
    lemma_xor_facts();
    let once = pieces.update(p as int, pieces[p as int] ^ (1u64 << f));
    lemma_hash_toggle(pieces, keys, p, f, 768);
    lemma_hash_toggle(once, keys, p, t, 768);
    let x = pieces[p as int];
    assert((x ^ (1u64 << f)) ^ (1u64 << t) == x ^ ((1u64 << f) ^ (1u64 << t)));
    assert(once.update(p as int, once[p as int] ^ (1u64 << t)) =~= pieces.update(p as int, pieces[p as int] ^ ((1u64 << f) ^ (1u64 << t))));
}


proof fn lemma_xor_reorder(h: u64, a: u64, b: u64, c: u64, x: u64, y: u64)
    by (bit_vector)
    ensures
        ((((h ^ x) ^ y) ^ a) ^ b) ^ c == ((((h ^ a) ^ b) ^ c) ^ x) ^ y,
        (((h ^ x) ^ a) ^ b) ^ c == (((h ^ a) ^ b) ^ c) ^ x,
        ((((h ^ a) ^ b) ^ c) ^ a) ^ x == ((h ^ x) ^ b) ^ c,
        ((((h ^ a) ^ b) ^ c) ^ b) ^ x == ((h ^ a) ^ x) ^ c,
        ((((h ^ a) ^ b) ^ c) ^ c) ^ x == ((h ^ a) ^ b) ^ x,
{
}

proof fn lemma_slide_keeps_key(s: Position, p: Piece, f: nat, t: nat, keys: Keys)
    requires
        s.pieces.len() == 12,
        keys.wf(),
        f < 64,
        t < 64,
        s.key_agrees(keys),
    ensures
        slide_spec(s, p, f, t, keys).key_agrees(keys),
{
    lemma_hash_move(s.pieces, keys, p.idx(), f, t);
    lemma_xor_reorder(
        pieces_hash(s.pieces, keys, 768),
        keys.side_key(s.side),
        keys.castling_key_of(s.castling),
        keys.ep_key(s.ep),
        keys.piece(f, p.idx()),
        keys.piece(t, p.idx()),
    );
}

/// The sets a capture may change are those of the other color.
proof fn lemma_first_holder_parity(pieces: Seq<u64>, opp: int, sq: nat, k: nat)
    requires
        0 <= opp < 2,
    ensures
        first_holder(pieces, opp, sq, k) matches Some(q) ==> q < 12 && q % 2 == opp && bit(pieces[q as int], sq as u64),
    decreases 6 - k,
{
    if k < 6 {
        lemma_first_holder_parity(pieces, opp, sq, k + 1);
    }
}

proof fn lemma_capture_keeps_key(s: Position, mv: Move, keys: Keys)
    requires
        s.pieces.len() == 12,
        keys.wf(),
        s.key_agrees(keys),
    ensures
        capture_spec(s, mv, keys).key_agrees(keys),
        forall|i: int| 0 <= i < 12 && i % 2 == mv.piece.color().idx() ==> capture_spec(s, mv, keys).pieces[i] == s.pieces[i],
        capture_spec(s, mv, keys).pieces.len() == 12,
{
    let opp = 1 - mv.piece.color().idx() as int;
    if mv.is_capture {
        match captured_square(s, mv) {
            Some(cs) => {
                lemma_first_holder_parity(s.pieces, opp, cs, 0);
                match first_holder(s.pieces, opp, cs, 0) {
                    Some(q) => {
                        lemma_hash_toggle(s.pieces, keys, q, cs, 768);
                        lemma_xor_reorder(
                            pieces_hash(s.pieces, keys, 768),
                            keys.side_key(s.side),
                            keys.castling_key_of(s.castling),
                            keys.ep_key(s.ep),
                            keys.piece(cs, q),
                            0,
                        );
                    },
                    None => {},
                }
            },
            None => {},
        }
    }
}

proof fn lemma_promotion_keeps_key(s: Position, mv: Move, keys: Keys)
    requires
        s.pieces.len() == 12,
        keys.wf(),
        s.key_agrees(keys),
        mv.promotion matches Some(q) ==> q.idx() != mv.piece.idx() && bit(s.pieces[mv.piece.idx() as int], mv.to.idx() as u64)
            && !bit(s.pieces[q.idx() as int], mv.to.idx() as u64),
    ensures
        promotion_spec(s, mv, keys).key_agrees(keys),
{
    match mv.promotion {
        Some(q) => {
            let b = 1u64 << mv.to.idx();
            let p = mv.piece.idx() as int;
            let x = s.pieces[p];
            let y = s.pieces[q.idx() as int];
            let to = mv.to.idx() as u64;
            assert(x & !b == x ^ b && y | b == y ^ b) by (bit_vector)
                requires
                    to < 64,
                    b == 1u64 << to,
                    (x >> to) & 1u64 == 1u64,
                    (y >> to) & 1u64 != 1u64,
            ;
            let pieces1 = s.pieces.update(p, x & !b);
            lemma_hash_toggle(s.pieces, keys, p as nat, mv.to.idx(), 768);
            lemma_hash_toggle(pieces1, keys, q.idx(), mv.to.idx(), 768);
            lemma_xor_reorder(
                pieces_hash(s.pieces, keys, 768),
                keys.side_key(s.side),
                keys.castling_key_of(s.castling),
                keys.ep_key(s.ep),
                keys.piece(mv.to.idx(), p as nat),
                keys.piece(mv.to.idx(), q.idx()),
            );
        },
        None => {},
    }
}

/// Applying a move keeps the Zobrist key equal to a computation from scratch, provided a
/// promotion puts a new piece of another kind on an empty target square.
pub proof fn lemma_apply_keeps_key(s: Position, mv: Move, keys: Keys)
    requires
        s.pieces.len() == 12,
        keys.wf(),
        s.key_agrees(keys),
        mv.promotion matches Some(q) ==> q.idx() != mv.piece.idx() && q.color() == mv.piece.color()
            && mv.from != mv.to && !bit(s.pieces[mv.piece.idx() as int], mv.to.idx() as u64)
            && !bit(s.pieces[q.idx() as int], mv.to.idx() as u64),
    ensures
        apply_spec(s, mv, keys).key_agrees(keys),
{
    let s1 = slide_spec(s, mv.piece, mv.from.idx(), mv.to.idx(), keys);
    lemma_slide_keeps_key(s, mv.piece, mv.from.idx(), mv.to.idx(), keys);
    let s2 = capture_spec(s1, mv, keys);
    lemma_capture_keeps_key(s1, mv, keys);
    let s3 = rights_spec(s2, mv, keys);
    let h = pieces_hash(s2.pieces, keys, 768);
    lemma_xor_reorder(h, keys.side_key(s2.side), keys.castling_key_of(s2.castling), keys.ep_key(s2.ep), keys.castling_key_of(s3.castling), 0);
    assert(s3.key_agrees(keys));
    match mv.promotion {
        Some(q) => {
            let p = mv.piece.idx() as int;
            assert(q.idx() % 2 == mv.piece.color().idx());
            assert(p % 2 == mv.piece.color().idx());
            assert(s3.pieces[p] == s1.pieces[p]);
            assert(s3.pieces[q.idx() as int] == s1.pieces[q.idx() as int]);
            let x = s.pieces[p];
            let f = mv.from.idx() as u64;
            let t = mv.to.idx() as u64;
            assert(s1.pieces[p] == x ^ ((1u64 << f) ^ (1u64 << t)));
            assert(f != t);
            assert(((x >> t) & 1u64 != 1u64) ==> (((x ^ ((1u64 << f) ^ (1u64 << t))) >> t) & 1u64 == 1u64)) by (bit_vector)
                requires
                    f < 64,
                    t < 64,
                    f != t,
            ;
            assert(bit(s1.pieces[p], mv.to.idx() as u64));
        },
        None => {},
    }
    lemma_promotion_keeps_key(s3, mv, keys);
    let s4 = promotion_spec(s3, mv, keys);
    let s5 = ep_spec(s4, mv, keys);
    lemma_xor_reorder(pieces_hash(s4.pieces, keys, 768), keys.side_key(s4.side), keys.castling_key_of(s4.castling), keys.ep_key(s4.ep), keys.ep_key(s5.ep), 0);
    assert(s5.key_agrees(keys));
    let s6 = rook_spec(s5, mv, keys);
    match mv.castling_rook_move() {
        Some((f, t, rp)) => {
            lemma_slide_keeps_key(s5, rp, f, t, keys);
        },
        None => {},
    }
    assert(s6.key_agrees(keys));
    let s7 = turn_spec(s6, mv, keys);
    lemma_xor_reorder(pieces_hash(s6.pieces, keys, 768), keys.side_key(s6.side), keys.castling_key_of(s6.castling), keys.ep_key(s6.ep), keys.side_key(s7.side), 0);
    assert(s7.key_agrees(keys));
}


/// In a well-formed position the two colors share no square.
proof fn lemma_colors_disjoint(s: Position, t: u64)
    requires
        s.wf(),
        t < 64,
    ensures
        !(bit(s.all[0], t) && bit(s.all[1], t)),
        bit(s.occupied, t) == (bit(s.all[0], t) || bit(s.all[1], t)),
        forall|i: int| 0 <= i < 12 ==> (bit(s.pieces[i], t) ==> bit(s.all[i % 2], t)),
{
    lemma_bits();
    assert forall|i: int, j: int| 0 <= i < 12 && 0 <= j < 12 && i != j implies !(bit(s.pieces[i], t) && bit(s.pieces[j], t)) by {
        assert(s.pieces[i] & s.pieces[j] == 0);
        assert(bit(s.pieces[i] & s.pieces[j], t) == (bit(s.pieces[i], t) && bit(s.pieces[j], t)));
        assert(!bit(0u64, t));
    }
}

/// A move's target square never holds a piece of the mover's side.
proof fn lemma_target_not_own(s: Position, p: Piece, f: nat, t: u64)
    requires
        s.wf(),
        t < 64,
        bit(target_mask(s, p, f), t),
    ensures
        !bit(s.all[p.color().idx() as int], t),
{
    lemma_bits();
    lemma_colors_disjoint(s, t);
}

/// Applying a pseudo-legal move to a well-formed position whose key agrees with a
/// computation from scratch gives a position whose key agrees too.
pub proof fn lemma_pseudo_legal_keeps_key(s: Position, mv: Move, keys: Keys)
    requires
        s.wf(),
        keys.wf(),
        s.key_agrees(keys),
        is_pseudo_legal(s, mv),
    ensures
        apply_spec(s, mv, keys).key_agrees(keys),
{
    match mv.promotion {
        Some(q) => {
            assert(is_ordinary_move(s, mv));
            let c = mv.piece.color();
            let t = mv.to.idx() as u64;
            lemma_target_not_own(s, mv.piece, mv.from.idx(), t);
            lemma_colors_disjoint(s, t);
            assert(q.idx() % 2 == c.idx());
            assert(mv.piece.idx() % 2 == c.idx());
            assert(!bit(s.pieces[mv.piece.idx() as int], t));
            assert(!bit(s.pieces[q.idx() as int], t));
        },
        None => {},
    }
    lemma_apply_keeps_key(s, mv, keys);
}


proof fn lemma_union_bit(pieces: Seq<u64>, k: int, x: u64)
    requires
        pieces.len() == 12,
        0 <= k < 2,
        x < 64,
    ensures
        bit(color_union(pieces, k), x) == (bit(pieces[k], x) || bit(pieces[k + 2], x) || bit(pieces[k + 4], x)
            || bit(pieces[k + 6], x) || bit(pieces[k + 8], x) || bit(pieces[k + 10], x)),
{
    lemma_bits();
}

/// The sets after piece `p` goes from `f`, which it holds, to the empty square `t`.
proof fn lemma_slide_bits_keep_wf(s: Position, a: Position, p: int, f: u64, t: u64)
    requires
        s.wf(),
        0 <= p < 12,
        f < 64,
        t < 64,
        bit(s.pieces[p], f),
        !bit(s.occupied, t),
        a.pieces == s.pieces.update(p, s.pieces[p] ^ ((1u64 << f) ^ (1u64 << t))),
        a.all == s.all.update(p % 2, s.all[p % 2] ^ ((1u64 << f) ^ (1u64 << t))),
        a.occupied == s.occupied ^ ((1u64 << f) ^ (1u64 << t)),
    ensures
        a.disjoint(),
        a.unions_agree(),
{
    lemma_bits();
    let c = p % 2;
    lemma_colors_disjoint(s, f);
    lemma_colors_disjoint(s, t);
    assert forall|i: int, j: int| 0 <= i < 12 && 0 <= j < 12 && i != j implies #[trigger] a.pieces[i] & #[trigger] a.pieces[j] == 0 by {
        assert forall|x: u64| x < 64 implies bit(a.pieces[i] & a.pieces[j], x) == bit(0u64, x) by {
            lemma_colors_disjoint(s, x);
            assert(s.pieces[i] & s.pieces[j] == 0);
            assert(bit(s.pieces[i] & s.pieces[j], x) == bit(0u64, x));
        }
        lemma_bits_ext(a.pieces[i] & a.pieces[j], 0u64);
    }
    assert forall|i: int| 0 <= i < 12 && i != p implies !bit(s.pieces[i], f) && !bit(s.pieces[i], t) by {
        assert(s.pieces[i] & s.pieces[p] == 0);
        assert(bit(s.pieces[i] & s.pieces[p], f) == (bit(s.pieces[i], f) && bit(s.pieces[p], f)));
        assert(!bit(0u64, f));
        lemma_colors_disjoint(s, t);
    }
    assert forall|k: int| 0 <= k < 2 implies a.all[k] == color_union(a.pieces, k) by {
        assert forall|x: u64| x < 64 implies bit(a.all[k], x) == bit(color_union(a.pieces, k), x) by {
            lemma_colors_disjoint(s, x);
            lemma_union_bit(s.pieces, k, x);
            lemma_union_bit(a.pieces, k, x);
            assert(bit(s.all[k], x) == bit(color_union(s.pieces, k), x));
            assert(bit(a.pieces[p], x) == (bit(s.pieces[p], x) != ((x == f) != (x == t))));
            if k == c {
                assert(bit(a.all[k], x) == (bit(s.all[k], x) != ((x == f) != (x == t))));
            } else {
                assert(a.all[k] == s.all[k]);
            }
        }
        lemma_bits_ext(a.all[k], color_union(a.pieces, k));
    }
    assert forall|x: u64| x < 64 implies bit(a.occupied, x) == bit(a.all[0] | a.all[1], x) by {
        lemma_colors_disjoint(s, x);
    }
    lemma_bits_ext(a.occupied, a.all[0] | a.all[1]);
}

/// A quiet move (no capture, no promotion, not castling) of a piece from a square it
/// holds to an empty square keeps a well-formed position well-formed: no square holds
/// two pieces, and the color sets and the occupancy agree with the piece sets.
pub proof fn lemma_quiet_move_keeps_wf(s: Position, mv: Move, keys: Keys)
    requires
        s.wf(),
        !mv.is_capture,
        mv.promotion is None,
        mv.castling_rook_move() is None,
        bit(s.pieces[mv.piece.idx() as int], mv.from.idx() as u64),
        !bit(s.occupied, mv.to.idx() as u64),
    ensures
        apply_spec(s, mv, keys).wf(),
{
    lemma_bits();
    let a = apply_spec(s, mv, keys);
    let p = mv.piece.idx() as int;
    let c = (p % 2) as int;
    let f = mv.from.idx() as u64;
    let t = mv.to.idx() as u64;
    let m = (1u64 << f) ^ (1u64 << t);
    lemma_colors_disjoint(s, f);
    lemma_colors_disjoint(s, t);
    assert(f != t);
    assert(a.pieces == s.pieces.update(p, s.pieces[p] ^ m));
    assert(a.all == s.all.update(c, s.all[c] ^ m));
    assert(a.occupied == s.occupied ^ m);
    lemma_slide_bits_keep_wf(s, a, p, f, t);
    let r = s.castling;
    let kf = rights_kept(mv.from.idx());
    let kt = rights_kept(mv.to.idx());
    assert(r < 16 ==> (r & kf) & kt < 16) by (bit_vector);
}


/// Set `opp + 2j` holds square `sq`.
spec fn holds(pieces: Seq<u64>, opp: int, j: int, sq: nat) -> bool {
    bit(pieces[opp + 2 * j], sq as u64)
}

proof fn lemma_first_holder_found(pieces: Seq<u64>, opp: int, sq: nat, k: nat)
    requires
        0 <= opp < 2,
        pieces.len() == 12,
        exists|j: int| k <= j < 6 && #[trigger] holds(pieces, opp, j, sq),
    ensures
        first_holder(pieces, opp, sq, k) is Some,
    decreases 6 - k,
{
    if !bit(pieces[opp + 2 * k], sq as u64) {
        let j = choose|j: int| k <= j < 6 && #[trigger] holds(pieces, opp, j, sq);
        assert(j != k);
        lemma_first_holder_found(pieces, opp, sq, k + 1);
    }
}

/// The sets after a piece of one color moves from `f` to `t` and takes the piece of the
/// other color there.
proof fn lemma_capture_bits_keep_wf(s: Position, a: Position, p: int, q: int, f: u64, t: u64)
    requires
        s.wf(),
        0 <= p < 12,
        0 <= q < 12,
        p % 2 != q % 2,
        f < 64,
        t < 64,
        f != t,
        bit(s.pieces[p], f),
        bit(s.pieces[q], t),
        a.pieces == s.pieces.update(p, s.pieces[p] ^ ((1u64 << f) ^ (1u64 << t))).update(q, s.pieces[q] ^ (1u64 << t)),
        a.all == s.all.update(p % 2, s.all[p % 2] ^ ((1u64 << f) ^ (1u64 << t))).update(q % 2, s.all[q % 2] ^ (1u64 << t)),
        a.occupied == (s.occupied ^ ((1u64 << f) ^ (1u64 << t))) ^ (1u64 << t),
    ensures
        a.disjoint(),
        a.unions_agree(),
{
    lemma_bits();
    assert forall|i: int| 0 <= i < 12 && i != p implies !bit(s.pieces[i], f) by {
        assert(s.pieces[i] & s.pieces[p] == 0);
        assert(bit(s.pieces[i] & s.pieces[p], f) == (bit(s.pieces[i], f) && bit(s.pieces[p], f)));
    }
    assert forall|i: int| 0 <= i < 12 && i != q implies !bit(s.pieces[i], t) by {
        assert(s.pieces[i] & s.pieces[q] == 0);
        assert(bit(s.pieces[i] & s.pieces[q], t) == (bit(s.pieces[i], t) && bit(s.pieces[q], t)));
    }
    assert forall|i: int, j: int| 0 <= i < 12 && 0 <= j < 12 && i != j implies #[trigger] a.pieces[i] & #[trigger] a.pieces[j] == 0 by {
        assert forall|x: u64| x < 64 implies bit(a.pieces[i] & a.pieces[j], x) == bit(0u64, x) by {
            assert(s.pieces[i] & s.pieces[j] == 0);
            assert(bit(s.pieces[i] & s.pieces[j], x) == bit(0u64, x));
        }
        lemma_bits_ext(a.pieces[i] & a.pieces[j], 0u64);
    }
    assert forall|k: int| 0 <= k < 2 implies a.all[k] == color_union(a.pieces, k) by {
        assert forall|x: u64| x < 64 implies bit(a.all[k], x) == bit(color_union(a.pieces, k), x) by {
            lemma_colors_disjoint(s, x);
            lemma_union_bit(s.pieces, k, x);
            lemma_union_bit(a.pieces, k, x);
            assert(bit(s.all[k], x) == bit(color_union(s.pieces, k), x));
        }
        lemma_bits_ext(a.all[k], color_union(a.pieces, k));
    }
    assert forall|x: u64| x < 64 implies bit(a.occupied, x) == bit(a.all[0] | a.all[1], x) by {
        lemma_colors_disjoint(s, x);
    }
    lemma_bits_ext(a.occupied, a.all[0] | a.all[1]);
}

/// An ordinary move (a quiet move, a capture on the target square, a promotion, with or
/// without a capture) keeps a well-formed position well-formed, provided the en-passant
/// square, if any, is empty: no square holds two pieces, and the color sets and the
/// occupancy agree with the piece sets.
pub proof fn lemma_ordinary_move_keeps_wf(s: Position, mv: Move, keys: Keys)
    requires
        s.wf(),
        s.ep matches Some(e) ==> !bit(s.occupied, e.idx() as u64),
        is_ordinary_move(s, mv),
        mv.castling_rook_move() is None,
    ensures
        apply_spec(s, mv, keys).wf(),
{
    lemma_bits();
    if mv.promotion is Some {
        if mv.is_capture {
            lemma_capture_promotion_keeps_wf(s, mv, keys);
        } else {
            lemma_quiet_promotion_keeps_wf(s, mv, keys);
        }
        return;
    }
    let c = mv.piece.color().idx() as int;
    let o = 1 - c;
    let t = mv.to.idx() as u64;
    let f = mv.from.idx() as u64;
    lemma_target_not_own(s, mv.piece, mv.from.idx(), t);
    lemma_colors_disjoint(s, t);
    if !mv.is_capture {
        lemma_quiet_move_keeps_wf(s, mv, keys);
    } else {
        let a = apply_spec(s, mv, keys);
        let p = mv.piece.idx() as int;
        let m = (1u64 << f) ^ (1u64 << t);
        let s1 = slide_spec(s, mv.piece, mv.from.idx(), mv.to.idx(), keys);
        assert(bit(s.all[o], t));
        assert(captured_square(s1, mv) == Some(t as nat));
        lemma_union_bit(s.pieces, o, t);
        assert(exists|j: int| 0 <= j < 6 && #[trigger] holds(s1.pieces, o, j, t as nat)) by {
            assert(bit(s.all[o], t) == bit(color_union(s.pieces, o), t));
            if bit(s.pieces[o], t) {
                assert(holds(s1.pieces, o, 0, t as nat));
            } else if bit(s.pieces[o + 2], t) {
                assert(holds(s1.pieces, o, 1, t as nat));
            } else if bit(s.pieces[o + 4], t) {
                assert(holds(s1.pieces, o, 2, t as nat));
            } else if bit(s.pieces[o + 6], t) {
                assert(holds(s1.pieces, o, 3, t as nat));
            } else if bit(s.pieces[o + 8], t) {
                assert(holds(s1.pieces, o, 4, t as nat));
            } else {
                assert(holds(s1.pieces, o, 5, t as nat));
            }
        }
        lemma_first_holder_found(s1.pieces, o, t as nat, 0);
        lemma_first_holder_parity(s1.pieces, o, t as nat, 0);
        let q = first_holder(s1.pieces, o, t as nat, 0).unwrap() as int;
        let b = 1u64 << t;
        lemma_colors_disjoint(s, f);
        assert(f != t);
        assert(q != p);
        assert(a.pieces == s.pieces.update(p, s.pieces[p] ^ m).update(q, s.pieces[q] ^ b));
        assert(a.all == s.all.update(c, s.all[c] ^ m).update(o, s.all[o] ^ b));
        assert(a.occupied == (s.occupied ^ m) ^ b);
        assert(bit(s.pieces[q], t));
        lemma_capture_bits_keep_wf(s, a, p, q, f, t);
        let r = s.castling;
        let kf = rights_kept(mv.from.idx());
        let kt = rights_kept(mv.to.idx());
        assert(r < 16 ==> (r & kf) & kt < 16) by (bit_vector);
    }
}


/// A promotion that captures nothing keeps a well-formed position well-formed.
proof fn lemma_quiet_promotion_keeps_wf(s: Position, mv: Move, keys: Keys)
    requires
        s.wf(),
        is_ordinary_move(s, mv),
        mv.promotion is Some,
        !mv.is_capture,
    ensures
        apply_spec(s, mv, keys).wf(),
{
    lemma_bits();
    let q = mv.promotion.unwrap();
    let p = mv.piece.idx() as int;
    let arriving = q.idx() as int;
    let c = p % 2;
    let f = mv.from.idx() as u64;
    let t = mv.to.idx() as u64;
    let a = apply_spec(s, mv, keys);
    lemma_target_not_own(s, mv.piece, mv.from.idx(), t);
    lemma_colors_disjoint(s, t);
    lemma_colors_disjoint(s, f);
    assert(!bit(s.all[1 - c], t));
    assert(!bit(s.occupied, t));
    assert(f != t);
    let x = s.pieces[p];
    let y = s.pieces[arriving];
    assert(!bit(x, t) && !bit(y, t));
    assert((x ^ ((1u64 << f) ^ (1u64 << t))) & !(1u64 << t) == x ^ (1u64 << f) && y | (1u64 << t) == y ^ (1u64 << t)) by (bit_vector)
        requires
            f < 64,
            t < 64,
            f != t,
            (x >> t) & 1u64 != 1u64,
            (y >> t) & 1u64 != 1u64,
    ;
    assert(a.pieces =~= s.pieces.update(p, x ^ (1u64 << f)).update(arriving, y ^ (1u64 << t)));
    assert(a.all =~= s.all.update(c, s.all[c] ^ ((1u64 << f) ^ (1u64 << t))));
    lemma_arrival_bits_keep_wf(s, a, p, arriving, f, t);
    let r = s.castling;
    let kf = rights_kept(mv.from.idx());
    let kt = rights_kept(mv.to.idx());
    assert(r < 16 ==> (r & kf) & kt < 16) by (bit_vector);
}

/// A promotion that captures keeps a well-formed position well-formed.
proof fn lemma_capture_promotion_keeps_wf(s: Position, mv: Move, keys: Keys)
    requires
        s.wf(),
        s.ep matches Some(e) ==> !bit(s.occupied, e.idx() as u64),
        is_ordinary_move(s, mv),
        mv.promotion is Some,
        mv.is_capture,
    ensures
        apply_spec(s, mv, keys).wf(),
{
    lemma_bits();
    let pq = mv.promotion.unwrap();
    let p = mv.piece.idx() as int;
    let arriving = pq.idx() as int;
    let c = p % 2;
    let o = 1 - c;
    let f = mv.from.idx() as u64;
    let t = mv.to.idx() as u64;
    let a = apply_spec(s, mv, keys);
    lemma_target_not_own(s, mv.piece, mv.from.idx(), t);
    lemma_colors_disjoint(s, t);
    lemma_colors_disjoint(s, f);
    assert(f != t);
    let s1 = slide_spec(s, mv.piece, mv.from.idx(), mv.to.idx(), keys);
    assert(bit(s.all[o], t));
    assert(captured_square(s1, mv) == Some(t as nat));
    lemma_union_bit(s.pieces, o, t);
    assert(exists|j: int| 0 <= j < 6 && #[trigger] holds(s1.pieces, o, j, t as nat)) by {
        assert(bit(s.all[o], t) == bit(color_union(s.pieces, o), t));
        if bit(s.pieces[o], t) {
            assert(holds(s1.pieces, o, 0, t as nat));
        } else if bit(s.pieces[o + 2], t) {
            assert(holds(s1.pieces, o, 1, t as nat));
        } else if bit(s.pieces[o + 4], t) {
            assert(holds(s1.pieces, o, 2, t as nat));
        } else if bit(s.pieces[o + 6], t) {
            assert(holds(s1.pieces, o, 3, t as nat));
        } else if bit(s.pieces[o + 8], t) {
            assert(holds(s1.pieces, o, 4, t as nat));
        } else {
            assert(holds(s1.pieces, o, 5, t as nat));
        }
    }
    lemma_first_holder_found(s1.pieces, o, t as nat, 0);
    lemma_first_holder_parity(s1.pieces, o, t as nat, 0);
    let q = first_holder(s1.pieces, o, t as nat, 0).unwrap() as int;
    let x = s.pieces[p];
    let y = s.pieces[arriving];
    assert(!bit(x, t) && !bit(y, t));
    assert((x ^ ((1u64 << f) ^ (1u64 << t))) & !(1u64 << t) == x ^ (1u64 << f) && y | (1u64 << t) == y ^ (1u64 << t)) by (bit_vector)
        requires
            f < 64,
            t < 64,
            f != t,
            (x >> t) & 1u64 != 1u64,
            (y >> t) & 1u64 != 1u64,
    ;
    assert(a.pieces =~= s.pieces.update(p, x ^ (1u64 << f)).update(arriving, y ^ (1u64 << t)).update(q, s.pieces[q] ^ (1u64 << t)));
    assert(a.all =~= s.all.update(c, s.all[c] ^ ((1u64 << f) ^ (1u64 << t))).update(o, s.all[o] ^ (1u64 << t)));
    lemma_arrival_capture_bits_keep_wf(s, a, p, arriving, q, f, t);
    let r = s.castling;
    let kf = rights_kept(mv.from.idx());
    let kt = rights_kept(mv.to.idx());
    assert(r < 16 ==> (r & kf) & kt < 16) by (bit_vector);
}

/// The sets after a piece `p` leaves `f` and a piece `arriving != p` of the same color appears
/// on the empty square `t`.
#[verifier::rlimit(60)]
proof fn lemma_arrival_bits_keep_wf(s: Position, a: Position, p: int, arriving: int, f: u64, t: u64)
    requires
        s.wf(),
        0 <= p < 12,
        0 <= arriving < 12,
        p != arriving,
        p % 2 == arriving % 2,
        f < 64,
        t < 64,
        bit(s.pieces[p], f),
        !bit(s.occupied, t),
        a.pieces == s.pieces.update(p, s.pieces[p] ^ (1u64 << f)).update(arriving, s.pieces[arriving] ^ (1u64 << t)),
        a.all == s.all.update(p % 2, s.all[p % 2] ^ ((1u64 << f) ^ (1u64 << t))),
        a.occupied == s.occupied ^ ((1u64 << f) ^ (1u64 << t)),
    ensures
        a.disjoint(),
        a.unions_agree(),
{
    lemma_bits();
    lemma_colors_disjoint(s, t);
    lemma_colors_disjoint(s, f);
    assert forall|i: int| 0 <= i < 12 && i != p implies !bit(s.pieces[i], f) by {
        assert(s.pieces[i] & s.pieces[p] == 0);
        assert(bit(s.pieces[i] & s.pieces[p], f) == (bit(s.pieces[i], f) && bit(s.pieces[p], f)));
    }
    assert forall|i: int, j: int| 0 <= i < 12 && 0 <= j < 12 && i != j implies #[trigger] a.pieces[i] & #[trigger] a.pieces[j] == 0 by {
        assert forall|x: u64| x < 64 implies bit(a.pieces[i] & a.pieces[j], x) == bit(0u64, x) by {
            assert(s.pieces[i] & s.pieces[j] == 0);
            assert(bit(s.pieces[i] & s.pieces[j], x) == bit(0u64, x));
        }
        lemma_bits_ext(a.pieces[i] & a.pieces[j], 0u64);
    }
    assert forall|k: int| 0 <= k < 2 implies a.all[k] == color_union(a.pieces, k) by {
        assert forall|x: u64| x < 64 implies bit(a.all[k], x) == bit(color_union(a.pieces, k), x) by {
            lemma_colors_disjoint(s, x);
            lemma_union_bit(s.pieces, k, x);
            lemma_union_bit(a.pieces, k, x);
            assert(bit(s.all[k], x) == bit(color_union(s.pieces, k), x));
        }
        lemma_bits_ext(a.all[k], color_union(a.pieces, k));
    }
    assert forall|x: u64| x < 64 implies bit(a.occupied, x) == bit(a.all[0] | a.all[1], x) by {
        lemma_colors_disjoint(s, x);
    }
    lemma_bits_ext(a.occupied, a.all[0] | a.all[1]);
}


/// The sets after a piece `p` leaves `f`, the piece `q` of the other color on `t` is
/// taken, and a piece `arriving != p` of the mover's color appears on `t`.
#[verifier::rlimit(100)]
proof fn lemma_arrival_capture_bits_keep_wf(s: Position, a: Position, p: int, arriving: int, q: int, f: u64, t: u64)
    requires
        s.wf(),
        0 <= p < 12,
        0 <= arriving < 12,
        0 <= q < 12,
        p != arriving,
        p % 2 == arriving % 2,
        p % 2 != q % 2,
        f < 64,
        t < 64,
        bit(s.pieces[p], f),
        bit(s.pieces[q], t),
        a.pieces == s.pieces.update(p, s.pieces[p] ^ (1u64 << f)).update(arriving, s.pieces[arriving] ^ (1u64 << t)).update(q, s.pieces[q] ^ (1u64 << t)),
        a.all == s.all.update(p % 2, s.all[p % 2] ^ ((1u64 << f) ^ (1u64 << t))).update(q % 2, s.all[q % 2] ^ (1u64 << t)),
        a.occupied == (s.occupied ^ ((1u64 << f) ^ (1u64 << t))) ^ (1u64 << t),
    ensures
        a.disjoint(),
        a.unions_agree(),
{
    lemma_bits();
    lemma_colors_disjoint(s, t);
    lemma_colors_disjoint(s, f);
    assert forall|i: int| 0 <= i < 12 && i != p implies !bit(s.pieces[i], f) by {
        assert(s.pieces[i] & s.pieces[p] == 0);
        assert(bit(s.pieces[i] & s.pieces[p], f) == (bit(s.pieces[i], f) && bit(s.pieces[p], f)));
    }
    assert forall|i: int| 0 <= i < 12 && i != q implies !bit(s.pieces[i], t) by {
        assert(s.pieces[i] & s.pieces[q] == 0);
        assert(bit(s.pieces[i] & s.pieces[q], t) == (bit(s.pieces[i], t) && bit(s.pieces[q], t)));
    }
    assert forall|i: int, j: int| 0 <= i < 12 && 0 <= j < 12 && i != j implies #[trigger] a.pieces[i] & #[trigger] a.pieces[j] == 0 by {
        assert forall|x: u64| x < 64 implies bit(a.pieces[i] & a.pieces[j], x) == bit(0u64, x) by {
            assert(s.pieces[i] & s.pieces[j] == 0);
            assert(bit(s.pieces[i] & s.pieces[j], x) == bit(0u64, x));
        }
        lemma_bits_ext(a.pieces[i] & a.pieces[j], 0u64);
    }
    assert forall|k: int| 0 <= k < 2 implies a.all[k] == color_union(a.pieces, k) by {
        assert forall|x: u64| x < 64 implies bit(a.all[k], x) == bit(color_union(a.pieces, k), x) by {
            lemma_colors_disjoint(s, x);
            lemma_union_bit(s.pieces, k, x);
            lemma_union_bit(a.pieces, k, x);
            assert(bit(s.all[k], x) == bit(color_union(s.pieces, k), x));
        }
        lemma_bits_ext(a.all[k], color_union(a.pieces, k));
    }
    assert forall|x: u64| x < 64 implies bit(a.occupied, x) == bit(a.all[0] | a.all[1], x) by {
        lemma_colors_disjoint(s, x);
    }
    lemma_bits_ext(a.occupied, a.all[0] | a.all[1]);
}


/// The sets after a piece `p` goes from `f` to the empty square `t` and the piece `q` of
/// the other color on `cs` is taken.
#[verifier::rlimit(100)]
proof fn lemma_side_capture_bits_keep_wf(s: Position, a: Position, p: int, q: int, f: u64, t: u64, cs: u64)
    requires
        s.wf(),
        0 <= p < 12,
        0 <= q < 12,
        p % 2 != q % 2,
        f < 64,
        t < 64,
        cs < 64,
        bit(s.pieces[p], f),
        !bit(s.occupied, t),
        bit(s.pieces[q], cs),
        a.pieces == s.pieces.update(p, s.pieces[p] ^ ((1u64 << f) ^ (1u64 << t))).update(q, s.pieces[q] ^ (1u64 << cs)),
        a.all == s.all.update(p % 2, s.all[p % 2] ^ ((1u64 << f) ^ (1u64 << t))).update(q % 2, s.all[q % 2] ^ (1u64 << cs)),
        a.occupied == (s.occupied ^ ((1u64 << f) ^ (1u64 << t))) ^ (1u64 << cs),
    ensures
        a.disjoint(),
        a.unions_agree(),
{
    lemma_bits();
    lemma_colors_disjoint(s, t);
    lemma_colors_disjoint(s, f);
    lemma_colors_disjoint(s, cs);
    assert forall|i: int| 0 <= i < 12 && i != p implies !bit(s.pieces[i], f) by {
        assert(s.pieces[i] & s.pieces[p] == 0);
        assert(bit(s.pieces[i] & s.pieces[p], f) == (bit(s.pieces[i], f) && bit(s.pieces[p], f)));
    }
    assert forall|i: int| 0 <= i < 12 && i != q implies !bit(s.pieces[i], cs) by {
        assert(s.pieces[i] & s.pieces[q] == 0);
        assert(bit(s.pieces[i] & s.pieces[q], cs) == (bit(s.pieces[i], cs) && bit(s.pieces[q], cs)));
    }
    assert forall|i: int, j: int| 0 <= i < 12 && 0 <= j < 12 && i != j implies #[trigger] a.pieces[i] & #[trigger] a.pieces[j] == 0 by {
        assert forall|x: u64| x < 64 implies bit(a.pieces[i] & a.pieces[j], x) == bit(0u64, x) by {
            assert(s.pieces[i] & s.pieces[j] == 0);
            assert(bit(s.pieces[i] & s.pieces[j], x) == bit(0u64, x));
        }
        lemma_bits_ext(a.pieces[i] & a.pieces[j], 0u64);
    }
    assert forall|k: int| 0 <= k < 2 implies a.all[k] == color_union(a.pieces, k) by {
        assert forall|x: u64| x < 64 implies bit(a.all[k], x) == bit(color_union(a.pieces, k), x) by {
            lemma_colors_disjoint(s, x);
            lemma_union_bit(s.pieces, k, x);
            lemma_union_bit(a.pieces, k, x);
            assert(bit(s.all[k], x) == bit(color_union(s.pieces, k), x));
        }
        lemma_bits_ext(a.all[k], color_union(a.pieces, k));
    }
    assert forall|x: u64| x < 64 implies bit(a.occupied, x) == bit(a.all[0] | a.all[1], x) by {
        lemma_colors_disjoint(s, x);
    }
    lemma_bits_ext(a.occupied, a.all[0] | a.all[1]);
}

/// An en-passant capture keeps a well-formed position well-formed, provided the
/// en-passant square is empty. The pawn taken is the piece of the other color found
/// behind that square, if any.
pub proof fn lemma_en_passant_keeps_wf(s: Position, mv: Move, keys: Keys)
    requires
        s.wf(),
        s.ep matches Some(e) ==> !bit(s.occupied, e.idx() as u64),
        is_en_passant_move(s, mv),
    ensures
        apply_spec(s, mv, keys).wf(),
{
    lemma_bits();
    let p = mv.piece.idx() as int;
    let c = p % 2;
    let o = 1 - c;
    let f = mv.from.idx() as u64;
    let t = mv.to.idx() as u64;
    let a = apply_spec(s, mv, keys);
    let m = (1u64 << f) ^ (1u64 << t);
    lemma_colors_disjoint(s, f);
    lemma_colors_disjoint(s, t);
    assert(f != t);
    assert(mv.castling_rook_move() is None);
    let s1 = slide_spec(s, mv.piece, mv.from.idx(), mv.to.idx(), keys);
    let r = s.castling;
    let kf = rights_kept(mv.from.idx());
    let kt = rights_kept(mv.to.idx());
    assert(r < 16 ==> (r & kf) & kt < 16) by (bit_vector);
    match captured_square(s1, mv) {
        Some(cs) => {
            lemma_first_holder_parity(s1.pieces, o, cs, 0);
            match first_holder(s1.pieces, o, cs, 0) {
                Some(q) => {
                    let q = q as int;
                    assert(s1.pieces[q] == s.pieces[q]);
                    assert(a.pieces =~= s.pieces.update(p, s.pieces[p] ^ m).update(q, s.pieces[q] ^ (1u64 << cs)));
                    assert(a.all =~= s.all.update(c, s.all[c] ^ m).update(o, s.all[o] ^ (1u64 << cs)));
                    lemma_side_capture_bits_keep_wf(s, a, p, q, f, t, cs as u64);
                },
                None => {
                    lemma_quiet_move_keeps_wf(s, Move { is_capture: false, ..mv }, keys);
                    assert(a.pieces =~= apply_spec(s, Move { is_capture: false, ..mv }, keys).pieces);
                    assert(a.all =~= apply_spec(s, Move { is_capture: false, ..mv }, keys).all);
                },
            }
        },
        None => {
            lemma_quiet_move_keeps_wf(s, Move { is_capture: false, ..mv }, keys);
            assert(a.pieces =~= apply_spec(s, Move { is_capture: false, ..mv }, keys).pieces);
            assert(a.all =~= apply_spec(s, Move { is_capture: false, ..mv }, keys).all);
        },
    }
}


/// Castling rights are backed by the pieces: for each right held, the king of that side
/// stands on its home square and the rook on the corner of that wing.
pub open spec fn rights_backed(s: Position) -> bool {
    &&& (s.castling & 1 != 0 ==> bit(s.pieces[10], 4) && bit(s.pieces[6], 7))
    &&& (s.castling & 2 != 0 ==> bit(s.pieces[10], 4) && bit(s.pieces[6], 0))
    &&& (s.castling & 4 != 0 ==> bit(s.pieces[11], 60) && bit(s.pieces[7], 63))
    &&& (s.castling & 8 != 0 ==> bit(s.pieces[11], 60) && bit(s.pieces[7], 56))
}

/// The en-passant square, if any, is empty.
pub open spec fn ep_square_empty(s: Position) -> bool {
    s.ep matches Some(e) ==> !bit(s.occupied, e.idx() as u64)
}

/// A castling move keeps a well-formed position whose rights are backed well-formed.
pub proof fn lemma_castling_keeps_wf(s: Position, mv: Move, keys: Keys)
    requires
        s.wf(),
        rights_backed(s),
        is_castling_move(s, mv),
    ensures
        apply_spec(s, mv, keys).wf(),
{
    lemma_bits();
    let c = s.side;
    lemma_piece_of(5, c);
    assert(forall|o: u64| ((o & 0x60u64 == 0 ==> !bit(o, 5) && !bit(o, 6)) && (o & 0x0Eu64 == 0 ==> !bit(o, 1) && !bit(o, 2) && !bit(o, 3))
        && (o & 0x6000_0000_0000_0000u64 == 0 ==> !bit(o, 61) && !bit(o, 62)) && (o & 0x0E00_0000_0000_0000u64 == 0
        ==> !bit(o, 57) && !bit(o, 58) && !bit(o, 59)))) by (bit_vector);
    let k = 10 + c.idx() as int;
    let kside = mv.to == Square::G1 || mv.to == Square::G8;
    let f: u64 = if c == Color::White { 4 } else { 60 };
    let t: u64 = mv.to.idx() as u64;
    let rf: u64 = if c == Color::White { if kside { 7 } else { 0 } } else { if kside { 63 } else { 56 } };
    let rt: u64 = if c == Color::White { if kside { 5 } else { 3 } } else { if kside { 61 } else { 59 } };
    let s1 = slide_spec(s, mv.piece, mv.from.idx(), mv.to.idx(), keys);
    lemma_slide_bits_keep_wf(s, s1, k, f, t);
    let r = s.castling;
    let kf = rights_kept(mv.from.idx());
    let kt = rights_kept(mv.to.idx());
    assert(r < 16 ==> (r & kf) & kt < 16) by (bit_vector);
    let s5 = ep_spec(promotion_spec(rights_spec(capture_spec(s1, mv, keys), mv, keys), mv, keys), mv, keys);
    assert(s5.pieces == s1.pieces && s5.all == s1.all && s5.occupied == s1.occupied);
    assert(s5.wf());
    let rp = 6 + c.idx() as int;
    assert(s5.pieces[rp] == s.pieces[rp]);
    assert(bit(s5.pieces[rp], rf));
    assert(!bit(s5.occupied, rt));
    let s6 = rook_spec(s5, mv, keys);
    assert(s6 == slide_spec(s5, Piece::of(3, c), rf as nat, rt as nat, keys)) by {
        lemma_piece_of(3, c);
        crate::notation::lemma_piece_idx_injective(Piece::of(3, c), if c == Color::White { Piece::WhiteRook } else { Piece::BlackRook });
    }
    lemma_piece_of(3, c);
    lemma_slide_bits_keep_wf(s5, s6, rp, rf, rt);
}

/// A king never attacks a square two files away, so an ordinary king move is never a
/// castling move.
proof fn lemma_king_steps_are_not_castling()
    ensures
        !bit(king_attacks_spec(1u64 << 4u64), 6) && !bit(king_attacks_spec(1u64 << 4u64), 2)
            && !bit(king_attacks_spec(1u64 << 60u64), 62) && !bit(king_attacks_spec(1u64 << 60u64), 58),
{
    assert(!bit(king_attacks_spec(1u64 << 4u64), 6) && !bit(king_attacks_spec(1u64 << 4u64), 2)
        && !bit(king_attacks_spec(1u64 << 60u64), 62) && !bit(king_attacks_spec(1u64 << 60u64), 58)) by (bit_vector);
}

/// A pseudo-legal move keeps a well-formed position well-formed (no square holds two
/// pieces; the color sets and the occupancy agree with the piece sets), provided the
/// en-passant square is empty and the castling rights are backed by the pieces.
pub proof fn lemma_pseudo_legal_keeps_wf(s: Position, mv: Move, keys: Keys)
    requires
        s.wf(),
        ep_square_empty(s),
        rights_backed(s),
        is_pseudo_legal(s, mv),
    ensures
        apply_spec(s, mv, keys).wf(),
{
    lemma_bits();
    if is_castling_move(s, mv) {
        lemma_castling_keeps_wf(s, mv, keys);
    } else if is_en_passant_move(s, mv) {
        lemma_en_passant_keeps_wf(s, mv, keys);
    } else {
        lemma_king_steps_are_not_castling();
        if mv.castling_rook_move() is Some {
            assert(mv.piece.kind() == 5);
            assert(mv.from.idx() == 4 || mv.from.idx() == 60);
            assert(bit(target_mask(s, mv.piece, mv.from.idx()), mv.to.idx() as u64));
            assert(target_mask(s, mv.piece, mv.from.idx()) == king_attacks_spec(1u64 << mv.from.idx()) & !s.all[mv.piece.color().idx() as int]);
            assert(false);
        }
        lemma_ordinary_move_keeps_wf(s, mv, keys);
    }
}


/// A move touching none of Black's home squares (a8, e8, h8) keeps Black's castling
/// rights, and one touching none of White's (a1, e1, h1) keeps White's: so after the
/// white king leaves e1, both white rights are gone and the black ones are as before.
pub proof fn lemma_castling_rights_kept(s: Position, mv: Move, keys: Keys)
    ensures
        ({
            let r = apply_spec(s, mv, keys).castling;
            let f = mv.from.idx();
            let t = mv.to.idx();
            &&& (f != 56 && f != 60 && f != 63 && t != 56 && t != 60 && t != 63) ==> r & 12 == s.castling & 12
            &&& (f != 0 && f != 4 && f != 7 && t != 0 && t != 4 && t != 7) ==> r & 3 == s.castling & 3
        }),
{
    let c = s.castling;
    let kf = rights_kept(mv.from.idx());
    let kt = rights_kept(mv.to.idx());
    let r = (c & kf) & kt;
    assert(apply_spec(s, mv, keys).castling == r);
    assert((((kf == 15 || kf == 13 || kf == 12 || kf == 14) && (kt == 15 || kt == 13 || kt == 12 || kt == 14)) ==> r & 12 == c & 12)
        && (((kf == 15 || kf == 7 || kf == 3 || kf == 11) && (kt == 15 || kt == 7 || kt == 3 || kt == 11)) ==> r & 3 == c & 3)) by (bit_vector)
        requires
            r == (c & kf) & kt,
    ;
}

/// A king never steps two files along the first or last rank, so the reverse of an
/// ordinary king move is never a castling move either.
proof fn lemma_king_steps_back_are_not_castling()
    ensures
        !bit(king_attacks_spec(1u64 << 6u64), 4) && !bit(king_attacks_spec(1u64 << 2u64), 4)
            && !bit(king_attacks_spec(1u64 << 62u64), 60) && !bit(king_attacks_spec(1u64 << 58u64), 60),
{
    assert(!bit(king_attacks_spec(1u64 << 6u64), 4) && !bit(king_attacks_spec(1u64 << 2u64), 4)
        && !bit(king_attacks_spec(1u64 << 62u64), 60) && !bit(king_attacks_spec(1u64 << 58u64), 60)) by (bit_vector);
}

/// A pseudo-legal move that captures nothing, promotes nothing and is not castling, then
/// the same piece moved back, restores the piece sets, the color sets and the occupancy
/// bit for bit.
pub proof fn lemma_quiet_move_round_trip(s: Position, mv: Move, keys: Keys)
    requires
        s.pieces.len() == 12,
        s.all.len() == 2,
        is_pseudo_legal(s, mv),
        !mv.is_capture,
        mv.promotion is None,
        mv.castling_rook_move() is None,
    ensures
        ({
            let back = apply_spec(apply_spec(s, mv, keys), Move::quiet_spec(mv.to, mv.from, mv.piece), keys);
            back.pieces == s.pieces && back.all == s.all && back.occupied == s.occupied
        }),
{
    let inv = Move::quiet_spec(mv.to, mv.from, mv.piece);
    lemma_piece_of(5, s.side);
    crate::notation::lemma_piece_idx_injective(Piece::of(5, s.side), if s.side == Color::White { Piece::WhiteKing } else { Piece::BlackKing });
    assert(!is_castling_move(s, mv));
    lemma_king_steps_back_are_not_castling();
    lemma_bits();
    if inv.castling_rook_move() is Some {
        assert(mv.piece.kind() == 5);
        if is_en_passant_move(s, mv) {
            assert(false);
        }
        assert(is_ordinary_move(s, mv));
        assert(bit(target_mask(s, mv.piece, mv.from.idx()), mv.to.idx() as u64));
        assert(target_mask(s, mv.piece, mv.from.idx()) == king_attacks_spec(1u64 << mv.from.idx()) & !s.all[mv.piece.color().idx() as int]);
        assert(false);
    }
    let a = apply_spec(s, mv, keys);
    let s1 = slide_spec(s, mv.piece, mv.from.idx(), mv.to.idx(), keys);
    assert(a.pieces == s1.pieces && a.all == s1.all && a.occupied == s1.occupied);
    let b = apply_spec(a, inv, keys);
    let a1 = slide_spec(a, inv.piece, inv.from.idx(), inv.to.idx(), keys);
    assert(b.pieces == a1.pieces && b.all == a1.all && b.occupied == a1.occupied);
    lemma_slide_round_trip(s, mv.piece, mv.from, mv.to, keys);
    let back = slide_spec(s1, mv.piece, mv.to.idx(), mv.from.idx(), keys);
    assert(a1.pieces == back.pieces && a1.all == back.all && a1.occupied == back.occupied);
}

} // verus!











