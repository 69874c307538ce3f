//! Positions and moves as text: FEN in and out, coordinate moves in, a board drawing out.
use crate::bitboard::{bit, drawn_square, lemma_bits, lemma_bits_ext};
use crate::board::{Board, Position};
use crate::castling::{castling_pieces, rights_of_pieces, CastlingAbility};
use crate::colors::Color;
use crate::fen::{self, fen_text, parse_spec, FenError};
use crate::moves::Move;
use crate::pieces::{piece_letters, Piece};
use crate::squares::{square_name, square_name_upper, Square};
use crate::text::chars_to_string;
use crate::zobrist::Keys;
use vstd::prelude::*;

verus! {

/// The first of the piece sets, from set `p` on, that holds square `t`.
pub open spec fn first_piece_from(pieces: Seq<u64>, t: nat, p: nat) -> Option<Piece>
    decreases 12 - p,
{
    if p >= 12 {
        None
    } else if bit(pieces[p as int], t as u64) {
        Some(choose|q: Piece| q.idx() == p)
    } else {
        first_piece_from(pieces, t, p + 1)
    }
}

/// The piece on square `t`, looking through the sets in piece order.
pub open spec fn piece_at(s: Position, t: nat) -> Option<Piece> {
    first_piece_from(s.pieces, t, 0)
}

/// The squares of a position as listed in FEN: a8 along rank 8, down to h1.
pub open spec fn placement_of_position(s: Position) -> Seq<Option<Piece>> {
    Seq::new(64, |k: int| piece_at(s, drawn_square(k as nat)))
}

/// Whether set `p` holds square `t` in the position a placement describes.
pub open spec fn placed(placement: Seq<Option<Piece>>, p: int, t: u64) -> bool {
    placement[drawn_square(t as nat) as int] matches Some(q) && q.idx() == p
}

pub proof fn lemma_drawn_square_involution(k: nat)
    requires
        k < 64,
    ensures
        drawn_square(k) < 64,
        drawn_square(drawn_square(k)) == k,
{
}

pub proof fn lemma_piece_idx_injective(a: Piece, b: Piece)
    requires
        a.idx() == b.idx(),
    ensures
        a == b,
{
}

/// `b` holds what the FEN fields `t` describe.
pub open spec fn board_of_fields(b: Board, t: (Seq<Option<Piece>>, Color, Seq<Piece>, Option<Square>, u32, u32)) -> bool {
    &&& forall|p: int, sq: u64| 0 <= p < 12 && sq < 64 ==> #[trigger] bit(b.pieces[p], sq) == placed(t.0, p, sq)
    &&& b.side_to_move == t.1
    &&& b.castling_ability.0 == rights_of_pieces(t.2)
    &&& b.en_passant_target_square == t.3
    &&& b.half_move_clock == t.4
    &&& b.full_move_counter == t.5
}

impl Board {
    /// The piece on `sq`, if any.
    pub fn find_piece_on(&self, sq: Square) -> (r: Option<Piece>)
        ensures
            r == piece_at(self@, sq.idx()),
    {
        let b = 1u64 << sq.index();
        let mut p: usize = 0;
        while p < 12
            invariant
                p <= 12,
                b == 1u64 << sq.idx(),
                piece_at(self@, sq.idx()) == first_piece_from(self@.pieces, sq.idx(), p as nat),
            decreases 12 - p,
        {
            proof {
                lemma_bits();
            }
            if self.pieces[p] & b != 0 {
                let q = Piece::from_index(p);
                proof {
                    let c = choose|c: Piece| c.idx() == p;
                    lemma_piece_idx_injective(q, c);
                }
                return Some(q);
            }
            p += 1;
        }
        None
    }

    /// A position from FEN. A malformed string is refused with the first field found wrong.
    pub fn from_fen(fen: &str, keys: &Keys) -> (r: Result<Board, FenError>)
        requires
            keys.wf(),
        ensures
            match parse_spec(fen@) {
                Ok(t) => r matches Ok(b) && b.wf() && b@.key_agrees(*keys) && board_of_fields(b, t),
                Err(e) => r == Err::<Board, FenError>(e),
            },
    {
        let (placement, side, castling, ep, half, full) = match fen::parse(fen) {
            Ok(t) => t,
            Err(e) => {
                return Err(e);
            },
        };
        let mut pieces: [u64; 12] = [0u64; 12];
        let mut k: usize = 0;
        proof {
            lemma_bits();
        }
        while k < 64
            invariant
                k <= 64,
                placement@.len() == 64,
                forall|p: int, t: u64| 0 <= p < 12 && t < 64 ==> #[trigger] bit(pieces[p], t) == (drawn_square(t as nat) < k && placed(placement@, p, t)),
            decreases 64 - k,
        {
            let sq: u64 = ((7 - k / 8) * 8 + k % 8) as u64;
            proof {
                lemma_bits();
                lemma_drawn_square_involution(k as nat);
            }
            match placement[k] {
                Some(q) => {
                    let i = q.index();
                    pieces[i] = pieces[i] | (1u64 << sq);
                    proof {
                        assert forall|p: int, t: u64| 0 <= p < 12 && t < 64 implies #[trigger] bit(pieces[p], t) == (drawn_square(t as nat) < k + 1 && placed(placement@, p, t)) by {
                            lemma_drawn_square_involution(t as nat);
                        }
                    }
                },
                None => {
                    proof {
                        assert forall|p: int, t: u64| 0 <= p < 12 && t < 64 implies #[trigger] bit(pieces[p], t) == (drawn_square(t as nat) < k + 1 && placed(placement@, p, t)) by {
                            lemma_drawn_square_involution(t as nat);
                        }
                    }
                },
            }
            k += 1;
        }
        let castling_ability = CastlingAbility::new(castling.as_slice());
        let b = Board::from_parts(pieces, side, castling_ability, ep, half, full, keys);
        proof {
            assert forall|i: int, j: int| 0 <= i < 12 && 0 <= j < 12 && i != j implies #[trigger] b@.pieces[i] & #[trigger] b@.pieces[j] == 0 by {
                lemma_bits();
                assert forall|t: u64| t < 64 implies bit(b.pieces[i] & b.pieces[j], t) == bit(0u64, t) by {
                    lemma_drawn_square_involution(t as nat);
                }
                lemma_bits_ext(b.pieces[i] & b.pieces[j], 0u64);
            }
        }
        Ok(b)
    }

    /// The squares as listed in FEN.
    pub fn placement(&self) -> (r: Vec<Option<Piece>>)
        ensures
            r@ == placement_of_position(self@),
    {
        let mut v: Vec<Option<Piece>> = Vec::new();
        let mut k: u8 = 0;
        while k < 64
            invariant
                k <= 64,
                v@ == Seq::new(k as nat, |j: int| piece_at(self@, drawn_square(j as nat))),
            decreases 64 - k,
        {
            let sq = Square::from_index((7 - k / 8) * 8 + k % 8);
            v.push(self.find_piece_on(sq));
            proof {
                assert(v@ =~= Seq::new((k + 1) as nat, |j: int| piece_at(self@, drawn_square(j as nat))));
            }
            k += 1;
        }
        proof {
            assert(v@ =~= placement_of_position(self@));
        }
        v
    }

    /// The position in FEN.
    pub fn as_fen(&self) -> (r: String)
        ensures
            r@ == fen_text(
                placement_of_position(self@),
                self.side_to_move,
                castling_pieces(self.castling_ability.0),
                self.en_passant_target_square,
                self.half_move_clock as nat,
                self.full_move_counter as nat,
            ),
    {
        let placement = self.placement();
        let castling = self.castling_ability.as_pieces_iter();
        fen::create(
            placement.as_slice(),
            self.side_to_move,
            castling.as_slice(),
            self.en_passant_target_square,
            self.half_move_clock,
            self.full_move_counter,
        )
    }
}


/// The letter of a promotion in coordinate notation: `q`, `r`, `b` or `n`, and the kind
/// it names.
pub open spec fn promotion_kind_of(c: char) -> Option<nat> {
    if c == 'q' {
        Some(4)
    } else if c == 'r' {
        Some(3)
    } else if c == 'b' {
        Some(2)
    } else if c == 'n' {
        Some(1)
    } else {
        None
    }
}

/// A square named by two characters, in either case of file letter.
pub open spec fn names_square(f: Seq<char>, sq: Square) -> bool {
    f == square_name(sq.idx()) || f == square_name_upper(sq.idx())
}

/// The square a two-character name names, if any.
pub open spec fn square_of_name(f: Seq<char>) -> Option<Square> {
    if exists|sq: Square| #[trigger] names_square(f, sq) {
        Some(choose|sq: Square| #[trigger] names_square(f, sq))
    } else {
        None
    }
}

/// What `Square::parse` returns is the square a name names.
proof fn lemma_name_parse(f: Seq<char>, r: Option<Square>)
    requires
        match r {
            Some(sq) => f == square_name(sq.idx()) || f == square_name_upper(sq.idx()),
            None => forall|i: nat| i < 64 ==> f != square_name(i) && f != square_name_upper(i),
        },
    ensures
        square_of_name(f) == r,
{
    match r {
        Some(sq) => {
            assert(names_square(f, sq));
            let c = choose|c: Square| #[trigger] names_square(f, c);
            crate::fen::lemma_square_of_name(sq, c, f);
        },
        None => {
            assert forall|sq: Square| !#[trigger] names_square(f, sq) by {
                assert(sq.idx() < 64);
            }
        },
    }
}

/// The move that text `s` names in coordinate notation on position `p`: the squares
/// named by its first two and next two characters, the piece on the first; it captures
/// when the target is occupied or a pawn moves to the en-passant square; a pawn reaching
/// its last rank promotes to the piece of its color named by the fifth character, and
/// any other move has no fifth character.
pub open spec fn pure_move_spec(p: Position, s: Seq<char>) -> Option<Move> {
    if !(s.len() == 4 || s.len() == 5) {
        None
    } else {
        match (square_of_name(s.subrange(0, 2)), square_of_name(s.subrange(2, 4))) {
            (Some(f), Some(t)) => match piece_at(p, f.idx()) {
                None => None,
                Some(pc) => {
                    let cap = bit(p.occupied, t.idx() as u64) || (pc.kind() == 0 && p.ep == Some(t));
                    if pc.kind() == 0 && t.rank_of() == (if pc.color() == Color::White { 7nat } else { 0nat }) {
                        if s.len() == 5 && promotion_kind_of(s[4]) is Some {
                            Some(Move { from: f, to: t, promotion: Some(Piece::of(promotion_kind_of(s[4]).unwrap(), pc.color())), piece: pc, is_capture: cap })
                        } else {
                            None
                        }
                    } else if s.len() == 4 {
                        Some(Move { from: f, to: t, promotion: None, piece: pc, is_capture: cap })
                    } else {
                        None
                    }
                },
            },
            _ => None,
        }
    }
}

impl Board {
    /// The move that `s` names in coordinate notation (`e2e4`, `e7e8q`) on this position:
    /// the piece is the one on the origin square, the move captures when the target square
    /// is occupied or a pawn moves to the en-passant square, and a pawn reaching the last rank promotes to the piece that the fifth
    /// letter names. None when the text does not name squares, the origin is empty, or a
    /// promotion letter is missing or unknown.
    #[verifier::rlimit(60)]
    pub fn new_move_from_pure(&self, s: &str) -> (r: Option<Move>)
        ensures
            r == pure_move_spec(self@, s@),
            r matches Some(m) ==> m.wf(),
    {
        let n = s.unicode_len();
        if n < 4 || n > 5 {
            return None;
        }
        let from = match Square::parse(s.substring_char(0, 2)) {
            Some(sq) => sq,
            None => {
                proof {
                    lemma_name_parse(s@.subrange(0, 2), None);
                }
                return None;
            },
        };
        let to = match Square::parse(s.substring_char(2, 4)) {
            Some(sq) => sq,
            None => {
                proof {
                    lemma_name_parse(s@.subrange(2, 4), None);
                }
                return None;
            },
        };
        proof {
            lemma_name_parse(s@.subrange(0, 2), Some(from));
            lemma_name_parse(s@.subrange(2, 4), Some(to));
        }
        let piece = match self.find_piece_on(from) {
            Some(p) => p,
            None => {
                return None;
            },
        };
        proof {
            lemma_bits();
        }
        let is_en_passant = piece.is_pawn() && match self.en_passant_target_square {
            Some(e) => e == to,
            None => false,
        };
        let is_capture = self.occupied & (1u64 << to.index()) != 0 || is_en_passant;
        let color = piece.get_color();
        let promotion = if piece.is_pawn() && to.is_promotion_rank_for(color) {
            if n != 5 {
                return None;
            }
            let c = s.get_char(4);
            let promotion_piece = if c == 'q' {
                Piece::get_queen_of(color)
            } else if c == 'r' {
                Piece::get_rook_of(color)
            } else if c == 'b' {
                Piece::get_bishop_of(color)
            } else if c == 'n' {
                Piece::get_knight_of(color)
            } else {
                return None;
            };
            proof {
                let k = promotion_kind_of(c).unwrap();
                crate::move_gen::lemma_piece_of(k, color);
                lemma_piece_idx_injective(promotion_piece, Piece::of(k, color));
            }
            Some(promotion_piece)
        } else {
            if n != 4 {
                return None;
            }
            None
        };
        Some(Move::new(from, to, promotion, piece, is_capture))
    }

    /// The move from `from` to `to` of the piece there, promoting to a queen on the last
    /// rank of its color; none if `from` is empty.
    pub fn new_move(&self, from: Square, to: Square) -> (r: Option<Move>)
        ensures
            match piece_at(self@, from.idx()) {
                Some(p) => r matches Some(m) && m.from == from && m.to == to && m.piece == p
                    && m.is_capture == bit(self.occupied, to.idx() as u64)
                    && (if to.rank_of() == (if p.color() == Color::White { 7nat } else { 0nat }) {
                        m.promotion matches Some(q) && q.kind() == 4 && q.color() == p.color()
                    } else {
                        m.promotion is None
                    }),
                None => r is None,
            },
    {
        let piece = match self.find_piece_on(from) {
            Some(p) => p,
            None => {
                return None;
            },
        };
        proof {
            lemma_bits();
        }
        let is_capture = self.occupied & (1u64 << to.index()) != 0;
        let promotion = if to.is_promotion_rank_for(piece.get_color()) {
            Some(Piece::get_queen_of(piece.get_color()))
        } else {
            None
        };
        Some(Move::new(from, to, promotion, piece, is_capture))
    }

    /// A drawing of the board, rank 8 first, `.` for an empty square, an arrow when White
    /// is to move, then the FEN.
    pub fn write(&self) -> (r: String)
        ensures
            r@ == board_drawing(self@),
    {
        let mut out: Vec<char> = Vec::new();
        let mut rank: u8 = 8;
        while rank > 0
            invariant
                rank <= 8,
                out@ == drawing_ranks(self@, rank as nat),
            decreases rank,
        {
            rank -= 1;
            let ghost before = out@;
            out.push(' ');
            out.push(' ');
            out.push((('1' as u8) + rank) as char);
            out.push(' ');
            let mut file: u8 = 0;
            while file < 8
                invariant
                    rank < 8,
                    file <= 8,
                    out@ == before + rank_prefix(rank as nat) + Seq::new(2 * file as nat, |i: int| drawing_cell(self@, rank as nat, (i / 2) as nat, i % 2)),
                decreases 8 - file,
            {
                let c = match self.find_piece_on(Square::new(rank, file)) {
                    Some(p) => p.to_char(),
                    None => '.',
                };
                out.push(' ');
                out.push(c);
                proof {
                    assert(out@ =~= before + rank_prefix(rank as nat) + Seq::new(2 * (file + 1) as nat, |i: int| drawing_cell(self@, rank as nat, (i / 2) as nat, i % 2)));
                }
                file += 1;
            }
            out.push('\n');
            proof {
                assert(out@ =~= drawing_ranks(self@, rank as nat));
            }
        }
        let fen = self.as_fen();
        let footer = if self.side_to_move == Color::White {
            " =>  a b c d e f g h\n\nFEN: "
        } else {
            "     a b c d e f g h\n\nFEN: "
        };
        let mut i: usize = 0;
        let m = footer.unicode_len();
        while i < m
            invariant
                i <= m,
                m == footer@.len(),
                out@ == drawing_ranks(self@, 0) + footer@.subrange(0, i as int),
            decreases m - i,
        {
            out.push(footer.get_char(i));
            proof {
                assert(out@ =~= drawing_ranks(self@, 0) + footer@.subrange(0, i + 1));
            }
            i += 1;
        }
        let ghost mid = out@;
        let f = fen.unicode_len();
        let mut j: usize = 0;
        while j < f
            invariant
                j <= f,
                f == fen@.len(),
                out@ == mid + fen@.subrange(0, j as int),
            decreases f - j,
        {
            out.push(fen.get_char(j));
            proof {
                assert(out@ =~= mid + fen@.subrange(0, j + 1));
            }
            j += 1;
        }
        out.push('\n');
        proof {
            assert(footer@.subrange(0, m as int) =~= footer@);
            assert(fen@.subrange(0, f as int) =~= fen@);
            assert(out@ =~= board_drawing(self@));
        }
        chars_to_string(&out)
    }
}

/// The start of the line of rank `rank` (counted from 0): two spaces, its digit, a space.
pub open spec fn rank_prefix(rank: nat) -> Seq<char> {
    seq![' ', ' ', ('1' as u32 + rank) as char, ' ']
}

/// The characters of the cells of a rank line: a space, then the piece letter or `.`.
pub open spec fn drawing_cell(s: Position, rank: nat, file: nat, half: int) -> char {
    if half == 0 {
        ' '
    } else {
        match piece_at(s, rank * 8 + file) {
            Some(p) => piece_letters()[p.idx() as int],
            None => '.',
        }
    }
}

/// The lines of the ranks from 8 down to `rank + 1`.
pub open spec fn drawing_ranks(s: Position, rank: nat) -> Seq<char>
    decreases 8 - rank,
{
    if rank >= 8 {
        seq![]
    } else {
        drawing_ranks(s, rank + 1) + rank_prefix(rank) + Seq::new(16, |i: int| drawing_cell(s, rank, (i / 2) as nat, i % 2)) + seq!['\n']
    }
}

/// The whole drawing: the ranks, the file letters (with an arrow when White is to move),
/// a blank line and the FEN.
pub open spec fn board_drawing(s: Position) -> Seq<char> {
    let footer = if s.side == Color::White {
        " =>  a b c d e f g h\n\nFEN: "@
    } else {
        "     a b c d e f g h\n\nFEN: "@
    };
    drawing_ranks(s, 0) + footer + fen_text(
        placement_of_position(s),
        s.side,
        castling_pieces(s.castling),
        s.ep,
        s.half as nat,
        s.full as nat,
    ) + seq!['\n']
}

} // verus!

