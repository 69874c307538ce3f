//! Reading and writing positions in Forsyth-Edwards Notation.
use crate::castling::is_castling_letter_piece;
use crate::colors::Color;
use crate::moves::joined;
use crate::pieces::{piece_letters, Piece};
use crate::squares::{square_name, Square};
use crate::text::{chars_to_string, decimal, push_decimal};
use vstd::prelude::*;

verus! {

/// Why a FEN string was refused.
#[derive(Debug, Clone, Copy, PartialEq, Eq, Structural)]
pub enum FenError {
    /// Not six fields separated by whitespace.
    FieldCount,
    /// The piece placement is not 64 squares of piece letters and digits 1 to 8.
    Placement,
    /// The side to move is neither `w` nor `b`.
    SideToMove,
    /// The castling field is neither `-` nor letters among `KQkq`.
    Castling,
    /// The en-passant field is neither `-` nor a square name.
    EnPassant,
    /// A move counter is not a decimal number that fits in 32 bits.
    Counter,
}

/// The fields of a FEN string: the 64 squares from a8 along each rank down to h1, the
/// side to move, the castling rights as pieces (`K` for White's king side), the
/// en-passant square, the half-move clock and the full-move counter.
pub type FenFields = (Vec<Option<Piece>>, Color, Vec<Piece>, Option<Square>, u32, u32);

/// A rank of the piece placement: a letter per piece, and the length of each run of
/// empty squares as a digit.
pub open spec fn rank_text(rank: Seq<Option<Piece>>, run: nat) -> Seq<char>
    decreases rank.len(),
{
    if rank.len() == 0 {
        if run > 0 {
            decimal(run)
        } else {
            seq![]
        }
    } else {
        match rank[0] {
            Some(p) => (if run > 0 { decimal(run) } else { seq![] }) + seq![piece_letters()[p.idx() as int]]
                + rank_text(rank.drop_first(), 0),
            None => rank_text(rank.drop_first(), run + 1),
        }
    }
}

/// The piece placement field: the ranks from the 8th down, separated by `/`.
pub open spec fn placement_text(p: Seq<Option<Piece>>) -> Seq<char> {
    joined(Seq::new(8, |r: int| rank_text(p.subrange(8 * r, 8 * r + 8), 0)), seq!['/'])
}

pub open spec fn side_text(c: Color) -> Seq<char> {
    if c == Color::White {
        seq!['w']
    } else {
        seq!['b']
    }
}

pub open spec fn castling_field(ps: Seq<Piece>) -> Seq<char> {
    if ps.len() == 0 {
        seq!['-']
    } else {
        Seq::new(ps.len(), |i: int| piece_letters()[ps[i].idx() as int])
    }
}

pub open spec fn ep_text(ep: Option<Square>) -> Seq<char> {
    match ep {
        Some(s) => square_name(s.idx()),
        None => seq!['-'],
    }
}

/// A FEN string from its six fields, separated by single spaces.
pub open spec fn fen_text(
    placement: Seq<Option<Piece>>,
    side: Color,
    castling: Seq<Piece>,
    ep: Option<Square>,
    half: nat,
    full: nat,
) -> Seq<char> {
    placement_text(placement) + seq![' '] + side_text(side) + seq![' '] + castling_field(castling)
        + seq![' '] + ep_text(ep) + seq![' '] + decimal(half) + seq![' '] + decimal(full)
}

/// Writes one rank of the placement.
pub fn create_rank(rank: &[Option<Piece>]) -> (r: String)
    requires
        rank@.len() == 8,
    ensures
        r@ == rank_text(rank@, 0),
{
    let mut out: Vec<char> = Vec::new();
    push_rank(rank, 0, rank.len(), &mut out);
    proof {
        assert(rank@.subrange(0, rank@.len() as int) =~= rank@);
    }
    chars_to_string(&out)
}

/// Appends the text of the squares `from..to` of `rank` to `out`.
fn push_rank(rank: &[Option<Piece>], from: usize, to: usize, out: &mut Vec<char>)
    requires
        from <= to <= rank@.len(),
        to - from <= 64,
    ensures
        final(out)@ == old(out)@ + rank_text(rank@.subrange(from as int, to as int), 0),
{
    let mut empty_count: u64 = 0;
    let mut i: usize = from;
    while i < to
        invariant
            from <= i <= to <= rank@.len(),
            to - from <= 64,
            empty_count <= i - from,
            out@ + rank_text(rank@.subrange(i as int, to as int), empty_count as nat) == old(out)@
                + rank_text(rank@.subrange(from as int, to as int), 0),
        decreases to - i,
    {
        proof {
            assert(rank@.subrange(i as int, to as int).drop_first() =~= rank@.subrange(i + 1, to as int));
        }
        let ghost out0 = out@;
        let ghost ec0 = empty_count;
        match rank[i] {
            Some(p) => {
                if empty_count > 0 {
                    push_decimal(out, empty_count);
                }
                out.push(p.to_char());
                empty_count = 0;
                proof {
                    let t = rank_text(rank@.subrange(i + 1, to as int), 0);
                    let d = if ec0 > 0 { decimal(ec0 as nat) } else { seq![] };
                    assert(out@ =~= out0 + d + seq![piece_letters()[p.idx() as int]]);
                    assert(out@ + t =~= out0 + (d + seq![piece_letters()[p.idx() as int]] + t));
                }
            },
            None => {
                empty_count += 1;
            },
        }
        i += 1;
    }
    if empty_count > 0 {
        push_decimal(out, empty_count);
    }
    proof {
        assert(out@ =~= old(out)@ + rank_text(rank@.subrange(from as int, to as int), 0));
    }
}


/// Appends the piece placement field of 64 squares, a8 first.
fn push_placement(placement: &[Option<Piece>], out: &mut Vec<char>)
    requires
        placement@.len() == 64,
    ensures
        final(out)@ == old(out)@ + placement_text(placement@),
{
    let ghost ranks = Seq::new(8, |r: int| rank_text(placement@.subrange(8 * r, 8 * r + 8), 0));
    let mut r: usize = 0;
    while r < 8
        invariant
            placement@.len() == 64,
            r <= 8,
            ranks == Seq::new(8, |r: int| rank_text(placement@.subrange(8 * r, 8 * r + 8), 0)),
            out@ == old(out)@ + joined(ranks.subrange(0, r as int), seq!['/']),
        decreases 8 - r,
    {
        let ghost before = out@;
        if r > 0 {
            out.push('/');
        }
        push_rank(placement, 8 * r, 8 * r + 8, out);
        proof {
            let sub = ranks.subrange(0, r + 1);
            assert(sub.drop_last() =~= ranks.subrange(0, r as int));
            assert(sub.last() == ranks[r as int]);
            if r == 0 {
                assert(sub.len() == 1);
                assert(out@ =~= old(out)@ + joined(sub, seq!['/']));
            } else {
                assert(out@ =~= old(out)@ + joined(sub, seq!['/']));
            }
        }
        r += 1;
    }
    proof {
        assert(ranks.subrange(0, 8) =~= ranks);
    }
}

/// Appends the castling field: the letters of the pieces, or `-` for none.
fn push_castling(castling: &[Piece], out: &mut Vec<char>)
    ensures
        final(out)@ == old(out)@ + castling_field(castling@),
{
    if castling.len() == 0 {
        out.push('-');
        proof {
            assert(out@ =~= old(out)@ + castling_field(castling@));
        }
        return;
    }
    let mut i: usize = 0;
    while i < castling.len()
        invariant
            i <= castling@.len(),
            castling@.len() > 0,
            out@ == old(out)@ + Seq::new(i as nat, |k: int| piece_letters()[castling@[k].idx() as int]),
        decreases castling@.len() - i,
    {
        out.push(castling[i].to_char());
        proof {
            assert(out@ =~= old(out)@ + Seq::new((i + 1) as nat, |k: int| piece_letters()[castling@[k].idx() as int]));
        }
        i += 1;
    }
}

/// Writes a FEN string from its six fields.
pub fn create(
    piece_placement: &[Option<Piece>],
    side_to_move: Color,
    castling_ability: &[Piece],
    en_passant_target_square: Option<Square>,
    half_move_clock: u32,
    full_move_counter: u32,
) -> (r: String)
    requires
        piece_placement@.len() == 64,
    ensures
        r@ == fen_text(
            piece_placement@,
            side_to_move,
            castling_ability@,
            en_passant_target_square,
            half_move_clock as nat,
            full_move_counter as nat,
        ),
{
    let mut out: Vec<char> = Vec::new();
    push_placement(piece_placement, &mut out);
    out.push(' ');
    out.push(
        match side_to_move {
            Color::White => 'w',
            Color::Black => 'b',
        },
    );
    out.push(' ');
    push_castling(castling_ability, &mut out);
    out.push(' ');
    match en_passant_target_square {
        Some(sq) => sq.push_name(&mut out),
        None => out.push('-'),
    }
    out.push(' ');
    push_decimal(&mut out, half_move_clock as u64);
    out.push(' ');
    push_decimal(&mut out, full_move_counter as u64);
    proof {
        assert(out@ =~= fen_text(
            piece_placement@,
            side_to_move,
            castling_ability@,
            en_passant_target_square,
            half_move_clock as nat,
            full_move_counter as nat,
        ));
    }
    chars_to_string(&out)
}


/// The whitespace that separates FEN fields.
pub open spec fn is_space(c: char) -> bool {
    c == ' ' || c == '\t' || c == '\n' || c == '\r' || c == '\x0c'
}

/// Splitting `s` at whitespace, left to right: the fields completed so far and the one
/// being read.
pub open spec fn split_state(s: Seq<char>) -> (Seq<Seq<char>>, Seq<char>)
    decreases s.len(),
{
    if s.len() == 0 {
        (seq![], seq![])
    } else {
        let (fs, cur) = split_state(s.drop_last());
        let c = s.last();
        if is_space(c) {
            if cur.len() > 0 {
                (fs.push(cur), seq![])
            } else {
                (fs, seq![])
            }
        } else {
            (fs, cur.push(c))
        }
    }
}

/// The fields of `s`: its maximal runs of non-whitespace characters.
pub open spec fn fields_of(s: Seq<char>) -> Seq<Seq<char>> {
    let (fs, cur) = split_state(s);
    if cur.len() > 0 {
        fs.push(cur)
    } else {
        fs
    }
}

/// The squares a placement field describes, read left to right: a piece letter is a
/// piece, a digit from 1 to 8 that many empty squares, `/` nothing; any other character
/// makes it invalid.
pub open spec fn placement_of(f: Seq<char>) -> Option<Seq<Option<Piece>>>
    decreases f.len(),
{
    if f.len() == 0 {
        Some(seq![])
    } else {
        match placement_of(f.drop_last()) {
            None => None,
            Some(sq) => {
                let c = f.last();
                if c == '/' {
                    Some(sq)
                } else if '1' <= c <= '8' {
                    Some(sq + Seq::new((c as u32 - '0' as u32) as nat, |i: int| None::<Piece>))
                } else if piece_letters().contains(c) {
                    Some(sq.push(crate::pieces::piece_of_char(c)))
                } else {
                    None
                }
            },
        }
    }
}

/// The value of a string of decimal digits.
pub open spec fn decimal_value(f: Seq<char>) -> nat
    decreases f.len(),
{
    if f.len() == 0 {
        0
    } else {
        decimal_value(f.drop_last()) * 10 + (f.last() as u32 - '0' as u32) as nat
    }
}

pub open spec fn all_digits(f: Seq<char>) -> bool {
    forall|i: int| 0 <= i < f.len() ==> '0' <= #[trigger] f[i] <= '9'
}

/// A move counter: one or more digits, with a value that fits in 32 bits.
pub open spec fn counter_of(f: Seq<char>) -> Option<u32> {
    if f.len() > 0 && all_digits(f) && decimal_value(f) <= u32::MAX {
        Some(decimal_value(f) as u32)
    } else {
        None
    }
}

pub open spec fn side_of(f: Seq<char>) -> Option<Color> {
    if f == seq!['w'] {
        Some(Color::White)
    } else if f == seq!['b'] {
        Some(Color::Black)
    } else {
        None
    }
}

pub open spec fn is_castling_letter(c: char) -> bool {
    c == 'K' || c == 'Q' || c == 'k' || c == 'q'
}

/// The castling field: `-`, or letters among `KQkq`, read as the pieces they name.
pub open spec fn castling_of(f: Seq<char>) -> Option<Seq<Piece>> {
    if f == seq!['-'] {
        Some(seq![])
    } else if f.len() > 0 && forall|i: int| 0 <= i < f.len() ==> is_castling_letter(#[trigger] f[i]) {
        Some(Seq::new(f.len(), |i: int| crate::pieces::piece_of_char(f[i]).unwrap()))
    } else {
        None
    }
}

/// The en-passant field: `-`, or a square name.
pub open spec fn ep_of(f: Seq<char>) -> Option<Option<Square>> {
    if f == seq!['-'] {
        Some(None)
    } else if exists|i: nat| i < 64 && (f == square_name(i) || f == crate::squares::square_name_upper(i)) {
        Some(Some(choose|sq: Square| f == square_name(sq.idx()) || f == crate::squares::square_name_upper(sq.idx())))
    } else {
        None
    }
}

/// Splits `s` into its whitespace-separated fields.
fn split_fields(s: &str) -> (r: Vec<Vec<char>>)
    ensures
        r@.len() == fields_of(s@).len(),
        forall|i: int| 0 <= i < r@.len() ==> #[trigger] r@[i]@ == fields_of(s@)[i],
{
    let n = s.unicode_len();
    let mut fields: Vec<Vec<char>> = Vec::new();
    let mut cur: Vec<char> = Vec::new();
    let mut i: usize = 0;
    while i < n
        invariant
            n == s@.len(),
            i <= n,
            fields@.len() == split_state(s@.subrange(0, i as int)).0.len(),
            forall|k: int| 0 <= k < fields@.len() ==> #[trigger] fields@[k]@ == split_state(s@.subrange(0, i as int)).0[k],
            cur@ == split_state(s@.subrange(0, i as int)).1,
        decreases n - i,
    {
        let c = s.get_char(i);
        proof {
            let s1 = s@.subrange(0, i + 1);
            assert(s1.drop_last() =~= s@.subrange(0, i as int));
            assert(s1.last() == c);
        }
        if c == ' ' || c == '\t' || c == '\n' || c == '\r' || c == '\x0c' {
            if cur.len() > 0 {
                fields.push(cur);
                cur = Vec::new();
            }
        } else {
            cur.push(c);
        }
        i += 1;
    }
    proof {
        assert(s@.subrange(0, n as int) =~= s@);
    }
    if cur.len() > 0 {
        fields.push(cur);
    }
    fields
}

/// Reads the piece placement field.
fn parse_piece_placement(f: &Vec<char>) -> (r: Result<Vec<Option<Piece>>, FenError>)
    ensures
        match placement_of(f@) {
            Some(sq) => if sq.len() == 64 { r matches Ok(v) && v@ == sq } else { r == Err::<Vec<Option<Piece>>, FenError>(FenError::Placement) },
            None => r == Err::<Vec<Option<Piece>>, FenError>(FenError::Placement),
        },
{
    let mut pieces: Vec<Option<Piece>> = Vec::new();
    let mut i: usize = 0;
    while i < f.len()
        invariant
            i <= f@.len(),
            placement_of(f@.subrange(0, i as int)) == Some(pieces@),
            pieces@.len() <= 8 * i,
        decreases f@.len() - i,
    {
        let c = f[i];
        proof {
            let s1 = f@.subrange(0, i + 1);
            assert(s1.drop_last() =~= f@.subrange(0, i as int));
            assert(s1.last() == c);
        }
        if c == '/' {
        } else if '1' <= c && c <= '8' {
            let d = (c as u32 - '0' as u32) as usize;
            let ghost before = pieces@;
            let mut k: usize = 0;
            while k < d
                invariant
                    k <= d,
                    pieces@ == before + Seq::new(k as nat, |j: int| None::<Piece>),
                decreases d - k,
            {
                pieces.push(None);
                proof {
                    assert(pieces@ =~= before + Seq::new((k + 1) as nat, |j: int| None::<Piece>));
                }
                k += 1;
            }
        } else {
            match Piece::from_char(c) {
                Some(p) => {
                    proof {
                        let q = choose|q: Piece| piece_letters()[q.idx() as int] == c;
                        assert(piece_letters().contains(c));
                        crate::pieces::lemma_letter_determines_piece(p, q);
                    }
                    pieces.push(Some(p));
                },
                None => {
                    proof {
                        lemma_placement_none_extends(f@, (i + 1) as nat);
                    }
                    return Err(FenError::Placement);
                },
            }
        }
        i += 1;
    }
    proof {
        assert(f@.subrange(0, f@.len() as int) =~= f@);
    }
    if pieces.len() == 64 {
        Ok(pieces)
    } else {
        Err(FenError::Placement)
    }
}

/// Once a prefix of a placement field is invalid, so is the field.
proof fn lemma_placement_none_extends(f: Seq<char>, n: nat)
    requires
        n <= f.len(),
        placement_of(f.subrange(0, n as int)) is None,
    ensures
        placement_of(f) is None,
    decreases f.len() - n,
{
    if n < f.len() {
        let s1 = f.subrange(0, (n + 1) as int);
        assert(s1.drop_last() =~= f.subrange(0, n as int));
        lemma_placement_none_extends(f, n + 1);
    } else {
        assert(f.subrange(0, n as int) =~= f);
    }
}

/// Reads a move counter.
fn parse_counter(f: &Vec<char>) -> (r: Result<u32, FenError>)
    ensures
        match counter_of(f@) {
            Some(v) => r == Ok::<u32, FenError>(v),
            None => r == Err::<u32, FenError>(FenError::Counter),
        },
{
    if f.len() == 0 {
        return Err(FenError::Counter);
    }
    let mut acc: u64 = 0;
    let mut i: usize = 0;
    while i < f.len()
        invariant
            i <= f@.len(),
            f@.len() > 0,
            all_digits(f@.subrange(0, i as int)),
            acc == decimal_value(f@.subrange(0, i as int)),
            acc <= u32::MAX,
        decreases f@.len() - i,
    {
        let c = f[i];
        proof {
            let s1 = f@.subrange(0, i + 1);
            assert(s1.drop_last() =~= f@.subrange(0, i as int));
            assert(s1.last() == c);
        }
        if !('0' <= c && c <= '9') {
            proof {
                assert(!all_digits(f@)) by {
                    assert(f@[i as int] == c);
                }
            }
            return Err(FenError::Counter);
        }
        let d = (c as u32 - '0' as u32) as u64;
        acc = acc * 10 + d;
        if acc > u32::MAX as u64 {
            proof {
                lemma_decimal_value_grows(f@, (i + 1) as nat);
            }
            return Err(FenError::Counter);
        }
        i += 1;
    }
    proof {
        assert(f@.subrange(0, f@.len() as int) =~= f@);
    }
    Ok(acc as u32)
}

/// The value of a digit string is at least that of any prefix.
proof fn lemma_decimal_value_grows(f: Seq<char>, n: nat)
    requires
        n <= f.len(),
        all_digits(f.subrange(0, n as int)),
    ensures
        all_digits(f) ==> decimal_value(f) >= decimal_value(f.subrange(0, n as int)),
    decreases f.len() - n,
{
    if n < f.len() {
        if all_digits(f) {
            let s1 = f.subrange(0, (n + 1) as int);
            assert(s1.drop_last() =~= f.subrange(0, n as int));
            assert(all_digits(s1));
            lemma_decimal_value_grows(f, n + 1);
        }
    } else {
        assert(f.subrange(0, n as int) =~= f);
    }
}


/// What reading a FEN string gives: its six fields, or the first field found wrong.
pub open spec fn parse_spec(s: Seq<char>) -> Result<
    (Seq<Option<Piece>>, Color, Seq<Piece>, Option<Square>, u32, u32),
    FenError,
> {
    let fs = fields_of(s);
    if fs.len() != 6 {
        Err(FenError::FieldCount)
    } else if !(placement_of(fs[0]) matches Some(p) && p.len() == 64) {
        Err(FenError::Placement)
    } else if side_of(fs[1]) is None {
        Err(FenError::SideToMove)
    } else if castling_of(fs[2]) is None {
        Err(FenError::Castling)
    } else if ep_of(fs[3]) is None {
        Err(FenError::EnPassant)
    } else if counter_of(fs[4]) is None || counter_of(fs[5]) is None {
        Err(FenError::Counter)
    } else {
        Ok(
            (
                placement_of(fs[0]).unwrap(),
                side_of(fs[1]).unwrap(),
                castling_of(fs[2]).unwrap(),
                ep_of(fs[3]).unwrap(),
                counter_of(fs[4]).unwrap(),
                counter_of(fs[5]).unwrap(),
            ),
        )
    }
}

/// The view of what `parse` returns.
pub open spec fn fields_view(t: FenFields) -> (Seq<Option<Piece>>, Color, Seq<Piece>, Option<Square>, u32, u32) {
    (t.0@, t.1, t.2@, t.3, t.4, t.5)
}

fn parse_side_to_move(f: &Vec<char>) -> (r: Result<Color, FenError>)
    ensures
        match side_of(f@) {
            Some(c) => r == Ok::<Color, FenError>(c),
            None => r == Err::<Color, FenError>(FenError::SideToMove),
        },
{
    if f.len() == 1 && f[0] == 'w' {
        proof {
            assert(f@ =~= seq!['w']);
        }
        Ok(Color::White)
    } else if f.len() == 1 && f[0] == 'b' {
        proof {
            assert(f@ =~= seq!['b']);
        }
        Ok(Color::Black)
    } else {
        proof {
            if f@ == seq!['w'] || f@ == seq!['b'] {
                assert(f@.len() == 1 && f@[0] == f[0]);
            }
        }
        Err(FenError::SideToMove)
    }
}

fn parse_castling_ability(f: &Vec<char>) -> (r: Result<Vec<Piece>, FenError>)
    ensures
        match castling_of(f@) {
            Some(ps) => r matches Ok(v) && v@ == ps,
            None => r == Err::<Vec<Piece>, FenError>(FenError::Castling),
        },
        r matches Ok(v) ==> forall|i: int| 0 <= i < v@.len() ==> is_castling_letter_piece(#[trigger] v@[i]),
{
    if f.len() == 1 && f[0] == '-' {
        proof {
            assert(f@ =~= seq!['-']);
        }
        return Ok(Vec::new());
    }
    if f.len() == 0 {
        return Err(FenError::Castling);
    }
    let mut v: Vec<Piece> = Vec::new();
    let mut i: usize = 0;
    while i < f.len()
        invariant
            i <= f@.len(),
            f@ != seq!['-'],
            f@.len() > 0,
            forall|k: int| 0 <= k < i ==> is_castling_letter(#[trigger] f@[k]),
            v@ == Seq::new(i as nat, |k: int| crate::pieces::piece_of_char(f@[k]).unwrap()),
            forall|k: int| 0 <= k < v@.len() ==> is_castling_letter_piece(#[trigger] v@[k]),
        decreases f@.len() - i,
    {
        let c = f[i];
        let p = if c == 'K' {
            Piece::WhiteKing
        } else if c == 'Q' {
            Piece::WhiteQueen
        } else if c == 'k' {
            Piece::BlackKing
        } else if c == 'q' {
            Piece::BlackQueen
        } else {
            return Err(FenError::Castling);
        };
        proof {
            assert(piece_letters().contains(c)) by {
                assert(piece_letters()[p.idx() as int] == c);
            }
            let q = choose|q: Piece| piece_letters()[q.idx() as int] == c;
            crate::pieces::lemma_letter_determines_piece(p, q);
            assert(crate::pieces::piece_of_char(f@[i as int]) == Some(p));
        }
        v.push(p);
        proof {
            assert(v@ =~= Seq::new((i + 1) as nat, |k: int| crate::pieces::piece_of_char(f@[k]).unwrap()));
        }
        i += 1;
    }
    Ok(v)
}

fn parse_en_passant_target_square(f: &Vec<char>) -> (r: Result<Option<Square>, FenError>)
    ensures
        match ep_of(f@) {
            Some(e) => r == Ok::<Option<Square>, FenError>(e),
            None => r == Err::<Option<Square>, FenError>(FenError::EnPassant),
        },
{
    if f.len() == 1 && f[0] == '-' {
        proof {
            assert(f@ =~= seq!['-']);
        }
        return Ok(None);
    }
    let text = chars_to_string(f);
    match Square::parse(text.as_str()) {
        Some(sq) => {
            proof {
                assert(f@ != seq!['-']) by {
                    if f@ == seq!['-'] {
                        assert(f@.len() == 1);
                    }
                }
                assert(sq.idx() < 64 && (f@ == square_name(sq.idx()) || f@ == crate::squares::square_name_upper(sq.idx())));
                let c = choose|c: Square| f@ == square_name(c.idx()) || f@ == crate::squares::square_name_upper(c.idx());
                lemma_square_of_name(sq, c, f@);
            }
            Ok(Some(sq))
        },
        None => {
            proof {
                assert(f@ != seq!['-']) by {
                    if f@ == seq!['-'] {
                        assert(f@.len() == 1);
                    }
                }
            }
            Err(FenError::EnPassant)
        },
    }
}

/// A square's name determines the square.
pub proof fn lemma_square_of_name(a: Square, b: Square, f: Seq<char>)
    requires
        f == square_name(a.idx()) || f == crate::squares::square_name_upper(a.idx()),
        f == square_name(b.idx()) || f == crate::squares::square_name_upper(b.idx()),
    ensures
        a == b,
{
    assert(f[0] == square_name(a.idx())[0] || f[0] == crate::squares::square_name_upper(a.idx())[0]);
    assert(a.idx() % 8 == b.idx() % 8);
    assert(a.idx() / 8 == b.idx() / 8);
    crate::update::lemma_square_idx_injective(a, b);
}

/// Reads a FEN string. Fields are separated by whitespace; a malformed field is an error.
pub fn parse(fen: &str) -> (r: Result<FenFields, FenError>)
    ensures
        match r {
            Ok(t) => parse_spec(fen@) == Ok::<_, FenError>(fields_view(t)),
            Err(e) => parse_spec(fen@) == Err::<(Seq<Option<Piece>>, Color, Seq<Piece>, Option<Square>, u32, u32), FenError>(e),
        },
        r matches Ok(t) ==> t.0@.len() == 64 && forall|i: int| 0 <= i < t.2@.len() ==> is_castling_letter_piece(#[trigger] t.2@[i]),
{
    let parts = split_fields(fen);
    if parts.len() != 6 {
        return Err(FenError::FieldCount);
    }
    let ghost fs = fields_of(fen@);
    assert(parts[0]@ == fs[0] && parts[1]@ == fs[1] && parts[2]@ == fs[2]);
    assert(parts[3]@ == fs[3] && parts[4]@ == fs[4] && parts[5]@ == fs[5]);
    let placement = match parse_piece_placement(&parts[0]) {
        Ok(p) => p,
        Err(e) => {
            return Err(e);
        },
    };
    let side = match parse_side_to_move(&parts[1]) {
        Ok(c) => c,
        Err(e) => {
            return Err(e);
        },
    };
    let castling = match parse_castling_ability(&parts[2]) {
        Ok(c) => c,
        Err(e) => {
            return Err(e);
        },
    };
    let ep = match parse_en_passant_target_square(&parts[3]) {
        Ok(e) => e,
        Err(e) => {
            return Err(e);
        },
    };
    let half = match parse_counter(&parts[4]) {
        Ok(n) => n,
        Err(e) => {
            return Err(e);
        },
    };
    let full = match parse_counter(&parts[5]) {
        Ok(n) => n,
        Err(e) => {
            return Err(e);
        },
    };
    Ok((placement, side, castling, ep, half, full))
}

/// Reads a piece placement alone, with White to move, every castling right, no
/// en-passant square and counters 0 and 1.
pub fn parse_pieces(pieces: &str) -> (r: Result<FenFields, FenError>)
    ensures
        match r {
            Ok(t) => parse_spec(pieces@ + " w KQkq - 0 1"@) == Ok::<_, FenError>(fields_view(t)),
            Err(e) => parse_spec(pieces@ + " w KQkq - 0 1"@) == Err::<(Seq<Option<Piece>>, Color, Seq<Piece>, Option<Square>, u32, u32), FenError>(e),
        },
{
    let mut v: Vec<char> = Vec::new();
    let n = pieces.unicode_len();
    let mut i: usize = 0;
    while i < n
        invariant
            n == pieces@.len(),
            i <= n,
            v@ == pieces@.subrange(0, i as int),
        decreases n - i,
    {
        v.push(pieces.get_char(i));
        proof {
            assert(v@ =~= pieces@.subrange(0, i + 1));
        }
        i += 1;
    }
    let rest = " w KQkq - 0 1";
    let m = rest.unicode_len();
    let mut j: usize = 0;
    while j < m
        invariant
            n == pieces@.len(),
            m == rest@.len(),
            j <= m,
            v@ == pieces@ + rest@.subrange(0, j as int),
        decreases m - j,
    {
        v.push(rest.get_char(j));
        proof {
            assert(v@ =~= pieces@ + rest@.subrange(0, j + 1));
        }
        j += 1;
    }
    proof {
        assert(rest@.subrange(0, m as int) =~= rest@);
    }
    let text = chars_to_string(&v);
    parse(text.as_str())
}

} // verus!



