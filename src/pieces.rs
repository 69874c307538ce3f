//! The twelve pieces. The order is load-bearing: `index / 2` is the kind
//! (pawn, knight, bishop, rook, queen, king) and `index % 2` the color.
use crate::colors::Color;
use vstd::prelude::*;

verus! {

#[derive(Debug, Clone, Copy, PartialEq, Eq, Structural, Hash)]
pub enum Piece {
    WhitePawn,
    BlackPawn,
    WhiteKnight,
    BlackKnight,
    WhiteBishop,
    BlackBishop,
    WhiteRook,
    BlackRook,
    WhiteQueen,
    BlackQueen,
    WhiteKing,
    BlackKing,
}

pub const PAWN: u8 = 0;
pub const KNIGHT: u8 = 1;
pub const BISHOP: u8 = 2;
pub const ROOK: u8 = 3;
pub const QUEEN: u8 = 4;
pub const KING: u8 = 5;

/// The letters of the pieces in FEN, in piece order.
pub open spec fn piece_letters() -> Seq<char> {
    seq!['P', 'p', 'N', 'n', 'B', 'b', 'R', 'r', 'Q', 'q', 'K', 'k']
}

impl Piece {
    pub open spec fn idx(self) -> nat {
        (self as u8) as nat
    }

    /// 0 pawn, 1 knight, 2 bishop, 3 rook, 4 queen, 5 king.
    pub open spec fn kind(self) -> nat {
        self.idx() / 2
    }

    pub open spec fn color(self) -> Color {
        if self.idx() % 2 == 0 {
            Color::White
        } else {
            Color::Black
        }
    }

    /// The piece of the given kind and color.
    pub open spec fn of(kind: nat, color: Color) -> Piece {
        choose|p: Piece| p.idx() == 2 * kind + color.idx()
    }

    /// A piece a pawn may turn into: neither a pawn nor a king.
    pub open spec fn is_promotion_piece(self) -> bool {
        1 <= self.kind() <= 4
    }

    /// The number of the piece, in [0, 12).
    pub fn index(self) -> (r: usize)
        ensures
            r == self.idx(),
            r < 12,
    {
        self as usize
    }

    /// The piece numbered `i`.
    pub fn from_index(i: usize) -> (r: Piece)
        requires
            i < 12,
        ensures
            r.idx() == i,
    {
        match i {
            0 => Piece::WhitePawn,
            1 => Piece::BlackPawn,
            2 => Piece::WhiteKnight,
            3 => Piece::BlackKnight,
            4 => Piece::WhiteBishop,
            5 => Piece::BlackBishop,
            6 => Piece::WhiteRook,
            7 => Piece::BlackRook,
            8 => Piece::WhiteQueen,
            9 => Piece::BlackQueen,
            10 => Piece::WhiteKing,
            _ => Piece::BlackKing,
        }
    }

    /// The piece of the given kind (0 pawn to 5 king) and color.
    pub fn new_of(kind: u8, color: Color) -> (r: Piece)
        requires
            kind < 6,
        ensures
            r.idx() == 2 * kind + color.idx(),
            r.kind() == kind,
            r.color() == color,
    {
        Piece::from_index(2 * (kind as usize) + color.index())
    }

    pub fn is_pawn(self) -> (r: bool)
        ensures
            r == (self.kind() == 0),
    {
        matches!(self, Piece::WhitePawn | Piece::BlackPawn)
    }

    pub fn is_knight(self) -> (r: bool)
        ensures
            r == (self.kind() == 1),
    {
        matches!(self, Piece::WhiteKnight | Piece::BlackKnight)
    }

    pub fn is_bishop(self) -> (r: bool)
        ensures
            r == (self.kind() == 2),
    {
        matches!(self, Piece::WhiteBishop | Piece::BlackBishop)
    }

    pub fn is_rook(self) -> (r: bool)
        ensures
            r == (self.kind() == 3),
    {
        matches!(self, Piece::WhiteRook | Piece::BlackRook)
    }

    pub fn is_queen(self) -> (r: bool)
        ensures
            r == (self.kind() == 4),
    {
        matches!(self, Piece::WhiteQueen | Piece::BlackQueen)
    }

    pub fn is_king(self) -> (r: bool)
        ensures
            r == (self.kind() == 5),
    {
        matches!(self, Piece::WhiteKing | Piece::BlackKing)
    }

    pub fn get_color(self) -> (r: Color)
        ensures
            r == self.color(),
            r.idx() == self.idx() % 2,
    {
        Color::new(self.index() % 2)
    }

    pub fn get_pawn_of(color: Color) -> (r: Piece)
        ensures
            r.kind() == 0,
            r.color() == color,
            r.idx() == color.idx(),
    {
        Piece::new_of(PAWN, color)
    }

    pub fn get_knight_of(color: Color) -> (r: Piece)
        ensures
            r.kind() == 1,
            r.color() == color,
            r.idx() == 2 + color.idx(),
    {
        Piece::new_of(KNIGHT, color)
    }

    pub fn get_bishop_of(color: Color) -> (r: Piece)
        ensures
            r.kind() == 2,
            r.color() == color,
            r.idx() == 4 + color.idx(),
    {
        Piece::new_of(BISHOP, color)
    }

    pub fn get_rook_of(color: Color) -> (r: Piece)
        ensures
            r.kind() == 3,
            r.color() == color,
            r.idx() == 6 + color.idx(),
    {
        Piece::new_of(ROOK, color)
    }

    pub fn get_queen_of(color: Color) -> (r: Piece)
        ensures
            r.kind() == 4,
            r.color() == color,
            r.idx() == 8 + color.idx(),
    {
        Piece::new_of(QUEEN, color)
    }

    pub fn get_king_of(color: Color) -> (r: Piece)
        ensures
            r.kind() == 5,
            r.color() == color,
            r.idx() == 10 + color.idx(),
    {
        Piece::new_of(KING, color)
    }

    /// The FEN letter of the piece: upper case for White, lower case for Black.
    pub fn to_char(self) -> (r: char)
        ensures
            r == piece_letters()[self.idx() as int],
    {
        match self {
            Piece::WhitePawn => 'P',
            Piece::BlackPawn => 'p',
            Piece::WhiteKnight => 'N',
            Piece::BlackKnight => 'n',
            Piece::WhiteBishop => 'B',
            Piece::BlackBishop => 'b',
            Piece::WhiteRook => 'R',
            Piece::BlackRook => 'r',
            Piece::WhiteQueen => 'Q',
            Piece::BlackQueen => 'q',
            Piece::WhiteKing => 'K',
            Piece::BlackKing => 'k',
        }
    }

    /// The piece whose FEN letter is `c`, if any.
    pub fn from_char(c: char) -> (r: Option<Piece>)
        ensures
            match r {
                Some(p) => piece_letters()[p.idx() as int] == c,
                None => !piece_letters().contains(c),
            },
    {
        let r = match c {
            'P' => Some(Piece::WhitePawn),
            'p' => Some(Piece::BlackPawn),
            'N' => Some(Piece::WhiteKnight),
            'n' => Some(Piece::BlackKnight),
            'B' => Some(Piece::WhiteBishop),
            'b' => Some(Piece::BlackBishop),
            'R' => Some(Piece::WhiteRook),
            'r' => Some(Piece::BlackRook),
            'Q' => Some(Piece::WhiteQueen),
            'q' => Some(Piece::BlackQueen),
            'K' => Some(Piece::WhiteKing),
            'k' => Some(Piece::BlackKing),
            _ => None,
        };
        proof {
            if r.is_none() {
                assert forall|i: int| 0 <= i < 12 implies piece_letters()[i] != c by {}
            }
        }
        r
    }

    /// The chess symbol of the piece (U+2654 to U+265F).
    pub fn as_unicode(self) -> (r: char)
        ensures
            r as u32 == if self.color() == Color::White {
                0x2659 - self.kind()
            } else {
                0x265f - self.kind()
            },
    {
        match self {
            Piece::WhitePawn => '\u{2659}',
            Piece::BlackPawn => '\u{265f}',
            Piece::WhiteKnight => '\u{2658}',
            Piece::BlackKnight => '\u{265e}',
            Piece::WhiteBishop => '\u{2657}',
            Piece::BlackBishop => '\u{265d}',
            Piece::WhiteRook => '\u{2656}',
            Piece::BlackRook => '\u{265c}',
            Piece::WhiteQueen => '\u{2655}',
            Piece::BlackQueen => '\u{265b}',
            Piece::WhiteKing => '\u{2654}',
            Piece::BlackKing => '\u{265a}',
        }
    }

    /// Reads a board drawn with piece letters, `a8` first and `h1` last: a piece letter
    /// is that piece, a dot an empty square, and any other character is skipped.
    pub fn build_list_board(value: &str) -> (r: Vec<Option<Piece>>)
        ensures
            r@ == list_board(value@),
    {
        let n = value.unicode_len();
        let mut out: Vec<Option<Piece>> = Vec::new();
        let mut i: usize = 0;
        while i < n
            invariant
                n == value@.len(),
                i <= n,
                out@ == list_board(value@.subrange(0, i as int)),
            decreases n - i,
        {
            let c = value.get_char(i);
            proof {
                let s1 = value@.subrange(0, i + 1);
                assert(s1.drop_last() =~= value@.subrange(0, i as int));
                assert(s1.last() == c);
            }
            match Piece::from_char(c) {
                Some(p) => {
                    proof {
                        let q = choose|q: Piece| piece_letters()[q.idx() as int] == c;
                        assert(piece_letters().contains(c));
                        lemma_letter_determines_piece(p, q);
                    }
                    out.push(Some(p));
                },
                None => {
                    if c == '.' {
                        out.push(None);
                    }
                },
            }
            i += 1;
        }
        proof {
            assert(value@.subrange(0, n as int) =~= value@);
        }
        out
    }
}

pub proof fn lemma_letter_determines_piece(p: Piece, q: Piece)
    requires
        piece_letters()[p.idx() as int] == piece_letters()[q.idx() as int],
    ensures
        p == q,
{
}

/// The piece whose FEN letter is `c`, if any.
pub open spec fn piece_of_char(c: char) -> Option<Piece> {
    if piece_letters().contains(c) {
        Some(choose|p: Piece| piece_letters()[p.idx() as int] == c)
    } else {
        None
    }
}

/// The squares that a drawn board describes, in the order drawn.
pub open spec fn list_board(s: Seq<char>) -> Seq<Option<Piece>>
    decreases s.len(),
{
    if s.len() == 0 {
        seq![]
    } else {
        let rest = list_board(s.drop_last());
        let c = s.last();
        if piece_letters().contains(c) {
            rest.push(piece_of_char(c))
        } else if c == '.' {
            rest.push(None)
        } else {
            rest
        }
    }
}

} // verus!
