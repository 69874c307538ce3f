//! Squares of the board, numbered from A1 (0) to H8 (63).
use crate::colors::Color;
use crate::text::chars_to_string;
use vstd::prelude::*;

verus! {

/// A square of the board. Its number is the position of its bit in a bitboard:
/// rank = number / 8, file = number % 8.
#[derive(Debug, Clone, Copy, PartialEq, Eq, Structural, PartialOrd, Ord, Hash)]
pub enum Square {
    A1, B1, C1, D1, E1, F1, G1, H1,
    A2, B2, C2, D2, E2, F2, G2, H2,
    A3, B3, C3, D3, E3, F3, G3, H3,
    A4, B4, C4, D4, E4, F4, G4, H4,
    A5, B5, C5, D5, E5, F5, G5, H5,
    A6, B6, C6, D6, E6, F6, G6, H6,
    A7, B7, C7, D7, E7, F7, G7, H7,
    A8, B8, C8, D8, E8, F8, G8, H8,
}

impl Square {
    /// The number of the square, in [0, 64).
    pub open spec fn idx(self) -> nat {
        (self as u8) as nat
    }

    pub open spec fn rank_of(self) -> nat {
        self.idx() / 8
    }

    pub open spec fn file_of(self) -> nat {
        self.idx() % 8
    }

    /// The number of the square.
    pub fn index(self) -> (r: u8)
        ensures
            r == self.idx(),
            r < 64,
    {
        self as u8
    }

    /// The square with the given number.
    pub fn from_index(i: u8) -> (r: Square)
        requires
            i < 64,
        ensures
            r.idx() == i,
    {
        match i {
            0 => Square::A1,
            1 => Square::B1,
            2 => Square::C1,
            3 => Square::D1,
            4 => Square::E1,
            5 => Square::F1,
            6 => Square::G1,
            7 => Square::H1,
            8 => Square::A2,
            9 => Square::B2,
            10 => Square::C2,
            11 => Square::D2,
            12 => Square::E2,
            13 => Square::F2,
            14 => Square::G2,
            15 => Square::H2,
            16 => Square::A3,
            17 => Square::B3,
            18 => Square::C3,
            19 => Square::D3,
            20 => Square::E3,
            21 => Square::F3,
            22 => Square::G3,
            23 => Square::H3,
            24 => Square::A4,
            25 => Square::B4,
            26 => Square::C4,
            27 => Square::D4,
            28 => Square::E4,
            29 => Square::F4,
            30 => Square::G4,
            31 => Square::H4,
            32 => Square::A5,
            33 => Square::B5,
            34 => Square::C5,
            35 => Square::D5,
            36 => Square::E5,
            37 => Square::F5,
            38 => Square::G5,
            39 => Square::H5,
            40 => Square::A6,
            41 => Square::B6,
            42 => Square::C6,
            43 => Square::D6,
            44 => Square::E6,
            45 => Square::F6,
            46 => Square::G6,
            47 => Square::H6,
            48 => Square::A7,
            49 => Square::B7,
            50 => Square::C7,
            51 => Square::D7,
            52 => Square::E7,
            53 => Square::F7,
            54 => Square::G7,
            55 => Square::H7,
            56 => Square::A8,
            57 => Square::B8,
            58 => Square::C8,
            59 => Square::D8,
            60 => Square::E8,
            61 => Square::F8,
            62 => Square::G8,
            _ => Square::H8,
        }
    }

    /// The square on the given rank and file (both counted from 0).
    pub fn new(rank: u8, file: u8) -> (r: Square)
        requires
            rank < 8,
            file < 8,
        ensures
            r.idx() == rank * 8 + file,
    {
        Square::from_index(rank * 8 + file)
    }

    pub fn get_rank(self) -> (r: u8)
        ensures
            r == self.rank_of(),
    {
        (self as u8) / 8
    }

    pub fn get_file(self) -> (r: u8)
        ensures
            r == self.file_of(),
    {
        (self as u8) % 8
    }

    /// Whether a pawn of the given color promotes on this square.
    pub fn is_promotion_rank_for(self, color: Color) -> (r: bool)
        ensures
            r == (self.rank_of() == if color == Color::White { 7nat } else { 0nat }),
    {
        match color {
            Color::White => self.get_rank() == 7,
            Color::Black => self.get_rank() == 0,
        }
    }

    /// The name of the square in coordinate notation, such as `e4`.
    pub fn name(self) -> (r: String)
        ensures
            r@ == square_name(self.idx()),
    {
        let mut v: Vec<char> = Vec::new();
        self.push_name(&mut v);
        chars_to_string(&v)
    }

    /// Appends the name of the square to `out`.
    pub fn push_name(self, out: &mut Vec<char>)
        ensures
            final(out)@ == old(out)@ + square_name(self.idx()),
    {
        out.push(file_char(self.get_file()));
        out.push(rank_char(self.get_rank()));
        proof {
            assert(final(out)@ =~= old(out)@ + square_name(self.idx()));
        }
    }

    /// Reads a square name (`e4`, or `E4`): a file letter then a rank digit.
    pub fn parse(s: &str) -> (r: Option<Square>)
        ensures
            match r {
                Some(sq) => s@ == square_name(sq.idx()) || s@ == square_name_upper(sq.idx()),
                None => forall|i: nat| i < 64 ==> s@ != square_name(i) && s@ != square_name_upper(i),
            },
    {
        let n = s.unicode_len();
        if n != 2 {
            proof {
                assert forall|i: nat| i < 64 implies s@ != square_name(i) && s@ != square_name_upper(i) by {
                    assert(square_name(i).len() == 2);
                    assert(square_name_upper(i).len() == 2);
                }
            }
            return None;
        }
        let f = s.get_char(0);
        let k = s.get_char(1);
        let file = if 'a' <= f && f <= 'h' {
            (f as u32 - 'a' as u32) as u8
        } else if 'A' <= f && f <= 'H' {
            (f as u32 - 'A' as u32) as u8
        } else {
            8
        };
        let rank = if '1' <= k && k <= '8' {
            (k as u32 - '1' as u32) as u8
        } else {
            8
        };
        if file < 8 && rank < 8 {
            let sq = Square::new(rank, file);
            proof {
                if 'a' <= f && f <= 'h' {
                    assert(s@ =~= square_name(sq.idx()));
                } else {
                    assert(s@ =~= square_name_upper(sq.idx()));
                }
            }
            Some(sq)
        } else {
            proof {
                assert forall|i: nat| i < 64 implies s@ != square_name(i) && s@ != square_name_upper(i) by {
                    if s@ == square_name(i) || s@ == square_name_upper(i) {
                        assert(s@[0] == f && s@[1] == k);
                    }
                }
            }
            None
        }
    }
}

/// The letter of a file, `a` to `h`.
pub open spec fn file_letter(file: nat) -> char {
    ('a' as u32 + file) as char
}

/// The digit of a rank, `1` to `8`.
pub open spec fn rank_digit(rank: nat) -> char {
    ('1' as u32 + rank) as char
}

/// The name of square `i` in lower case, such as `e4`.
pub open spec fn square_name(i: nat) -> Seq<char> {
    seq![file_letter(i % 8), rank_digit(i / 8)]
}

/// The name of square `i` with an upper-case file letter, such as `E4`.
pub open spec fn square_name_upper(i: nat) -> Seq<char> {
    seq![('A' as u32 + i % 8) as char, rank_digit(i / 8)]
}

fn file_char(file: u8) -> (r: char)
    requires
        file < 8,
    ensures
        r == file_letter(file as nat),
{
    (('a' as u8) + file) as char
}

fn rank_char(rank: u8) -> (r: char)
    requires
        rank < 8,
    ensures
        r == rank_digit(rank as nat),
{
    (('1' as u8) + rank) as char
}


/// The square numbered `n` (H8 for 63 and beyond).
pub open spec fn square_at(n: nat) -> Square {
    if n == 0 {
        Square::A1
    } else if n == 1 {
        Square::B1
    } else if n == 2 {
        Square::C1
    } else if n == 3 {
        Square::D1
    } else if n == 4 {
        Square::E1
    } else if n == 5 {
        Square::F1
    } else if n == 6 {
        Square::G1
    } else if n == 7 {
        Square::H1
    } else if n == 8 {
        Square::A2
    } else if n == 9 {
        Square::B2
    } else if n == 10 {
        Square::C2
    } else if n == 11 {
        Square::D2
    } else if n == 12 {
        Square::E2
    } else if n == 13 {
        Square::F2
    } else if n == 14 {
        Square::G2
    } else if n == 15 {
        Square::H2
    } else if n == 16 {
        Square::A3
    } else if n == 17 {
        Square::B3
    } else if n == 18 {
        Square::C3
    } else if n == 19 {
        Square::D3
    } else if n == 20 {
        Square::E3
    } else if n == 21 {
        Square::F3
    } else if n == 22 {
        Square::G3
    } else if n == 23 {
        Square::H3
    } else if n == 24 {
        Square::A4
    } else if n == 25 {
        Square::B4
    } else if n == 26 {
        Square::C4
    } else if n == 27 {
        Square::D4
    } else if n == 28 {
        Square::E4
    } else if n == 29 {
        Square::F4
    } else if n == 30 {
        Square::G4
    } else if n == 31 {
        Square::H4
    } else if n == 32 {
        Square::A5
    } else if n == 33 {
        Square::B5
    } else if n == 34 {
        Square::C5
    } else if n == 35 {
        Square::D5
    } else if n == 36 {
        Square::E5
    } else if n == 37 {
        Square::F5
    } else if n == 38 {
        Square::G5
    } else if n == 39 {
        Square::H5
    } else if n == 40 {
        Square::A6
    } else if n == 41 {
        Square::B6
    } else if n == 42 {
        Square::C6
    } else if n == 43 {
        Square::D6
    } else if n == 44 {
        Square::E6
    } else if n == 45 {
        Square::F6
    } else if n == 46 {
        Square::G6
    } else if n == 47 {
        Square::H6
    } else if n == 48 {
        Square::A7
    } else if n == 49 {
        Square::B7
    } else if n == 50 {
        Square::C7
    } else if n == 51 {
        Square::D7
    } else if n == 52 {
        Square::E7
    } else if n == 53 {
        Square::F7
    } else if n == 54 {
        Square::G7
    } else if n == 55 {
        Square::H7
    } else if n == 56 {
        Square::A8
    } else if n == 57 {
        Square::B8
    } else if n == 58 {
        Square::C8
    } else if n == 59 {
        Square::D8
    } else if n == 60 {
        Square::E8
    } else if n == 61 {
        Square::F8
    } else if n == 62 {
        Square::G8
    } else {
        Square::H8
    }
}

pub proof fn lemma_square_at(n: nat)
    requires
        n < 64,
    ensures
        square_at(n).idx() == n,
{
}

} // verus!
