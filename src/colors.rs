//! The two sides.
use vstd::prelude::*;

verus! {

#[derive(Debug, Clone, Copy, PartialEq, Eq, Structural, PartialOrd, Ord, Hash)]
pub enum Color {
    White,
    Black,
}

impl Color {
    /// 0 for White, 1 for Black.
    pub open spec fn idx(self) -> nat {
        (self as u8) as nat
    }

    /// The color numbered `v`: 0 is White, 1 is Black.
    pub fn new(v: usize) -> (r: Color)
        requires
            v < 2,
        ensures
            r.idx() == v,
    {
        if v == 0 {
            Color::White
        } else {
            Color::Black
        }
    }

    /// The number of the color.
    pub fn index(self) -> (r: usize)
        ensures
            r == self.idx(),
            r < 2,
    {
        self as usize
    }

    pub open spec fn opposite_spec(self) -> Color {
        match self {
            Color::White => Color::Black,
            Color::Black => Color::White,
        }
    }

    pub fn opposite(self) -> (r: Color)
        ensures
            r == self.opposite_spec(),
            r.idx() == 1 - self.idx(),
    {
        match self {
            Color::White => Color::Black,
            Color::Black => Color::White,
        }
    }

    /// The color's name, `White` or `Black`.
    pub fn name(self) -> (r: &'static str)
        ensures
            self == Color::White ==> r@ == "White"@,
            self == Color::Black ==> r@ == "Black"@,
    {
        match self {
            Color::White => "White",
            Color::Black => "Black",
        }
    }
}

} // verus!
