//! The position as the evaluator reads it: one bitboard per piece kind,
//! one per color, the two king squares, and the side to move.

use vstd::prelude::*;
use crate::bits::{bit64, popcnt, popcnt_to};

verus! {

#[derive(Clone, Copy, PartialEq, Eq, Structural, Debug)]
pub enum Color {
    White,
    Black,
}

impl Color {
    /// The other side.
    pub fn flip(self) -> (r: Color)
        ensures
            r == self.other(),
    {
        match self {
            Color::White => Color::Black,
            Color::Black => Color::White,
        }
    }

    pub open spec fn other(self) -> Color {
        match self {
            Color::White => Color::Black,
            Color::Black => Color::White,
        }
    }

    pub open spec fn sign(self) -> int {
        match self {
            Color::White => 1,
            Color::Black => -1,
        }
    }
}

#[derive(Clone, Copy, PartialEq, Eq, Structural, Debug)]
pub enum Piece {
    Pawn,
    Knight,
    Bishop,
    Rook,
    Queen,
    King,
}

pub open spec fn piece_index(p: Piece) -> int {
    match p {
        Piece::Pawn => 0,
        Piece::Knight => 1,
        Piece::Bishop => 2,
        Piece::Rook => 3,
        Piece::Queen => 4,
        Piece::King => 5,
    }
}

/// The piece kind with spec index `i`.
pub open spec fn piece_of(i: int) -> Piece {
    if i == 0 {
        Piece::Pawn
    } else if i == 1 {
        Piece::Knight
    } else if i == 2 {
        Piece::Bishop
    } else if i == 3 {
        Piece::Rook
    } else if i == 4 {
        Piece::Queen
    } else {
        Piece::King
    }
}

/// The piece kind with the given index; used to walk all six kinds.
pub fn piece_from_index(i: usize) -> (p: Piece)
    requires
        i < 6,
    ensures
        piece_index(p) == i,
        p == piece_of(i as int),
{
    if i == 0 {
        Piece::Pawn
    } else if i == 1 {
        Piece::Knight
    } else if i == 2 {
        Piece::Bishop
    } else if i == 3 {
        Piece::Rook
    } else if i == 4 {
        Piece::Queen
    } else {
        Piece::King
    }
}

/// A position, as plain bitboards. Square `i` is file `i % 8`, rank `i / 8`,
/// with White's first rank at rank 0.
#[derive(Clone, Copy, PartialEq, Eq, Structural, Debug)]
pub struct Board {
    pub pawns: u64,
    pub knights: u64,
    pub bishops: u64,
    pub rooks: u64,
    pub queens: u64,
    pub kings: u64,
    pub white: u64,
    pub black: u64,
    pub white_king: u8,
    pub black_king: u8,
    pub stm: Color,
}

impl Board {
    pub open spec fn spec_pieces(self, p: Piece) -> u64 {
        match p {
            Piece::Pawn => self.pawns,
            Piece::Knight => self.knights,
            Piece::Bishop => self.bishops,
            Piece::Rook => self.rooks,
            Piece::Queen => self.queens,
            Piece::King => self.kings,
        }
    }

    pub open spec fn spec_colors(self, c: Color) -> u64 {
        match c {
            Color::White => self.white,
            Color::Black => self.black,
        }
    }

    pub open spec fn spec_occupied(self) -> u64 {
        self.white | self.black
    }

    pub open spec fn spec_king(self, c: Color) -> u8 {
        match c {
            Color::White => self.white_king,
            Color::Black => self.black_king,
        }
    }

    /// Color `c` has a piece of kind `p` on square `sq`.
    pub open spec fn has(self, c: Color, p: Piece, sq: u64) -> bool {
        bit64(self.spec_colors(c) & self.spec_pieces(p), sq)
    }

    /// The structural invariant: the piece boards partition the occupancy,
    /// the color boards are disjoint, and each king square carries that
    /// color's king.
    pub open spec fn wf(self) -> bool {
        &&& self.white & self.black == 0
        &&& (self.pawns | self.knights | self.bishops | self.rooks | self.queens | self.kings)
            == (self.white | self.black)
        &&& self.pawns & self.knights == 0
        &&& self.pawns & self.bishops == 0
        &&& self.pawns & self.rooks == 0
        &&& self.pawns & self.queens == 0
        &&& self.pawns & self.kings == 0
        &&& self.knights & self.bishops == 0
        &&& self.knights & self.rooks == 0
        &&& self.knights & self.queens == 0
        &&& self.knights & self.kings == 0
        &&& self.bishops & self.rooks == 0
        &&& self.bishops & self.queens == 0
        &&& self.bishops & self.kings == 0
        &&& self.rooks & self.queens == 0
        &&& self.rooks & self.kings == 0
        &&& self.queens & self.kings == 0
        &&& self.white_king < 64
        &&& self.black_king < 64
        &&& self.kings == (1u64 << self.white_king) | (1u64 << self.black_king)
        &&& bit64(self.white, self.white_king as u64)
        &&& bit64(self.black, self.black_king as u64)
    }

    /// The position the constructor's inputs describe, with the kings
    /// bitboard derived from the two king squares.
    pub open spec fn assembled(
        pawns: u64,
        knights: u64,
        bishops: u64,
        rooks: u64,
        queens: u64,
        white: u64,
        black: u64,
        white_king: u8,
        black_king: u8,
        stm: Color,
    ) -> Board {
        Board {
            pawns,
            knights,
            bishops,
            rooks,
            queens,
            kings: (1u64 << white_king) | (1u64 << black_king),
            white,
            black,
            white_king,
            black_king,
            stm,
        }
    }

    /// Assemble a position; exactly the inputs that satisfy the invariant
    /// are accepted.
    pub fn new(
        pawns: u64,
        knights: u64,
        bishops: u64,
        rooks: u64,
        queens: u64,
        white: u64,
        black: u64,
        white_king: u8,
        black_king: u8,
        stm: Color,
    ) -> (r: Option<Board>)
        ensures
            match r {
                Some(b) => b.wf() && b == Board::assembled(
                    pawns,
                    knights,
                    bishops,
                    rooks,
                    queens,
                    white,
                    black,
                    white_king,
                    black_king,
                    stm,
                ),
                None => !Board::assembled(
                    pawns,
                    knights,
                    bishops,
                    rooks,
                    queens,
                    white,
                    black,
                    white_king,
                    black_king,
                    stm,
                ).wf(),
            },
    {
        if white_king >= 64 || black_king >= 64 {
            return None;
        }
        let kings: u64 = (1u64 << white_king) | (1u64 << black_king);
        let b = Board {
            pawns,
            knights,
            bishops,
            rooks,
            queens,
            kings,
            white,
            black,
            white_king,
            black_king,
            stm,
        };
        let ok = white & black == 0 && (pawns | knights | bishops | rooks | queens | kings) == (
        white | black) && pawns & knights == 0 && pawns & bishops == 0 && pawns & rooks == 0
            && pawns & queens == 0 && pawns & kings == 0 && knights & bishops == 0 && knights
            & rooks == 0 && knights & queens == 0 && knights & kings == 0 && bishops & rooks == 0
            && bishops & queens == 0 && bishops & kings == 0 && rooks & queens == 0 && rooks
            & kings == 0 && queens & kings == 0 && (white >> white_king) & 1u64 == 1u64 && (black
            >> black_king) & 1u64 == 1u64;
        if ok {
            Some(b)
        } else {
            None
        }
    }

    /// Bitboard of both colors' pieces of kind `p`.
    pub fn pieces(&self, p: Piece) -> (r: u64)
        ensures
            r == self.spec_pieces(p),
    {
        match p {
            Piece::Pawn => self.pawns,
            Piece::Knight => self.knights,
            Piece::Bishop => self.bishops,
            Piece::Rook => self.rooks,
            Piece::Queen => self.queens,
            Piece::King => self.kings,
        }
    }

    /// Bitboard of all pieces of color `c`.
    pub fn colors(&self, c: Color) -> (r: u64)
        ensures
            r == self.spec_colors(c),
    {
        match c {
            Color::White => self.white,
            Color::Black => self.black,
        }
    }

    /// Bitboard of every occupied square.
    pub fn occupied(&self) -> (r: u64)
        ensures
            r == self.spec_occupied(),
    {
        self.white | self.black
    }

    /// The square of color `c`'s king.
    pub fn king(&self, c: Color) -> (r: u8)
        ensures
            r == self.spec_king(c),
    {
        match c {
            Color::White => self.white_king,
            Color::Black => self.black_king,
        }
    }

    pub fn side_to_move(&self) -> (r: Color)
        ensures
            r == self.stm,
    {
        self.stm
    }
}

} // verus!
