//! Core board vocabulary: squares, piece types, and sides.
//!
//! A square is an index 0..64, a1 = 0, b1 = 1, ..., h8 = 63; a bitboard is a
//! `u64` with one bit per square under the same numbering.

use vstd::prelude::*;

verus! {

/// A board square, numbered 0..64 with a1 = 0 and h8 = 63.
#[derive(Clone, Copy, Debug, PartialEq, Eq, Structural)]
pub struct Square(pub u8);

/// One of the six chess piece types.
#[derive(Clone, Copy, Debug, PartialEq, Eq, Structural)]
pub enum Piece {
    Pawn,
    Knight,
    Bishop,
    Rook,
    Queen,
    King,
}

/// The two players.
#[derive(Clone, Copy, Debug, PartialEq, Eq, Structural)]
pub enum Side {
    White,
    Black,
}

/// True for a bit index that denotes a real square.
pub open spec fn sq_ok(sq: Square) -> bool {
    sq.0 < 64
}

/// Whether bit `i` of the bitboard `bb` is set.
pub open spec fn bit(bb: u64, i: u64) -> bool {
    bb & (1u64 << i) != 0
}

/// File (column) of a square, 0 = a ... 7 = h.
pub open spec fn spec_file_of(sq: Square) -> u8 {
    (sq.0 % 8) as u8
}

/// Rank (row) of a square, 0 = rank one ... 7 = rank eight.
pub open spec fn spec_rank_of(sq: Square) -> u8 {
    (sq.0 / 8) as u8
}

/// Whether bit `i` of the bitboard `bb` is set.
pub fn bit_test(bb: u64, i: u8) -> (r: bool)
    requires
        i < 64,
    ensures
        r == bit(bb, i as u64),
{
    bb & (1u64 << i) != 0
}

/// File of a square, 0 = a ... 7 = h.
pub fn file_of(sq: Square) -> (r: u8)
    ensures
        r == spec_file_of(sq),
{
    sq.0 % 8
}

/// Rank of a square, 0 = rank one ... 7 = rank eight.
pub fn rank_of(sq: Square) -> (r: u8)
    ensures
        r == spec_rank_of(sq),
{
    sq.0 / 8
}

impl Square {
    /// Builds the square on the given file and rank.
    pub fn from_coords(file: u8, rank: u8) -> (r: Square)
        requires
            file < 8,
            rank < 8,
        ensures
            r.0 == rank * 8 + file,
            sq_ok(r),
    {
        Square(rank * 8 + file)
    }
}

impl Piece {
    /// Storage index of the piece type: pawn 0, knight 1, bishop 2, rook 3,
    /// queen 4, king 5.
    pub open spec fn spec_idx(self) -> u64 {
        match self {
            Piece::Pawn => 0,
            Piece::Knight => 1,
            Piece::Bishop => 2,
            Piece::Rook => 3,
            Piece::Queen => 4,
            Piece::King => 5,
        }
    }

    /// Storage index of the piece type.
    pub fn idx(self) -> (r: u64)
        ensures
            r == self.spec_idx(),
    {
        match self {
            Piece::Pawn => 0,
            Piece::Knight => 1,
            Piece::Bishop => 2,
            Piece::Rook => 3,
            Piece::Queen => 4,
            Piece::King => 5,
        }
    }

    /// A major piece is a rook or a queen.
    pub open spec fn spec_is_major(self) -> bool {
        self == Piece::Rook || self == Piece::Queen
    }

    /// A major piece is a rook or a queen.
    pub fn is_major(self) -> (r: bool)
        ensures
            r == self.spec_is_major(),
    {
        match self {
            Piece::Rook | Piece::Queen => true,
            _ => false,
        }
    }

    /// A minor piece is a knight or a bishop.
    pub open spec fn spec_is_minor(self) -> bool {
        self == Piece::Knight || self == Piece::Bishop
    }

    /// A minor piece is a knight or a bishop.
    pub fn is_minor(self) -> (r: bool)
        ensures
            r == self.spec_is_minor(),
    {
        match self {
            Piece::Knight | Piece::Bishop => true,
            _ => false,
        }
    }
}

impl Side {
    /// The opposing side.
    pub open spec fn spec_flip(self) -> Side {
        match self {
            Side::White => Side::Black,
            Side::Black => Side::White,
        }
    }

    /// The opposing side.
    pub fn flip(self) -> (r: Side)
        ensures
            r == self.spec_flip(),
    {
        match self {
            Side::White => Side::Black,
            Side::Black => Side::White,
        }
    }

    /// Storage index of the side: white 0, black 1.
    pub open spec fn spec_idx(self) -> u64 {
        match self {
            Side::White => 0,
            Side::Black => 1,
        }
    }

    /// Storage index of the side.
    pub fn idx(self) -> (r: u64)
        ensures
            r == self.spec_idx(),
    {
        match self {
            Side::White => 0,
            Side::Black => 1,
        }
    }
}

} // verus!
