//! Move descriptors.
//!
//! A move names an origin square, a destination square and a kind flag; a
//! promotion is carried by the flag itself.  The descriptor says nothing about
//! whether the move is playable: that is the board's pseudo-legality and
//! legality checks.

use vstd::prelude::*;
use vstd::string::StringSliceAdditionalSpecFns;
use crate::types::{Piece, Square};

verus! {

/// The kind of a move.
#[derive(Clone, Copy, Debug, PartialEq, Eq, Structural)]
pub enum MoveFlag {
    Quiet,
    DoublePush,
    EnPassant,
    CastleK,
    CastleQ,
    PromoKnight,
    PromoBishop,
    PromoRook,
    PromoQueen,
}

/// A move descriptor: origin, destination, and kind.
#[derive(Clone, Copy, Debug, PartialEq, Eq, Structural)]
pub struct Move {
    pub from: Square,
    pub to: Square,
    pub flag: MoveFlag,
}

impl MoveFlag {
    /// The piece a promotion flag promotes to, if any.
    pub open spec fn spec_promo_piece(self) -> Option<Piece> {
        match self {
            MoveFlag::PromoKnight => Some(Piece::Knight),
            MoveFlag::PromoBishop => Some(Piece::Bishop),
            MoveFlag::PromoRook => Some(Piece::Rook),
            MoveFlag::PromoQueen => Some(Piece::Queen),
            _ => None,
        }
    }
}

impl Move {
    /// Origin square.
    pub fn from(&self) -> (r: Square)
        ensures
            r == self.from,
    {
        self.from
    }

    /// Destination square.
    pub fn to(&self) -> (r: Square)
        ensures
            r == self.to,
    {
        self.to
    }

    /// Kind flag.
    pub fn flag(&self) -> (r: MoveFlag)
        ensures
            r == self.flag,
    {
        self.flag
    }

    /// The piece this move promotes to, if it is a promotion.
    pub fn promo_piece(&self) -> (r: Option<Piece>)
        ensures
            r == self.flag.spec_promo_piece(),
    {
        match self.flag {
            MoveFlag::PromoKnight => Some(Piece::Knight),
            MoveFlag::PromoBishop => Some(Piece::Bishop),
            MoveFlag::PromoRook => Some(Piece::Rook),
            MoveFlag::PromoQueen => Some(Piece::Queen),
            _ => None,
        }
    }

    /// Whether the flag marks a castling move.
    pub open spec fn spec_is_castle(self) -> bool {
        self.flag == MoveFlag::CastleK || self.flag == MoveFlag::CastleQ
    }

    /// Whether the flag marks a castling move.
    pub fn is_castle(&self) -> (r: bool)
        ensures
            r == self.spec_is_castle(),
    {
        match self.flag {
            MoveFlag::CastleK | MoveFlag::CastleQ => true,
            _ => false,
        }
    }

    /// Whether the flag marks an en-passant capture.
    pub open spec fn spec_is_ep(self) -> bool {
        self.flag == MoveFlag::EnPassant
    }

    /// Whether the flag marks an en-passant capture.
    pub fn is_ep(&self) -> (r: bool)
        ensures
            r == self.spec_is_ep(),
    {
        match self.flag {
            MoveFlag::EnPassant => true,
            _ => false,
        }
    }

    /// Whether the flag marks a promotion.
    pub open spec fn spec_is_promo(self) -> bool {
        self.flag.spec_promo_piece() is Some
    }

    /// Whether the flag marks a promotion.
    pub fn is_promo(&self) -> (r: bool)
        ensures
            r == self.spec_is_promo(),
    {
        match self.flag {
            MoveFlag::PromoKnight | MoveFlag::PromoBishop | MoveFlag::PromoRook
                | MoveFlag::PromoQueen => true,
            _ => false,
        }
    }

    /// Whether the flag marks a double pawn push.
    pub open spec fn spec_is_double_push(self) -> bool {
        self.flag == MoveFlag::DoublePush
    }

    /// Whether the flag marks a double pawn push.
    pub fn is_double_push(&self) -> (r: bool)
        ensures
            r == self.spec_is_double_push(),
    {
        match self.flag {
            MoveFlag::DoublePush => true,
            _ => false,
        }
    }

    /// Whether the descriptor encodes a real move at all; the all-zero
    /// descriptor stands for "no move".
    pub open spec fn spec_is_real(self) -> bool {
        self.from.0 != 0 || self.to.0 != 0
    }

    /// Whether the descriptor encodes a real move at all.
    pub fn is_real(&self) -> (r: bool)
        ensures
            r == self.spec_is_real(),
    {
        self.from.0 != 0 || self.to.0 != 0
    }

    /// What `parse_uci` returns on the character sequence `s`.
    pub open spec fn spec_parse_uci(s: Seq<u8>) -> Option<Move> {
        if s.len() != 4 && s.len() != 5 {
            None
        } else if !(97 <= s[0] <= 104 && 49 <= s[1] <= 56 && 97 <= s[2] <= 104 && 49 <= s[3]
            <= 56) {
            None
        } else {
            let from = Square((((s[1] - 49) * 8) + (s[0] - 97)) as u8);
            let to = Square((((s[3] - 49) * 8) + (s[2] - 97)) as u8);
            if s.len() == 4 {
                Some(Move { from, to, flag: MoveFlag::Quiet })
            } else if s[4] == 110 {
                Some(Move { from, to, flag: MoveFlag::PromoKnight })
            } else if s[4] == 98 {
                Some(Move { from, to, flag: MoveFlag::PromoBishop })
            } else if s[4] == 114 {
                Some(Move { from, to, flag: MoveFlag::PromoRook })
            } else if s[4] == 113 {
                Some(Move { from, to, flag: MoveFlag::PromoQueen })
            } else {
                None
            }
        }
    }

    /// Parses long algebraic notation, `e2e4` or `f7g8q`, into a move with a
    /// quiet or promotion flag.
    pub fn parse_uci(s: &str) -> (r: Option<Move>)
        ensures
            r == Self::spec_parse_uci(s.spec_bytes()),
    {
        let b = s.as_bytes();
        if b.len() != 4 && b.len() != 5 {
            return None;
        }
        if !(97 <= b[0] && b[0] <= 104 && 49 <= b[1] && b[1] <= 56 && 97 <= b[2] && b[2] <= 104
            && 49 <= b[3] && b[3] <= 56) {
            return None;
        }
        let from = Square((b[1] - 49) * 8 + (b[0] - 97));
        let to = Square((b[3] - 49) * 8 + (b[2] - 97));
        if b.len() == 4 {
            return Some(Move { from, to, flag: MoveFlag::Quiet });
        }
        match b[4] {
            110 => Some(Move { from, to, flag: MoveFlag::PromoKnight }),
            98 => Some(Move { from, to, flag: MoveFlag::PromoBishop }),
            114 => Some(Move { from, to, flag: MoveFlag::PromoRook }),
            113 => Some(Move { from, to, flag: MoveFlag::PromoQueen }),
            _ => None,
        }
    }

    /// What `parse_uci_with_flag` returns: the squares of the notation with
    /// the caller's flag in place of the parsed one.
    pub open spec fn spec_parse_uci_with_flag(s: Seq<u8>, flag: MoveFlag) -> Option<Move> {
        match Self::spec_parse_uci(s) {
            Some(m) => Some(Move { from: m.from, to: m.to, flag }),
            None => None,
        }
    }

    /// Parses long algebraic notation and attaches the given flag, for move
    /// kinds the bare notation cannot express (double push, en passant,
    /// castling).
    pub fn parse_uci_with_flag(s: &str, flag: MoveFlag) -> (r: Option<Move>)
        ensures
            r == Self::spec_parse_uci_with_flag(s.spec_bytes(), flag),
    {
        match Self::parse_uci(s) {
            Some(m) => Some(Move { from: m.from, to: m.to, flag }),
            None => None,
        }
    }
}

} // verus!
