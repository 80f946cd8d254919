//! Position state and the operations on it.
//!
//! A `Board` keeps three redundant views of the piece placement — six
//! per-piece-type bitboards, two per-side occupancy bitboards, and a 64-entry
//! mailbox — together with the side to move, move counters, the en-passant
//! target, the castling-rights mask and five incrementally maintained hash
//! channels.  The single place all of these are touched at once is
//! [`Board::toggle_sq`]; every higher-level mutation is a sequence of such
//! toggles plus bookkeeping, which is how the representations are kept in
//! agreement.
//!
//! The well-formedness predicate [`Board::inv`] states that agreement, the
//! hash-channel equations, the single-king conditions, and the consistency of
//! the en-passant target and the castling rights with the piece placement.

use vstd::prelude::*;
use crate::moves::{Move, MoveFlag};
use crate::types::{bit, sq_ok, Piece, Side, Square};
use crate::zobrist::{
    spec_castle_key, spec_ep_key, spec_sq_key, spec_stm_key, castle_key, ep_key, sq_key, stm_key,
};

verus! {

broadcast use vstd::array::group_array_axioms;

/// One of the five maintained hash channels (the non-pawn channel exists once
/// per side).
#[derive(Clone, Copy, PartialEq, Eq, Structural)]
pub enum Chan {
    Full,
    Pawns,
    NonPawn(Side),
    Majors,
    Minors,
}

/// Whether a piece of type `p` and side `s` contributes to channel `ch`.
pub open spec fn chan_includes(ch: Chan, p: Piece, s: Side) -> bool {
    match ch {
        Chan::Full => true,
        Chan::Pawns => p == Piece::Pawn,
        Chan::NonPawn(side) => p != Piece::Pawn && s == side,
        Chan::Majors => p.spec_is_major(),
        Chan::Minors => p.spec_is_minor(),
    }
}

/// The position state.
#[derive(Clone, Copy)]
#[verifier::ext_equal]
pub struct Board {
    /// Bitboard of all pawns, both sides.
    pub pawn_bb: u64,
    /// Bitboard of all knights, both sides.
    pub knight_bb: u64,
    /// Bitboard of all bishops, both sides.
    pub bishop_bb: u64,
    /// Bitboard of all rooks, both sides.
    pub rook_bb: u64,
    /// Bitboard of all queens, both sides.
    pub queen_bb: u64,
    /// Bitboard of both kings.
    pub king_bb: u64,
    /// Bitboard of all white pieces.
    pub white_bb: u64,
    /// Bitboard of all black pieces.
    pub black_bb: u64,
    /// Piece type on each square, if any.
    pub mailbox: [Option<Piece>; 64],
    /// Side to move.
    pub stm: Side,
    /// Half moves since the last capture or pawn move.
    pub hm: u8,
    /// Full move counter.
    pub fm: u8,
    /// En-passant target square, if the previous move was a double push.
    pub ep_sq: Option<Square>,
    /// Castling rights mask: bit 0 white kingside, bit 1 white queenside,
    /// bit 2 black kingside, bit 3 black queenside.
    pub castle: u8,
    /// Full-position hash.
    pub hash: u64,
    /// Pawns-only hash.
    pub pawn_hash: u64,
    /// Non-pawn hash of the white pieces.
    pub non_pawn_hash_w: u64,
    /// Non-pawn hash of the black pieces.
    pub non_pawn_hash_b: u64,
    /// Majors-only hash (rooks and queens).
    pub major_hash: u64,
    /// Minors-only hash (knights and bishops).
    pub minor_hash: u64,
}

impl Board {
    /// Bitboard of the given piece type.
    pub open spec fn spec_piece_bb(self, p: Piece) -> u64 {
        match p {
            Piece::Pawn => self.pawn_bb,
            Piece::Knight => self.knight_bb,
            Piece::Bishop => self.bishop_bb,
            Piece::Rook => self.rook_bb,
            Piece::Queen => self.queen_bb,
            Piece::King => self.king_bb,
        }
    }

    /// Bitboard of the given side's pieces.
    pub open spec fn spec_side_bb(self, s: Side) -> u64 {
        match s {
            Side::White => self.white_bb,
            Side::Black => self.black_bb,
        }
    }

    /// Bitboard of all occupied squares.
    pub open spec fn spec_occ(self) -> u64 {
        self.white_bb | self.black_bb
    }

    /// The mailbox entry of square index `sq`.
    pub open spec fn piece_on(self, sq: u64) -> Option<Piece>
        recommends
            sq < 64,
    {
        self.mailbox@[sq as int]
    }

    /// The side owning square index `sq`, read off the white bitboard; only
    /// meaningful on occupied squares.
    pub open spec fn side_on(self, sq: u64) -> Side {
        if bit(self.white_bb, sq) {
            Side::White
        } else {
            Side::Black
        }
    }

    /// Mailbox and bitboards describe the same placement: a piece bitboard
    /// has a bit exactly where the mailbox holds that piece, every occupied
    /// square lies in exactly one side's occupancy, and the two occupancies
    /// are disjoint.
    pub open spec fn geo_ok(self) -> bool {
        &&& forall|sq: u64, p: Piece|
            sq < 64 ==> (#[trigger] bit(self.spec_piece_bb(p), sq) <==> self.piece_on(sq) == Some(
                p,
            ))
        &&& forall|sq: u64|
            sq < 64 ==> ((#[trigger] self.piece_on(sq)) is Some <==> bit(self.spec_occ(), sq))
        &&& forall|sq: u64|
            sq < 64 && #[trigger] bit(self.white_bb, sq) ==> !bit(self.black_bb, sq)
    }

    /// Hash key contributed by square index `sq` to channel `ch`.
    pub open spec fn chan_sq_key(self, ch: Chan, sq: u64) -> u64 {
        match self.piece_on(sq) {
            None => 0,
            Some(p) => if chan_includes(ch, p, self.side_on(sq)) {
                spec_sq_key(p, self.side_on(sq), sq)
            } else {
                0
            },
        }
    }

    /// XOR of the channel keys of the first `n` squares.
    pub open spec fn chan_fold(self, ch: Chan, n: int) -> u64
        decreases n,
    {
        if n <= 0 {
            0
        } else {
            self.chan_fold(ch, n - 1) ^ self.chan_sq_key(ch, (n - 1) as u64)
        }
    }

    /// The from-scratch material hash of channel `ch`.
    pub open spec fn mat_hash(self, ch: Chan) -> u64 {
        self.chan_fold(ch, 64)
    }

    /// Hash key of the current en-passant target, zero when there is none.
    pub open spec fn ep_hash_key(self) -> u64 {
        match self.ep_sq {
            Some(t) => spec_ep_key(t.0 as u64),
            None => 0,
        }
    }

    /// Hash key of the side to move, folded in while black is to move.
    pub open spec fn stm_hash_key(self) -> u64 {
        if self.stm == Side::Black {
            spec_stm_key()
        } else {
            0
        }
    }

    /// Every hash channel equals its from-scratch recomputation: the material
    /// fold of its square subset, and for the full channel also the
    /// castling-rights, en-passant and side-to-move keys.
    pub open spec fn hashes_ok(self) -> bool {
        &&& self.hash == self.mat_hash(Chan::Full) ^ spec_castle_key(self.castle)
            ^ self.ep_hash_key() ^ self.stm_hash_key()
        &&& self.pawn_hash == self.mat_hash(Chan::Pawns)
        &&& self.non_pawn_hash_w == self.mat_hash(Chan::NonPawn(Side::White))
        &&& self.non_pawn_hash_b == self.mat_hash(Chan::NonPawn(Side::Black))
        &&& self.major_hash == self.mat_hash(Chan::Majors)
        &&& self.minor_hash == self.mat_hash(Chan::Minors)
    }

    /// Square index `k` holds the king of `side`.
    pub open spec fn is_king_sq(self, side: Side, k: u64) -> bool {
        &&& k < 64
        &&& self.piece_on(k) == Some(Piece::King)
        &&& bit(self.spec_side_bb(side), k)
    }

    /// `side` has exactly one king on the board.
    pub open spec fn side_king_ok(self, side: Side) -> bool {
        &&& exists|k: u64| self.is_king_sq(side, k)
        &&& forall|a: u64, b: u64|
            self.is_king_sq(side, a) && self.is_king_sq(side, b) ==> a == b
    }

    /// Both sides have exactly one king.
    pub open spec fn kings_ok(self) -> bool {
        self.side_king_ok(Side::White) && self.side_king_ok(Side::Black)
    }

    /// The en-passant target, when present, looks like the trace of a double
    /// push made by the side that just moved: it sits on the skipped rank, is
    /// empty, and the pushed pawn of the opponent of the side to move stands
    /// right behind it.
    pub open spec fn ep_ok(self) -> bool {
        match self.ep_sq {
            None => true,
            Some(t) => match self.stm {
                Side::White => {
                    &&& 40 <= t.0 < 48
                    &&& self.piece_on(t.0 as u64) is None
                    &&& self.piece_on((t.0 - 8) as u64) == Some(Piece::Pawn)
                    &&& bit(self.black_bb, (t.0 - 8) as u64)
                },
                Side::Black => {
                    &&& 16 <= t.0 < 24
                    &&& self.piece_on(t.0 as u64) is None
                    &&& self.piece_on((t.0 + 8) as u64) == Some(Piece::Pawn)
                    &&& bit(self.white_bb, (t.0 + 8) as u64)
                },
            },
        }
    }

    /// A held castling right implies its king and rook still stand on their
    /// home squares.
    pub open spec fn castle_ok(self) -> bool {
        &&& self.castle < 16
        &&& spec_has_wks(self.castle) ==> self.piece_on(4) == Some(Piece::King) && bit(
            self.white_bb,
            4,
        ) && self.piece_on(7) == Some(Piece::Rook) && bit(self.white_bb, 7)
        &&& spec_has_wqs(self.castle) ==> self.piece_on(4) == Some(Piece::King) && bit(
            self.white_bb,
            4,
        ) && self.piece_on(0) == Some(Piece::Rook) && bit(self.white_bb, 0)
        &&& spec_has_bks(self.castle) ==> self.piece_on(60) == Some(Piece::King) && bit(
            self.black_bb,
            60,
        ) && self.piece_on(63) == Some(Piece::Rook) && bit(self.black_bb, 63)
        &&& spec_has_bqs(self.castle) ==> self.piece_on(60) == Some(Piece::King) && bit(
            self.black_bb,
            60,
        ) && self.piece_on(56) == Some(Piece::Rook) && bit(self.black_bb, 56)
    }

    /// Well-formedness of a position: representation agreement, hash
    /// integrity, one king per side, and a consistent en-passant target and
    /// castling rights.
    pub open spec fn inv(self) -> bool {
        &&& self.geo_ok()
        &&& self.hashes_ok()
        &&& self.kings_ok()
        &&& self.ep_ok()
        &&& self.castle_ok()
    }
}

/// Whether the white-kingside right is held in mask `c`.
pub open spec fn spec_has_wks(c: u8) -> bool {
    c & 0x1 != 0
}

/// Whether the white-queenside right is held in mask `c`.
pub open spec fn spec_has_wqs(c: u8) -> bool {
    c & 0x2 != 0
}

/// Whether the black-kingside right is held in mask `c`.
pub open spec fn spec_has_bks(c: u8) -> bool {
    c & 0x4 != 0
}

/// Whether the black-queenside right is held in mask `c`.
pub open spec fn spec_has_bqs(c: u8) -> bool {
    c & 0x8 != 0
}

/// Flipping bit `s` of a bitboard changes membership at `s` and nowhere else.
pub proof fn lemma_bit_flip(bb: u64, s: u64, q: u64)
    by (bit_vector)
    requires
        s < 64,
        q < 64,
    ensures
        bit(bb ^ (1u64 << s), q) == (if q == s {
            !bit(bb, q)
        } else {
            bit(bb, q)
        }),
{
}

/// A bit of a union is a bit of one of the parts; a bit of an intersection is
/// a bit of both.
pub proof fn lemma_bit_or_and(a: u64, b: u64, q: u64)
    by (bit_vector)
    requires
        q < 64,
    ensures
        bit(a | b, q) == (bit(a, q) || bit(b, q)),
        bit(a & b, q) == (bit(a, q) && bit(b, q)),
{
}

/// The zero bitboard has no member.
pub proof fn lemma_bit_zero(q: u64)
    by (bit_vector)
    ensures
        !bit(0u64, q),
{
}

/// The empty rights mask holds no right.
pub proof fn lemma_no_rights()
    by (bit_vector)
    ensures
        !spec_has_wks(0),
        !spec_has_wqs(0),
        !spec_has_bks(0),
        !spec_has_bqs(0),
{
}

/// XOR by zero is the identity.
pub proof fn lemma_xor_zero(x: u64)
    by (bit_vector)
    ensures
        x ^ 0u64 == x,
{
}

/// XOR by the same value twice is the identity.
pub proof fn lemma_xor_cancel(x: u64, k: u64)
    by (bit_vector)
    ensures
        (x ^ k) ^ k == x,
{
}

/// The last two operands of a left-nested XOR chain commute.
pub proof fn lemma_xor_rotate(a: u64, b: u64, c: u64)
    by (bit_vector)
    ensures
        (a ^ b) ^ c == (a ^ c) ^ b,
{
}

/// XORing a key into the head of the four-term full-hash combination is the
/// same as XORing it in at the end.
pub proof fn lemma_xor_head(f: u64, c: u64, e: u64, s: u64, k: u64)
    by (bit_vector)
    ensures
        ((((f ^ c) ^ e) ^ s) ^ k) == ((((f ^ k) ^ c) ^ e) ^ s),
{
}

impl Board {
    /// The board after toggling a piece of type `pc` and side `side` on the
    /// square `sq`: the piece and side occupancy bits flip, the mailbox entry
    /// flips between that piece and empty, and the square's key flips in the
    /// full hash and in exactly the channels the piece belongs to.
    pub open spec fn spec_toggle(self, sq: Square, pc: Piece, side: Side) -> Board {
        let m = 1u64 << sq.0;
        let k = spec_sq_key(pc, side, sq.0 as u64);
        Board {
            pawn_bb: if pc == Piece::Pawn {
                self.pawn_bb ^ m
            } else {
                self.pawn_bb
            },
            knight_bb: if pc == Piece::Knight {
                self.knight_bb ^ m
            } else {
                self.knight_bb
            },
            bishop_bb: if pc == Piece::Bishop {
                self.bishop_bb ^ m
            } else {
                self.bishop_bb
            },
            rook_bb: if pc == Piece::Rook {
                self.rook_bb ^ m
            } else {
                self.rook_bb
            },
            queen_bb: if pc == Piece::Queen {
                self.queen_bb ^ m
            } else {
                self.queen_bb
            },
            king_bb: if pc == Piece::King {
                self.king_bb ^ m
            } else {
                self.king_bb
            },
            white_bb: if side == Side::White {
                self.white_bb ^ m
            } else {
                self.white_bb
            },
            black_bb: if side == Side::Black {
                self.black_bb ^ m
            } else {
                self.black_bb
            },
            mailbox: vstd::array::spec_array_update(
                self.mailbox,
                sq.0 as int,
                if self.mailbox@[sq.0 as int] == Some(pc) {
                    None
                } else {
                    Some(pc)
                },
            ),
            hash: self.hash ^ k,
            pawn_hash: if pc == Piece::Pawn {
                self.pawn_hash ^ k
            } else {
                self.pawn_hash
            },
            non_pawn_hash_w: if pc != Piece::Pawn && side == Side::White {
                self.non_pawn_hash_w ^ k
            } else {
                self.non_pawn_hash_w
            },
            non_pawn_hash_b: if pc != Piece::Pawn && side == Side::Black {
                self.non_pawn_hash_b ^ k
            } else {
                self.non_pawn_hash_b
            },
            major_hash: if pc.spec_is_major() {
                self.major_hash ^ k
            } else {
                self.major_hash
            },
            minor_hash: if pc.spec_is_minor() {
                self.minor_hash ^ k
            } else {
                self.minor_hash
            },
            ..self
        }
    }

    /// Flips the occupancy of `sq` by a piece of type `pc` and side `side` in
    /// every representation and every hash channel in lockstep.  This is the
    /// only operation that touches bitboards, mailbox, and hashes.
    pub fn toggle_sq(&mut self, sq: Square, pc: Piece, side: Side)
        requires
            sq_ok(sq),
        ensures
            *final(self) == old(self).spec_toggle(sq, pc, side),
    {
        let m: u64 = 1u64 << sq.0;
        let k: u64 = sq_key(pc, side, sq);
        match pc {
            Piece::Pawn => self.pawn_bb = self.pawn_bb ^ m,
            Piece::Knight => self.knight_bb = self.knight_bb ^ m,
            Piece::Bishop => self.bishop_bb = self.bishop_bb ^ m,
            Piece::Rook => self.rook_bb = self.rook_bb ^ m,
            Piece::Queen => self.queen_bb = self.queen_bb ^ m,
            Piece::King => self.king_bb = self.king_bb ^ m,
        }
        match side {
            Side::White => self.white_bb = self.white_bb ^ m,
            Side::Black => self.black_bb = self.black_bb ^ m,
        }
        let cur = self.mailbox[sq.0 as usize];
        let nv = match cur {
            Some(p) => if p == pc {
                None
            } else {
                Some(pc)
            },
            None => Some(pc),
        };
        self.mailbox[sq.0 as usize] = nv;
        self.hash = self.hash ^ k;
        if pc == Piece::Pawn {
            self.pawn_hash = self.pawn_hash ^ k;
        } else {
            match side {
                Side::White => self.non_pawn_hash_w = self.non_pawn_hash_w ^ k,
                Side::Black => self.non_pawn_hash_b = self.non_pawn_hash_b ^ k,
            }
            if pc.is_major() {
                self.major_hash = self.major_hash ^ k;
            }
            if pc.is_minor() {
                self.minor_hash = self.minor_hash ^ k;
            }
        }
        proof {
            assert(*self =~= old(self).spec_toggle(sq, pc, side));
        }
    }

    /// Relocates a piece by toggling it off `from` and onto `to`; used for
    /// the rook during castling.
    pub fn toggle_sqs(&mut self, from: Square, to: Square, piece: Piece, side: Side)
        requires
            sq_ok(from),
            sq_ok(to),
        ensures
            *final(self) == old(self).spec_toggle(from, piece, side).spec_toggle(to, piece, side),
    {
        self.toggle_sq(from, piece, side);
        self.toggle_sq(to, piece, side);
    }

    /// The all-empty position: no pieces, white to move, no rights, no
    /// en-passant target, all counters and hashes zero.
    pub fn empty() -> (r: Board)
        ensures
            r.pawn_bb == 0 && r.knight_bb == 0 && r.bishop_bb == 0 && r.rook_bb == 0
                && r.queen_bb == 0 && r.king_bb == 0 && r.white_bb == 0 && r.black_bb == 0,
            r.mailbox@ =~= Seq::new(64, |i: int| None::<Piece>),
            r.stm == Side::White,
            r.hm == 0 && r.fm == 0,
            r.ep_sq is None,
            r.castle == 0,
            r.hash == 0 && r.pawn_hash == 0 && r.non_pawn_hash_w == 0 && r.non_pawn_hash_b == 0
                && r.major_hash == 0 && r.minor_hash == 0,
            r.geo_ok(),
            r.hashes_ok(),
            r.ep_ok(),
            r.castle_ok(),
    {
        let r = Board {
            pawn_bb: 0,
            knight_bb: 0,
            bishop_bb: 0,
            rook_bb: 0,
            queen_bb: 0,
            king_bb: 0,
            white_bb: 0,
            black_bb: 0,
            mailbox: vstd::array::array_fill_for_copy_types(None),
            stm: Side::White,
            hm: 0,
            fm: 0,
            ep_sq: None,
            castle: 0,
            hash: 0,
            pawn_hash: 0,
            non_pawn_hash_w: 0,
            non_pawn_hash_b: 0,
            major_hash: 0,
            minor_hash: 0,
        };
        proof {
            assert forall|sq: u64, p: Piece| sq < 64 implies !(#[trigger] bit(
                r.spec_piece_bb(p),
                sq,
            )) by {
                assert(0u64 & (1u64 << sq) == 0) by (bit_vector);
            }
            assert forall|sq: u64| sq < 64 implies !bit(r.spec_occ(), sq) && !bit(
                r.black_bb,
                sq,
            ) by {
                assert((0u64 | 0u64) & (1u64 << sq) == 0) by (bit_vector);
                lemma_bit_zero(sq);
            }
            lemma_no_rights();
            lemma_xor_zero(0u64);
            lemma_chan_fold_zero(r, Chan::Full, 64);
            lemma_chan_fold_zero(r, Chan::Pawns, 64);
            lemma_chan_fold_zero(r, Chan::NonPawn(Side::White), 64);
            lemma_chan_fold_zero(r, Chan::NonPawn(Side::Black), 64);
            lemma_chan_fold_zero(r, Chan::Majors, 64);
            lemma_chan_fold_zero(r, Chan::Minors, 64);
        }
        r
    }
}

impl Board {
    /// A toggle is clean when the square is either fully empty (the toggle
    /// places the piece) or holds exactly the named piece and side (the
    /// toggle removes it).
    pub open spec fn can_toggle(self, sq: Square, pc: Piece, side: Side) -> bool {
        let s = sq.0 as u64;
        ||| (self.piece_on(s) is None && !bit(self.white_bb, s) && !bit(self.black_bb, s))
        ||| (self.piece_on(s) == Some(pc) && bit(self.spec_side_bb(side), s))
    }
}

/// If two boards assign the same channel key to every square except `s`, the
/// channel folds differ exactly by the two keys of `s` (once `s` is folded
/// in).
proof fn lemma_chan_fold_frame(b1: Board, b2: Board, ch: Chan, s: u64, n: int)
    requires
        s < 64,
        forall|q: u64| q < 64 && q != s ==> b1.chan_sq_key(ch, q) == b2.chan_sq_key(ch, q),
        0 <= n <= 64,
    ensures
        b2.chan_fold(ch, n) == if s < n {
            (b1.chan_fold(ch, n) ^ b1.chan_sq_key(ch, s)) ^ b2.chan_sq_key(ch, s)
        } else {
            b1.chan_fold(ch, n)
        },
    decreases n,
{
    if n > 0 {
        lemma_chan_fold_frame(b1, b2, ch, s, n - 1);
        let q = (n - 1) as u64;
        let f1 = b1.chan_fold(ch, n - 1);
        let k1 = b1.chan_sq_key(ch, s);
        let k2 = b2.chan_sq_key(ch, s);
        if q == s {
            assert(b2.chan_fold(ch, n) == f1 ^ k2);
            assert(b1.chan_fold(ch, n) == f1 ^ k1);
            lemma_xor_cancel(f1, k1);
        } else if s < n - 1 {
            let c = b1.chan_sq_key(ch, q);
            assert(b2.chan_fold(ch, n) == ((f1 ^ k1) ^ k2) ^ c);
            assert(b1.chan_fold(ch, n) == f1 ^ c);
            lemma_xor_rotate(f1 ^ k1, k2, c);
            lemma_xor_rotate(f1, k1, c);
        }
    }
}

/// Two boards with the same piece placement agree on the material folds, the
/// representation agreement, the king positions, and every per-square fact.
pub proof fn lemma_same_placement(b1: Board, b2: Board)
    requires
        b1.mailbox == b2.mailbox,
        b1.pawn_bb == b2.pawn_bb,
        b1.knight_bb == b2.knight_bb,
        b1.bishop_bb == b2.bishop_bb,
        b1.rook_bb == b2.rook_bb,
        b1.queen_bb == b2.queen_bb,
        b1.king_bb == b2.king_bb,
        b1.white_bb == b2.white_bb,
        b1.black_bb == b2.black_bb,
    ensures
        forall|ch: Chan| #[trigger] b2.mat_hash(ch) == b1.mat_hash(ch),
        forall|q: u64| q < 64 ==> #[trigger] b2.piece_on(q) == b1.piece_on(q),
        forall|p: Piece, q: u64|
            q < 64 ==> #[trigger] bit(b2.spec_piece_bb(p), q) == bit(b1.spec_piece_bb(p), q),
        forall|s: Side, q: u64|
            q < 64 ==> #[trigger] bit(b2.spec_side_bb(s), q) == bit(b1.spec_side_bb(s), q),
        b1.geo_ok() ==> b2.geo_ok(),
        forall|s: Side, k: u64| #[trigger] b2.is_king_sq(s, k) == b1.is_king_sq(s, k),
        forall|s: Side| #[trigger] b1.side_king_ok(s) ==> b2.side_king_ok(s),
{
    assert forall|ch: Chan| #[trigger] b2.mat_hash(ch) == b1.mat_hash(ch) by {
        assert(forall|q: u64| q < 64 && q != 0 ==> b1.chan_sq_key(ch, q) == b2.chan_sq_key(ch, q));
        lemma_chan_fold_frame(b1, b2, ch, 0, 64);
        assert(b1.chan_sq_key(ch, 0) == b2.chan_sq_key(ch, 0));
        lemma_xor_cancel(b1.chan_fold(ch, 64), b1.chan_sq_key(ch, 0));
    }
    if b1.geo_ok() {
        assert forall|sq: u64, p: Piece|
            sq < 64 implies (#[trigger] bit(b2.spec_piece_bb(p), sq) <==> b2.piece_on(sq) == Some(
            p,
        )) by {
            assert(bit(b1.spec_piece_bb(p), sq) <==> b1.piece_on(sq) == Some(p));
        }
        assert forall|sq: u64|
            sq < 64 implies ((#[trigger] b2.piece_on(sq)) is Some <==> bit(
            b2.spec_occ(),
            sq,
        )) by {
            assert(b1.piece_on(sq) is Some <==> bit(b1.spec_occ(), sq));
        }
        assert forall|sq: u64| sq < 64 && #[trigger] bit(b2.white_bb, sq) implies !bit(
            b2.black_bb,
            sq,
        ) by {
            assert(bit(b1.white_bb, sq));
        }
    }
    assert forall|s: Side| #[trigger] b1.side_king_ok(s) implies b2.side_king_ok(s) by {
        let k = choose|k: u64| b1.is_king_sq(s, k);
        assert(b2.is_king_sq(s, k));
        assert forall|a: u64, c: u64| b2.is_king_sq(s, a) && b2.is_king_sq(s, c) implies a == c by {
            assert(b1.is_king_sq(s, a));
            assert(b1.is_king_sq(s, c));
        }
    }
}

impl Board {
    /// What one clean toggle does: representation agreement and hash
    /// integrity are preserved, the toggled square flips between empty and
    /// holding exactly the named piece, and nothing else changes.
    pub proof fn lemma_toggle_keeps(self, sq: Square, pc: Piece, side: Side)
        requires
            sq_ok(sq),
            self.geo_ok(),
            self.can_toggle(sq, pc, side),
        ensures
            ({
                let b2 = self.spec_toggle(sq, pc, side);
                let s = sq.0 as u64;
                &&& b2.geo_ok()
                &&& (self.hashes_ok() ==> b2.hashes_ok())
                &&& (forall|q: u64| q < 64 && q != s ==> b2.piece_on(q) == self.piece_on(q))
                &&& (forall|q: u64|
                    q < 64 && q != s ==> bit(b2.white_bb, q) == bit(self.white_bb, q) && bit(
                        b2.black_bb,
                        q,
                    ) == bit(self.black_bb, q))
                &&& (self.piece_on(s) is None ==> b2.piece_on(s) == Some(pc) && bit(
                    b2.spec_side_bb(side),
                    s,
                ) && !bit(b2.spec_side_bb(side.spec_flip()), s))
                &&& (self.piece_on(s) == Some(pc) ==> b2.piece_on(s) is None && !bit(
                    b2.white_bb,
                    s,
                ) && !bit(b2.black_bb, s))
            }),
    {
        let b2 = self.spec_toggle(sq, pc, side);
        let s = sq.0 as u64;
        let m = 1u64 << sq.0;
        let k = spec_sq_key(pc, side, s);
        let placing = self.piece_on(s) is None;

        // Bit-level effect on every bitboard field.
        assert forall|q: u64, p: Piece| q < 64 implies #[trigger] bit(b2.spec_piece_bb(p), q) == (
        if q == s && p == pc {
            !bit(self.spec_piece_bb(p), q)
        } else {
            bit(self.spec_piece_bb(p), q)
        }) by {
            if p == pc {
                lemma_bit_flip(self.spec_piece_bb(p), s, q);
            }
        }
        assert forall|q: u64| q < 64 implies #[trigger] bit(b2.white_bb, q) == (if q == s && side
            == Side::White {
            !bit(self.white_bb, q)
        } else {
            bit(self.white_bb, q)
        }) && #[trigger] bit(b2.black_bb, q) == (if q == s && side == Side::Black {
            !bit(self.black_bb, q)
        } else {
            bit(self.black_bb, q)
        }) by {
            if side == Side::White {
                lemma_bit_flip(self.white_bb, s, q);
            } else {
                lemma_bit_flip(self.black_bb, s, q);
            }
        }
        assert forall|q: u64| q < 64 implies #[trigger] bit(b2.spec_occ(), q) == (bit(
            b2.white_bb,
            q,
        ) || bit(b2.black_bb, q)) && bit(self.spec_occ(), q) == (bit(self.white_bb, q) || bit(
            self.black_bb,
            q,
        )) by {
            lemma_bit_or_and(b2.white_bb, b2.black_bb, q);
            lemma_bit_or_and(self.white_bb, self.black_bb, q);
        }
        assert(b2.mailbox@ == self.mailbox@.update(sq.0 as int, b2.mailbox@[sq.0 as int]));
        assert(forall|q: u64|
            q < 64 && q != s ==> b2.piece_on(q) == self.piece_on(q));
        assert(forall|sq2: u64, p: Piece|
            sq2 < 64 ==> (#[trigger] bit(b2.spec_piece_bb(p), sq2) <==> b2.piece_on(sq2) == Some(
                p,
            )));
        assert(forall|sq2: u64|
            sq2 < 64 ==> ((#[trigger] b2.piece_on(sq2)) is Some <==> bit(b2.spec_occ(), sq2)));
        assert(forall|sq2: u64|
            sq2 < 64 && #[trigger] bit(b2.white_bb, sq2) ==> !bit(b2.black_bb, sq2));
        assert(b2.geo_ok());

        // Hash channels.
        if self.hashes_ok() {
            assert forall|ch: Chan| true implies #[trigger] b2.mat_hash(ch) == (
            if chan_includes(ch, pc, side) {
                self.mat_hash(ch) ^ k
            } else {
                self.mat_hash(ch)
            }) by {
                assert forall|q: u64| q < 64 && q != s implies self.chan_sq_key(ch, q)
                    == b2.chan_sq_key(ch, q) by {
                    assert(b2.piece_on(q) == self.piece_on(q));
                    assert(bit(b2.white_bb, q) == bit(self.white_bb, q));
                }
                lemma_chan_fold_frame(self, b2, ch, s, 64);
                if placing {
                    assert(self.chan_sq_key(ch, s) == 0);
                    assert(b2.side_on(s) == side);
                    assert(b2.piece_on(s) == Some(pc));
                    assert(b2.chan_sq_key(ch, s) == (if chan_includes(ch, pc, side) {
                        k
                    } else {
                        0
                    }));
                    lemma_xor_zero(self.mat_hash(ch));
                    if !chan_includes(ch, pc, side) {
                        lemma_xor_zero(self.mat_hash(ch) ^ 0);
                    }
                } else {
                    assert(self.side_on(s) == side);
                    assert(self.chan_sq_key(ch, s) == (if chan_includes(ch, pc, side) {
                        k
                    } else {
                        0
                    }));
                    assert(b2.chan_sq_key(ch, s) == 0);
                    lemma_xor_zero(self.mat_hash(ch) ^ self.chan_sq_key(ch, s));
                    if !chan_includes(ch, pc, side) {
                        lemma_xor_zero(self.mat_hash(ch));
                    }
                }
            }
            lemma_xor_head(
                self.mat_hash(Chan::Full),
                spec_castle_key(self.castle),
                self.ep_hash_key(),
                self.stm_hash_key(),
                k,
            );
            assert(b2.hashes_ok());
        }
    }

    /// The toggling primitive is self-inverse: toggling the same piece, side
    /// and square twice restores the board exactly.  (The mailbox flips
    /// between empty and the named piece, so the law asks that the square did
    /// not hold some other piece.)
    pub proof fn lemma_toggle_self_inverse(self, sq: Square, pc: Piece, side: Side)
        requires
            sq_ok(sq),
            self.piece_on(sq.0 as u64) is None || self.piece_on(sq.0 as u64) == Some(pc),
        ensures
            self.spec_toggle(sq, pc, side).spec_toggle(sq, pc, side) == self,
    {
        let b1 = self.spec_toggle(sq, pc, side);
        let b2 = b1.spec_toggle(sq, pc, side);
        let m = 1u64 << sq.0;
        let k = spec_sq_key(pc, side, sq.0 as u64);
        lemma_xor_cancel(self.pawn_bb, m);
        lemma_xor_cancel(self.knight_bb, m);
        lemma_xor_cancel(self.bishop_bb, m);
        lemma_xor_cancel(self.rook_bb, m);
        lemma_xor_cancel(self.queen_bb, m);
        lemma_xor_cancel(self.king_bb, m);
        lemma_xor_cancel(self.white_bb, m);
        lemma_xor_cancel(self.black_bb, m);
        lemma_xor_cancel(self.hash, k);
        lemma_xor_cancel(self.pawn_hash, k);
        lemma_xor_cancel(self.non_pawn_hash_w, k);
        lemma_xor_cancel(self.non_pawn_hash_b, k);
        lemma_xor_cancel(self.major_hash, k);
        lemma_xor_cancel(self.minor_hash, k);
        assert(b2.mailbox@ =~= self.mailbox@);
        assert(b2 =~= self);
    }
}

impl Board {
    /// Whether `side` still holds its kingside castling right.
    pub fn has_kingside_rights(&self, side: Side) -> (r: bool)
        ensures
            r == (if side == Side::White {
                spec_has_wks(self.castle)
            } else {
                spec_has_bks(self.castle)
            }),
    {
        if side == Side::White {
            self.castle & 0x1 != 0
        } else {
            self.castle & 0x4 != 0
        }
    }

    /// Whether `side` still holds its queenside castling right.
    pub fn has_queenside_rights(&self, side: Side) -> (r: bool)
        ensures
            r == (if side == Side::White {
                spec_has_wqs(self.castle)
            } else {
                spec_has_bqs(self.castle)
            }),
    {
        if side == Side::White {
            self.castle & 0x2 != 0
        } else {
            self.castle & 0x8 != 0
        }
    }

    /// Bitboard of the pawns of `side`.
    pub fn pawns(&self, side: Side) -> (r: u64)
        ensures
            r == self.pawn_bb & self.spec_side_bb(side),
    {
        self.pawn_bb & self.side(side)
    }

    /// Bitboard of the knights of `side`.
    pub fn knights(&self, side: Side) -> (r: u64)
        ensures
            r == self.knight_bb & self.spec_side_bb(side),
    {
        self.knight_bb & self.side(side)
    }

    /// Bitboard of the bishops of `side`.
    pub fn bishops(&self, side: Side) -> (r: u64)
        ensures
            r == self.bishop_bb & self.spec_side_bb(side),
    {
        self.bishop_bb & self.side(side)
    }

    /// Bitboard of the rooks of `side`.
    pub fn rooks(&self, side: Side) -> (r: u64)
        ensures
            r == self.rook_bb & self.spec_side_bb(side),
    {
        self.rook_bb & self.side(side)
    }

    /// Bitboard of the queens of `side`.
    pub fn queens(&self, side: Side) -> (r: u64)
        ensures
            r == self.queen_bb & self.spec_side_bb(side),
    {
        self.queen_bb & self.side(side)
    }

    /// Bitboard of the king of `side`.
    pub fn king(&self, side: Side) -> (r: u64)
        ensures
            r == self.king_bb & self.spec_side_bb(side),
    {
        self.king_bb & self.side(side)
    }

    /// The square of the king of `side`.
    pub fn king_sq(&self, side: Side) -> (r: Square)
        requires
            self.side_king_ok(side),
        ensures
            self.is_king_sq(side, r.0 as u64),
    {
        let mut q: u8 = 0;
        while q < 64
            invariant
                q <= 64,
                self.side_king_ok(side),
                forall|j: u64| j < q ==> !self.is_king_sq(side, j),
            decreases 64 - q,
        {
            let held = match self.mailbox[q as usize] {
                Some(p) => p == Piece::King,
                None => false,
            };
            if held && (self.side(side) & (1u64 << q)) != 0 {
                return Square(q);
            }
            q = q + 1;
        }
        proof {
            let k = choose|k: u64| self.is_king_sq(side, k);
            assert(!self.is_king_sq(side, k));
            assert(false);
        }
        Square(0)
    }

    /// Bitboard of all occupied squares.
    pub fn occ(&self) -> (r: u64)
        ensures
            r == self.spec_occ(),
    {
        self.white_bb | self.black_bb
    }

    /// Bitboard of all pieces of the given type, both sides.
    pub fn pcs(&self, piece: Piece) -> (r: u64)
        ensures
            r == self.spec_piece_bb(piece),
    {
        match piece {
            Piece::Pawn => self.pawn_bb,
            Piece::Knight => self.knight_bb,
            Piece::Bishop => self.bishop_bb,
            Piece::Rook => self.rook_bb,
            Piece::Queen => self.queen_bb,
            Piece::King => self.king_bb,
        }
    }

    /// Bitboard of all pieces of `side`.
    pub fn side(&self, side: Side) -> (r: u64)
        ensures
            r == self.spec_side_bb(side),
    {
        match side {
            Side::White => self.white_bb,
            Side::Black => self.black_bb,
        }
    }

    /// Bitboard of all white pieces.
    pub fn white(&self) -> (r: u64)
        ensures
            r == self.white_bb,
    {
        self.white_bb
    }

    /// Bitboard of all black pieces.
    pub fn black(&self) -> (r: u64)
        ensures
            r == self.black_bb,
    {
        self.black_bb
    }

    /// Bitboard of the side to move.
    pub fn us(&self) -> (r: u64)
        ensures
            r == self.spec_side_bb(self.stm),
    {
        self.side(self.stm)
    }

    /// Bitboard of the side not to move.
    pub fn them(&self) -> (r: u64)
        ensures
            r == self.spec_side_bb(self.stm.spec_flip()),
    {
        self.side(self.stm.flip())
    }

    /// Bitboard of the side to move's pieces of the given type.
    pub fn our(&self, piece: Piece) -> (r: u64)
        ensures
            r == self.spec_piece_bb(piece) & self.spec_side_bb(self.stm),
    {
        self.pcs(piece) & self.us()
    }

    /// Bitboard of the opponent's pieces of the given type.
    pub fn their(&self, piece: Piece) -> (r: u64)
        ensures
            r == self.spec_piece_bb(piece) & self.spec_side_bb(self.stm.spec_flip()),
    {
        self.pcs(piece) & self.them()
    }

    /// The piece standing on `sq`, if any.
    pub fn piece_at(&self, sq: Square) -> (r: Option<Piece>)
        requires
            sq_ok(sq),
        ensures
            r == self.piece_on(sq.0 as u64),
    {
        self.mailbox[sq.0 as usize]
    }

    /// The side owning the piece on `sq`, if any.
    pub fn side_at(&self, sq: Square) -> (r: Option<Side>)
        requires
            sq_ok(sq),
        ensures
            r == (if bit(self.white_bb, sq.0 as u64) {
                Some(Side::White)
            } else if bit(self.black_bb, sq.0 as u64) {
                Some(Side::Black)
            } else {
                None::<Side>
            }),
    {
        if self.white_bb & (1u64 << sq.0) != 0 {
            Some(Side::White)
        } else if self.black_bb & (1u64 << sq.0) != 0 {
            Some(Side::Black)
        } else {
            None
        }
    }

    /// The piece a move would capture: none for castling, a pawn for en
    /// passant, else whatever stands on the destination.
    pub open spec fn spec_captured(self, m: Move) -> Option<Piece> {
        if m.spec_is_castle() {
            None
        } else if m.spec_is_ep() {
            Some(Piece::Pawn)
        } else {
            self.piece_on(m.to.0 as u64)
        }
    }

    /// The piece the move `mv` would capture, if any.
    pub fn captured(&self, mv: &Move) -> (r: Option<Piece>)
        requires
            sq_ok(mv.to),
        ensures
            r == self.spec_captured(*mv),
    {
        if mv.is_castle() {
            return None;
        }
        if mv.is_ep() {
            return Some(Piece::Pawn);
        }
        self.piece_at(mv.to())
    }

    /// A noisy move is a promotion or a capture.
    pub fn is_noisy(&self, mv: &Move) -> (r: bool)
        requires
            sq_ok(mv.to),
        ensures
            r == (mv.spec_is_promo() || self.spec_captured(*mv) is Some),
    {
        mv.is_promo() || self.captured(mv).is_some()
    }

    /// Whether the side to move has any piece besides its king and pawns.
    pub fn has_non_pawns(&self) -> (r: bool)
        ensures
            r == ((self.king_bb & self.spec_side_bb(self.stm)) | (self.pawn_bb
                & self.spec_side_bb(self.stm)) != self.spec_side_bb(self.stm)),
    {
        self.our(Piece::King) | self.our(Piece::Pawn) != self.us()
    }

    /// The fifty-move rule: one hundred half moves without a capture or pawn
    /// move.
    pub fn is_fifty_move_rule(&self) -> (r: bool)
        ensures
            r == (self.hm >= 100),
    {
        self.hm >= 100
    }
}

/// Number of set bits among the lowest `n` bits of `bb`.
pub open spec fn spec_popcnt(bb: u64, n: int) -> int
    decreases n,
{
    if n <= 0 {
        0
    } else {
        spec_popcnt(bb, n - 1) + if bit(bb, (n - 1) as u64) {
            1int
        } else {
            0int
        }
    }
}

/// Counts the set bits of a bitboard.
pub fn popcount(bb: u64) -> (r: u32)
    ensures
        r == spec_popcnt(bb, 64),
{
    let mut q: u64 = 0;
    let mut r: u32 = 0;
    while q < 64
        invariant
            q <= 64,
            r == spec_popcnt(bb, q as int),
            r <= q,
        decreases 64 - q,
    {
        if bb & (1u64 << q) != 0 {
            r = r + 1;
        }
        q = q + 1;
    }
    r
}

impl Board {
    /// What the insufficient-material test reports: any pawn, rook or queen
    /// means sufficient; at most one minor piece is insufficient; a side with
    /// a pair of bishops (white with no knights around, black in any case)
    /// is sufficient; otherwise at most three minor pieces is insufficient.
    pub open spec fn spec_insufficient_material(self) -> bool {
        if self.pawn_bb | self.rook_bb | self.queen_bb != 0 {
            false
        } else {
            let minors = self.knight_bb | self.bishop_bb;
            let cnt = spec_popcnt(minors, 64);
            if cnt <= 1 {
                true
            } else if (self.knight_bb == 0 && self.bishop_bb != 0 && spec_popcnt(
                self.bishop_bb & self.white_bb,
                64,
            ) == 2) || spec_popcnt(self.bishop_bb & self.black_bb, 64) == 2 {
                false
            } else {
                cnt <= 3
            }
        }
    }

    /// Whether the remaining material cannot force mate.
    pub fn is_insufficient_material(&self) -> (r: bool)
        ensures
            r == self.spec_insufficient_material(),
    {
        let pawns = self.pawn_bb;
        let knights = self.knight_bb;
        let bishops = self.bishop_bb;
        let rooks = self.rook_bb;
        let queens = self.queen_bb;

        if (pawns | rooks | queens) != 0 {
            return false;
        }

        let minor_pieces = knights | bishops;
        let piece_count = popcount(minor_pieces);
        if piece_count <= 1 {
            return true;
        }

        if knights == 0 && bishops != 0 && popcount(bishops & self.white_bb) == 2 || popcount(
            bishops & self.black_bb,
        ) == 2 {
            return false;
        }
        piece_count <= 3
    }

    /// The board after a null move: the turn passes, the half-move clock
    /// resets, any en-passant target is cleared, and the hash follows.
    pub open spec fn spec_null_move(self) -> Board {
        Board {
            hm: 0,
            stm: self.stm.spec_flip(),
            ep_sq: None,
            hash: (self.hash ^ spec_stm_key()) ^ self.ep_hash_key(),
            ..self
        }
    }

    /// Passes the turn without moving: resets the half-move clock, flips the
    /// side to move, and clears the en-passant target, adjusting the full
    /// hash for both.  Piece placement and castling rights are untouched.
    pub fn make_null_move(&mut self)
        ensures
            *final(self) == old(self).spec_null_move(),
            old(self).inv() ==> final(self).inv(),
    {
        self.hm = 0;
        self.stm = self.stm.flip();
        self.hash = self.hash ^ stm_key();
        match self.ep_sq {
            Some(t) => {
                self.hash = self.hash ^ ep_key(t);
                self.ep_sq = None;
            },
            None => {
                proof {
                    lemma_xor_zero(self.hash);
                }
            },
        }
        proof {
            assert(*self =~= old(self).spec_null_move());
            let b = *old(self);
            let f = *self;
            if b.inv() {
                lemma_same_placement(b, f);
                lemma_null_hash_shuffle(
                    b.mat_hash(Chan::Full),
                    spec_castle_key(b.castle),
                    b.ep_hash_key(),
                    b.stm_hash_key(),
                    spec_stm_key(),
                );
                assert(f.stm_hash_key() == b.stm_hash_key() ^ spec_stm_key()) by {
                    if b.stm == Side::White {
                        lemma_xor_zero_left(spec_stm_key());
                    } else {
                        lemma_xor_cancel(0, spec_stm_key());
                        lemma_xor_zero_left(spec_stm_key());
                        assert(spec_stm_key() ^ spec_stm_key() == 0) by (bit_vector);
                    }
                }
                lemma_xor_zero(f.mat_hash(Chan::Full) ^ spec_castle_key(f.castle));
                assert(f.hashes_ok());
                assert(f.inv());
            }
        }
    }
}

/// Rearranging the full-hash combination when the side-to-move key is folded
/// in and the en-passant key is removed.
proof fn lemma_null_hash_shuffle(f: u64, c: u64, e: u64, s: u64, k: u64)
    by (bit_vector)
    ensures
        ((((((f ^ c) ^ e) ^ s) ^ k) ^ e) == (((f ^ c) ^ 0) ^ (s ^ k))),
{
}

/// XOR with zero on the left is the identity.
pub proof fn lemma_xor_zero_left(x: u64)
    by (bit_vector)
    ensures
        0u64 ^ x == x,
{
}

/// The four castling rights and the useful unions of them, as named values
/// for the bits of the rights mask.
#[derive(Clone, Copy, Debug, PartialEq, Eq, Structural)]
pub enum Rights {
    NoRights,
    WKS,
    WQS,
    BKS,
    BQS,
    White,
    Black,
}

impl Rights {
    /// The bit mask of this right (or union of rights).
    pub open spec fn spec_mask(self) -> u8 {
        match self {
            Rights::NoRights => 0x0,
            Rights::WKS => 0x1,
            Rights::WQS => 0x2,
            Rights::BKS => 0x4,
            Rights::BQS => 0x8,
            Rights::White => 0x3,
            Rights::Black => 0xC,
        }
    }

    /// The bit mask of this right (or union of rights).
    pub fn mask(self) -> (r: u8)
        ensures
            r == self.spec_mask(),
    {
        match self {
            Rights::NoRights => 0x0,
            Rights::WKS => 0x1,
            Rights::WQS => 0x2,
            Rights::BKS => 0x4,
            Rights::BQS => 0x8,
            Rights::White => 0x3,
            Rights::Black => 0xC,
        }
    }
}

/// The en-passant capture square for a push by `side` landing on `to`: one
/// rank behind the destination from the pusher's point of view.
pub open spec fn spec_ep_capture_sq(side: Side, to: Square) -> Square {
    if side == Side::White {
        Square((to.0 - 8) as u8)
    } else {
        Square((to.0 + 8) as u8)
    }
}

/// The rook origin matching a castling king destination.
pub open spec fn spec_rook_from(king_to: Square) -> Square {
    if king_to.0 == 2 {
        Square(0)
    } else if king_to.0 == 6 {
        Square(7)
    } else if king_to.0 == 58 {
        Square(56)
    } else {
        Square(63)
    }
}

/// The rook destination matching a castling king destination.
pub open spec fn spec_rook_to(king_to: Square) -> Square {
    if king_to.0 == 2 {
        Square(3)
    } else if king_to.0 == 6 {
        Square(5)
    } else if king_to.0 == 58 {
        Square(59)
    } else {
        Square(61)
    }
}

/// The castling-rights mask after a move: unchanged when empty, cleared for a
/// side when its king moves, and cleared corner by corner when a move starts
/// or ends on that corner's rook home square.
pub open spec fn spec_calc_rights(c: u8, from: Square, to: Square, pc: Piece, side: Side) -> u8 {
    if c == 0 {
        0
    } else {
        let c1 = if pc == Piece::King {
            if side == Side::White {
                c & 0xC
            } else {
                c & 0x3
            }
        } else {
            c
        };
        let c2 = if from.0 == 7 || to.0 == 7 {
            c1 & 0xE
        } else {
            c1
        };
        let c3 = if from.0 == 63 || to.0 == 63 {
            c2 & 0xB
        } else {
            c2
        };
        let c4 = if from.0 == 0 || to.0 == 0 {
            c3 & 0xD
        } else {
            c3
        };
        if from.0 == 56 || to.0 == 56 {
            c4 & 0x7
        } else {
            c4
        }
    }
}

/// How the four right bits behave under the clearing masks used by
/// `spec_calc_rights`.
proof fn lemma_u8_mask_bits(x: u8)
    by (bit_vector)
    ensures
        !spec_has_wks(x & 0xE),
        spec_has_wqs(x & 0xE) == spec_has_wqs(x),
        spec_has_bks(x & 0xE) == spec_has_bks(x),
        spec_has_bqs(x & 0xE) == spec_has_bqs(x),
        !spec_has_wqs(x & 0xD),
        spec_has_wks(x & 0xD) == spec_has_wks(x),
        spec_has_bks(x & 0xD) == spec_has_bks(x),
        spec_has_bqs(x & 0xD) == spec_has_bqs(x),
        !spec_has_bks(x & 0xB),
        spec_has_wks(x & 0xB) == spec_has_wks(x),
        spec_has_wqs(x & 0xB) == spec_has_wqs(x),
        spec_has_bqs(x & 0xB) == spec_has_bqs(x),
        !spec_has_bqs(x & 0x7),
        spec_has_wks(x & 0x7) == spec_has_wks(x),
        spec_has_wqs(x & 0x7) == spec_has_wqs(x),
        spec_has_bks(x & 0x7) == spec_has_bks(x),
        !spec_has_wks(x & 0xC) && !spec_has_wqs(x & 0xC),
        spec_has_bks(x & 0xC) == spec_has_bks(x),
        spec_has_bqs(x & 0xC) == spec_has_bqs(x),
        !spec_has_bks(x & 0x3) && !spec_has_bqs(x & 0x3),
        spec_has_wks(x & 0x3) == spec_has_wks(x),
        spec_has_wqs(x & 0x3) == spec_has_wqs(x),
        x & 0xE <= x && x & 0xD <= x && x & 0xB <= x && x & 0x7 <= x && x & 0xC <= x && x & 0x3
            <= x,
        (x & 0xE) & x == (x & 0xE),
        (x & 0xD) & x == (x & 0xD),
        (x & 0xB) & x == (x & 0xB),
        (x & 0x7) & x == (x & 0x7),
        (x & 0xC) & x == (x & 0xC),
        (x & 0x3) & x == (x & 0x3),
        x & x == x,
{
}

/// Masking twice keeps a subset relation to the original mask.
proof fn lemma_u8_subset_chain(x: u8, c: u8, msk: u8)
    by (bit_vector)
    requires
        x & c == x,
    ensures
        (x & msk) & c == (x & msk),
        x & msk <= x,
{
}

/// What `spec_calc_rights` guarantees: the new mask is a subset of the old
/// one (rights never return), stays below 16, and any surviving right
/// certifies that the move did not touch that corner or move that king.
proof fn lemma_calc_rights_props(c: u8, from: Square, to: Square, pc: Piece, side: Side)
    ensures
        ({
            let n = spec_calc_rights(c, from, to, pc, side);
            &&& n & c == n
            &&& n <= c
            &&& (c < 16 ==> n < 16)
            &&& (spec_has_wks(n) ==> spec_has_wks(c) && from.0 != 7 && to.0 != 7 && !(pc
                == Piece::King && side == Side::White))
            &&& (spec_has_wqs(n) ==> spec_has_wqs(c) && from.0 != 0 && to.0 != 0 && !(pc
                == Piece::King && side == Side::White))
            &&& (spec_has_bks(n) ==> spec_has_bks(c) && from.0 != 63 && to.0 != 63 && !(pc
                == Piece::King && side == Side::Black))
            &&& (spec_has_bqs(n) ==> spec_has_bqs(c) && from.0 != 56 && to.0 != 56 && !(pc
                == Piece::King && side == Side::Black))
        }),
{
    let n = spec_calc_rights(c, from, to, pc, side);
    if c == 0 {
        lemma_no_rights();
        assert(0u8 & c == 0u8 && 0u8 <= c) by (bit_vector);
    } else {
        let c1 = if pc == Piece::King {
            if side == Side::White {
                c & 0xC
            } else {
                c & 0x3
            }
        } else {
            c
        };
        let c2 = if from.0 == 7 || to.0 == 7 {
            c1 & 0xE
        } else {
            c1
        };
        let c3 = if from.0 == 63 || to.0 == 63 {
            c2 & 0xB
        } else {
            c2
        };
        let c4 = if from.0 == 0 || to.0 == 0 {
            c3 & 0xD
        } else {
            c3
        };
        lemma_u8_mask_bits(c);
        lemma_u8_mask_bits(c1);
        lemma_u8_mask_bits(c2);
        lemma_u8_mask_bits(c3);
        lemma_u8_mask_bits(c4);
        lemma_u8_subset_chain(c1, c, 0xE);
        lemma_u8_subset_chain(c2, c, 0xB);
        lemma_u8_subset_chain(c3, c, 0xD);
        lemma_u8_subset_chain(c4, c, 0x7);
        assert(c < 16 ==> n < 16);
    }
}

impl Board {
    /// The structural soundness a move descriptor must have before it can be
    /// applied: real distinct squares, a piece of the side to move on the
    /// origin, no friendly piece and no king on the destination, and for the
    /// special flags the exact shape the applicator depends on (an en-passant
    /// move aims at the current target, a double push really skips one empty
    /// square from the home rank, a castle matches a held right with an empty
    /// path).  Every move accepted by pseudo-legal validation that aims its
    /// en-passant flag at the current target has this shape.
    pub open spec fn make_ok(self, m: Move) -> bool {
        let from = m.from;
        let to = m.to;
        let side = self.stm;
        let fs = from.0 as u64;
        let ts = to.0 as u64;
        &&& sq_ok(from)
        &&& sq_ok(to)
        &&& from != to
        &&& self.piece_on(fs) is Some
        &&& bit(self.spec_side_bb(side), fs)
        &&& !bit(self.spec_side_bb(side), ts)
        &&& self.spec_captured(m) != Some(Piece::King)
        &&& (m.spec_is_promo() ==> self.piece_on(fs) == Some(Piece::Pawn))
        &&& (m.flag == MoveFlag::EnPassant ==> self.piece_on(fs) == Some(Piece::Pawn)
            && self.ep_sq == Some(to))
        &&& (m.flag == MoveFlag::DoublePush ==> self.piece_on(fs) == Some(Piece::Pawn)
            && self.piece_on(ts) is None && (side == Side::White ==> 8 <= from.0 < 16 && to.0
            == from.0 + 16 && self.piece_on((from.0 + 8) as u64) is None) && (side == Side::Black
            ==> 48 <= from.0 < 56 && to.0 == from.0 - 16 && self.piece_on((from.0 - 8) as u64)
            is None))
        &&& (m.spec_is_castle() ==> self.piece_on(fs) == Some(Piece::King) && (side == Side::White
            ==> to.0 == 6 || to.0 == 2) && (side == Side::Black ==> to.0 == 62 || to.0 == 58) && (
        to.0 == 6 ==> spec_has_wks(self.castle) && self.piece_on(5) is None && self.piece_on(6)
            is None) && (to.0 == 2 ==> spec_has_wqs(self.castle) && self.piece_on(1) is None
            && self.piece_on(2) is None && self.piece_on(3) is None) && (to.0 == 62
            ==> spec_has_bks(self.castle) && self.piece_on(61) is None && self.piece_on(62)
            is None) && (to.0 == 58 ==> spec_has_bqs(self.castle) && self.piece_on(57) is None
            && self.piece_on(58) is None && self.piece_on(59) is None))
    }

    /// The board after applying the move `m`: the mover leaves its origin,
    /// any captured piece leaves its capture square, the resulting piece (the
    /// promotion piece on a promotion) lands on the destination, a castle
    /// relocates the matching rook, and the en-passant target, castling
    /// rights, counters, side to move and full hash are recomputed.
    pub open spec fn spec_make(self, m: Move) -> Board {
        let side = self.stm;
        let from = m.from;
        let to = m.to;
        let pc = match self.piece_on(from.0 as u64) {
            Some(p) => p,
            None => Piece::Pawn,
        };
        let new_pc = match m.flag.spec_promo_piece() {
            Some(p) => p,
            None => pc,
        };
        let captured = if m.flag == MoveFlag::EnPassant {
            Some(Piece::Pawn)
        } else {
            self.piece_on(to.0 as u64)
        };
        let b1 = self.spec_toggle(from, pc, side);
        let b2 = match captured {
            Some(cpc) => {
                let capsq = if m.flag == MoveFlag::EnPassant {
                    spec_ep_capture_sq(side, to)
                } else {
                    to
                };
                b1.spec_toggle(capsq, cpc, side.spec_flip())
            },
            None => b1,
        };
        let b3 = b2.spec_toggle(to, new_pc, side);
        let b4 = if m.spec_is_castle() {
            b3.spec_toggle(spec_rook_from(to), Piece::Rook, side).spec_toggle(
                spec_rook_to(to),
                Piece::Rook,
                side,
            )
        } else {
            b3
        };
        let new_ep = if m.flag == MoveFlag::DoublePush {
            Some(spec_ep_capture_sq(side, to))
        } else {
            None::<Square>
        };
        let new_castle = spec_calc_rights(self.castle, from, to, pc, side);
        let h1 = (b4.hash ^ self.ep_hash_key()) ^ (match new_ep {
            Some(t) => spec_ep_key(t.0 as u64),
            None => 0,
        });
        let h2 = h1 ^ (spec_castle_key(self.castle) ^ spec_castle_key(new_castle));
        Board {
            ep_sq: new_ep,
            castle: new_castle,
            fm: if side == Side::Black {
                if self.fm < 255 {
                    (self.fm + 1) as u8
                } else {
                    self.fm
                }
            } else {
                self.fm
            },
            hm: if captured is Some || pc == Piece::Pawn {
                0
            } else if self.hm < 255 {
                (self.hm + 1) as u8
            } else {
                self.hm
            },
            hash: h2 ^ spec_stm_key(),
            stm: side.spec_flip(),
            ..b4
        }
    }
}

/// Rearranging the full-hash combination when the en-passant, castling and
/// side-to-move keys are replaced after a move.
proof fn lemma_make_hash_shuffle(f: u64, co: u64, eo: u64, so: u64, en: u64, cn: u64, k: u64)
    by (bit_vector)
    ensures
        ((((((((f ^ co) ^ eo) ^ so) ^ eo) ^ en) ^ (co ^ cn)) ^ k) == (((f ^ cn) ^ en) ^ (so ^ k))),
{
}

/// XOR of a value with itself is zero.
pub proof fn lemma_xor_self(x: u64)
    by (bit_vector)
    ensures
        x ^ x == 0,
{
}

impl Board {
    /// The en-passant capture square behind `to` from the mover's point of
    /// view.
    fn ep_capture_sq(&self, to: Square) -> (r: Square)
        requires
            self.stm == Side::White ==> to.0 >= 8,
            self.stm == Side::Black ==> to.0 < 248,
        ensures
            r == spec_ep_capture_sq(self.stm, to),
    {
        if self.stm == Side::White {
            Square(to.0 - 8)
        } else {
            Square(to.0 + 8)
        }
    }

    /// The fixed rook relocation matching a castling king destination.
    fn rook_sqs(&self, king_to_sq: Square) -> (r: (Square, Square))
        ensures
            r.0 == spec_rook_from(king_to_sq),
            r.1 == spec_rook_to(king_to_sq),
    {
        if king_to_sq.0 == 2 {
            (Square(0), Square(3))
        } else if king_to_sq.0 == 6 {
            (Square(7), Square(5))
        } else if king_to_sq.0 == 58 {
            (Square(56), Square(59))
        } else {
            (Square(63), Square(61))
        }
    }

    /// Computes the next en-passant target and updates the full hash: the old
    /// target's key leaves, and a double push installs the skipped square
    /// with its key.
    fn calc_ep(&mut self, flag: MoveFlag, sq: Square) -> (r: Option<Square>)
        requires
            flag == MoveFlag::DoublePush && old(self).stm == Side::White ==> sq.0 >= 8,
            flag == MoveFlag::DoublePush && old(self).stm == Side::Black ==> sq.0 < 248,
        ensures
            r == (if flag == MoveFlag::DoublePush {
                Some(spec_ep_capture_sq(old(self).stm, sq))
            } else {
                None::<Square>
            }),
            final(self).hash == (old(self).hash ^ old(self).ep_hash_key()) ^ (match r {
                Some(t) => spec_ep_key(t.0 as u64),
                None => 0,
            }),
            *final(self) == (Board { hash: final(self).hash, ..*old(self) }),
    {
        match self.ep_sq {
            Some(t) => {
                self.hash = self.hash ^ ep_key(t);
            },
            None => {
                proof {
                    lemma_xor_zero(self.hash);
                }
            },
        }
        let ep_sq = if flag == MoveFlag::DoublePush {
            Some(self.ep_capture_sq(sq))
        } else {
            None
        };
        match ep_sq {
            Some(t) => {
                self.hash = self.hash ^ ep_key(t);
            },
            None => {
                proof {
                    lemma_xor_zero(self.hash);
                }
            },
        }
        ep_sq
    }

    /// Computes the castling rights left after a move from `from` to `to` by
    /// a piece of type `piece_type`, and folds the change into the full hash.
    fn calc_castle_rights(&mut self, from: Square, to: Square, piece_type: Piece) -> (r: u8)
        ensures
            r == spec_calc_rights(old(self).castle, from, to, piece_type, old(self).stm),
            final(self).hash == old(self).hash ^ (spec_castle_key(old(self).castle)
                ^ spec_castle_key(r)),
            *final(self) == (Board { hash: final(self).hash, ..*old(self) }),
    {
        let original_rights = self.castle;
        let mut new_rights = self.castle;
        if new_rights == 0 {
            // Both sides already lost castling rights, so nothing to
            // calculate.
            proof {
                lemma_xor_zero(0u64);
                lemma_xor_zero(self.hash);
            }
            return new_rights;
        }
        // Any move by the king removes castling rights.
        if piece_type == Piece::King {
            new_rights = new_rights & (if self.stm == Side::White {
                Rights::Black.mask()
            } else {
                Rights::White.mask()
            });
        }
        // Any move starting from or ending at a rook home square removes the
        // castling rights for that corner, covering both the rook moving
        // away and the rook being captured in place.
        if from.0 == 7 || to.0 == 7 {
            new_rights = new_rights & 0xE;
        }
        if from.0 == 63 || to.0 == 63 {
            new_rights = new_rights & 0xB;
        }
        if from.0 == 0 || to.0 == 0 {
            new_rights = new_rights & 0xD;
        }
        if from.0 == 56 || to.0 == 56 {
            new_rights = new_rights & 0x7;
        }
        self.hash = self.hash ^ (castle_key(original_rights) ^ castle_key(new_rights));
        new_rights
    }

    /// Applies the move `m`.  The move must have the structural shape stated
    /// by [`Board::make_ok`]; every move that passed pseudo-legal validation
    /// against the current position and aims an en-passant flag only at the
    /// current target has it.  Preserves the
    /// well-formedness invariant — in particular every hash channel still
    /// equals its from-scratch recomputation — never re-grants a castling
    /// right, and consumes or clears the en-passant target.
    pub fn make(&mut self, m: &Move)
        requires
            old(self).inv(),
            old(self).make_ok(*m),
        ensures
            *final(self) == old(self).spec_make(*m),
            final(self).inv(),
            final(self).castle & old(self).castle == final(self).castle,
            final(self).castle <= old(self).castle,
            final(self).ep_sq == (if m.flag == MoveFlag::DoublePush {
                Some(spec_ep_capture_sq(old(self).stm, m.to))
            } else {
                None::<Square>
            }),
            old(self).ep_sq is Some ==> final(self).ep_sq != old(self).ep_sq,
            final(self).stm == old(self).stm.spec_flip(),
    {
        let side = self.stm;
        let from = m.from();
        let to = m.to();
        let flag = m.flag();
        let pc = match self.piece_at(from) {
            Some(p) => p,
            None => Piece::Pawn,
        };
        let new_pc = match m.promo_piece() {
            Some(promo) => promo,
            None => pc,
        };
        let captured = if flag == MoveFlag::EnPassant {
            Some(Piece::Pawn)
        } else {
            self.piece_at(to)
        };

        self.toggle_sq(from, pc, side);
        if let Some(captured_pc) = captured {
            let capture_sq = if flag == MoveFlag::EnPassant {
                self.ep_capture_sq(to)
            } else {
                to
            };
            self.toggle_sq(capture_sq, captured_pc, side.flip());
        }
        self.toggle_sq(to, new_pc, side);

        if m.is_castle() {
            let (rook_from, rook_to) = self.rook_sqs(to);
            self.toggle_sqs(rook_from, rook_to, Piece::Rook, side);
        }

        self.ep_sq = self.calc_ep(flag, to);
        self.castle = self.calc_castle_rights(from, to, pc);
        self.fm = if side == Side::Black {
            if self.fm < 255 {
                self.fm + 1
            } else {
                self.fm
            }
        } else {
            self.fm
        };
        self.hm = if captured.is_some() || pc == Piece::Pawn {
            0
        } else if self.hm < 255 {
            self.hm + 1
        } else {
            self.hm
        };
        self.hash = self.hash ^ stm_key();
        self.stm = self.stm.flip();
        proof {
            assert(*self =~= old(self).spec_make(*m));
            old(self).lemma_make_preserves_inv(*m);
        }
    }

    /// Applying a structurally sound move to a well-formed position yields a
    /// well-formed position whose castling rights are a subset of the old
    /// ones and whose en-passant target, if any, is freshly installed.  This
    /// is the hash-integrity statement: since well-formedness pins every
    /// hash channel to its from-scratch recomputation, the channels stay
    /// exact along any sequence of moves.
    #[verifier::rlimit(100)]
    pub proof fn lemma_make_preserves_inv(self, m: Move)
        requires
            self.inv(),
            self.make_ok(m),
        ensures
            ({
                let f = self.spec_make(m);
                &&& f.inv()
                &&& f.castle & self.castle == f.castle
                &&& f.castle <= self.castle
                &&& (self.ep_sq is Some ==> f.ep_sq != self.ep_sq)
            }),
    {
        let side = self.stm;
        let flip = side.spec_flip();
        let from = m.from;
        let to = m.to;
        let fs = from.0 as u64;
        let ts = to.0 as u64;
        let pc = match self.piece_on(fs) {
            Some(p) => p,
            None => Piece::Pawn,
        };
        let new_pc = match m.flag.spec_promo_piece() {
            Some(p) => p,
            None => pc,
        };
        let is_ep = m.flag == MoveFlag::EnPassant;
        let is_castle = m.spec_is_castle();
        let is_dp = m.flag == MoveFlag::DoublePush;
        let captured = if is_ep {
            Some(Piece::Pawn)
        } else {
            self.piece_on(ts)
        };
        let has_cap = captured is Some;
        let capsq = if is_ep {
            spec_ep_capture_sq(side, to)
        } else {
            to
        };
        let cs = capsq.0 as u64;
        let rf = spec_rook_from(to);
        let rt = spec_rook_to(to);
        let rfs = rf.0 as u64;
        let rts = rt.0 as u64;
        let f = self.spec_make(m);

        assert(self.piece_on(fs) == Some(pc));
        assert(new_pc == Piece::King ==> pc == Piece::King);

        // Occupancy bits of interest.
        lemma_bit_or_and(self.white_bb, self.black_bb, fs);
        lemma_bit_or_and(self.white_bb, self.black_bb, ts);

        // Facts about the capture square.
        if is_ep {
            assert(self.ep_sq == Some(to));
            if side == Side::White {
                assert(40 <= to.0 < 48);
                assert(cs == ts - 8);
                assert(self.piece_on(cs) == Some(Piece::Pawn) && bit(self.black_bb, cs));
            } else {
                assert(16 <= to.0 < 24);
                assert(cs == ts + 8);
                assert(self.piece_on(cs) == Some(Piece::Pawn) && bit(self.white_bb, cs));
            }
            assert(self.piece_on(ts) is None);
            assert(bit(self.spec_side_bb(flip), cs));
            assert(cs != fs);
            assert(cs != ts);
        }
        if has_cap && !is_ep {
            assert(self.piece_on(ts) == Some(captured.unwrap()));
            assert(!is_castle);
            assert(captured.unwrap() != Piece::King);
            assert(bit(self.spec_occ(), ts));
            assert(bit(self.spec_side_bb(flip), ts));
        }
        if !has_cap {
            assert(!is_ep && self.piece_on(ts) is None);
            assert(!bit(self.white_bb, ts) && !bit(self.black_bb, ts));
        }

        // Castle geometry: the king must start from its home square, and the
        // rook relocation squares are distinct from everything else touched.
        if is_castle {
            assert(pc == Piece::King);
            assert(self.piece_on(ts) is None);
            assert(!has_cap);
            assert(self.is_king_sq(side, fs));
            if side == Side::White {
                if to.0 == 6 {
                    assert(spec_has_wks(self.castle));
                } else {
                    assert(spec_has_wqs(self.castle));
                }
                assert(self.is_king_sq(side, 4));
                assert(fs == 4);
            } else {
                if to.0 == 62 {
                    assert(spec_has_bks(self.castle));
                } else {
                    assert(spec_has_bqs(self.castle));
                }
                assert(self.is_king_sq(side, 60));
                assert(fs == 60);
            }
            assert(self.piece_on(rfs) == Some(Piece::Rook) && bit(self.spec_side_bb(side), rfs));
            assert(self.piece_on(rts) is None);
            lemma_bit_or_and(self.white_bb, self.black_bb, rts);
            assert(!bit(self.white_bb, rts) && !bit(self.black_bb, rts));
            assert(rfs != fs && rfs != ts && rts != fs && rts != ts && rts != rfs);
        }

        // The toggle chain.
        let b1 = self.spec_toggle(from, pc, side);
        self.lemma_toggle_keeps(from, pc, side);
        let b2 = if has_cap {
            b1.spec_toggle(capsq, captured.unwrap(), flip)
        } else {
            b1
        };
        if has_cap {
            assert(b1.piece_on(cs) == self.piece_on(cs));
            assert(b1.can_toggle(capsq, captured.unwrap(), flip));
            b1.lemma_toggle_keeps(capsq, captured.unwrap(), flip);
        }
        let b3 = b2.spec_toggle(to, new_pc, side);
        assert(b2.piece_on(ts) is None && !bit(b2.white_bb, ts) && !bit(b2.black_bb, ts));
        b2.lemma_toggle_keeps(to, new_pc, side);
        let b4 = if is_castle {
            b3.spec_toggle(rf, Piece::Rook, side).spec_toggle(rt, Piece::Rook, side)
        } else {
            b3
        };
        if is_castle {
            assert(b3.piece_on(rfs) == Some(Piece::Rook) && bit(b3.spec_side_bb(side), rfs));
            b3.lemma_toggle_keeps(rf, Piece::Rook, side);
            let b3a = b3.spec_toggle(rf, Piece::Rook, side);
            assert(b3a.piece_on(rts) is None && !bit(b3a.white_bb, rts) && !bit(
                b3a.black_bb,
                rts,
            ));
            b3a.lemma_toggle_keeps(rt, Piece::Rook, side);
        }
        assert(b4.geo_ok());
        assert(b4.hashes_ok());
        assert(b4.castle == self.castle && b4.ep_sq == self.ep_sq && b4.stm == side);

        // The final board has the same placement as the end of the chain.
        lemma_same_placement(b4, f);
        assert(f.geo_ok());

        // Hash channels of the final board.
        let new_castle = spec_calc_rights(self.castle, from, to, pc, side);
        let ek_new = match f.ep_sq {
            Some(t) => spec_ep_key(t.0 as u64),
            None => 0,
        };
        lemma_make_hash_shuffle(
            b4.mat_hash(Chan::Full),
            spec_castle_key(self.castle),
            self.ep_hash_key(),
            self.stm_hash_key(),
            ek_new,
            spec_castle_key(new_castle),
            spec_stm_key(),
        );
        assert(f.stm_hash_key() == self.stm_hash_key() ^ spec_stm_key()) by {
            if side == Side::White {
                lemma_xor_zero_left(spec_stm_key());
            } else {
                lemma_xor_self(spec_stm_key());
            }
        }
        assert(f.hashes_ok());

        // Summary of the final piece placement.
        assert forall|q: u64|
            q < 64 && q != fs && q != ts && !(has_cap && q == cs) && !(is_castle && (q == rfs || q
                == rts)) implies f.piece_on(q) == self.piece_on(q) && bit(f.white_bb, q) == bit(
            self.white_bb,
            q,
        ) && bit(f.black_bb, q) == bit(self.black_bb, q) by {
            assert(b1.piece_on(q) == self.piece_on(q));
            assert(b2.piece_on(q) == b1.piece_on(q));
            assert(b3.piece_on(q) == b2.piece_on(q));
            assert(b4.piece_on(q) == b3.piece_on(q));
        }
        assert(f.piece_on(fs) is None && !bit(f.white_bb, fs) && !bit(f.black_bb, fs));
        assert(f.piece_on(ts) == Some(new_pc) && bit(f.spec_side_bb(side), ts) && !bit(
            f.spec_side_bb(flip),
            ts,
        ));
        if has_cap && is_ep {
            assert(f.piece_on(cs) is None && !bit(f.white_bb, cs) && !bit(f.black_bb, cs));
        }
        if is_castle {
            assert(f.piece_on(rfs) is None && !bit(f.white_bb, rfs) && !bit(f.black_bb, rfs));
            assert(f.piece_on(rts) == Some(Piece::Rook) && bit(f.spec_side_bb(side), rts) && !bit(
                f.spec_side_bb(flip),
                rts,
            ));
        }

        // One king per side.
        assert(f.side_king_ok(side)) by {
            if pc == Piece::King {
                assert(f.is_king_sq(side, ts));
                assert(self.is_king_sq(side, fs));
                assert forall|a: u64| f.is_king_sq(side, a) implies a == ts by {
                    if a != fs && a != ts && !(has_cap && a == cs) && !(is_castle && (a == rfs || a
                        == rts)) {
                        assert(self.is_king_sq(side, a));
                        assert(a == fs);
                    }
                }
            } else {
                let k0 = choose|k: u64| self.is_king_sq(side, k);
                assert(self.is_king_sq(side, k0));
                assert(k0 != fs);
                assert(k0 != ts);
                if has_cap && is_ep {
                    assert(k0 != cs);
                }
                assert(f.is_king_sq(side, k0));
                assert forall|a: u64| f.is_king_sq(side, a) implies a == k0 by {
                    if a != fs && a != ts && !(has_cap && a == cs) {
                        assert(self.is_king_sq(side, a));
                    }
                }
            }
        }
        assert(f.side_king_ok(flip)) by {
            let k1 = choose|k: u64| self.is_king_sq(flip, k);
            assert(self.is_king_sq(flip, k1));
            assert(k1 != fs);
            assert(k1 != ts);
            if has_cap && is_ep {
                assert(k1 != cs);
            }
            if is_castle {
                assert(k1 != rfs && k1 != rts);
            }
            assert(f.is_king_sq(flip, k1));
            assert forall|a: u64| f.is_king_sq(flip, a) implies a == k1 by {
                if a != fs && a != ts && !(has_cap && a == cs) && !(is_castle && (a == rfs || a
                    == rts)) {
                    assert(self.is_king_sq(flip, a));
                }
            }
        }
        assert(f.kings_ok());

        // The en-passant target of the final board.
        if is_dp {
            let t1 = spec_ep_capture_sq(side, to);
            let t1s = t1.0 as u64;
            assert(f.ep_sq == Some(t1));
            if side == Side::White {
                assert(8 <= from.0 < 16 && to.0 == from.0 + 16);
                assert(t1.0 == to.0 - 8 && t1.0 == from.0 + 8);
                assert(16 <= t1.0 < 24);
                assert(f.piece_on(t1s) == self.piece_on(t1s));
                assert(f.piece_on(t1s) is None);
                assert(f.piece_on((t1.0 + 8) as u64) == Some(Piece::Pawn));
                assert(bit(f.white_bb, (t1.0 + 8) as u64));
            } else {
                assert(48 <= from.0 < 56 && to.0 == from.0 - 16);
                assert(t1.0 == to.0 + 8 && t1.0 == from.0 - 8);
                assert(40 <= t1.0 < 48);
                assert(f.piece_on(t1s) == self.piece_on(t1s));
                assert(f.piece_on(t1s) is None);
                assert(f.piece_on((t1.0 - 8) as u64) == Some(Piece::Pawn));
                assert(bit(f.black_bb, (t1.0 - 8) as u64));
            }
            assert(f.ep_ok());
        } else {
            assert(f.ep_sq is None);
            assert(f.ep_ok());
        }

        // En-passant liveness: an old target never survives the move.
        if self.ep_sq is Some {
            let t0 = self.ep_sq.unwrap();
            if is_dp {
                let t1 = spec_ep_capture_sq(side, to);
                if side == Side::White {
                    assert(40 <= t0.0 < 48 && 16 <= t1.0 < 24);
                } else {
                    assert(16 <= t0.0 < 24 && 40 <= t1.0 < 48);
                }
                assert(t1 != t0);
            }
            assert(f.ep_sq != self.ep_sq);
        }

        // Castling rights: monotone, and surviving rights keep their king
        // and rook untouched on their home squares.
        lemma_calc_rights_props(self.castle, from, to, pc, side);
        assert(f.castle == new_castle);
        if is_ep {
            if side == Side::White {
                assert(32 <= cs < 40);
            } else {
                assert(24 <= cs < 32);
            }
        }
        if spec_has_wks(new_castle) {
            assert(fs != 4 && ts != 4 && fs != 7 && ts != 7);
            if is_castle {
                assert(side == Side::Black);
                assert(rfs != 4 && rts != 4 && rfs != 7 && rts != 7);
            }
            if has_cap && is_ep {
                assert(cs != 4 && cs != 7);
            }
            assert(f.piece_on(4) == Some(Piece::King) && bit(f.white_bb, 4));
            assert(f.piece_on(7) == Some(Piece::Rook) && bit(f.white_bb, 7));
        }
        if spec_has_wqs(new_castle) {
            assert(fs != 4 && ts != 4 && fs != 0 && ts != 0);
            if is_castle {
                assert(side == Side::Black);
                assert(rfs != 4 && rts != 4 && rfs != 0 && rts != 0);
            }
            if has_cap && is_ep {
                assert(cs != 4 && cs != 0);
            }
            assert(f.piece_on(4) == Some(Piece::King) && bit(f.white_bb, 4));
            assert(f.piece_on(0) == Some(Piece::Rook) && bit(f.white_bb, 0));
        }
        if spec_has_bks(new_castle) {
            assert(fs != 60 && ts != 60 && fs != 63 && ts != 63);
            if is_castle {
                assert(side == Side::White);
                assert(rfs != 60 && rts != 60 && rfs != 63 && rts != 63);
            }
            if has_cap && is_ep {
                assert(cs != 60 && cs != 63);
            }
            assert(f.piece_on(60) == Some(Piece::King) && bit(f.black_bb, 60));
            assert(f.piece_on(63) == Some(Piece::Rook) && bit(f.black_bb, 63));
        }
        if spec_has_bqs(new_castle) {
            assert(fs != 60 && ts != 60 && fs != 56 && ts != 56);
            if is_castle {
                assert(side == Side::White);
                assert(rfs != 60 && rts != 60 && rfs != 56 && rts != 56);
            }
            if has_cap && is_ep {
                assert(cs != 60 && cs != 56);
            }
            assert(f.piece_on(60) == Some(Piece::King) && bit(f.black_bb, 60));
            assert(f.piece_on(56) == Some(Piece::Rook) && bit(f.black_bb, 56));
        }
        assert(f.castle_ok());
        assert(f.inv());
    }
}

/// Squares that must not be attacked when the king castles: the king's
/// origin, path and destination.
pub struct CastleSafety;

impl CastleSafety {
    /// White queenside: c1, d1, e1.
    pub const WQS: u64 = 0x1C;

    /// White kingside: e1, f1, g1.
    pub const WKS: u64 = 0x70;

    /// Black queenside: c8, d8, e8.
    pub const BQS: u64 = 0x1C00000000000000;

    /// Black kingside: e8, f8, g8.
    pub const BKS: u64 = 0x7000000000000000;
}

/// Squares that must be unoccupied when the king castles: everything
/// strictly between king and rook.
pub struct CastleTravel;

impl CastleTravel {
    /// White kingside: f1, g1.
    pub const WKS: u64 = 0x60;

    /// White queenside: b1, c1, d1.
    pub const WQS: u64 = 0xE;

    /// Black kingside: f8, g8.
    pub const BKS: u64 = 0x6000000000000000;

    /// Black queenside: b8, c8, d8.
    pub const BQS: u64 = 0xE00000000000000;
}

/// An empty intersection with a travel mask empties each of its squares.
proof fn lemma_travel_bits(occ: u64)
    by (bit_vector)
    ensures
        (occ & 0x60u64 == 0) ==> (!bit(occ, 5) && !bit(occ, 6)),
        (occ & 0xEu64 == 0) ==> (!bit(occ, 1) && !bit(occ, 2) && !bit(occ, 3)),
        (occ & 0x6000000000000000u64 == 0) ==> (!bit(occ, 61) && !bit(occ, 62)),
        (occ & 0xE00000000000000u64 == 0) ==> (!bit(occ, 57) && !bit(occ, 58) && !bit(occ, 59)),
{
}

impl Board {
    /// The castling conditions of pseudo-legality: a king move along the home
    /// rank to the matching castle square, with the right still held, the
    /// travel squares empty, and the king's origin, path and destination
    /// unattacked.
    pub open spec fn castle_pseudo_ok(self, m: Move) -> bool {
        let from = m.from;
        let to = m.to;
        let fs = from.0 as u64;
        let occ = self.spec_occ();
        let home: u8 = if self.stm == Side::White {
            0
        } else {
            7
        };
        let kingside_sq: u8 = if self.stm == Side::White {
            6
        } else {
            62
        };
        let queenside_sq: u8 = if self.stm == Side::White {
            2
        } else {
            58
        };
        if self.piece_on(fs) != Some(Piece::King) {
            false
        } else if from.0 / 8 != home || to.0 / 8 != home {
            false
        } else if to.0 != kingside_sq && to.0 != queenside_sq {
            false
        } else if to.0 == kingside_sq && !(if self.stm == Side::White {
            spec_has_wks(self.castle)
        } else {
            spec_has_bks(self.castle)
        }) {
            false
        } else if to.0 == queenside_sq && !(if self.stm == Side::White {
            spec_has_wqs(self.castle)
        } else {
            spec_has_bqs(self.castle)
        }) {
            false
        } else {
            let travel = if to.0 == kingside_sq {
                if self.stm == Side::White {
                    CastleTravel::WKS
                } else {
                    CastleTravel::BKS
                }
            } else {
                if self.stm == Side::White {
                    CastleTravel::WQS
                } else {
                    CastleTravel::BQS
                }
            };
            let safety = if to.0 == kingside_sq {
                if self.stm == Side::White {
                    CastleSafety::WKS
                } else {
                    CastleSafety::BKS
                }
            } else {
                if self.stm == Side::White {
                    CastleSafety::WQS
                } else {
                    CastleSafety::BQS
                }
            };
            occ & travel == 0 && !crate::attacks::spec_is_attacked(self, safety, self.stm, occ)
        }
    }

    /// The pawn-move conditions of pseudo-legality: no backward moves, a
    /// promotion flag exactly on far-rank landings, diagonal moves only as
    /// captures or valid en passant, and pushes only onto empty squares.
    pub open spec fn pawn_pseudo_ok(self, m: Move) -> bool {
        let from = m.from;
        let to = m.to;
        let ts = to.0 as u64;
        let them = self.spec_side_bb(self.stm.spec_flip());
        let occ = self.spec_occ();
        let white = self.stm == Side::White;
        let from_rank = from.0 / 8;
        let to_rank = to.0 / 8;
        let from_file = from.0 % 8;
        let to_file = to.0 % 8;
        let captured = self.spec_captured(m);
        if m.spec_is_ep() && (self.ep_sq is None || (white && to.0 < 8) || (!white && to.0 >= 56)
            || !bit(them, spec_ep_capture_sq(self.stm, to).0 as u64)) {
            false
        } else if (white && to_rank < from_rank) || (!white && to_rank > from_rank) {
            false
        } else if m.spec_is_promo() != (to_rank == (if white {
            7u8
        } else {
            0u8
        })) {
            false
        } else if from_file != to_file {
            if m.spec_is_double_push() {
                false
            } else if to_file != from_file + 1 && to_file + 1 != from_file {
                false
            } else if (white && to_rank != from_rank + 1) || (!white && from_rank != to_rank
                + 1) {
                false
            } else {
                captured is Some || m.spec_is_ep()
            }
        } else {
            if captured is Some {
                false
            } else if m.spec_is_double_push() {
                let start_rank: u8 = if white {
                    1
                } else {
                    6
                };
                if from_rank != start_rank {
                    false
                } else if (white && to.0 != from.0 + 16) || (!white && from.0 != to.0 + 16) {
                    false
                } else {
                    let between = if white {
                        (from.0 + 8) as u64
                    } else {
                        (from.0 - 8) as u64
                    };
                    !bit(occ, between) && !bit(occ, ts)
                }
            } else {
                if to.0 != (if white {
                    from.0 + 8
                } else {
                    from.0 - 8
                }) {
                    false
                } else {
                    !bit(occ, ts)
                }
            }
        }
    }

    /// Structural validity of a move against the current position, ignoring
    /// whether it leaves the own king attacked: real distinct in-range
    /// squares, a piece of the side to move on the origin, no friendly piece
    /// and no king on the destination, and the piece-specific movement
    /// conditions.
    pub open spec fn spec_pseudo_legal(self, m: Move) -> bool {
        let from = m.from;
        let to = m.to;
        let fs = from.0 as u64;
        let ts = to.0 as u64;
        let us = self.spec_side_bb(self.stm);
        if !m.spec_is_real() {
            false
        } else if !sq_ok(from) || !sq_ok(to) {
            false
        } else if from == to {
            false
        } else if self.piece_on(fs) is None {
            false
        } else if !bit(us, fs) {
            false
        } else if bit(us, ts) {
            false
        } else if self.spec_captured(m) == Some(Piece::King) {
            false
        } else {
            let pc = match self.piece_on(fs) {
                Some(p) => p,
                None => Piece::Pawn,
            };
            if m.spec_is_castle() {
                self.castle_pseudo_ok(m)
            } else if pc == Piece::Pawn {
                self.pawn_pseudo_ok(m)
            } else {
                if m.spec_is_ep() || m.spec_is_promo() || m.spec_is_double_push() {
                    false
                } else {
                    crate::attacks::piece_reach(self.spec_occ(), pc, self.stm, fs, ts)
                }
            }
        }
    }

    /// Whether the move `mv` is structurally valid against the current
    /// position, ignoring king safety.
    pub fn is_pseudo_legal(&self, mv: &Move) -> (r: bool)
        ensures
            r == self.spec_pseudo_legal(*mv),
    {
        if !mv.is_real() {
            return false;
        }
        let from = mv.from();
        let to = mv.to();
        if from.0 >= 64 || to.0 >= 64 {
            return false;
        }
        if from.0 == to.0 {
            // Cannot move to the same square.
            return false;
        }
        let pc = match self.piece_at(from) {
            Some(p) => p,
            None => {
                // Cannot move without a piece.
                return false;
            },
        };
        let us = self.us();
        let them = self.them();
        let occ = us | them;
        proof {
            assert forall|q: u64| q < 64 implies bit(self.spec_occ(), q) == bit(
                self.spec_side_bb(self.stm) | self.spec_side_bb(self.stm.spec_flip()),
                q,
            ) by {
                lemma_bit_or_and(self.white_bb, self.black_bb, q);
                lemma_bit_or_and(
                    self.spec_side_bb(self.stm),
                    self.spec_side_bb(self.stm.spec_flip()),
                    q,
                );
            }
            lemma_occ_commutes(self.white_bb, self.black_bb);
        }
        let captured = self.captured(mv);

        // Cannot move a piece that is not ours.
        if !crate::types::bit_test(us, from.0) {
            return false;
        }
        // Cannot capture our own piece.
        if crate::types::bit_test(us, to.0) {
            return false;
        }
        // Cannot capture a king.
        if let Some(captured_pc) = captured {
            if captured_pc == Piece::King {
                return false;
            }
        }
        if mv.is_castle() {
            return self.castle_check(mv, occ);
        }
        if pc == Piece::Pawn {
            self.pawn_check(mv, occ)
        } else {
            // A pawn-specific flag with a non-pawn is invalid.
            if mv.is_ep() || mv.is_promo() || mv.is_double_push() {
                return false;
            }
            crate::attacks::reaches(from, pc, self.stm, occ, to)
        }
    }

    /// The castling conditions of [`Board::is_pseudo_legal`].
    fn castle_check(&self, mv: &Move, occ: u64) -> (r: bool)
        requires
            sq_ok(mv.from),
            sq_ok(mv.to),
            occ == self.spec_occ(),
            self.piece_on(mv.from.0 as u64) is Some,
        ensures
            r == self.castle_pseudo_ok(*mv),
    {
        let from = mv.from();
        let to = mv.to();
        // Can only castle with the king.
        let is_king = match self.piece_at(from) {
            Some(p) => p == Piece::King,
            None => false,
        };
        if !is_king {
            return false;
        }
        let home: u8 = if self.stm == Side::White {
            0
        } else {
            7
        };
        // Castling must stay on the home rank.
        if from.0 / 8 != home || to.0 / 8 != home {
            return false;
        }
        let kingside_sq: u8 = if self.stm == Side::White {
            6
        } else {
            62
        };
        let queenside_sq: u8 = if self.stm == Side::White {
            2
        } else {
            58
        };
        // Castling must be to the kingside or queenside square.
        if to.0 != kingside_sq && to.0 != queenside_sq {
            return false;
        }
        // The matching right must still be held.
        if to.0 == kingside_sq && !self.has_kingside_rights(self.stm) {
            return false;
        }
        if to.0 == queenside_sq && !self.has_queenside_rights(self.stm) {
            return false;
        }
        let kingside = to.0 == kingside_sq;
        let travel_sqs = if kingside {
            if self.stm == Side::White {
                CastleTravel::WKS
            } else {
                CastleTravel::BKS
            }
        } else {
            if self.stm == Side::White {
                CastleTravel::WQS
            } else {
                CastleTravel::BQS
            }
        };
        // Cannot castle through occupied squares.
        if occ & travel_sqs != 0 {
            return false;
        }
        let safety_sqs = if kingside {
            if self.stm == Side::White {
                CastleSafety::WKS
            } else {
                CastleSafety::BKS
            }
        } else {
            if self.stm == Side::White {
                CastleSafety::WQS
            } else {
                CastleSafety::BQS
            }
        };
        // Cannot castle out of, through, or into check.
        !crate::attacks::is_attacked(safety_sqs, self.stm, occ, self)
    }

    /// The pawn-move conditions of [`Board::is_pseudo_legal`].
    fn pawn_check(&self, mv: &Move, occ: u64) -> (r: bool)
        requires
            sq_ok(mv.from),
            sq_ok(mv.to),
            occ == self.spec_occ(),
        ensures
            r == self.pawn_pseudo_ok(*mv),
    {
        let from = mv.from();
        let to = mv.to();
        let them = self.them();
        let white = self.stm == Side::White;
        let captured = self.captured(mv);
        if mv.is_ep() {
            // Cannot en passant without an active target, off the en-passant
            // ranks, or without an opponent piece on the capture square.
            if self.ep_sq.is_none() {
                return false;
            }
            if white && to.0 < 8 {
                return false;
            }
            if !white && to.0 >= 56 {
                return false;
            }
            let ep_capture_sq = self.ep_capture_sq(to);
            if !crate::types::bit_test(them, ep_capture_sq.0) {
                return false;
            }
        }
        let from_rank = from.0 / 8;
        let to_rank = to.0 / 8;
        // Cannot move a pawn backwards.
        if (white && to_rank < from_rank) || (!white && to_rank > from_rank) {
            return false;
        }
        let promo_rank: u8 = if white {
            7
        } else {
            0
        };
        // A promotion flag goes exactly with landing on the far rank.
        if mv.is_promo() != (to_rank == promo_rank) {
            return false;
        }
        let from_file = from.0 % 8;
        let to_file = to.0 % 8;
        if from_file != to_file {
            // A double push goes straight ahead.
            if mv.is_double_push() {
                return false;
            }
            // Must capture on an adjacent file.
            if to_file != from_file + 1 && to_file + 1 != from_file {
                return false;
            }
            // Must capture exactly one rank ahead.
            if white {
                if to_rank != from_rank + 1 {
                    return false;
                }
            } else {
                if from_rank != to_rank + 1 {
                    return false;
                }
            }
            // Must be capturing a piece.
            captured.is_some() || mv.is_ep()
        } else {
            // Cannot capture a piece with a pawn push.
            if captured.is_some() {
                return false;
            }
            if mv.is_double_push() {
                let start_rank: u8 = if white {
                    1
                } else {
                    6
                };
                // Cannot double push a pawn that is not on its home rank.
                if from_rank != start_rank {
                    return false;
                }
                // Must skip exactly one rank.
                if white {
                    if to.0 != from.0 + 16 {
                        return false;
                    }
                } else {
                    if from.0 != to.0 + 16 {
                        return false;
                    }
                }
                let between_sq = if white {
                    from.0 + 8
                } else {
                    from.0 - 8
                };
                // Cannot double push through or onto an occupied square.
                if crate::types::bit_test(occ, between_sq) {
                    return false;
                }
                !crate::types::bit_test(occ, to.0)
            } else {
                // Must be a single push onto an empty square.
                if white {
                    if to.0 != from.0 + 8 {
                        return false;
                    }
                } else {
                    if from.0 < 8 || to.0 != from.0 - 8 {
                        return false;
                    }
                }
                !crate::types::bit_test(occ, to.0)
            }
        }
    }

    /// Every pseudo-legal move that aims its en-passant flag at the current
    /// target has the structural shape the applicator requires.
    #[verifier::rlimit(100)]
    pub proof fn lemma_pseudo_legal_make_ok(self, m: Move)
        requires
            self.inv(),
            self.spec_pseudo_legal(m),
            m.flag == MoveFlag::EnPassant ==> self.ep_sq == Some(m.to),
        ensures
            self.make_ok(m),
    {
        let from = m.from;
        let to = m.to;
        let fs = from.0 as u64;
        let ts = to.0 as u64;
        let pc = match self.piece_on(fs) {
            Some(p) => p,
            None => Piece::Pawn,
        };
        lemma_bit_or_and(self.white_bb, self.black_bb, ts);
        assert(sq_ok(from) && sq_ok(to) && from != to);
        assert(self.piece_on(fs) is Some);
        assert(bit(self.spec_side_bb(self.stm), fs));
        assert(!bit(self.spec_side_bb(self.stm), ts));
        assert(self.spec_captured(m) != Some(Piece::King));
        if m.spec_is_promo() || m.flag == MoveFlag::EnPassant || m.flag == MoveFlag::DoublePush {
            assert(!m.spec_is_castle());
            assert(pc == Piece::Pawn);
        }
        if m.flag == MoveFlag::DoublePush {
            assert(self.pawn_pseudo_ok(m));
            assert(from.0 % 8 == to.0 % 8);
            if self.stm == Side::White {
                assert(from.0 / 8 == 1);
                assert(8 <= from.0 < 16);
                assert(to.0 == from.0 + 16);
                lemma_bit_or_and(self.white_bb, self.black_bb, (from.0 + 8) as u64);
                assert(self.piece_on((from.0 + 8) as u64) is None);
                assert(self.piece_on(ts) is None);
            } else {
                assert(from.0 / 8 == 6);
                assert(48 <= from.0 < 56);
                assert(to.0 == from.0 - 16);
                lemma_bit_or_and(self.white_bb, self.black_bb, (from.0 - 8) as u64);
                assert(self.piece_on((from.0 - 8) as u64) is None);
                assert(self.piece_on(ts) is None);
            }
        }
        if m.spec_is_castle() {
            lemma_travel_bits(self.spec_occ());
            if self.stm == Side::White {
                assert(to.0 == 6 || to.0 == 2);
                if to.0 == 6 {
                    assert(!bit(self.spec_occ(), 5) && !bit(self.spec_occ(), 6));
                } else {
                    assert(!bit(self.spec_occ(), 1) && !bit(self.spec_occ(), 2) && !bit(
                        self.spec_occ(),
                        3,
                    ));
                }
            } else {
                assert(to.0 == 62 || to.0 == 58);
                if to.0 == 62 {
                    assert(!bit(self.spec_occ(), 61) && !bit(self.spec_occ(), 62));
                } else {
                    assert(!bit(self.spec_occ(), 57) && !bit(self.spec_occ(), 58) && !bit(
                        self.spec_occ(),
                        59,
                    ));
                }
            }
        }
        assert(self.make_ok(m));
    }

    /// The move `m` is legal when applying it does not leave the moving
    /// side's own king attacked.
    pub open spec fn spec_is_legal(self, m: Move) -> bool {
        !crate::attacks::spec_in_check(self.spec_make(m), self.stm)
    }

    /// Whether the pseudo-legal move `mv` is fully legal: applied to a
    /// disposable copy of the position, it must not leave the moving side's
    /// king attacked.
    pub fn is_legal(&self, mv: &Move) -> (r: bool)
        requires
            self.inv(),
            self.spec_pseudo_legal(*mv),
            mv.flag == MoveFlag::EnPassant ==> self.ep_sq == Some(mv.to),
        ensures
            r == self.spec_is_legal(*mv),
    {
        proof {
            self.lemma_pseudo_legal_make_ok(*mv);
        }
        let mut new_board = *self;
        new_board.make(mv);
        !crate::attacks::is_check(&new_board, self.stm)
    }
}

/// Whether a piece of type `p` and side `s` contributes to channel `ch`.
fn chan_includes_exec(ch: Chan, p: Piece, s: Side) -> (r: bool)
    ensures
        r == chan_includes(ch, p, s),
{
    match ch {
        Chan::Full => true,
        Chan::Pawns => p == Piece::Pawn,
        Chan::NonPawn(side) => p != Piece::Pawn && s == side,
        Chan::Majors => p.is_major(),
        Chan::Minors => p.is_minor(),
    }
}

impl Board {
    /// Recomputes one material hash channel from scratch by folding the keys
    /// of every occupied square in its subset.
    pub fn calc_chan(&self, ch: Chan) -> (r: u64)
        ensures
            r == self.mat_hash(ch),
    {
        let mut acc: u64 = 0;
        let mut q: u8 = 0;
        while q < 64
            invariant
                q <= 64,
                acc == self.chan_fold(ch, q as int),
            decreases 64 - q,
        {
            let key: u64 = match self.mailbox[q as usize] {
                Some(p) => {
                    let s = if crate::types::bit_test(self.white_bb, q) {
                        Side::White
                    } else {
                        Side::Black
                    };
                    if chan_includes_exec(ch, p, s) {
                        sq_key(p, s, Square(q))
                    } else {
                        0
                    }
                },
                None => 0,
            };
            proof {
                assert(key == self.chan_sq_key(ch, q as u64));
            }
            acc = acc ^ key;
            q = q + 1;
        }
        acc
    }

    /// Recomputes the full-position hash from scratch: the material fold of
    /// every piece plus the castling-rights, en-passant and side-to-move
    /// keys.
    pub fn calc_hash(&self) -> (r: u64)
        ensures
            r == self.mat_hash(Chan::Full) ^ spec_castle_key(self.castle) ^ self.ep_hash_key()
                ^ self.stm_hash_key(),
    {
        let mat = self.calc_chan(Chan::Full);
        let ep = match self.ep_sq {
            Some(t) => ep_key(t),
            None => 0,
        };
        let sk = if self.stm == Side::Black {
            stm_key()
        } else {
            0
        };
        ((mat ^ castle_key(self.castle)) ^ ep) ^ sk
    }
}

/// The piece and side on each square of the canonical starting position.
pub open spec fn start_content(sq: u64) -> Option<(Piece, Side)> {
    let r = sq / 8;
    let f = sq % 8;
    if r == 1 {
        Some((Piece::Pawn, Side::White))
    } else if r == 6 {
        Some((Piece::Pawn, Side::Black))
    } else if r == 0 || r == 7 {
        let side = if r == 0 {
            Side::White
        } else {
            Side::Black
        };
        let p = if f == 0 || f == 7 {
            Piece::Rook
        } else if f == 1 || f == 6 {
            Piece::Knight
        } else if f == 2 || f == 5 {
            Piece::Bishop
        } else if f == 3 {
            Piece::Queen
        } else {
            Piece::King
        };
        Some((p, side))
    } else {
        None
    }
}

/// The piece and side on square `q` of the starting position.
fn start_piece(q: u8) -> (r: Option<(Piece, Side)>)
    requires
        q < 64,
    ensures
        r == start_content(q as u64),
{
    let rk = q / 8;
    let f = q % 8;
    if rk == 1 {
        Some((Piece::Pawn, Side::White))
    } else if rk == 6 {
        Some((Piece::Pawn, Side::Black))
    } else if rk == 0 || rk == 7 {
        let side = if rk == 0 {
            Side::White
        } else {
            Side::Black
        };
        let p = if f == 0 || f == 7 {
            Piece::Rook
        } else if f == 1 || f == 6 {
            Piece::Knight
        } else if f == 2 || f == 5 {
            Piece::Bishop
        } else if f == 3 {
            Piece::Queen
        } else {
            Piece::King
        };
        Some((p, side))
    } else {
        None
    }
}

/// All four castling rights are held in the full mask.
proof fn lemma_full_rights()
    by (bit_vector)
    ensures
        spec_has_wks(0xF),
        spec_has_wqs(0xF),
        spec_has_bks(0xF),
        spec_has_bqs(0xF),
{
}

impl Board {
    /// The canonical starting position: every piece on its home square, all
    /// four castling rights held, white to move, counters at the game start,
    /// and every hash channel computed from scratch.
    pub fn new() -> (r: Board)
        ensures
            r.inv(),
            forall|q: u64|
                q < 64 ==> (#[trigger] r.piece_on(q)) == (match start_content(q) {
                    Some((p, s)) => Some(p),
                    None => None::<Piece>,
                }),
            forall|q: u64, s: Side|
                q < 64 ==> (#[trigger] bit(r.spec_side_bb(s), q) <==> (match start_content(q) {
                    Some((p, side)) => side == s,
                    None => false,
                })),
            r.stm == Side::White,
            r.castle == 0xF,
            r.ep_sq is None,
            r.hm == 0,
            r.fm == 1,
    {
        let mut board = Board::empty();
        let mut q: u8 = 0;
        while q < 64
            invariant
                q <= 64,
                board.geo_ok(),
                board.hashes_ok(),
                board.stm == Side::White && board.hm == 0 && board.fm == 0 && board.ep_sq is None
                    && board.castle == 0,
                forall|j: u64|
                    j < q ==> (#[trigger] board.piece_on(j)) == (match start_content(j) {
                        Some((p, s)) => Some(p),
                        None => None::<Piece>,
                    }),
                forall|j: u64, s: Side|
                    j < q ==> (#[trigger] bit(board.spec_side_bb(s), j) <==> (match start_content(
                        j,
                    ) {
                        Some((p, side)) => side == s,
                        None => false,
                    })),
                forall|j: u64|
                    q <= j < 64 ==> #[trigger] board.piece_on(j) is None && !bit(
                        board.white_bb,
                        j,
                    ) && !bit(board.black_bb, j),
            decreases 64 - q,
        {
            let ghost prev = board;
            match start_piece(q) {
                Some((p, s)) => {
                    proof {
                        board.lemma_toggle_keeps(Square(q), p, s);
                    }
                    board.toggle_sq(Square(q), p, s);
                    proof {
                        assert(board.piece_on(q as u64) == Some(p));
                        assert(bit(board.spec_side_bb(s), q as u64));
                        assert(!bit(board.spec_side_bb(s.spec_flip()), q as u64));
                        assert forall|j: u64, s2: Side|
                            j < q as u64 + 1 implies (#[trigger] bit(board.spec_side_bb(s2), j)
                            <==> (match start_content(j) {
                            Some((p2, side2)) => side2 == s2,
                            None => false,
                        })) by {
                            if j < q as u64 {
                                assert(bit(board.white_bb, j) == bit(prev.white_bb, j));
                                assert(bit(board.black_bb, j) == bit(prev.black_bb, j));
                                assert(bit(prev.spec_side_bb(s2), j) <==> (match start_content(j) {
                                    Some((p2, side2)) => side2 == s2,
                                    None => false,
                                }));
                            }
                        }
                    }
                },
                None => {},
            }
            q = q + 1;
        }
        let ghost b_loop = board;
        board.castle = 0xF;
        board.fm = 1;
        let ghost b1 = board;
        let h_full = board.calc_hash();
        let h_pawn = board.calc_chan(Chan::Pawns);
        let h_npw = board.calc_chan(Chan::NonPawn(Side::White));
        let h_npb = board.calc_chan(Chan::NonPawn(Side::Black));
        let h_maj = board.calc_chan(Chan::Majors);
        let h_min = board.calc_chan(Chan::Minors);
        board.hash = h_full;
        board.pawn_hash = h_pawn;
        board.non_pawn_hash_w = h_npw;
        board.non_pawn_hash_b = h_npb;
        board.major_hash = h_maj;
        board.minor_hash = h_min;
        proof {
            lemma_same_placement(b_loop, board);
            lemma_same_placement(b1, board);
            assert forall|j: u64| j < 64 implies (#[trigger] board.piece_on(j)) == (
            match start_content(j) {
                Some((p, s)) => Some(p),
                None => None::<Piece>,
            }) by {
                assert(board.piece_on(j) == b_loop.piece_on(j));
            }
            assert forall|j: u64, s2: Side|
                j < 64 implies (#[trigger] bit(board.spec_side_bb(s2), j) <==> (
            match start_content(j) {
                Some((p, side)) => side == s2,
                None => false,
            })) by {
                assert(bit(board.spec_side_bb(s2), j) == bit(b_loop.spec_side_bb(s2), j));
                assert(bit(b_loop.spec_side_bb(s2), j) <==> (match start_content(j) {
                    Some((p, side)) => side == s2,
                    None => false,
                }));
            }
            assert(board.geo_ok());
            assert(board.hashes_ok());
            lemma_full_rights();
            assert(board.is_king_sq(Side::White, 4));
            assert(board.is_king_sq(Side::Black, 60));
            assert forall|a: u64, c: u64|
                board.is_king_sq(Side::White, a) && board.is_king_sq(Side::White, c) implies a
                == c by {
                assert(start_content(a) == Some((Piece::King, Side::White)));
                assert(a / 8 == 0 && a % 8 == 4);
                assert(c / 8 == 0 && c % 8 == 4);
            }
            assert forall|a: u64, c: u64|
                board.is_king_sq(Side::Black, a) && board.is_king_sq(Side::Black, c) implies a
                == c by {
                assert(start_content(a) == Some((Piece::King, Side::Black)));
                assert(a / 8 == 7 && a % 8 == 4);
                assert(c / 8 == 7 && c % 8 == 4);
            }
            assert(board.kings_ok());
            assert(board.castle_ok());
            assert(board.inv());
        }
        board
    }
}

impl Board {
    /// Hash integrity: in a well-formed position — the decoded or initial
    /// ones, and by the applicator's contract every position reached from
    /// them through any sequence of moves — each of the five hash channels
    /// equals its from-scratch recomputation over the current placement.
    pub proof fn lemma_hash_integrity(self)
        requires
            self.inv(),
        ensures
            self.hash == self.mat_hash(Chan::Full) ^ spec_castle_key(self.castle)
                ^ self.ep_hash_key() ^ self.stm_hash_key(),
            self.pawn_hash == self.mat_hash(Chan::Pawns),
            self.non_pawn_hash_w == self.mat_hash(Chan::NonPawn(Side::White)),
            self.non_pawn_hash_b == self.mat_hash(Chan::NonPawn(Side::Black)),
            self.major_hash == self.mat_hash(Chan::Majors),
            self.minor_hash == self.mat_hash(Chan::Minors),
    {
    }
}

/// A subset of a subset of a mask is a subset of that mask.
proof fn lemma_u8_subset_trans(a: u8, b: u8, c: u8)
    by (bit_vector)
    requires
        a & b == a,
        b & c == b,
    ensures
        a & c == a,
{
}

/// Castling rights are monotone along a game: in any chain of rights masks
/// where each is a subset of its predecessor — as the move applicator
/// guarantees for consecutive positions — every later mask is a subset of
/// every earlier one, so a right once cleared never reappears.
pub proof fn lemma_rights_monotonic(chain: Seq<u8>)
    requires
        forall|i: int|
            0 <= i < chain.len() - 1 ==> #[trigger] (chain[i + 1] & chain[i]) == chain[i + 1],
    ensures
        forall|i: int, j: int|
            0 <= i <= j < chain.len() ==> #[trigger] (chain[j] & chain[i]) == chain[j],
{
    assert forall|i: int, j: int|
        0 <= i <= j < chain.len() implies #[trigger] (chain[j] & chain[i]) == chain[j] by {
        lemma_rights_chain_step(chain, i, j);
    }
}

/// One link of [`lemma_rights_monotonic`], by induction on the distance.
proof fn lemma_rights_chain_step(chain: Seq<u8>, i: int, j: int)
    requires
        forall|k: int|
            0 <= k < chain.len() - 1 ==> #[trigger] (chain[k + 1] & chain[k]) == chain[k + 1],
        0 <= i <= j < chain.len(),
    ensures
        chain[j] & chain[i] == chain[j],
    decreases j - i,
{
    if i == j {
        lemma_u8_mask_bits(chain[i]);
    } else {
        lemma_rights_chain_step(chain, i, j - 1);
        assert((chain[(j - 1) + 1] & chain[j - 1]) == chain[(j - 1) + 1]);
        lemma_u8_subset_trans(chain[j], chain[j - 1], chain[i]);
    }
}

/// The two side occupancies may be united in either order.
proof fn lemma_occ_commutes(a: u64, b: u64)
    by (bit_vector)
    ensures
        a | b == b | a,
{
}

/// A board whose mailbox is all empty folds every hash channel to zero.
proof fn lemma_chan_fold_zero(b: Board, ch: Chan, n: int)
    requires
        0 <= n <= 64,
        forall|sq: int| 0 <= sq < 64 ==> b.mailbox@[sq] is None,
    ensures
        b.chan_fold(ch, n) == 0,
    decreases n,
{
    if n > 0 {
        lemma_chan_fold_zero(b, ch, n - 1);
        assert(b.chan_sq_key(ch, (n - 1) as u64) == 0);
        lemma_xor_zero(b.chan_fold(ch, n - 1));
    }
}

} // verus!
