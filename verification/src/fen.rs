//! Position-description text: decoding and encoding.
//!
//! The format has six whitespace-separated fields: piece placement by ranks
//! from eight down to one (digits for runs of empty squares, letters for
//! pieces, uppercase white), side to move, castling rights, en-passant
//! target, half-move clock and full-move number; the last two default to
//! zero when missing or unparseable.  Decoding rebuilds every representation
//! and recomputes all five hash channels from scratch; it rejects text whose
//! position would break the board's well-formedness (no or duplicate kings,
//! an en-passant target or castling right inconsistent with the placement).
//! Encoding is the exact inverse on well-formed positions.

use vstd::prelude::*;
use vstd::string::StringSliceAdditionalSpecFns;
use crate::board::{Board, Chan};
use crate::types::{bit, bit_test, Piece, Side, Square};
use crate::zobrist::spec_castle_key;

verus! {

/// The canonical starting position.
pub const STARTPOS: &'static str = "rnbqkbnr/pppppppp/8/8/8/8/PPPPPPPP/RNBQKBNR w KQkq - 0 1";

/// Whitespace for the purpose of field splitting.
pub open spec fn is_ws(c: u8) -> bool {
    c == 32 || c == 9 || c == 10 || c == 13
}

/// Splitting into whitespace-separated fields, walked from position `i` with
/// the current token `cur` and the finished tokens `acc`.
pub open spec fn split_acc(s: Seq<u8>, i: int, cur: Seq<u8>, acc: Seq<Seq<u8>>) -> Seq<Seq<u8>>
    decreases s.len() - i,
{
    if i < 0 || i >= s.len() {
        if cur.len() > 0 {
            acc + seq![cur]
        } else {
            acc
        }
    } else if is_ws(s[i]) {
        if cur.len() > 0 {
            split_acc(s, i + 1, seq![], acc + seq![cur])
        } else {
            split_acc(s, i + 1, seq![], acc)
        }
    } else {
        split_acc(s, i + 1, cur + seq![s[i]], acc)
    }
}

/// The whitespace-separated fields of `s`.
pub open spec fn split_ws(s: Seq<u8>) -> Seq<Seq<u8>> {
    split_acc(s, 0, seq![], seq![])
}

/// The piece and side a placement letter denotes, if any.
pub open spec fn spec_piece_of_byte(c: u8) -> Option<(Piece, Side)> {
    if c == 80 {
        Some((Piece::Pawn, Side::White))
    } else if c == 78 {
        Some((Piece::Knight, Side::White))
    } else if c == 66 {
        Some((Piece::Bishop, Side::White))
    } else if c == 82 {
        Some((Piece::Rook, Side::White))
    } else if c == 81 {
        Some((Piece::Queen, Side::White))
    } else if c == 75 {
        Some((Piece::King, Side::White))
    } else if c == 112 {
        Some((Piece::Pawn, Side::Black))
    } else if c == 110 {
        Some((Piece::Knight, Side::Black))
    } else if c == 98 {
        Some((Piece::Bishop, Side::Black))
    } else if c == 114 {
        Some((Piece::Rook, Side::Black))
    } else if c == 113 {
        Some((Piece::Queen, Side::Black))
    } else if c == 107 {
        Some((Piece::King, Side::Black))
    } else {
        None
    }
}

/// Walking the placement field from byte `i` with the cursor on `rank` and
/// `file`, placing every piece onto `b`; fails on an invalid letter, a rank
/// overrun, or a row that does not leave exactly eight ranks consumed.
pub open spec fn place_scan(b: Board, f: Seq<u8>, i: int, rank: int, file: int) -> Option<Board>
    decreases f.len() - i,
{
    if i < 0 || i >= f.len() {
        if rank == 0 {
            Some(b)
        } else {
            None
        }
    } else {
        let c = f[i];
        if c == 47 {
            if rank > 0 {
                place_scan(b, f, i + 1, rank - 1, 0)
            } else {
                None
            }
        } else if 49 <= c <= 56 {
            if file + (c - 48) <= 8 {
                place_scan(b, f, i + 1, rank, file + (c - 48))
            } else {
                None
            }
        } else {
            match spec_piece_of_byte(c) {
                Some((p, s)) => if file <= 7 {
                    place_scan(
                        b.spec_toggle(Square((rank * 8 + file) as u8), p, s),
                        f,
                        i + 1,
                        rank,
                        file + 1,
                    )
                } else {
                    None
                },
                None => None,
            }
        }
    }
}

/// The side-to-move field: exactly `w` or `b`.
pub open spec fn spec_parse_stm(f: Seq<u8>) -> Option<Side> {
    if f.len() == 1 && f[0] == 119 {
        Some(Side::White)
    } else if f.len() == 1 && f[0] == 98 {
        Some(Side::Black)
    } else {
        None
    }
}

/// The rights bit a castling letter denotes; the dash denotes none.
pub open spec fn castle_byte_mask(c: u8) -> u8 {
    if c == 75 {
        0x1
    } else if c == 81 {
        0x2
    } else if c == 107 {
        0x4
    } else if c == 113 {
        0x8
    } else {
        0x0
    }
}

/// Whether every byte of the castling field from `i` on is a rights letter
/// or the dash.
pub open spec fn castle_wf_from(f: Seq<u8>, i: int) -> bool
    decreases f.len() - i,
{
    if i < 0 || i >= f.len() {
        true
    } else {
        (f[i] == 75 || f[i] == 81 || f[i] == 107 || f[i] == 113 || f[i] == 45) && castle_wf_from(
            f,
            i + 1,
        )
    }
}

/// The rights mask the castling field accumulates from byte `i` onto `acc`.
pub open spec fn castle_acc(f: Seq<u8>, i: int, acc: u8) -> u8
    decreases f.len() - i,
{
    if i < 0 || i >= f.len() {
        acc
    } else {
        castle_acc(f, i + 1, acc | castle_byte_mask(f[i]))
    }
}

/// The castling field: any sequence of rights letters and dashes.
pub open spec fn spec_parse_castle(f: Seq<u8>) -> Option<u8> {
    if castle_wf_from(f, 0) {
        Some(castle_acc(f, 0, 0))
    } else {
        None
    }
}

/// The en-passant field: a dash, or a file letter and a rank digit (any
/// trailing bytes are ignored).
pub open spec fn spec_parse_ep(f: Seq<u8>) -> Option<Option<Square>> {
    if f.len() == 1 && f[0] == 45 {
        Some(None)
    } else if f.len() >= 2 && 97 <= f[0] <= 104 && 49 <= f[1] <= 56 {
        Some(Some(Square((((f[1] - 49) * 8) + (f[0] - 97)) as u8)))
    } else {
        None
    }
}

/// Decimal accumulation from byte `i`: fails on a non-digit or a value over
/// 255.
pub open spec fn dec_acc(f: Seq<u8>, i: int, acc: int) -> Option<int>
    decreases f.len() - i,
{
    if i < 0 || i >= f.len() {
        Some(acc)
    } else if 48 <= f[i] <= 57 {
        if acc * 10 + (f[i] - 48) > 255 {
            None
        } else {
            dec_acc(f, i + 1, acc * 10 + (f[i] - 48))
        }
    } else {
        None
    }
}

/// A counter field: a decimal number with an optional leading plus sign,
/// zero when empty, malformed or out of range.
pub open spec fn spec_parse_u8(f: Seq<u8>) -> u8 {
    let st: int = if f.len() >= 1 && f[0] == 43 {
        1
    } else {
        0
    };
    if f.len() > st {
        match dec_acc(f, st, 0) {
            Some(v) => v as u8,
            None => 0,
        }
    } else {
        0
    }
}

/// The all-empty board value that decoding starts from.
pub open spec fn spec_empty_board() -> Board {
    Board {
        pawn_bb: 0,
        knight_bb: 0,
        bishop_bb: 0,
        rook_bb: 0,
        queen_bb: 0,
        king_bb: 0,
        white_bb: 0,
        black_bb: 0,
        mailbox: vstd::array::spec_array_fill_for_copy_type(None),
        stm: Side::White,
        hm: 0,
        fm: 0,
        ep_sq: None,
        castle: 0,
        hash: 0,
        pawn_hash: 0,
        non_pawn_hash_w: 0,
        non_pawn_hash_b: 0,
        major_hash: 0,
        minor_hash: 0,
    }
}

/// What decoding returns on the byte sequence `s`: the fully reconstructed
/// position, or nothing when a field is malformed or the position would not
/// be well formed.
pub open spec fn spec_from_fen(s: Seq<u8>) -> Option<Board> {
    let fs = split_ws(s);
    if fs.len() < 4 {
        None
    } else {
        match place_scan(spec_empty_board(), fs[0], 0, 7, 0) {
            None => None,
            Some(b0) => match spec_parse_stm(fs[1]) {
                None => None,
                Some(stm) => match spec_parse_castle(fs[2]) {
                    None => None,
                    Some(cr) => match spec_parse_ep(fs[3]) {
                        None => None,
                        Some(ep) => {
                            let hm = if fs.len() >= 5 {
                                spec_parse_u8(fs[4])
                            } else {
                                0
                            };
                            let fm = if fs.len() >= 6 {
                                spec_parse_u8(fs[5])
                            } else {
                                0
                            };
                            let b1 = Board { stm, castle: cr, ep_sq: ep, hm, fm, ..b0 };
                            if !(b1.kings_ok() && b1.ep_ok() && b1.castle_ok()) {
                                None
                            } else {
                                Some(
                                    Board {
                                        hash: b1.mat_hash(Chan::Full) ^ spec_castle_key(cr)
                                            ^ b1.ep_hash_key() ^ b1.stm_hash_key(),
                                        pawn_hash: b1.mat_hash(Chan::Pawns),
                                        non_pawn_hash_w: b1.mat_hash(Chan::NonPawn(Side::White)),
                                        non_pawn_hash_b: b1.mat_hash(Chan::NonPawn(Side::Black)),
                                        major_hash: b1.mat_hash(Chan::Majors),
                                        minor_hash: b1.mat_hash(Chan::Minors),
                                        ..b1
                                    },
                                )
                            }
                        },
                    },
                },
            },
        }
    }
}

/// Splits a byte string into its whitespace-separated fields.
fn split_ws_exec(bytes: &[u8]) -> (r: Vec<Vec<u8>>)
    ensures
        r.deep_view() == split_ws(bytes@),
{
    let mut acc: Vec<Vec<u8>> = Vec::new();
    let mut cur: Vec<u8> = Vec::new();
    let mut i: usize = 0;
    proof {
        assert(acc.deep_view() =~~= Seq::<Seq<u8>>::empty());
        assert(cur@ =~= Seq::<u8>::empty());
    }
    while i < bytes.len()
        invariant
            i <= bytes@.len(),
            split_ws(bytes@) == split_acc(bytes@, i as int, cur@, acc.deep_view()),
        decreases bytes@.len() - i,
    {
        let c = bytes[i];
        if c == 32 || c == 9 || c == 10 || c == 13 {
            proof {
                if cur@.len() == 0 {
                    assert(cur@ =~= Seq::<u8>::empty());
                }
            }
            if cur.len() > 0 {
                let ghost old_acc = acc.deep_view();
                let ghost old_cur = cur@;
                acc.push(cur);
                cur = Vec::new();
                proof {
                    assert(acc.deep_view() =~~= old_acc + seq![old_cur]);
                    assert(cur@ =~= Seq::<u8>::empty());
                }
            }
        } else {
            let ghost old_cur = cur@;
            cur.push(c);
            proof {
                assert(cur@ =~= old_cur + seq![bytes@[i as int]]);
            }
        }
        i = i + 1;
    }
    if cur.len() > 0 {
        let ghost old_acc = acc.deep_view();
        let ghost old_cur = cur@;
        acc.push(cur);
        proof {
            assert(acc.deep_view() =~~= old_acc + seq![old_cur]);
        }
    }
    acc
}

/// Parses a placement letter into its piece and side.
pub fn parse_piece(c: char) -> (r: Option<(Piece, Side)>)
    ensures
        r == spec_piece_of_byte(if (c as u32) < 256 {
            c as u8
        } else {
            0u8
        }),
{
    match c {
        'P' => Some((Piece::Pawn, Side::White)),
        'N' => Some((Piece::Knight, Side::White)),
        'B' => Some((Piece::Bishop, Side::White)),
        'R' => Some((Piece::Rook, Side::White)),
        'Q' => Some((Piece::Queen, Side::White)),
        'K' => Some((Piece::King, Side::White)),
        'p' => Some((Piece::Pawn, Side::Black)),
        'n' => Some((Piece::Knight, Side::Black)),
        'b' => Some((Piece::Bishop, Side::Black)),
        'r' => Some((Piece::Rook, Side::Black)),
        'q' => Some((Piece::Queen, Side::Black)),
        'k' => Some((Piece::King, Side::Black)),
        _ => None,
    }
}

/// Parses the side-to-move field.
pub fn parse_stm(stm: &str) -> (r: Option<Side>)
    ensures
        r == spec_parse_stm(stm.spec_bytes()),
{
    let b = stm.as_bytes();
    if b.len() == 1 && b[0] == 119 {
        Some(Side::White)
    } else if b.len() == 1 && b[0] == 98 {
        Some(Side::Black)
    } else {
        None
    }
}

/// Parses the castling-rights field.
pub fn parse_castle_rights(castle: &str) -> (r: Option<u8>)
    ensures
        r == spec_parse_castle(castle.spec_bytes()),
{
    parse_castle_bytes(castle.as_bytes())
}

/// Parses the castling-rights field from bytes.
fn parse_castle_bytes(f: &[u8]) -> (r: Option<u8>)
    ensures
        r == spec_parse_castle(f@),
{
    let mut rights: u8 = 0;
    let mut i: usize = 0;
    while i < f.len()
        invariant
            i <= f@.len(),
            castle_wf_from(f@, 0) == castle_wf_from(f@, i as int),
            castle_acc(f@, 0, 0) == castle_acc(f@, i as int, rights),
        decreases f@.len() - i,
    {
        let c = f[i];
        let m: u8 = match c {
            75 => 0x1,
            81 => 0x2,
            107 => 0x4,
            113 => 0x8,
            45 => 0x0,
            _ => {
                return None;
            },
        };
        rights = rights | m;
        i = i + 1;
    }
    Some(rights)
}

/// Parses the en-passant field: a dash gives no target.
pub fn parse_ep_sq(ep_sq: &str) -> (r: Option<Option<Square>>)
    ensures
        r == spec_parse_ep(ep_sq.spec_bytes()),
{
    parse_ep_bytes(ep_sq.as_bytes())
}

/// Parses the en-passant field from bytes.
fn parse_ep_bytes(f: &[u8]) -> (r: Option<Option<Square>>)
    ensures
        r == spec_parse_ep(f@),
{
    if f.len() == 1 && f[0] == 45 {
        Some(None)
    } else if f.len() >= 2 && 97 <= f[0] && f[0] <= 104 && 49 <= f[1] && f[1] <= 56 {
        Some(Some(Square((f[1] - 49) * 8 + (f[0] - 97))))
    } else {
        None
    }
}

/// Parses a square name such as `e3`.
pub fn parse_square(s: &str) -> (r: Option<Square>)
    ensures
        r == (match spec_parse_ep(s.spec_bytes()) {
            Some(Some(t)) => Some(t),
            _ => None::<Square>,
        }),
{
    let b = s.as_bytes();
    if b.len() >= 2 && 97 <= b[0] && b[0] <= 104 && 49 <= b[1] && b[1] <= 56 {
        Some(Square((b[1] - 49) * 8 + (b[0] - 97)))
    } else {
        None
    }
}

/// Parses a counter field, zero when malformed.
fn parse_u8_bytes(f: &[u8]) -> (r: u8)
    ensures
        r == spec_parse_u8(f@),
{
    let st: usize = if f.len() >= 1 && f[0] == 43 {
        1
    } else {
        0
    };
    if f.len() <= st {
        return 0;
    }
    let mut acc: u32 = 0;
    let mut i: usize = st;
    while i < f.len()
        invariant
            st <= i <= f@.len(),
            acc <= 255,
            st as int == (if f@.len() >= 1 && f@[0] == 43 {
                1int
            } else {
                0int
            }),
            f@.len() > st as int,
            dec_acc(f@, st as int, 0) == dec_acc(f@, i as int, acc as int),
        decreases f@.len() - i,
    {
        let c = f[i];
        if c < 48 || c > 57 {
            return 0;
        }
        let v = acc * 10 + (c - 48) as u32;
        if v > 255 {
            return 0;
        }
        acc = v;
        i = i + 1;
    }
    acc as u8
}

impl Board {
    /// Whether `side` has exactly one king on the board.
    fn side_king_check(&self, side: Side) -> (r: bool)
        ensures
            r == self.side_king_ok(side),
    {
        let mut found: Option<u8> = None;
        let mut q: u8 = 0;
        while q < 64
            invariant
                q <= 64,
                match found {
                    Some(k) => k < q && self.is_king_sq(side, k as u64) && (forall|j: u64|
                        j < q && self.is_king_sq(side, j) ==> j == k),
                    None => forall|j: u64| j < q ==> !self.is_king_sq(side, j),
                },
            decreases 64 - q,
        {
            let held = match self.mailbox[q as usize] {
                Some(p) => p == Piece::King,
                None => false,
            };
            if held && bit_test(self.side(side), q) {
                match found {
                    Some(k) => {
                        proof {
                            assert(self.is_king_sq(side, k as u64));
                            assert(self.is_king_sq(side, q as u64));
                            assert(k as u64 != q as u64);
                            assert(!self.side_king_ok(side));
                        }
                        return false;
                    },
                    None => {
                        found = Some(q);
                    },
                }
            }
            q = q + 1;
        }
        match found {
            Some(k) => {
                proof {
                    assert(self.is_king_sq(side, k as u64));
                }
                true
            },
            None => false,
        }
    }

    /// Whether both sides have exactly one king.
    fn kings_check(&self) -> (r: bool)
        ensures
            r == self.kings_ok(),
    {
        let w = self.side_king_check(Side::White);
        let b = self.side_king_check(Side::Black);
        w && b
    }

    /// Whether the en-passant target is consistent with the placement.
    fn ep_check(&self) -> (r: bool)
        ensures
            r == self.ep_ok(),
    {
        match self.ep_sq {
            None => true,
            Some(t) => {
                if self.stm == Side::White {
                    40 <= t.0 && t.0 < 48 && self.mailbox[t.0 as usize].is_none() && (
                    match self.mailbox[(t.0 - 8) as usize] {
                        Some(p) => p == Piece::Pawn,
                        None => false,
                    }) && bit_test(self.black_bb, t.0 - 8)
                } else {
                    16 <= t.0 && t.0 < 24 && self.mailbox[t.0 as usize].is_none() && (
                    match self.mailbox[(t.0 + 8) as usize] {
                        Some(p) => p == Piece::Pawn,
                        None => false,
                    }) && bit_test(self.white_bb, t.0 + 8)
                }
            },
        }
    }

    /// Whether every held castling right still has its king and rook at
    /// home.
    fn castle_check_inv(&self) -> (r: bool)
        ensures
            r == self.castle_ok(),
    {
        let wk = match self.mailbox[4] {
            Some(p) => p == Piece::King,
            None => false,
        };
        let bk = match self.mailbox[60] {
            Some(p) => p == Piece::King,
            None => false,
        };
        let r_a1 = match self.mailbox[0] {
            Some(p) => p == Piece::Rook,
            None => false,
        };
        let r_h1 = match self.mailbox[7] {
            Some(p) => p == Piece::Rook,
            None => false,
        };
        let r_a8 = match self.mailbox[56] {
            Some(p) => p == Piece::Rook,
            None => false,
        };
        let r_h8 = match self.mailbox[63] {
            Some(p) => p == Piece::Rook,
            None => false,
        };
        self.castle < 16 && (self.castle & 0x1 == 0 || (wk && bit_test(self.white_bb, 4) && r_h1
            && bit_test(self.white_bb, 7))) && (self.castle & 0x2 == 0 || (wk && bit_test(
            self.white_bb,
            4,
        ) && r_a1 && bit_test(self.white_bb, 0))) && (self.castle & 0x4 == 0 || (bk && bit_test(
            self.black_bb,
            60,
        ) && r_h8 && bit_test(self.black_bb, 63))) && (self.castle & 0x8 == 0 || (bk && bit_test(
            self.black_bb,
            60,
        ) && r_a8 && bit_test(self.black_bb, 56)))
    }

    /// Decodes a position description.  Returns the fully reconstructed,
    /// well-formed position — every representation rebuilt through the
    /// toggling primitive and all five hash channels computed from scratch —
    /// or nothing on malformed text or a position that would break
    /// well-formedness.
    pub fn from_fen(fen: &str) -> (r: Option<Board>)
        ensures
            r == spec_from_fen(fen.spec_bytes()),
            r matches Some(b) ==> b.inv(),
    {
        let bytes = fen.as_bytes();
        let parts: Vec<Vec<u8>> = split_ws_exec(bytes);
        if parts.len() < 4 {
            return None;
        }
        proof {
            assert(parts.deep_view()[0] == parts@[0].deep_view());
            assert(parts.deep_view()[1] == parts@[1].deep_view());
            assert(parts.deep_view()[2] == parts@[2].deep_view());
            assert(parts.deep_view()[3] == parts@[3].deep_view());
        }

        let mut board = Board::empty();
        proof {
            assert(board.mailbox@ =~= spec_empty_board().mailbox@);
            assert(board =~= spec_empty_board());
        }
        let row = &parts[0];
        let ghost rowseq = row.deep_view();
        let n = row.len();
        let mut i: usize = 0;
        let mut rank: u8 = 7;
        let mut file: u8 = 0;
        while i < n
            invariant
                i <= n,
                n == rowseq.len(),
                rowseq == row.deep_view(),
                split_ws(fen.spec_bytes()).len() >= 4,
                rowseq == split_ws(fen.spec_bytes())[0],
                rank <= 7,
                file <= 8,
                board.geo_ok(),
                board.hashes_ok(),
                board.stm == Side::White && board.hm == 0 && board.fm == 0 && board.ep_sq is None
                    && board.castle == 0,
                place_scan(spec_empty_board(), rowseq, 0, 7, 0) == place_scan(
                    board,
                    rowseq,
                    i as int,
                    rank as int,
                    file as int,
                ),
                forall|q: u64|
                    q < 64 && (q / 8 < rank as u64 || (q / 8 == rank as u64 && q % 8
                        >= file as u64)) ==> #[trigger] board.piece_on(q) is None && !bit(
                        board.white_bb,
                        q,
                    ) && !bit(board.black_bb, q),
            decreases n - i,
        {
            let c = row[i];
            proof {
                assert(rowseq[i as int] == c);
            }
            if c == 47 {
                if rank == 0 {
                    return None;
                }
                rank = rank - 1;
                file = 0;
            } else if 49 <= c && c <= 56 {
                let nf = file + (c - 48);
                if nf > 8 {
                    return None;
                }
                file = nf;
            } else {
                let (p, s) = match spec_piece_byte_exec(c) {
                    Some(ps) => ps,
                    None => {
                        return None;
                    },
                };
                if file > 7 {
                    return None;
                }
                let sq = Square(rank * 8 + file);
                proof {
                    assert(board.piece_on(sq.0 as u64) is None && !bit(
                        board.white_bb,
                        sq.0 as u64,
                    ) && !bit(board.black_bb, sq.0 as u64));
                    board.lemma_toggle_keeps(sq, p, s);
                }
                board.toggle_sq(sq, p, s);
                file = file + 1;
            }
            i = i + 1;
        }
        if rank != 0 {
            return None;
        }
        let ghost b0 = board;

        proof {
            assert(parts@[1].deep_view() =~= parts@[1]@);
            assert(parts@[2].deep_view() =~= parts@[2]@);
            assert(parts@[3].deep_view() =~= parts@[3]@);
        }
        let stm = match parse_stm_bytes(&parts[1]) {
            Some(s) => s,
            None => {
                return None;
            },
        };
        let cr = match parse_castle_bytes(parts[2].as_slice()) {
            Some(c) => c,
            None => {
                return None;
            },
        };
        let ep = match parse_ep_bytes(parts[3].as_slice()) {
            Some(e) => e,
            None => {
                return None;
            },
        };
        let hm = if parts.len() >= 5 {
            proof {
                assert(parts.deep_view()[4] == parts@[4].deep_view());
                assert(parts@[4].deep_view() =~= parts@[4]@);
            }
            parse_u8_bytes(parts[4].as_slice())
        } else {
            0
        };
        let fm = if parts.len() >= 6 {
            proof {
                assert(parts.deep_view()[5] == parts@[5].deep_view());
                assert(parts@[5].deep_view() =~= parts@[5]@);
            }
            parse_u8_bytes(parts[5].as_slice())
        } else {
            0
        };
        board.stm = stm;
        board.castle = cr;
        board.ep_sq = ep;
        board.hm = hm;
        board.fm = fm;
        proof {
            assert(board =~= (Board { stm, castle: cr, ep_sq: ep, hm, fm, ..b0 }));
            crate::board::lemma_same_placement(b0, board);
            assert(board.geo_ok());
        }

        if !(board.kings_check() && board.ep_check() && board.castle_check_inv()) {
            return None;
        }
        let h_full = board.calc_hash();
        let h_pawn = board.calc_chan(Chan::Pawns);
        let h_npw = board.calc_chan(Chan::NonPawn(Side::White));
        let h_npb = board.calc_chan(Chan::NonPawn(Side::Black));
        let h_maj = board.calc_chan(Chan::Majors);
        let h_min = board.calc_chan(Chan::Minors);
        let ghost b1 = board;
        board.hash = h_full;
        board.pawn_hash = h_pawn;
        board.non_pawn_hash_w = h_npw;
        board.non_pawn_hash_b = h_npb;
        board.major_hash = h_maj;
        board.minor_hash = h_min;
        proof {
            assert(spec_from_fen(fen.spec_bytes()) is Some);
            assert(board =~= spec_from_fen(fen.spec_bytes()).unwrap());
            crate::board::lemma_same_placement(b1, board);
            assert(board.geo_ok());
            assert(board.hashes_ok());
            assert(board.inv());
        }
        Some(board)
    }
}

/// The placement letter of a piece: uppercase for white.
pub open spec fn spec_piece_byte(p: Piece, s: Side) -> u8 {
    let lower: u8 = match p {
        Piece::Pawn => 112,
        Piece::Knight => 110,
        Piece::Bishop => 98,
        Piece::Rook => 114,
        Piece::Queen => 113,
        Piece::King => 107,
    };
    if s == Side::White {
        (lower - 32) as u8
    } else {
        lower
    }
}

/// The placement letter of a piece: uppercase for white.
pub fn piece_to_char(piece: Piece, side: Side) -> (r: char)
    ensures
        r as u8 == spec_piece_byte(piece, side),
        (r as u32) < 128,
{
    let ch = match piece {
        Piece::Pawn => 'p',
        Piece::Knight => 'n',
        Piece::Bishop => 'b',
        Piece::Rook => 'r',
        Piece::Queen => 'q',
        Piece::King => 'k',
    };
    if side == Side::White {
        match ch {
            'p' => 'P',
            'n' => 'N',
            'b' => 'B',
            'r' => 'R',
            'q' => 'Q',
            _ => 'K',
        }
    } else {
        ch
    }
}

/// The bytes a rank's placement emits, walking from `file` with `empt`
/// pending empty squares: digits for runs of empties, letters for pieces.
pub open spec fn row_emit(b: Board, rank: int, file: int, empt: int) -> Seq<u8>
    decreases 8 - file,
{
    if file < 0 || file >= 8 {
        if empt > 0 {
            seq![(48 + empt) as u8]
        } else {
            seq![]
        }
    } else {
        match b.piece_on((rank * 8 + file) as u64) {
            None => row_emit(b, rank, file + 1, empt + 1),
            Some(p) => (if empt > 0 {
                seq![(48 + empt) as u8]
            } else {
                seq![]
            }) + seq![spec_piece_byte(p, b.side_on((rank * 8 + file) as u64))] + row_emit(
                b,
                rank,
                file + 1,
                0,
            ),
        }
    }
}

/// The placement field: ranks eight down to one, separated by slashes.
pub open spec fn rows_emit(b: Board, rank: int) -> Seq<u8>
    decreases rank + 1,
{
    if rank < 0 {
        seq![]
    } else if rank > 0 {
        row_emit(b, rank, 0, 0) + seq![47u8] + rows_emit(b, rank - 1)
    } else {
        row_emit(b, rank, 0, 0)
    }
}

/// The castling-rights field: held rights in the fixed order `KQkq`, or a
/// dash.
pub open spec fn castle_emit(c: u8) -> Seq<u8> {
    ((if crate::board::spec_has_wks(c) {
        seq![75u8]
    } else {
        seq![]
    }) + (if crate::board::spec_has_wqs(c) {
        seq![81u8]
    } else {
        seq![]
    }) + (if crate::board::spec_has_bks(c) {
        seq![107u8]
    } else {
        seq![]
    }) + (if crate::board::spec_has_bqs(c) {
        seq![113u8]
    } else {
        seq![]
    })) + (if c == 0 {
        seq![45u8]
    } else {
        seq![]
    })
}

/// The en-passant field: the target square's name, or a dash.
pub open spec fn ep_emit(b: Board) -> Seq<u8> {
    match b.ep_sq {
        Some(t) => seq![(97 + t.0 % 8) as u8, (49 + t.0 / 8) as u8],
        None => seq![45u8],
    }
}

/// The decimal digits of a counter value.
pub open spec fn dec_emit(n: int) -> Seq<u8> {
    if n < 10 {
        seq![(48 + n) as u8]
    } else if n < 100 {
        seq![(48 + n / 10) as u8, (48 + n % 10) as u8]
    } else {
        seq![(48 + n / 100) as u8, (48 + (n / 10) % 10) as u8, (48 + n % 10) as u8]
    }
}

/// The full encoding of a position: the six fields joined by single spaces.
pub open spec fn fen_bytes(b: Board) -> Seq<u8> {
    rows_emit(b, 7) + seq![32u8] + seq![
        (if b.stm == Side::White {
            119u8
        } else {
            98u8
        }),
    ] + seq![32u8] + castle_emit(b.castle) + seq![32u8] + ep_emit(b) + seq![32u8] + dec_emit(
        b.hm as int,
    ) + seq![32u8] + dec_emit(b.fm as int)
}

/// All bytes of a sequence are ASCII.
pub open spec fn all_ascii(s: Seq<u8>) -> bool {
    forall|i: int| 0 <= i < s.len() ==> s[i] < 128
}

/// Relies on `String::from_utf8`: a sequence of ASCII bytes is valid UTF-8
/// and decodes to the same sequence of characters.
#[verifier::external_body]
fn ascii_bytes_to_string(bytes: Vec<u8>) -> (r: String)
    requires
        all_ascii(bytes@),
    ensures
        r@ == bytes@.map_values(|c: u8| c as char),
{
    match String::from_utf8(bytes) {
        Ok(s) => s,
        Err(_) => String::new(),
    }
}

impl Board {
    /// Appends one rank's placement run to `out`.
    fn emit_row(&self, rank: u8, out: &mut Vec<u8>)
        requires
            rank < 8,
        ensures
            final(out)@ == old(out)@ + row_emit(*self, rank as int, 0, 0),
            all_ascii(old(out)@) ==> all_ascii(final(out)@),
    {
        let mut file: u8 = 0;
        let mut empt: u8 = 0;
        while file < 8
            invariant
                rank < 8,
                file <= 8,
                empt <= file,
                all_ascii(old(out)@) ==> all_ascii(out@),
                old(out)@ + row_emit(*self, rank as int, 0, 0) == out@ + row_emit(
                    *self,
                    rank as int,
                    file as int,
                    empt as int,
                ),
            decreases 8 - file,
        {
            let sq = rank * 8 + file;
            match self.mailbox[sq as usize] {
                Some(p) => {
                    let ghost pre = out@;
                    if empt > 0 {
                        out.push(48 + empt);
                    }
                    let side = if bit_test(self.white_bb, sq) {
                        Side::White
                    } else {
                        Side::Black
                    };
                    let pb = piece_to_char(p, side);
                    out.push(pb as u8);
                    proof {
                        assert(out@ =~= pre + (if empt > 0 {
                            seq![(48 + empt) as u8]
                        } else {
                            seq![]
                        }) + seq![spec_piece_byte(p, self.side_on(sq as u64))]);
                        assert(pre + row_emit(*self, rank as int, file as int, empt as int) =~= out@
                            + row_emit(*self, rank as int, file as int + 1, 0));
                    }
                    empt = 0;
                },
                None => {
                    empt = empt + 1;
                },
            }
            file = file + 1;
        }
        if empt > 0 {
            let ghost pre = out@;
            out.push(48 + empt);
            proof {
                assert(out@ =~= pre + row_emit(*self, rank as int, 8, empt as int));
            }
        } else {
            proof {
                assert(out@ =~= out@ + row_emit(*self, rank as int, 8, 0));
            }
        }
        proof {
            assert(out@ =~= old(out)@ + row_emit(*self, rank as int, 0, 0));
        }
    }

    /// Encodes the position as its six-field text description: placement,
    /// side to move, castling rights in the fixed order, en-passant target,
    /// half-move clock and full-move number.
    #[verifier::rlimit(80)]
    pub fn to_fen(&self) -> (r: String)
        ensures
            r@ == fen_bytes(*self).map_values(|c: u8| c as char),
    {
        let mut out: Vec<u8> = Vec::new();
        let mut i: u8 = 0;
        proof {
            assert(out@ =~= Seq::<u8>::empty());
            assert(out@ + rows_emit(*self, 7) =~= rows_emit(*self, 7));
        }
        while i < 8
            invariant
                i <= 8,
                all_ascii(out@),
                rows_emit(*self, 7) == out@ + rows_emit(*self, 7 - i as int),
            decreases 8 - i,
        {
            let rank = 7 - i;
            let ghost pre = out@;
            self.emit_row(rank, &mut out);
            if rank > 0 {
                out.push(47);
                proof {
                    assert(out@ =~= pre + (row_emit(*self, rank as int, 0, 0) + seq![47u8]));
                    assert(pre + rows_emit(*self, rank as int) =~= out@ + rows_emit(
                        *self,
                        rank as int - 1,
                    ));
                }
            } else {
                proof {
                    assert(rows_emit(*self, 0) == row_emit(*self, 0, 0, 0));
                    assert(pre + rows_emit(*self, 0) =~= out@ + rows_emit(*self, -1));
                }
            }
            i = i + 1;
        }
        proof {
            assert(rows_emit(*self, -1) =~= Seq::<u8>::empty());
            assert(out@ =~= rows_emit(*self, 7));
        }
        self.emit_fields(&mut out);
        proof {
            assert(out@ =~= fen_bytes(*self));
        }
        ascii_bytes_to_string(out)
    }

    /// Appends the five trailing fields, each preceded by a space.
    #[verifier::rlimit(80)]
    fn emit_fields(&self, out: &mut Vec<u8>)
        ensures
            final(out)@ == ((((((((old(out)@ + seq![32u8] + seq![
                (if self.stm == Side::White {
                    119u8
                } else {
                    98u8
                }),
            ]) + seq![32u8]) + castle_emit(self.castle)) + seq![32u8]) + ep_emit(*self))
                + seq![32u8]) + dec_emit(self.hm as int)) + seq![32u8]) + dec_emit(
                self.fm as int,
            ),
            all_ascii(old(out)@) ==> all_ascii(final(out)@),
    {
        out.push(32);
        out.push(if self.stm == Side::White {
            119
        } else {
            98
        });
        out.push(32);
        emit_castle(self.castle, out);
        out.push(32);
        match self.ep_sq {
            Some(t) => {
                let ghost pre_ep = out@;
                out.push(97 + t.0 % 8);
                out.push(49 + t.0 / 8);
                proof {
                    assert(out@ =~= pre_ep + ep_emit(*self));
                }
            },
            None => {
                out.push(45);
            },
        }
        out.push(32);
        emit_dec(self.hm, out);
        out.push(32);
        emit_dec(self.fm, out);
        proof {
            assert(out@ =~= ((((((((old(out)@ + seq![32u8] + seq![
                (if self.stm == Side::White {
                    119u8
                } else {
                    98u8
                }),
            ]) + seq![32u8]) + castle_emit(self.castle)) + seq![32u8]) + ep_emit(*self))
                + seq![32u8]) + dec_emit(self.hm as int)) + seq![32u8]) + dec_emit(
                self.fm as int,
            ));
        }
    }
}

/// Appends the castling-rights field to `out`.
#[verifier::rlimit(60)]
fn emit_castle(c: u8, out: &mut Vec<u8>)
    ensures
        final(out)@ == old(out)@ + castle_emit(c),
        all_ascii(old(out)@) ==> all_ascii(final(out)@),
{
    if c & 0x1 != 0 {
        out.push(75);
    }
    if c & 0x2 != 0 {
        out.push(81);
    }
    if c & 0x4 != 0 {
        out.push(107);
    }
    if c & 0x8 != 0 {
        out.push(113);
    }
    if c == 0 {
        proof {
            crate::board::lemma_no_rights();
        }
        out.push(45);
    }
    proof {
        assert(out@ =~= old(out)@ + castle_emit(c));
    }
}

/// Appends the decimal digits of `n` to `out`.
fn emit_dec(n: u8, out: &mut Vec<u8>)
    ensures
        final(out)@ == old(out)@ + dec_emit(n as int),
        all_ascii(old(out)@) ==> all_ascii(final(out)@),
{
    let ghost pre = out@;
    if n < 10 {
        out.push(48 + n);
    } else if n < 100 {
        out.push(48 + n / 10);
        out.push(48 + n % 10);
    } else {
        out.push(48 + n / 100);
        out.push(48 + (n / 10) % 10);
        out.push(48 + n % 10);
    }
    proof {
        assert(out@ =~= pre + dec_emit(n as int));
    }
}

/// Decoding inverts encoding on the counter fields: the digits a half-move
/// or full-move value emits parse back to that value.
pub proof fn lemma_dec_round_trip(n: u8)
    ensures
        spec_parse_u8(dec_emit(n as int)) == n,
{
    let f = dec_emit(n as int);
    if n < 10 {
        assert(f[0] == 48 + n);
        assert(dec_acc(f, 0, 0) == dec_acc(f, 1, n as int));
    } else if n < 100 {
        vstd::arithmetic::div_mod::lemma_fundamental_div_mod(n as int, 10);
        assert(f[0] == 48 + n / 10 && f[1] == 48 + n % 10);
        assert(dec_acc(f, 0, 0) == dec_acc(f, 1, n as int / 10));
        assert(dec_acc(f, 1, n as int / 10) == dec_acc(f, 2, n as int));
    } else {
        vstd::arithmetic::div_mod::lemma_fundamental_div_mod(n as int, 10);
        vstd::arithmetic::div_mod::lemma_fundamental_div_mod(n as int / 10, 10);
        assert(n as int / 10 / 10 == n as int / 100) by {
            vstd::arithmetic::div_mod::lemma_div_denominator(n as int, 10, 10);
        }
        assert(f[0] == 48 + n / 100 && f[1] == 48 + (n / 10) % 10 && f[2] == 48 + n % 10);
        assert(dec_acc(f, 0, 0) == dec_acc(f, 1, n as int / 100));
        assert((n as int / 100) * 10 + (n as int / 10) % 10 == n as int / 10);
        assert(dec_acc(f, 1, n as int / 100) == dec_acc(f, 2, n as int / 10));
        assert(dec_acc(f, 2, n as int / 10) == dec_acc(f, 3, n as int));
    }
}

/// Decoding inverts encoding on the side-to-move field.
pub proof fn lemma_stm_round_trip(s: Side)
    ensures
        spec_parse_stm(
            seq![
                (if s == Side::White {
                    119u8
                } else {
                    98u8
                }),
            ],
        ) == Some(s),
{
}

/// Decoding inverts encoding on the en-passant field: the emitted target
/// name parses back to the same target.
pub proof fn lemma_ep_round_trip(b: Board)
    requires
        b.ep_sq matches Some(t) ==> t.0 < 64,
    ensures
        spec_parse_ep(ep_emit(b)) == Some(b.ep_sq),
{
    match b.ep_sq {
        Some(t) => {
            let f = ep_emit(b);
            assert(f[0] == 97 + t.0 % 8 && f[1] == 49 + t.0 / 8);
            vstd::arithmetic::div_mod::lemma_fundamental_div_mod(t.0 as int, 8);
            assert(spec_parse_ep(f) == Some(Some(Square(((t.0 / 8) * 8 + t.0 % 8) as u8))));
        },
        None => {
            let f = ep_emit(b);
            assert(f.len() == 1 && f[0] == 45);
        },
    }
}

/// Decoding inverts encoding on the castling-rights field: the emitted
/// letters parse back to the same rights mask.
pub proof fn lemma_castle_round_trip(c: u8)
    requires
        c < 16,
    ensures
        spec_parse_castle(castle_emit(c)) == Some(c),
{
    let f = castle_emit(c);
    lemma_castle_bits_combine(c);
    if c == 0 {
        crate::board::lemma_no_rights();
        assert(f =~= seq![45u8]);
        assert(castle_wf_from(f, 1));
        assert(0u8 | 0u8 == 0u8) by (bit_vector);
        assert(castle_acc(f, 1, 0) == 0);
        assert(castle_byte_mask(45) == 0);
    } else {
        let s1: Seq<u8> = if crate::board::spec_has_wks(c) {
            seq![75u8]
        } else {
            seq![]
        };
        let s2: Seq<u8> = if crate::board::spec_has_wqs(c) {
            seq![81u8]
        } else {
            seq![]
        };
        let s3: Seq<u8> = if crate::board::spec_has_bks(c) {
            seq![107u8]
        } else {
            seq![]
        };
        let s4: Seq<u8> = if crate::board::spec_has_bqs(c) {
            seq![113u8]
        } else {
            seq![]
        };
        assert(f =~= s1 + s2 + s3 + s4);
        lemma_castle_parse_tail(f, 0, 0, c);
    }
}

/// The castling letters emitted for mask `c`, read from position `i` with
/// `acc` already accumulated, are well formed and accumulate to `c`.
proof fn lemma_castle_parse_tail(f: Seq<u8>, i: int, acc: u8, c: u8)
    requires
        c < 16,
        0 <= i <= f.len(),
        f == (if crate::board::spec_has_wks(c) {
            seq![75u8]
        } else {
            Seq::<u8>::empty()
        }) + (if crate::board::spec_has_wqs(c) {
            seq![81u8]
        } else {
            Seq::<u8>::empty()
        }) + (if crate::board::spec_has_bks(c) {
            seq![107u8]
        } else {
            Seq::<u8>::empty()
        }) + (if crate::board::spec_has_bqs(c) {
            seq![113u8]
        } else {
            Seq::<u8>::empty()
        }),
        acc == spec_acc_prefix(c, f.len() - i),
    ensures
        castle_wf_from(f, i),
        castle_acc(f, i, acc) == c,
    decreases f.len() - i,
{
    lemma_castle_bits_combine(c);
    if i < f.len() {
        lemma_castle_parse_tail(f, i + 1, acc | castle_byte_mask(f[i]), c);
    }
}

/// The rights accumulated once only the last `left` emitted letters of the
/// mask `c` remain to be read.
pub open spec fn spec_acc_prefix(c: u8, left: int) -> u8 {
    let n4: int = if crate::board::spec_has_bqs(c) {
        1int
    } else {
        0int
    };
    let n3: int = n4 + (if crate::board::spec_has_bks(c) {
        1int
    } else {
        0int
    });
    let n2: int = n3 + (if crate::board::spec_has_wqs(c) {
        1int
    } else {
        0int
    });
    if left >= n2 + (if crate::board::spec_has_wks(c) {
        1int
    } else {
        0int
    }) {
        0
    } else if left >= n2 {
        c & 0x1
    } else if left >= n3 {
        c & 0x3
    } else if left >= n4 {
        c & 0x7
    } else {
        c & 0xF
    }
}

/// How the emitted rights letters accumulate bit by bit.
proof fn lemma_castle_bits_combine(c: u8)
    by (bit_vector)
    requires
        c < 16,
    ensures
        c & 0xF == c,
        (c & 0x1 != 0) ==> (0u8 | 0x1) == (c & 0x1),
        (c & 0x1 == 0) ==> 0u8 == (c & 0x1),
        (c & 0x2 != 0) ==> ((c & 0x1) | 0x2) == (c & 0x3),
        (c & 0x2 == 0) ==> (c & 0x1) == (c & 0x3),
        (c & 0x4 != 0) ==> ((c & 0x3) | 0x4) == (c & 0x7),
        (c & 0x4 == 0) ==> (c & 0x3) == (c & 0x7),
        (c & 0x8 != 0) ==> ((c & 0x7) | 0x8) == (c & 0xF),
        (c & 0x8 == 0) ==> (c & 0x7) == (c & 0xF),
{
}

/// Parses the side-to-move field from bytes.
fn parse_stm_bytes(f: &Vec<u8>) -> (r: Option<Side>)
    ensures
        r == spec_parse_stm(f.deep_view()),
{
    if f.len() == 1 && f[0] == 119 {
        Some(Side::White)
    } else if f.len() == 1 && f[0] == 98 {
        Some(Side::Black)
    } else {
        None
    }
}

/// Parses a placement letter given as a byte.
fn spec_piece_byte_exec(c: u8) -> (r: Option<(Piece, Side)>)
    ensures
        r == spec_piece_of_byte(c),
{
    match c {
        80 => Some((Piece::Pawn, Side::White)),
        78 => Some((Piece::Knight, Side::White)),
        66 => Some((Piece::Bishop, Side::White)),
        82 => Some((Piece::Rook, Side::White)),
        81 => Some((Piece::Queen, Side::White)),
        75 => Some((Piece::King, Side::White)),
        112 => Some((Piece::Pawn, Side::Black)),
        110 => Some((Piece::Knight, Side::Black)),
        98 => Some((Piece::Bishop, Side::Black)),
        114 => Some((Piece::Rook, Side::Black)),
        113 => Some((Piece::Queen, Side::Black)),
        107 => Some((Piece::King, Side::Black)),
        _ => None,
    }
}

} // verus!
