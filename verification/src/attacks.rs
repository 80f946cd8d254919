//! Attack geometry and check detection.
//!
//! A piece on a square reaches a target square when the movement geometry of
//! its type allows it and, for sliding pieces, every square strictly between
//! the two is unoccupied.  The predicates here are stated over file and rank
//! coordinates; the executable functions scan the between squares and are
//! proved to decide exactly the stated geometry.

use vstd::prelude::*;
use crate::board::Board;
use crate::types::{bit, bit_test, sq_ok, Piece, Side, Square};

verus! {

/// File (column) of a square index.
pub open spec fn fl(s: u64) -> int {
    (s % 8) as int
}

/// Rank (row) of a square index.
pub open spec fn rk(s: u64) -> int {
    (s / 8) as int
}

/// A knight on `a` reaches `t`.
pub open spec fn knight_reach(a: u64, t: u64) -> bool {
    let df = fl(t) - fl(a);
    let dr = rk(t) - rk(a);
    ((df == 1 || df == -1) && (dr == 2 || dr == -2)) || ((df == 2 || df == -2) && (dr == 1 || dr
        == -1))
}

/// A king on `a` reaches `t`.
pub open spec fn king_reach(a: u64, t: u64) -> bool {
    let df = fl(t) - fl(a);
    let dr = rk(t) - rk(a);
    -1 <= df <= 1 && -1 <= dr <= 1 && !(df == 0 && dr == 0)
}

/// A pawn of `side` on `a` attacks `t`: one rank forward, one file aside.
pub open spec fn pawn_reach(side: Side, a: u64, t: u64) -> bool {
    let df = fl(t) - fl(a);
    let dr = rk(t) - rk(a);
    (df == 1 || df == -1) && dr == (if side == Side::White {
        1int
    } else {
        -1int
    })
}

/// The square index on file `f` and rank `r`.
pub open spec fn fr_sq(f: int, r: int) -> u64 {
    (r * 8 + f) as u64
}

/// Every square strictly between two ranks on one file is empty in `occ`.
pub open spec fn file_clear(occ: u64, f: int, r1: int, r2: int) -> bool {
    forall|r: int| r1 < r < r2 ==> !bit(occ, #[trigger] fr_sq(f, r))
}

/// Every square strictly between two files on one rank is empty in `occ`.
pub open spec fn rank_clear(occ: u64, r: int, f1: int, f2: int) -> bool {
    forall|f: int| f1 < f < f2 ==> !bit(occ, #[trigger] fr_sq(f, r))
}

/// The `k`-th square on the diagonal walk from `a` towards `t`.
pub open spec fn diag_step(a: u64, t: u64, k: int) -> u64 {
    (((rk(a) + (if rk(t) > rk(a) {
        k
    } else {
        -k
    })) * 8) + (fl(a) + (if fl(t) > fl(a) {
        k
    } else {
        -k
    }))) as u64
}

/// Every square strictly between `a` and `t` on their common diagonal is
/// empty in `occ`; meaningful when the two squares are diagonal.
pub open spec fn diag_clear(occ: u64, a: u64, t: u64) -> bool {
    let n = if fl(t) >= fl(a) {
        fl(t) - fl(a)
    } else {
        fl(a) - fl(t)
    };
    forall|k: int| 1 <= k < n ==> !bit(occ, #[trigger] diag_step(a, t, k))
}

/// A rook on `a` reaches `t` over the occupancy `occ`.
pub open spec fn rook_reach(occ: u64, a: u64, t: u64) -> bool {
    ||| (fl(a) == fl(t) && rk(a) != rk(t) && (if rk(a) < rk(t) {
        file_clear(occ, fl(a), rk(a), rk(t))
    } else {
        file_clear(occ, fl(a), rk(t), rk(a))
    }))
    ||| (rk(a) == rk(t) && fl(a) != fl(t) && (if fl(a) < fl(t) {
        rank_clear(occ, rk(a), fl(a), fl(t))
    } else {
        rank_clear(occ, rk(a), fl(t), fl(a))
    }))
}

/// A bishop on `a` reaches `t` over the occupancy `occ`.
pub open spec fn bishop_reach(occ: u64, a: u64, t: u64) -> bool {
    let df = fl(t) - fl(a);
    let dr = rk(t) - rk(a);
    df != 0 && (df == dr || df == -dr) && diag_clear(occ, a, t)
}

/// A piece of type `pc` and side `side` on `a` attacks `t` over `occ`.
pub open spec fn piece_reach(occ: u64, pc: Piece, side: Side, a: u64, t: u64) -> bool {
    match pc {
        Piece::Pawn => pawn_reach(side, a, t),
        Piece::Knight => knight_reach(a, t),
        Piece::Bishop => bishop_reach(occ, a, t),
        Piece::Rook => rook_reach(occ, a, t),
        Piece::Queen => rook_reach(occ, a, t) || bishop_reach(occ, a, t),
        Piece::King => king_reach(a, t),
    }
}

/// Whether the squares strictly between two ranks on file `f` are all empty.
fn check_file_clear(occ: u64, f: u8, lo: u8, hi: u8) -> (r: bool)
    requires
        f < 8,
        lo < 8,
        hi < 8,
    ensures
        r == file_clear(occ, f as int, lo as int, hi as int),
{
    if hi <= lo {
        return true;
    }
    let mut rr: u8 = lo + 1;
    while rr < hi
        invariant
            lo < rr <= hi < 8,
            f < 8,
            forall|j: int| lo < j < rr ==> !bit(occ, #[trigger] fr_sq(f as int, j)),
        decreases hi - rr,
    {
        proof {
            assert(fr_sq(f as int, rr as int) == (rr * 8 + f) as u64);
        }
        if bit_test(occ, rr * 8 + f) {
            return false;
        }
        rr = rr + 1;
    }
    true
}

/// Whether the squares strictly between two files on rank `r` are all empty.
fn check_rank_clear(occ: u64, r: u8, lo: u8, hi: u8) -> (res: bool)
    requires
        r < 8,
        lo < 8,
        hi < 8,
    ensures
        res == rank_clear(occ, r as int, lo as int, hi as int),
{
    if hi <= lo {
        return true;
    }
    let mut ff: u8 = lo + 1;
    while ff < hi
        invariant
            lo < ff <= hi < 8,
            r < 8,
            forall|j: int| lo < j < ff ==> !bit(occ, #[trigger] fr_sq(j, r as int)),
        decreases hi - ff,
    {
        proof {
            assert(fr_sq(ff as int, r as int) == (r * 8 + ff) as u64);
        }
        if bit_test(occ, r * 8 + ff) {
            return false;
        }
        ff = ff + 1;
    }
    true
}

/// Whether the squares strictly between `a` and `t` on their common diagonal
/// are all empty.
fn check_diag_clear(occ: u64, a: Square, t: Square) -> (res: bool)
    requires
        sq_ok(a),
        sq_ok(t),
        ({
            let df = fl(t.0 as u64) - fl(a.0 as u64);
            let dr = rk(t.0 as u64) - rk(a.0 as u64);
            df != 0 && (df == dr || df == -dr)
        }),
    ensures
        res == diag_clear(occ, a.0 as u64, t.0 as u64),
{
    let af = a.0 % 8;
    let ar = a.0 / 8;
    let tf = t.0 % 8;
    let tr = t.0 / 8;
    let n = if tf >= af {
        tf - af
    } else {
        af - tf
    };
    let mut k: u8 = 1;
    while k < n
        invariant
            sq_ok(a),
            sq_ok(t),
            1 <= k,
            n < 8,
            k <= n || n == 0,
            af == fl(a.0 as u64) && ar == rk(a.0 as u64),
            tf == fl(t.0 as u64) && tr == rk(t.0 as u64),
            n == (if fl(t.0 as u64) >= fl(a.0 as u64) {
                fl(t.0 as u64) - fl(a.0 as u64)
            } else {
                fl(a.0 as u64) - fl(t.0 as u64)
            }),
            n == (if rk(t.0 as u64) >= rk(a.0 as u64) {
                rk(t.0 as u64) - rk(a.0 as u64)
            } else {
                rk(a.0 as u64) - rk(t.0 as u64)
            }),
            forall|j: int| 1 <= j < k ==> !bit(occ, #[trigger] diag_step(a.0 as u64, t.0 as u64, j)),
        decreases n - k,
    {
        let r = if tr > ar {
            ar + k
        } else {
            ar - k
        };
        let f = if tf > af {
            af + k
        } else {
            af - k
        };
        proof {
            assert(r < 8 && f < 8);
            assert((r * 8 + f) as u64 == diag_step(a.0 as u64, t.0 as u64, k as int));
        }
        if bit_test(occ, r * 8 + f) {
            return false;
        }
        k = k + 1;
    }
    true
}

/// Whether a piece of type `pc` and side `side` on `from` attacks `to` over
/// the occupancy `occ`.
pub fn reaches(from: Square, pc: Piece, side: Side, occ: u64, to: Square) -> (r: bool)
    requires
        sq_ok(from),
        sq_ok(to),
    ensures
        r == piece_reach(occ, pc, side, from.0 as u64, to.0 as u64),
{
    let af = (from.0 % 8) as i16;
    let ar = (from.0 / 8) as i16;
    let tf = (to.0 % 8) as i16;
    let tr = (to.0 / 8) as i16;
    let df = tf - af;
    let dr = tr - ar;
    match pc {
        Piece::Pawn => (df == 1 || df == -1) && dr == (if side == Side::White {
            1
        } else {
            -1
        }),
        Piece::Knight => ((df == 1 || df == -1) && (dr == 2 || dr == -2)) || ((df == 2 || df == -2)
            && (dr == 1 || dr == -1)),
        Piece::King => -1 <= df && df <= 1 && -1 <= dr && dr <= 1 && !(df == 0 && dr == 0),
        Piece::Bishop => rbishop(from, occ, to),
        Piece::Rook => rrook(from, occ, to),
        Piece::Queen => {
            let a = rrook(from, occ, to);
            let b = rbishop(from, occ, to);
            a || b
        },
    }
}

/// Rook geometry of [`reaches`].
fn rrook(from: Square, occ: u64, to: Square) -> (r: bool)
    requires
        sq_ok(from),
        sq_ok(to),
    ensures
        r == rook_reach(occ, from.0 as u64, to.0 as u64),
{
    let af = from.0 % 8;
    let ar = from.0 / 8;
    let tf = to.0 % 8;
    let tr = to.0 / 8;
    if af == tf && ar != tr {
        if ar < tr {
            check_file_clear(occ, af, ar, tr)
        } else {
            check_file_clear(occ, af, tr, ar)
        }
    } else if ar == tr && af != tf {
        if af < tf {
            check_rank_clear(occ, ar, af, tf)
        } else {
            check_rank_clear(occ, ar, tf, af)
        }
    } else {
        false
    }
}

/// Bishop geometry of [`reaches`].
fn rbishop(from: Square, occ: u64, to: Square) -> (r: bool)
    requires
        sq_ok(from),
        sq_ok(to),
    ensures
        r == bishop_reach(occ, from.0 as u64, to.0 as u64),
{
    let af = (from.0 % 8) as i16;
    let ar = (from.0 / 8) as i16;
    let tf = (to.0 % 8) as i16;
    let tr = (to.0 / 8) as i16;
    let df = tf - af;
    let dr = tr - ar;
    if df != 0 && (df == dr || df == -dr) {
        check_diag_clear(occ, from, to)
    } else {
        false
    }
}

/// The square `a` holds a piece of `by` that attacks `t` over `occ`.
pub open spec fn attacker_at(b: Board, a: u64, t: u64, by: Side, occ: u64) -> bool {
    match b.piece_on(a) {
        Some(p) => bit(b.spec_side_bb(by), a) && piece_reach(occ, p, by, a, t),
        None => false,
    }
}

/// Some square of `b` holds a piece of `by` that attacks `t` over `occ`.
pub open spec fn attacked_by(b: Board, t: u64, by: Side, occ: u64) -> bool {
    exists|a: u64| a < 64 && #[trigger] attacker_at(b, a, t, by, occ)
}

/// Whether any piece of `by` on the board attacks the square `t` over the
/// occupancy `occ`.
pub fn square_attacked(board: &Board, t: Square, by: Side, occ: u64) -> (r: bool)
    requires
        sq_ok(t),
    ensures
        r == attacked_by(*board, t.0 as u64, by, occ),
{
    let mut a: u8 = 0;
    while a < 64
        invariant
            sq_ok(t),
            a <= 64,
            forall|j: u64| j < a ==> !(#[trigger] attacker_at(*board, j, t.0 as u64, by, occ)),
        decreases 64 - a,
    {
        match board.piece_at(Square(a)) {
            Some(p) => {
                if bit_test(board.side(by), a) && reaches(Square(a), p, by, occ, t) {
                    proof {
                        assert(attacker_at(*board, a as u64, t.0 as u64, by, occ));
                    }
                    return true;
                }
            },
            None => {},
        }
        a = a + 1;
    }
    false
}

/// Some square of the mask `targets` is attacked by the opponent of `side`.
pub open spec fn spec_is_attacked(b: Board, targets: u64, side: Side, occ: u64) -> bool {
    exists|t: u64| t < 64 && bit(targets, t) && attacked_by(b, t, side.spec_flip(), occ)
}

/// Whether any square of the mask `targets` is attacked by the opponent of
/// `side` over the occupancy `occ`.
pub fn is_attacked(targets: u64, side: Side, occ: u64, board: &Board) -> (r: bool)
    ensures
        r == spec_is_attacked(*board, targets, side, occ),
{
    let mut t: u8 = 0;
    while t < 64
        invariant
            t <= 64,
            forall|j: u64|
                j < t ==> !(bit(targets, j) && attacked_by(
                    *board,
                    j,
                    side.spec_flip(),
                    occ,
                )),
        decreases 64 - t,
    {
        if bit_test(targets, t) && square_attacked(board, Square(t), side.flip(), occ) {
            proof {
                assert(bit(targets, t as u64) && attacked_by(*board, t as u64, side.spec_flip(), occ));
            }
            return true;
        }
        t = t + 1;
    }
    false
}

/// The king of `side` stands on a square attacked by the opponent.
pub open spec fn spec_in_check(b: Board, side: Side) -> bool {
    exists|k: u64| b.is_king_sq(side, k) && attacked_by(b, k, side.spec_flip(), b.spec_occ())
}

/// Whether the king of `side` is attacked in the current position.
pub fn is_check(board: &Board, side: Side) -> (r: bool)
    requires
        board.side_king_ok(side),
    ensures
        r == spec_in_check(*board, side),
{
    let k = board.king_sq(side);
    let r = square_attacked(board, k, side.flip(), board.occ());
    proof {
        if spec_in_check(*board, side) {
            let k2 = choose|k2: u64|
                board.is_king_sq(side, k2) && attacked_by(
                    *board,
                    k2,
                    side.spec_flip(),
                    board.spec_occ(),
                );
            assert(k2 == k.0 as u64);
        }
    }
    r
}

/// The full attack set of a piece: one bit for every square the piece on
/// `from` attacks over the occupancy `occ`.
pub fn attacks(from: Square, pc: Piece, side: Side, occ: u64) -> (r: u64)
    requires
        sq_ok(from),
    ensures
        forall|t: u64| t < 64 ==> #[trigger] bit(r, t) == piece_reach(occ, pc, side, from.0 as u64, t),
{
    let mut r: u64 = 0;
    let mut t: u8 = 0;
    proof {
        assert forall|q: u64| q < 64 implies !bit(0u64, q) by {
            crate::board::lemma_bit_zero(q);
        }
    }
    while t < 64
        invariant
            t <= 64,
            sq_ok(from),
            forall|q: u64|
                q < t ==> #[trigger] bit(r, q) == piece_reach(occ, pc, side, from.0 as u64, q),
            forall|q: u64| t <= q < 64 ==> !bit(r, q),
        decreases 64 - t,
    {
        if reaches(from, pc, side, occ, Square(t)) {
            proof {
                assert forall|q: u64| q < 64 implies #[trigger] bit(r | (1u64 << t), q) == (bit(
                    r,
                    q,
                ) || q == t) by {
                    crate::board::lemma_bit_or_and(r, 1u64 << t, q);
                    lemma_bit_single(t as u64, q);
                }
            }
            r = r | (1u64 << t);
        }
        t = t + 1;
    }
    r
}

/// Membership in a one-bit mask.
proof fn lemma_bit_single(s: u64, q: u64)
    by (bit_vector)
    requires
        s < 64,
        q < 64,
    ensures
        bit(1u64 << s, q) == (q == s),
{
}

} // verus!
