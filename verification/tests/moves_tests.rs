use chess_core::attacks::{attacks, is_attacked, is_check};
use chess_core::board::{popcount, Board};
use chess_core::moves::{Move, MoveFlag};
use chess_core::types::{Piece, Side, Square};

#[test]
fn parse_uci_reads_squares_and_promotions() {
    let m = Move::parse_uci("g1f3").unwrap();
    assert_eq!(m.from(), Square(6));
    assert_eq!(m.to(), Square(21));
    assert_eq!(m.flag(), MoveFlag::Quiet);
    assert_eq!(m.promo_piece(), None);
    assert!(m.is_real());
    assert!(!m.is_castle());
    assert!(!m.is_ep());
    assert!(!m.is_promo());
    assert!(!m.is_double_push());

    let p = Move::parse_uci("f7g8q").unwrap();
    assert_eq!(p.from(), Square(53));
    assert_eq!(p.to(), Square(62));
    assert_eq!(p.flag(), MoveFlag::PromoQueen);
    assert_eq!(p.promo_piece(), Some(Piece::Queen));
    assert!(p.is_promo());

    assert_eq!(Move::parse_uci("a7a8n").unwrap().promo_piece(), Some(Piece::Knight));
    assert_eq!(Move::parse_uci("a7a8b").unwrap().promo_piece(), Some(Piece::Bishop));
    assert_eq!(Move::parse_uci("a7a8r").unwrap().promo_piece(), Some(Piece::Rook));

    assert!(Move::parse_uci("").is_none());
    assert!(Move::parse_uci("e2").is_none());
    assert!(Move::parse_uci("i2e4").is_none());
    assert!(Move::parse_uci("e2e9").is_none());
    assert!(Move::parse_uci("e2e4x").is_none());
}

#[test]
fn parse_uci_with_flag_overrides() {
    let m = Move::parse_uci_with_flag("e5f6", MoveFlag::EnPassant).unwrap();
    assert_eq!(m.flag(), MoveFlag::EnPassant);
    assert!(m.is_ep());
    let n = Move::parse_uci_with_flag("e1g1", MoveFlag::CastleK).unwrap();
    assert!(n.is_castle());
}

#[test]
fn null_descriptor_is_not_real() {
    let m = Move { from: Square(0), to: Square(0), flag: MoveFlag::Quiet };
    assert!(!m.is_real());
}

#[test]
fn knight_attack_set_from_corner_and_centre() {
    // A knight on g1 attacks e2, f3 and h3.
    let set = attacks(Square(6), Piece::Knight, Side::White, 0);
    assert_eq!(popcount(set), 3);
    assert_ne!(set & (1u64 << 21), 0);
    // A knight on d4 attacks eight squares.
    let set = attacks(Square(27), Piece::Knight, Side::White, 0);
    assert_eq!(popcount(set), 8);
}

#[test]
fn sliding_attacks_respect_blockers() {
    // A rook on a1 with a blocker on a3 reaches a2, a3, and along rank one.
    let occ = (1u64 << 16) | 1u64;
    let set = attacks(Square(0), Piece::Rook, Side::White, occ);
    assert_ne!(set & (1u64 << 8), 0);
    assert_ne!(set & (1u64 << 16), 0);
    assert_eq!(set & (1u64 << 24), 0);
    // A bishop on c1 reaches b2 and a3.
    let set = attacks(Square(2), Piece::Bishop, Side::White, 0);
    assert_ne!(set & (1u64 << 9), 0);
    assert_ne!(set & (1u64 << 16), 0);
    assert_eq!(set & (1u64 << 10), 0);
}

#[test]
fn check_detection() {
    let board = Board::from_fen("4k3/4R3/8/8/8/8/8/4K3 b - - 0 1").unwrap();
    assert!(is_check(&board, Side::Black));
    assert!(!is_check(&board, Side::White));
    let board = Board::new();
    assert!(!is_check(&board, Side::White));
    assert!(!is_check(&board, Side::Black));
}

#[test]
fn attacked_squares_mask() {
    let board = Board::new();
    // White to move: no square of the white back rank is attacked by black.
    assert!(!is_attacked(0xFF, Side::White, board.occ(), &board));
    // Rank six is covered by black pawns.
    let rank6 = 0xFF_0000_0000_0000u64 >> 8;
    assert!(is_attacked(rank6, Side::White, board.occ(), &board));
}
