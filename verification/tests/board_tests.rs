use chess_core::board::Board;
use chess_core::moves::{Move, MoveFlag};
use chess_core::types::{Piece, Side, Square};

fn assert_make_move(start_fen: &str, end_fen: &str, m: Move) {
    let mut board = Board::from_fen(start_fen).unwrap();
    board.make(&m);
    assert_eq!(board.to_fen(), end_fen);
}

#[test]
fn standard_move() {
    assert_make_move(
        "rnbqkbnr/pppppppp/8/8/8/8/PPPPPPPP/RNBQKBNR w KQkq - 0 1",
        "rnbqkbnr/pppppppp/8/8/8/5N2/PPPPPPPP/RNBQKB1R b KQkq - 1 1",
        Move::parse_uci("g1f3").unwrap(),
    );
}

#[test]
fn capture_move() {
    assert_make_move(
        "rnbqkbnr/ppp1pppp/8/3p4/4P3/8/PPPP1PPP/RNBQKBNR w KQkq - 0 2",
        "rnbqkbnr/ppp1pppp/8/3P4/8/8/PPPP1PPP/RNBQKBNR b KQkq - 0 2",
        Move::parse_uci("e4d5").unwrap(),
    );
}

#[test]
fn double_push() {
    assert_make_move(
        "rnbqkbnr/pppppppp/8/8/4P3/8/PPPP1PPP/RNBQKBNR b KQkq - 0 1",
        "rnbqkbnr/pp1ppppp/8/2p5/4P3/8/PPPP1PPP/RNBQKBNR w KQkq c6 0 2",
        Move::parse_uci_with_flag("c7c5", MoveFlag::DoublePush).unwrap(),
    );
}

#[test]
fn en_passant() {
    assert_make_move(
        "rnbqkbnr/ppp1p1pp/8/3pPp2/8/8/PPPP1PPP/RNBQKBNR w KQkq f6 0 3",
        "rnbqkbnr/ppp1p1pp/5P2/3p4/8/8/PPPP1PPP/RNBQKBNR b KQkq - 0 3",
        Move::parse_uci_with_flag("e5f6", MoveFlag::EnPassant).unwrap(),
    );
}

#[test]
fn castle_kingside_white() {
    assert_make_move(
        "r1bqk1nr/pppp1ppp/2n5/1Bb1p3/4P3/5N2/PPPP1PPP/RNBQK2R w KQkq - 4 4",
        "r1bqk1nr/pppp1ppp/2n5/1Bb1p3/4P3/5N2/PPPP1PPP/RNBQ1RK1 b kq - 5 4",
        Move::parse_uci_with_flag("e1g1", MoveFlag::CastleK).unwrap(),
    );
}

#[test]
fn castle_kingside_black() {
    assert_make_move(
        "rnbqk2r/pppp1ppp/5n2/2b1p3/2B1P3/2P2N2/PP1P1PPP/RNBQK2R b KQkq - 0 4",
        "rnbq1rk1/pppp1ppp/5n2/2b1p3/2B1P3/2P2N2/PP1P1PPP/RNBQK2R w KQ - 1 5",
        Move::parse_uci_with_flag("e8g8", MoveFlag::CastleQ).unwrap(),
    );
}

#[test]
fn castle_queenside_white() {
    assert_make_move(
        "r3kbnr/pppqpppp/2n5/3p1b2/3P1B2/2N5/PPPQPPPP/R3KBNR w KQkq - 6 5",
        "r3kbnr/pppqpppp/2n5/3p1b2/3P1B2/2N5/PPPQPPPP/2KR1BNR b kq - 7 5",
        Move::parse_uci_with_flag("e1c1", MoveFlag::CastleQ).unwrap(),
    );
}

#[test]
fn castle_queenside_black() {
    assert_make_move(
        "r3kbnr/pppqpppp/2n5/3p1b2/8/2N2NP1/PPPPPPBP/R1BQ1K1R b kq - 6 5",
        "2kr1bnr/pppqpppp/2n5/3p1b2/8/2N2NP1/PPPPPPBP/R1BQ1K1R w - - 7 6",
        Move::parse_uci_with_flag("e8c8", MoveFlag::CastleQ).unwrap(),
    );
}

#[test]
fn queen_promotion() {
    assert_make_move(
        "rn1q1bnr/pppbkPpp/8/8/8/8/PPPP1PPP/RNBQKBNR w KQ - 1 5",
        "rn1q1bQr/pppbk1pp/8/8/8/8/PPPP1PPP/RNBQKBNR b KQ - 0 5",
        Move::parse_uci("f7g8q").unwrap(),
    );
}

#[test]
fn insufficient_material() {
    assert!(Board::from_fen("8/1k6/2n5/8/8/5N2/6K1/8 w - - 0 1").unwrap().is_insufficient_material());
    assert!(!Board::from_fen("8/1k6/2np4/8/8/5N2/6K1/8 w - - 0 1").unwrap().is_insufficient_material());
    assert!(Board::from_fen("8/1k6/2b5/8/8/5B2/6K1/8 w - - 0 1").unwrap().is_insufficient_material());
    assert!(Board::from_fen("8/1k6/2b5/8/8/5N2/6K1/8 w - - 0 1").unwrap().is_insufficient_material());
    assert!(Board::from_fen("8/1k6/2bN4/8/8/5N2/6K1/8 w - - 0 1").unwrap().is_insufficient_material());
    assert!(!Board::from_fen("8/1k6/2bb4/8/8/8/6K1/8 w - - 0 1").unwrap().is_insufficient_material());
}

#[test]
fn start_position_move_counts() {
    let board = Board::new();
    let flags = [
        MoveFlag::Quiet,
        MoveFlag::DoublePush,
        MoveFlag::EnPassant,
        MoveFlag::CastleK,
        MoveFlag::CastleQ,
        MoveFlag::PromoKnight,
        MoveFlag::PromoBishop,
        MoveFlag::PromoRook,
        MoveFlag::PromoQueen,
    ];
    let mut pseudo: u32 = 0;
    let mut legal: u32 = 0;
    for from in 0..64u8 {
        for to in 0..64u8 {
            let mut any_pseudo = false;
            let mut any_legal = false;
            for f in flags.iter() {
                let m = Move { from: Square(from), to: Square(to), flag: *f };
                if board.is_pseudo_legal(&m) {
                    any_pseudo = true;
                    if board.is_legal(&m) {
                        any_legal = true;
                    }
                }
            }
            if any_pseudo {
                pseudo += 1;
            }
            if any_legal {
                legal += 1;
            }
        }
    }
    assert_eq!(pseudo, 20);
    assert_eq!(legal, 20);
}

#[test]
fn hash_channels_match_recomputation() {
    let mut board = Board::new();
    board.make(&Move::parse_uci_with_flag("e2e4", MoveFlag::DoublePush).unwrap());
    board.make(&Move::parse_uci_with_flag("c7c5", MoveFlag::DoublePush).unwrap());
    board.make(&Move::parse_uci("g1f3").unwrap());
    board.make(&Move::parse_uci("b8c6").unwrap());
    board.make(&Move::parse_uci("f1b5").unwrap());
    let rebuilt = Board::from_fen(&board.to_fen()).unwrap();
    assert_eq!(board.hash, rebuilt.hash);
    assert_eq!(board.pawn_hash, rebuilt.pawn_hash);
    assert_eq!(board.non_pawn_hash_w, rebuilt.non_pawn_hash_w);
    assert_eq!(board.non_pawn_hash_b, rebuilt.non_pawn_hash_b);
    assert_eq!(board.major_hash, rebuilt.major_hash);
    assert_eq!(board.minor_hash, rebuilt.minor_hash);
}

#[test]
fn toggle_twice_restores_everything() {
    let mut board = Board::new();
    let fen_before = board.to_fen();
    let hash_before = board.hash;
    let pawn_before = board.pawn_hash;
    let major_before = board.major_hash;
    let minor_before = board.minor_hash;
    board.toggle_sq(Square(33), Piece::Knight, Side::White);
    assert_ne!(board.hash, hash_before);
    board.toggle_sq(Square(33), Piece::Knight, Side::White);
    assert_eq!(board.to_fen(), fen_before);
    assert_eq!(board.hash, hash_before);
    assert_eq!(board.pawn_hash, pawn_before);
    assert_eq!(board.major_hash, major_before);
    assert_eq!(board.minor_hash, minor_before);
}

#[test]
fn rights_once_lost_stay_lost() {
    let mut board =
        Board::from_fen("r3k2r/pppqpppp/2nb1n2/3p4/3P1B2/2NQ1N2/PPP1PPPP/R3K2R w KQkq - 0 1")
            .unwrap();
    assert!(board.has_kingside_rights(Side::White));
    board.make(&Move::parse_uci("e1d1").unwrap());
    assert!(!board.has_kingside_rights(Side::White));
    assert!(!board.has_queenside_rights(Side::White));
    assert!(board.has_kingside_rights(Side::Black));
    board.make(&Move::parse_uci("h8g8").unwrap());
    assert!(!board.has_kingside_rights(Side::Black));
    assert!(board.has_queenside_rights(Side::Black));
    board.make(&Move::parse_uci("d1e1").unwrap());
    board.make(&Move::parse_uci("g8h8").unwrap());
    assert!(!board.has_kingside_rights(Side::White));
    assert!(!board.has_queenside_rights(Side::White));
    assert!(!board.has_kingside_rights(Side::Black));
    assert!(board.has_queenside_rights(Side::Black));
}

#[test]
fn ep_target_gone_after_one_move() {
    let mut board = Board::new();
    board.make(&Move::parse_uci_with_flag("e2e4", MoveFlag::DoublePush).unwrap());
    assert_eq!(board.ep_sq, Some(Square(20)));
    board.make(&Move::parse_uci("g8f6").unwrap());
    assert_eq!(board.ep_sq, None);
}

#[test]
fn null_move_passes_turn() {
    let mut board = Board::new();
    let hash_before = board.hash;
    board.make(&Move::parse_uci_with_flag("e2e4", MoveFlag::DoublePush).unwrap());
    let hash_mid = board.hash;
    board.make_null_move();
    assert_eq!(board.ep_sq, None);
    assert_eq!(board.hm, 0);
    assert!(board.to_fen().contains(" w "));
    assert_ne!(board.hash, hash_mid);
    assert_ne!(board.hash, hash_before);
}

#[test]
fn fifty_move_rule_threshold() {
    let board = Board::from_fen("8/1k6/8/8/8/8/1K6/7R w - - 99 80").unwrap();
    assert!(!board.is_fifty_move_rule());
    let board = Board::from_fen("8/1k6/8/8/8/8/1K6/7R w - - 100 80").unwrap();
    assert!(board.is_fifty_move_rule());
}

#[test]
fn captured_and_noisy() {
    let board = Board::from_fen("rnbqkbnr/ppp1pppp/8/3p4/4P3/8/PPPP1PPP/RNBQKBNR w KQkq - 0 2")
        .unwrap();
    let capture = Move::parse_uci("e4d5").unwrap();
    assert_eq!(board.captured(&capture), Some(Piece::Pawn));
    assert!(board.is_noisy(&capture));
    let quiet = Move::parse_uci("g1f3").unwrap();
    assert_eq!(board.captured(&quiet), None);
    assert!(!board.is_noisy(&quiet));
}

#[test]
fn pseudo_legal_rejections() {
    let board = Board::new();
    // No move at all.
    assert!(!board.is_pseudo_legal(&Move { from: Square(0), to: Square(0), flag: MoveFlag::Quiet }));
    // Origin equals destination.
    assert!(!board.is_pseudo_legal(&Move { from: Square(12), to: Square(12), flag: MoveFlag::Quiet }));
    // Empty origin.
    assert!(!board.is_pseudo_legal(&Move::parse_uci("e4e5").unwrap()));
    // Not our piece.
    assert!(!board.is_pseudo_legal(&Move::parse_uci("e7e6").unwrap()));
    // Capturing our own piece.
    assert!(!board.is_pseudo_legal(&Move::parse_uci("d1e2").unwrap()));
    // A rook cannot jump over pawns.
    assert!(!board.is_pseudo_legal(&Move::parse_uci("a1a3").unwrap()));
    // A knight can.
    assert!(board.is_pseudo_legal(&Move::parse_uci("g1f3").unwrap()));
}

#[test]
fn king_capture_rejected() {
    let board = Board::from_fen("4k3/4R3/8/8/8/8/8/4K3 b - - 0 1").unwrap();
    // The rook gives check; capturing the king itself is never pseudo-legal.
    let take_king = Move { from: Square(52), to: Square(60), flag: MoveFlag::Quiet };
    let board2 = Board::from_fen("4k3/4R3/8/8/8/8/8/4K3 w - - 0 1").unwrap();
    assert!(!board2.is_pseudo_legal(&take_king));
    // The checked king can capture the adjacent rook.
    let take_rook = Move::parse_uci("e8e7").unwrap();
    assert!(board.is_pseudo_legal(&take_rook));
    assert!(board.is_legal(&take_rook));
}

#[test]
fn legality_filters_self_check() {
    // The bishop on b4 pins the knight on c3: moving it is pseudo-legal but
    // not legal.
    let board = Board::from_fen("rnbqk1nr/pppp1ppp/8/8/1b1P4/2N5/PPP1PPPP/R1BQKBNR w KQkq - 0 1")
        .unwrap();
    let pinned = Move::parse_uci("c3d5").unwrap();
    assert!(board.is_pseudo_legal(&pinned));
    assert!(!board.is_legal(&pinned));
    let fine = Move::parse_uci("g1f3").unwrap();
    assert!(board.is_pseudo_legal(&fine));
    assert!(board.is_legal(&fine));
}

#[test]
fn getters_agree_with_placement() {
    let board = Board::new();
    assert_eq!(board.pawns(Side::White), 0x0000_0000_0000_FF00);
    assert_eq!(board.pawns(Side::Black), 0x00FF_0000_0000_0000);
    assert_eq!(board.king(Side::White), 1u64 << 4);
    assert_eq!(board.king_sq(Side::White), Square(4));
    assert_eq!(board.king_sq(Side::Black), Square(60));
    assert_eq!(board.occ(), 0xFFFF_0000_0000_FFFF);
    assert_eq!(board.us(), board.white());
    assert_eq!(board.them(), board.black());
    assert_eq!(board.our(Piece::Queen), 1u64 << 3);
    assert_eq!(board.their(Piece::Queen), 1u64 << 59);
    assert_eq!(board.piece_at(Square(4)), Some(Piece::King));
    assert_eq!(board.side_at(Square(4)), Some(Side::White));
    assert_eq!(board.side_at(Square(36)), None);
    assert_eq!(board.pcs(Piece::Knight), (1u64 << 1) | (1u64 << 6) | (1u64 << 57) | (1u64 << 62));
    assert_eq!(board.side(Side::White), 0xFFFF);
}

#[test]
fn has_non_pawns_distinguishes_endings() {
    let board = Board::from_fen("4k3/8/8/8/8/8/4P3/4K3 w - - 0 1").unwrap();
    assert!(!board.has_non_pawns());
    let board = Board::from_fen("4k3/8/8/8/8/8/4P3/4KN2 w - - 0 1").unwrap();
    assert!(board.has_non_pawns());
}

#[test]
fn popcount_counts_bits() {
    assert_eq!(chess_core::board::popcount(0), 0);
    assert_eq!(chess_core::board::popcount(0b1011), 3);
    assert_eq!(chess_core::board::popcount(u64::MAX), 64);
}

#[test]
fn en_passant_by_black() {
    assert_make_move(
        "rnbqkbnr/pppp1ppp/8/8/3Pp3/8/PPP1PPPP/RNBQKBNR b KQkq d3 0 3",
        "rnbqkbnr/pppp1ppp/8/8/8/3p4/PPP1PPPP/RNBQKBNR w KQkq - 0 4",
        Move::parse_uci_with_flag("e4d3", MoveFlag::EnPassant).unwrap(),
    );
}

#[test]
fn capturing_a_rook_clears_that_corner_right() {
    assert_make_move(
        "r3k2r/8/8/8/8/8/8/R3K2R w KQkq - 0 1",
        "R3k2r/8/8/8/8/8/8/4K2R b Kk - 0 1",
        Move::parse_uci("a1a8").unwrap(),
    );
}

#[test]
fn underpromotion_to_knight() {
    assert_make_move(
        "8/1k3P2/8/8/8/8/8/4K3 w - - 0 1",
        "5N2/1k6/8/8/8/8/8/4K3 b - - 0 1",
        Move::parse_uci("f7f8n").unwrap(),
    );
}
