use chess_core::board::Board;
use chess_core::fen::{
    parse_castle_rights, parse_ep_sq, parse_piece, parse_square, parse_stm, piece_to_char,
    STARTPOS,
};
use chess_core::types::{Piece, Side, Square};

#[test]
fn round_trip_keeps_the_text() {
    let fens = [
        "rnbqkbnr/pppppppp/8/8/8/8/PPPPPPPP/RNBQKBNR w KQkq - 0 1",
        "rnbqkbnr/ppp1p1pp/8/3pPp2/8/8/PPPP1PPP/RNBQKBNR w KQkq f6 0 3",
        "r3kbnr/pppqpppp/2n5/3p1b2/3P1B2/2N5/PPPQPPPP/R3KBNR w KQkq - 6 5",
        "8/1k6/2bb4/8/8/8/6K1/8 w - - 0 1",
        "rn1q1bQr/pppbk1pp/8/8/8/8/PPPP1PPP/RNBQKBNR b KQ - 0 5",
        "2kr1bnr/pppqpppp/2n5/3p1b2/8/2N2NP1/PPPPPPBP/R1BQ1K1R w - - 7 6",
        "8/1k6/8/8/8/8/1K6/7R w - - 100 255",
    ];
    for fen in fens.iter() {
        let board = Board::from_fen(fen).unwrap();
        assert_eq!(board.to_fen(), *fen);
    }
}

#[test]
fn start_position_encodes_canonically() {
    assert_eq!(Board::new().to_fen(), STARTPOS);
    assert_eq!(Board::from_fen(STARTPOS).unwrap().to_fen(), STARTPOS);
}

#[test]
fn malformed_text_is_rejected() {
    // Too few fields.
    assert!(Board::from_fen("").is_none());
    assert!(Board::from_fen("rnbqkbnr/pppppppp/8/8/8/8/PPPPPPPP/RNBQKBNR w KQkq").is_none());
    // Bad placement.
    assert!(Board::from_fen("rnbqkbnr/pppppppp/8/8/8/8/PPPPPPPP w KQkq - 0 1").is_none());
    assert!(Board::from_fen("rnbqkbnr/pppppppp/9/8/8/8/PPPPPPPP/RNBQKBNR w KQkq - 0 1").is_none());
    assert!(Board::from_fen("rnbqkbnr/pppppppxp/8/8/8/8/PPPPPPPP/RNBQKBNR w KQkq - 0 1").is_none());
    // Bad side to move.
    assert!(Board::from_fen("rnbqkbnr/pppppppp/8/8/8/8/PPPPPPPP/RNBQKBNR x KQkq - 0 1").is_none());
    // Bad castling character.
    assert!(Board::from_fen("rnbqkbnr/pppppppp/8/8/8/8/PPPPPPPP/RNBQKBNR w Zkq - 0 1").is_none());
    // Bad en-passant field.
    assert!(Board::from_fen("rnbqkbnr/pppppppp/8/8/8/8/PPPPPPPP/RNBQKBNR w KQkq z9 0 1").is_none());
}

#[test]
fn inconsistent_positions_are_rejected() {
    // No kings at all.
    assert!(Board::from_fen("8/8/8/8/8/8/8/8 w - - 0 1").is_none());
    // Two white kings.
    assert!(Board::from_fen("4k3/8/8/8/8/8/8/3KK3 w - - 0 1").is_none());
    // An en-passant target with no pawn behind it.
    assert!(Board::from_fen("rnbqkbnr/pppppppp/8/8/8/8/PPPPPPPP/RNBQKBNR w KQkq e6 0 1").is_none());
    // A castling right whose rook is gone.
    assert!(Board::from_fen("rnbqkbn1/pppppppp/8/8/8/8/PPPPPPPP/RNBQKBNR w KQkq - 0 1").is_none());
}

#[test]
fn missing_counters_default_to_zero() {
    let board = Board::from_fen("8/1k6/8/8/8/8/1K6/7R w - -").unwrap();
    assert_eq!(board.hm, 0);
    assert_eq!(board.fm, 0);
    assert_eq!(board.to_fen(), "8/1k6/8/8/8/8/1K6/7R w - - 0 0");
    let board = Board::from_fen("8/1k6/8/8/8/8/1K6/7R w - - junk 999").unwrap();
    assert_eq!(board.hm, 0);
    assert_eq!(board.fm, 0);
}

#[test]
fn field_parsers() {
    assert_eq!(parse_stm("w"), Some(Side::White));
    assert_eq!(parse_stm("b"), Some(Side::Black));
    assert_eq!(parse_stm("x"), None);
    assert_eq!(parse_castle_rights("KQkq"), Some(0xF));
    assert_eq!(parse_castle_rights("Kq"), Some(0x9));
    assert_eq!(parse_castle_rights("-"), Some(0));
    assert_eq!(parse_castle_rights("Z"), None);
    assert_eq!(parse_ep_sq("-"), Some(None));
    assert_eq!(parse_ep_sq("e3"), Some(Some(Square(20))));
    assert_eq!(parse_ep_sq("i3"), None);
    assert_eq!(parse_square("a1"), Some(Square(0)));
    assert_eq!(parse_square("h8"), Some(Square(63)));
    assert_eq!(parse_square("q"), None);
    assert_eq!(parse_piece('Q'), Some((Piece::Queen, Side::White)));
    assert_eq!(parse_piece('n'), Some((Piece::Knight, Side::Black)));
    assert_eq!(parse_piece('x'), None);
    assert_eq!(piece_to_char(Piece::Queen, Side::White), 'Q');
    assert_eq!(piece_to_char(Piece::Pawn, Side::Black), 'p');
}

#[test]
fn decode_rebuilds_hashes_from_scratch() {
    let a = Board::from_fen("r3kbnr/pppqpppp/2n5/3p1b2/3P1B2/2N5/PPPQPPPP/R3KBNR w KQkq - 6 5")
        .unwrap();
    let b = Board::from_fen(&a.to_fen()).unwrap();
    assert_eq!(a.hash, b.hash);
    assert_eq!(a.pawn_hash, b.pawn_hash);
    assert_eq!(a.non_pawn_hash_w, b.non_pawn_hash_w);
    assert_eq!(a.non_pawn_hash_b, b.non_pawn_hash_b);
    assert_eq!(a.major_hash, b.major_hash);
    assert_eq!(a.minor_hash, b.minor_hash);
    // Different placements give different full hashes.
    let c = Board::new();
    assert_ne!(a.hash, c.hash);
}

#[test]
fn empty_board_is_blank() {
    let board = Board::empty();
    assert_eq!(board.occ(), 0);
    assert_eq!(board.hash, 0);
    assert_eq!(board.castle, 0);
    assert_eq!(board.piece_at(Square(0)), None);
}
