use bulletou_lib::inputs::{ShogiPosition, SparseInputType};
use bulletou_lib::loader::GameResult;
use bulletou_lib::shogi::{Color, Piece, PieceType, ShogiBoard, Square};
use bulletou_lib::shogi_halfka2_threat::HALFKA2_DIMENSIONS;
use bulletou_lib::shogi_halfka2_threat_effect::{
    ShogiHalfKa2ThreatEffect, HALFKA2_THREATEFFECT_DIMENSIONS,
    HALFKA2_THREATEFFECT_TOTAL_DIMENSIONS,
};

fn startpos_board() -> ShogiBoard {
    let mut board = ShogiBoard {
        side_to_move: Color::Black,
        black_king_sq: Square::new(4, 8),
        white_king_sq: Square::new(4, 0),
        ..Default::default()
    };
    board.board[board.black_king_sq.index()] = Piece::new(Color::Black, PieceType::King);
    board.board[board.white_king_sq.index()] = Piece::new(Color::White, PieceType::King);
    for file in 0..9u8 {
        board.board[Square::new(file, 6).index()] = Piece::new(Color::Black, PieceType::Pawn);
        board.board[Square::new(file, 2).index()] = Piece::new(Color::White, PieceType::Pawn);
    }
    for (f, r, c, pt) in [
        (7u8, 7u8, Color::Black, PieceType::Bishop),
        (1, 7, Color::Black, PieceType::Rook),
        (1, 1, Color::White, PieceType::Bishop),
        (7, 1, Color::White, PieceType::Rook),
        (0, 8, Color::Black, PieceType::Lance),
        (8, 8, Color::Black, PieceType::Lance),
        (0, 0, Color::White, PieceType::Lance),
        (8, 0, Color::White, PieceType::Lance),
        (1, 8, Color::Black, PieceType::Knight),
        (7, 8, Color::Black, PieceType::Knight),
        (1, 0, Color::White, PieceType::Knight),
        (7, 0, Color::White, PieceType::Knight),
        (2, 8, Color::Black, PieceType::Silver),
        (6, 8, Color::Black, PieceType::Silver),
        (2, 0, Color::White, PieceType::Silver),
        (6, 0, Color::White, PieceType::Silver),
        (3, 8, Color::Black, PieceType::Gold),
        (5, 8, Color::Black, PieceType::Gold),
        (3, 0, Color::White, PieceType::Gold),
        (5, 0, Color::White, PieceType::Gold),
    ] {
        board.board[Square::new(f, r).index()] = Piece::new(c, pt);
    }
    board
}

#[test]
fn test_dimensions() {
    assert_eq!(HALFKA2_THREATEFFECT_DIMENSIONS, 26_244);
    assert_eq!(ShogiHalfKa2ThreatEffect.num_inputs(), 158_193);
}

#[test]
fn test_startpos_emit_count() {
    let board = startpos_board();
    let features = ShogiHalfKa2ThreatEffect.map_effect_only(&board);
    let mut s: Vec<usize> = features.iter().map(|f| f.0).collect();
    let mut n: Vec<usize> = features.iter().map(|f| f.1).collect();
    assert_eq!(s.len(), 76);
    let mut u = s.clone();
    u.sort_unstable();
    u.dedup();
    assert_eq!(u.len(), 76, "重複 emit があってはならない (集合意味論)");
    s.sort_unstable();
    n.sort_unstable();
    assert_eq!(s, n, "初期局面は先後対称");
}

#[test]
fn test_effect_counts_startpos() {
    let board = startpos_board();
    let cnt = ShogiHalfKa2ThreatEffect::effect_counts(&board);
    assert_eq!(cnt[0][Square::new(0, 6).0 as usize], (1, 1));
    assert_eq!(cnt[0][Square::new(3, 8).0 as usize], (0, 1));
    assert_eq!(cnt[1][Square::new(3, 8).0 as usize], (0, 0));
}

#[test]
fn test_indices_in_range_and_ka2_shared() {
    let ka2 = vec![(0, 131_948), (77_000, 3), (131_948, 0)];
    let n_ka2 = ka2.len();
    assert!(n_ka2 > 0);
    let pos = ShogiPosition {
        board: startpos_board(),
        ka2: ka2.clone(),
        score: 0,
        result: GameResult::Draw,
    };
    let features = ShogiHalfKa2ThreatEffect.map_features(&pos);
    assert_eq!(&features[..n_ka2], &ka2[..]);
    for &(s, n) in &features[..n_ka2] {
        assert!(s < HALFKA2_DIMENSIONS && n < HALFKA2_DIMENSIONS);
    }
    for &(s, n) in &features {
        assert!(
            s < HALFKA2_THREATEFFECT_TOTAL_DIMENSIONS && n < HALFKA2_THREATEFFECT_TOTAL_DIMENSIONS
        );
    }
    let empty = ShogiPosition {
        board: ShogiBoard::default(),
        ka2: Vec::new(),
        score: 0,
        result: GameResult::Draw,
    };
    assert!(ShogiHalfKa2ThreatEffect.map_features(&empty).is_empty());
}

#[test]
fn effect_features_of_a_lone_pawn() {
    let mut board = ShogiBoard {
        side_to_move: Color::Black,
        black_king_sq: Square::new(4, 8),
        white_king_sq: Square::new(4, 0),
        ..Default::default()
    };
    board.board[board.black_king_sq.index()] = Piece::new(Color::Black, PieceType::King);
    board.board[board.white_king_sq.index()] = Piece::new(Color::White, PieceType::King);
    board.board[Square::new(4, 7).index()] = Piece::new(Color::Black, PieceType::Pawn);
    board.board[Square::new(4, 3).index()] = Piece::new(Color::White, PieceType::Lance);
    board.board[Square::new(4, 2).index()] = Piece::new(Color::White, PieceType::Rook);
    let counts = ShogiHalfKa2ThreatEffect::effect_counts(&board);
    assert_eq!(counts[0][Square::new(4, 7).index()], (0, 1));
    assert_eq!(counts[1][Square::new(4, 7).index()], (1, 0));
    let features = ShogiHalfKa2ThreatEffect.map_effect_only(&board);
    assert_eq!(features.len(), 6);
    // The pawn stands on square 43, and on square 37 as White sees it.
    assert_eq!(features[4], ((43 * 3) * 3 + 1, ((27 * 81 + 37) * 3) * 3 + 1));
    assert_eq!(features[5], (((18 * 81 + 43) * 3 + 1) * 3, ((9 * 81 + 37) * 3 + 1) * 3));
}

#[test]
fn a_board_without_a_king_has_no_effect_features() {
    let mut board = startpos_board();
    board.black_king_sq = Square(81);
    assert!(ShogiHalfKa2ThreatEffect.map_effect_only(&board).is_empty());
}

#[test]
fn effect_features_turn_with_the_board() {
    let mut board = startpos_board();
    board.board[Square::new(2, 6).index()] = Piece::new(Color::Black, PieceType::Empty);
    board.board[Square::new(2, 5).index()] = Piece::new(Color::Black, PieceType::Pawn);
    let mut turned = ShogiBoard {
        side_to_move: Color::White,
        black_king_sq: Square(80 - board.white_king_sq.0),
        white_king_sq: Square(80 - board.black_king_sq.0),
        ..Default::default()
    };
    for i in 0..81 {
        let pc = board.board[i];
        if !pc.is_none() {
            turned.board[80 - i] = Piece::new(pc.color.opponent(), pc.piece_type);
        }
    }
    let mut a = ShogiHalfKa2ThreatEffect.map_effect_only(&board);
    let mut b = ShogiHalfKa2ThreatEffect.map_effect_only(&turned);
    a.sort_unstable();
    b.sort_unstable();
    assert_eq!(a, b);
}

#[test]
fn names_of_the_effect_inputs() {
    assert_eq!(ShogiHalfKa2ThreatEffect.shorthand(), "shogi-halfka2-threateffect-158193");
    assert_eq!(
        ShogiHalfKa2ThreatEffect.description(),
        "Shogi HalfKA2 (131,949) + ThreatEffect long/short buckets (26244)"
    );
    assert_eq!(ShogiHalfKa2ThreatEffect.max_active(), 120);
}
