use bulletou_lib::inputs::{ShogiPosition, SparseInputType};
use bulletou_lib::loader::{GameResult, LoadableDataType};
use bulletou_lib::movement::for_each_effect;
use bulletou_lib::shogi::{normalize_sq, Color, Piece, PieceType, ShogiBoard, Square};
use bulletou_lib::shogi_halfka2_threat::{ShogiHalfKa2Threat, HALFKA2_DIMENSIONS};
use bulletou_lib::shogi_halfka2_threat_dropfact::ShogiHalfKa2ThreatDropFact;
use bulletou_lib::shogi_halfka2_threat_effect::ShogiHalfKa2ThreatEffect;
use bulletou_lib::sparse_rows::write_features;
use bulletou_lib::threat_class::{
    attacks_square, class_attack_count, ThreatClass, HALFKA2_THREAT_DIMENSIONS,
};
use bulletou_lib::threat_index::{attack_pattern_id, build_pair_base, ThreatProfile};
use bulletou_lib::threat_tables::{ThreatParams, ThreatTables};

fn startpos_board() -> ShogiBoard {
    let mut board = ShogiBoard {
        side_to_move: Color::Black,
        black_king_sq: Square::new(4, 8),
        white_king_sq: Square::new(4, 0),
        ..Default::default()
    };
    board.board[board.black_king_sq.index()] = Piece::new(Color::Black, PieceType::King);
    board.board[board.white_king_sq.index()] = Piece::new(Color::White, PieceType::King);
    for file in 0..9u8 {
        board.board[Square::new(file, 6).index()] = Piece::new(Color::Black, PieceType::Pawn);
        board.board[Square::new(file, 2).index()] = Piece::new(Color::White, PieceType::Pawn);
    }
    for (f, r, c, pt) in [
        (7u8, 7u8, Color::Black, PieceType::Bishop),
        (1, 7, Color::Black, PieceType::Rook),
        (1, 1, Color::White, PieceType::Bishop),
        (7, 1, Color::White, PieceType::Rook),
        (0, 8, Color::Black, PieceType::Lance),
        (8, 8, Color::Black, PieceType::Lance),
        (0, 0, Color::White, PieceType::Lance),
        (8, 0, Color::White, PieceType::Lance),
        (1, 8, Color::Black, PieceType::Knight),
        (7, 8, Color::Black, PieceType::Knight),
        (1, 0, Color::White, PieceType::Knight),
        (7, 0, Color::White, PieceType::Knight),
        (2, 8, Color::Black, PieceType::Silver),
        (6, 8, Color::Black, PieceType::Silver),
        (2, 0, Color::White, PieceType::Silver),
        (6, 0, Color::White, PieceType::Silver),
        (3, 8, Color::Black, PieceType::Gold),
        (5, 8, Color::Black, PieceType::Gold),
        (3, 0, Color::White, PieceType::Gold),
        (5, 0, Color::White, PieceType::Gold),
    ] {
        board.board[Square::new(f, r).index()] = Piece::new(c, pt);
    }
    board
}

#[test]
fn test_tables_checksum() {
    let cs = ShogiHalfKa2Threat::new().tables_checksum();
    assert_eq!(
        cs, 0x30f7eea2484893cd,
        "テーブル仕様が変わった (YO threat.cpp と再照合せよ)"
    );
}

#[test]
fn test_total_dimensions() {
    let input = ShogiHalfKa2Threat::new();
    assert_eq!(input.threat_dimensions(), 216_720);
    assert_eq!(input.num_inputs(), 348_669);
}

#[test]
fn test_startpos_active_counts() {
    let input = ShogiHalfKa2Threat::new();
    let board = startpos_board();
    let th = input.map_threat_only(&board).len();
    assert_eq!(th, 34, "初期局面の threat active 数が canonical 値と不一致");
}

#[test]
fn test_startpos_symmetry() {
    let input = ShogiHalfKa2Threat::new();
    let board = startpos_board();
    let features = input.map_threat_only(&board);
    let mut stm_set: Vec<usize> = features.iter().map(|f| f.0).collect();
    let mut nstm_set: Vec<usize> = features.iter().map(|f| f.1).collect();
    stm_set.sort_unstable();
    nstm_set.sort_unstable();
    assert_eq!(stm_set, nstm_set);
}

#[test]
fn test_indices_in_range() {
    let board = startpos_board();
    let ka2 = vec![(0, 131_948), (77_000, 3), (131_948, 0)];
    let n_ka2 = ka2.len();
    assert!(n_ka2 > 0);
    let input = ShogiHalfKa2Threat::new();
    let threats = input.map_threat_only(&board);
    for &(s, n) in &threats {
        assert!(s < input.threat_dimensions() && n < input.threat_dimensions());
    }
    assert_eq!(threats.len(), 34);
    let pos = ShogiPosition { board, ka2, score: 0, result: GameResult::Draw };
    let features = input.map_features(&pos);
    assert_eq!(features.len(), n_ka2 + 34);
    for &(s, n) in &features[..n_ka2] {
        assert!(s < HALFKA2_DIMENSIONS && n < HALFKA2_DIMENSIONS);
    }
    for &(s, n) in &features[n_ka2..] {
        assert!((HALFKA2_DIMENSIONS..input.num_inputs()).contains(&s));
        assert!((HALFKA2_DIMENSIONS..input.num_inputs()).contains(&n));
    }
}

fn gold_faceoff() -> ShogiBoard {
    let mut board = ShogiBoard {
        side_to_move: Color::Black,
        black_king_sq: Square::new(4, 8),
        white_king_sq: Square::new(4, 0),
        ..Default::default()
    };
    board.board[board.black_king_sq.index()] = Piece::new(Color::Black, PieceType::King);
    board.board[board.white_king_sq.index()] = Piece::new(Color::White, PieceType::King);
    board.board[Square::new(4, 4).index()] = Piece::new(Color::White, PieceType::Gold);
    board.board[Square::new(4, 5).index()] = Piece::new(Color::Black, PieceType::Gold);
    board
}

#[test]
fn test_dump_gold_faceoff_indices() {
    let board = gold_faceoff();
    let mut pairs = ShogiHalfKa2Threat::new().map_threat_only(&board);
    pairs.sort_unstable();
    println!("GOLD_FACEOFF_DUMP {:?}", pairs);
}

#[test]
fn golds_that_face_each_other_threaten_each_other() {
    let pairs = ShogiHalfKa2Threat::new().map_threat_only(&gold_faceoff());
    let tables = ThreatTables::new();
    let gold_attack = |side: usize, from: u8, to: u8| {
        tables.threat_index(&ThreatParams {
            attacker_side: side,
            attacker_class: ThreatClass::GoldLike,
            oriented_color: if side == 0 { Color::Black } else { Color::White },
            attacked_side: 1 - side,
            attacked_class: ThreatClass::GoldLike,
            from_sq_n: Square(from),
            to_sq_n: Square(to),
        })
    };
    assert_eq!(pairs.len(), 2);
    assert_eq!(Some(pairs[0].0), gold_attack(1, 40, 41));
    assert_eq!(Some(pairs[0].1), gold_attack(0, 40, 39));
    assert_eq!(Some(pairs[1].0), gold_attack(0, 41, 40));
    assert_eq!(Some(pairs[1].1), gold_attack(1, 39, 40));
}

#[test]
fn turning_the_board_keeps_the_features() {
    let board = startpos_board();
    let mut moved = board;
    moved.board[Square::new(2, 6).index()] = Piece::new(Color::Black, PieceType::Empty);
    moved.board[Square::new(2, 5).index()] = Piece::new(Color::Black, PieceType::Pawn);
    moved.side_to_move = Color::White;
    let mut turned = ShogiBoard {
        side_to_move: Color::Black,
        black_king_sq: Square(80 - moved.white_king_sq.0),
        white_king_sq: Square(80 - moved.black_king_sq.0),
        ..Default::default()
    };
    for i in 0..81 {
        let pc = moved.board[i];
        if !pc.is_none() {
            turned.board[80 - i] = Piece::new(pc.color.opponent(), pc.piece_type);
        }
    }
    let input = ShogiHalfKa2Threat::new();
    let mut a = input.map_threat_only(&moved);
    let mut b = input.map_threat_only(&turned);
    a.sort_unstable();
    b.sort_unstable();
    assert_eq!(a, b);
    let mut other = moved;
    other.side_to_move = Color::Black;
    let swapped: Vec<(usize, usize)> =
        input.map_threat_only(&other).into_iter().map(|(s, n)| (n, s)).collect();
    assert_eq!(input.map_threat_only(&moved), swapped);
}

#[test]
fn no_threat_is_listed_twice() {
    let pairs = ShogiHalfKa2Threat::new().map_threat_only(&startpos_board());
    let mut stm: Vec<usize> = pairs.iter().map(|p| p.0).collect();
    stm.sort_unstable();
    stm.dedup();
    assert_eq!(stm.len(), 34);
}

#[test]
fn a_board_without_a_king_has_no_threats() {
    let input = ShogiHalfKa2Threat::new();
    let mut board = startpos_board();
    board.white_king_sq = Square(81);
    assert!(input.map_threat_only(&board).is_empty());
    assert!(input.map_threat_only(&ShogiBoard::default()).is_empty());
}

#[test]
fn rays_stop_at_the_first_piece() {
    let board = startpos_board();
    let rook = for_each_effect(PieceType::Rook, Color::Black, Square::new(1, 7), &board);
    let squares: Vec<(Square, bool)> = rook.iter().map(|&(sq, long)| (sq, long)).collect();
    let expected = [(0, 7), (2, 7), (3, 7), (4, 7), (5, 7), (6, 7), (7, 7), (1, 6), (1, 8)];
    assert_eq!(squares.len(), expected.len());
    for (&(sq, long), &(f, r)) in squares.iter().zip(expected.iter()) {
        assert_eq!(sq.index(), Square::new(f, r).index());
        assert!(long);
    }
    let pawn = for_each_effect(PieceType::Pawn, Color::White, Square::new(0, 2), &board);
    assert_eq!(pawn.len(), 1);
    assert_eq!(pawn[0].0.index(), Square::new(0, 3).index());
    assert!(!pawn[0].1);
    assert!(for_each_effect(PieceType::Knight, Color::Black, Square::new(0, 1), &board).is_empty());
    assert!(for_each_effect(PieceType::Empty, Color::Black, Square::new(4, 4), &board).is_empty());
}

#[test]
fn squares_turn_for_white() {
    assert_eq!(normalize_sq(Square(7), Color::Black).index(), 7);
    assert_eq!(normalize_sq(Square(7), Color::White).index(), 73);
}

#[test]
fn classes_attack_on_the_empty_board() {
    let counts = [72, 324, 112, 328, 416, 816, 1296, 1104, 1552];
    let mut total = 0;
    for (k, &count) in counts.iter().enumerate() {
        let class = ThreatClass::from_index(k);
        assert_eq!(class.index(), k);
        assert_eq!(class_attack_count(class), count);
        total += count;
    }
    assert_eq!(total * 36, HALFKA2_THREAT_DIMENSIONS);
    assert!(attacks_square(ThreatClass::Horse, Color::Black, Square::new(4, 4), Square::new(0, 8)));
    assert!(attacks_square(ThreatClass::Horse, Color::Black, Square::new(4, 4), Square::new(4, 3)));
    assert!(!attacks_square(ThreatClass::Horse, Color::Black, Square::new(4, 4), Square::new(4, 2)));
}

#[test]
fn kings_and_empty_squares_have_no_class() {
    assert!(ThreatClass::from_piece_type(PieceType::King).is_none());
    assert!(ThreatClass::from_piece_type(PieceType::Empty).is_none());
    assert_eq!(
        ThreatClass::from_piece_type(PieceType::ProKnight),
        Some(ThreatClass::GoldLike)
    );
}

#[test]
fn pairs_follow_each_other() {
    let (pair_base, dims) = build_pair_base(ThreatProfile::Full);
    assert_eq!(pair_base.len(), 324);
    assert_eq!(dims, 216_720);
    assert_eq!(pair_base[0], 0);
    assert_eq!(pair_base[1], 72);
    assert_eq!(pair_base[18], 18 * 72);
    assert_eq!(pair_base[162], 108_360);
    assert_eq!(attack_pattern_id(ThreatClass::Dragon, Color::White), 8);
    assert_eq!(attack_pattern_id(ThreatClass::Pawn, Color::White), 9);
}

#[test]
fn indices_of_single_threats() {
    let tables = ThreatTables::new();
    let mut params = ThreatParams {
        attacker_side: 0,
        attacker_class: ThreatClass::Pawn,
        oriented_color: Color::Black,
        attacked_side: 0,
        attacked_class: ThreatClass::Pawn,
        from_sq_n: Square(1),
        to_sq_n: Square(0),
    };
    assert_eq!(tables.threat_index(&params), Some(0));
    params.from_sq_n = Square(80);
    params.to_sq_n = Square(79);
    assert_eq!(tables.threat_index(&params), Some(71));
    params.attacked_class = ThreatClass::Lance;
    assert_eq!(tables.threat_index(&params), Some(143));
    params.to_sq_n = Square(78);
    assert_eq!(tables.threat_index(&params), None);
}

#[test]
fn names_of_the_threat_inputs() {
    let input = ShogiHalfKa2Threat::new();
    assert_eq!(input.shorthand(), "shogi-halfka2-threat-348669");
    assert_eq!(
        input.description(),
        "Shogi HalfKA2 (131,949) + Threat (216720, profile=full)"
    );
    assert_eq!(input.max_active(), 360);
    assert_eq!(input.hand_count_dims(), None);
}

#[test]
fn split_features_show_both_sides_all() {
    let pos = ShogiPosition {
        board: gold_faceoff(),
        ka2: vec![(5, 6)],
        score: -12,
        result: GameResult::Win,
    };
    let input = ShogiHalfKa2Threat::new();
    let features = input.map_features(&pos);
    let split = input.map_features_split(&pos);
    assert_eq!(features.len(), 3);
    assert_eq!(features[0], (5, 6));
    for (f, s) in features.iter().zip(split.iter()) {
        assert_eq!((Some(f.0), Some(f.1)), *s);
    }
    assert_eq!(pos.score(), -12);
    assert_eq!(pos.result(), GameResult::Win);
}

fn can_be_written<I: SparseInputType>(input: &I, pos: &I::RequiredDataType) -> bool {
    let max_active = input.max_active();
    let mut stm = vec![-1; max_active];
    let mut nstm = vec![-1; max_active];
    let features = input.map_features_split(pos);
    let corrupt =
        write_features(&features, 0, input.num_inputs(), max_active, &mut stm, &mut nstm);
    let used = stm.iter().filter(|&&slot| slot >= 0).count();
    corrupt == (used < features.len()) && !corrupt
}

#[test]
fn the_starting_position_can_be_written() {
    let pos = ShogiPosition {
        board: startpos_board(),
        ka2: vec![(131_948, 0); 40],
        score: 0,
        result: GameResult::Draw,
    };
    assert!(can_be_written(&ShogiHalfKa2Threat::new(), &pos));
    assert!(can_be_written(&ShogiHalfKa2ThreatDropFact::new(), &pos));
    assert!(can_be_written(&ShogiHalfKa2ThreatEffect, &pos));
    let crowded = ShogiPosition { ka2: vec![(131_948, 0); 400], ..pos };
    assert!(!can_be_written(&ShogiHalfKa2Threat::new(), &crowded));
}

#[test]
fn inputs_without_a_slot_are_passed_over() {
    let mut stm = vec![7; 6];
    let mut nstm = vec![8; 6];
    let features = [(Some(9), Some(1)), (Some(3), None), (Some(4), Some(2)), (Some(5), None)];
    assert!(write_features(&features.to_vec(), 1, 9, 2, &mut stm, &mut nstm));
    assert_eq!(stm, vec![7, 7, 3, 4, 7, 7]);
    assert_eq!(nstm, vec![8, 8, 1, 2, 8, 8]);
    assert!(!write_features(&features[1..3].to_vec(), 2, 9, 2, &mut stm, &mut nstm));
    assert_eq!(stm, vec![7, 7, 3, 4, 3, 4]);
    assert_eq!(nstm, vec![8, 8, 1, 2, 2, -1]);
}

#[test]
fn forty_pieces_pose_no_more_threats_than_the_limit() {
    let mut board = ShogiBoard {
        side_to_move: Color::Black,
        black_king_sq: Square::new(4, 8),
        white_king_sq: Square::new(4, 0),
        ..Default::default()
    };
    for sq in 20..60 {
        board.board[sq] = Piece::new(Color::White, PieceType::Horse);
    }
    let n = ShogiHalfKa2Threat::new().map_threat_only(&board).len();
    assert!(n > 200 && n <= 320);
}

#[test]
fn attacked_squares_are_reached_on_the_empty_board() {
    let board = ShogiBoard::default();
    for pt in [PieceType::Lance, PieceType::Knight, PieceType::Silver, PieceType::ProPawn,
        PieceType::Horse, PieceType::Dragon]
    {
        let class = ThreatClass::from_piece_type(pt).unwrap();
        for color in [Color::Black, Color::White] {
            for from in 0..81 {
                let reached = for_each_effect(pt, color, Square(from), &board);
                for to in 0..81 {
                    assert_eq!(
                        attacks_square(class, color, Square(from), Square(to)),
                        reached.iter().any(|&(sq, _)| sq == Square(to))
                    );
                }
            }
        }
    }
}
