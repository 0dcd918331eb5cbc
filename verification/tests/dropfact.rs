use bulletou_lib::inputs::{ShogiPosition, SparseInputType};
use bulletou_lib::loader::GameResult;
use bulletou_lib::shogi::{Color, Piece, PieceType, ShogiBoard, Square};
use bulletou_lib::shogi_halfka2_threat::ShogiHalfKa2Threat;
use bulletou_lib::shogi_halfka2_threat_dropfact::{
    build_full_to_lite, threat_full_to_lite, threat_full_to_lite_checksum, FullToLite,
    ShogiHalfKa2ThreatDropFact, HALFKA2T_DROPFACT_TOTAL_DIMENSIONS, HALFKA2T_KA_VIRTUAL_BASE,
    HALFKA2T_LITE_VIRTUAL_BASE, HALFKA2_THREAT_LITE_DIMENSIONS,
};
use bulletou_lib::threat_class::HALFKA2_THREAT_DIMENSIONS;
use bulletou_lib::threat_index::{build_pair_base, ThreatProfile};

fn startpos_board() -> ShogiBoard {
    let mut board = ShogiBoard {
        side_to_move: Color::Black,
        black_king_sq: Square::new(4, 8),
        white_king_sq: Square::new(4, 0),
        ..Default::default()
    };
    board.board[board.black_king_sq.index()] = Piece::new(Color::Black, PieceType::King);
    board.board[board.white_king_sq.index()] = Piece::new(Color::White, PieceType::King);
    for file in 0..9u8 {
        board.board[Square::new(file, 6).index()] = Piece::new(Color::Black, PieceType::Pawn);
        board.board[Square::new(file, 2).index()] = Piece::new(Color::White, PieceType::Pawn);
    }
    for (f, r, c, pt) in [
        (7u8, 7u8, Color::Black, PieceType::Bishop),
        (1, 7, Color::Black, PieceType::Rook),
        (1, 1, Color::White, PieceType::Bishop),
        (7, 1, Color::White, PieceType::Rook),
        (0, 8, Color::Black, PieceType::Lance),
        (8, 8, Color::Black, PieceType::Lance),
        (0, 0, Color::White, PieceType::Lance),
        (8, 0, Color::White, PieceType::Lance),
        (1, 8, Color::Black, PieceType::Knight),
        (7, 8, Color::Black, PieceType::Knight),
        (1, 0, Color::White, PieceType::Knight),
        (7, 0, Color::White, PieceType::Knight),
        (2, 8, Color::Black, PieceType::Silver),
        (6, 8, Color::Black, PieceType::Silver),
        (2, 0, Color::White, PieceType::Silver),
        (6, 0, Color::White, PieceType::Silver),
        (3, 8, Color::Black, PieceType::Gold),
        (5, 8, Color::Black, PieceType::Gold),
        (3, 0, Color::White, PieceType::Gold),
        (5, 0, Color::White, PieceType::Gold),
    ] {
        board.board[Square::new(f, r).index()] = Piece::new(c, pt);
    }
    board
}

#[test]
fn test_dims_and_layout() {
    assert_eq!(HALFKA2_THREAT_LITE_DIMENSIONS, 26_244);
    assert_eq!(HALFKA2T_KA_VIRTUAL_BASE, 348_669);
    assert_eq!(HALFKA2T_LITE_VIRTUAL_BASE, 350_298);
    assert_eq!(HALFKA2T_DROPFACT_TOTAL_DIMENSIONS, 376_542);
    assert_eq!(ShogiHalfKa2ThreatDropFact::new().num_inputs(), 376_542);
    assert_eq!(ShogiHalfKa2ThreatDropFact::new().max_active(), 40 + 320 + 320);
}

#[test]
fn test_full_to_lite_coverage() {
    let table = build_full_to_lite();
    assert_eq!(table.len(), 216_720);
    let mut counts = vec![0u32; HALFKA2_THREAT_LITE_DIMENSIONS];
    for &l in table.iter() {
        counts[l as usize] += 1;
    }
    let covered = counts.iter().filter(|&&c| c > 0).count();
    assert!(
        covered * 10 > HALFKA2_THREAT_LITE_DIMENSIONS * 9,
        "lite 被覆率 {covered}/{}",
        HALFKA2_THREAT_LITE_DIMENSIONS
    );
    assert_eq!(counts.iter().map(|&c| c as usize).sum::<usize>(), 216_720);
    assert_eq!(build_full_to_lite(), table);
    println!("FULL_TO_LITE_CHECKSUM {:#018x}", threat_full_to_lite_checksum(&FullToLite::new()));
}

#[test]
fn test_lite_index_pair_consistency() {
    let full_to_lite = FullToLite::new();
    let (pair_base, dims) = build_pair_base(ThreatProfile::Full);
    let mut bounds: Vec<(usize, usize, usize)> =
        (0..pair_base.len()).map(|p| (pair_base[p], p, 0)).collect();
    bounds.sort_unstable();
    for i in 0..bounds.len() {
        let end = if i + 1 < bounds.len() { bounds[i + 1].0 } else { dims };
        bounds[i].2 = end;
    }
    for &(start, pair, end) in &bounds {
        for full in start..end {
            assert_eq!(
                threat_full_to_lite(&full_to_lite, full) / 81,
                pair,
                "full {full} の lite pair が不一致"
            );
        }
    }
}

#[test]
fn test_startpos_emits_threat_and_lite_pairs() {
    let board = startpos_board();
    let input = ShogiHalfKa2ThreatDropFact::new();
    let mut n_full = 0usize;
    let mut n_lite = 0usize;
    for (s, n, ls, ln) in input.map_threat_and_lite(&board) {
        assert!(s < HALFKA2_THREAT_DIMENSIONS && n < HALFKA2_THREAT_DIMENSIONS);
        assert!(ls < HALFKA2_THREAT_LITE_DIMENSIONS && ln < HALFKA2_THREAT_LITE_DIMENSIONS);
        n_full += 1;
        n_lite += 1;
    }
    assert_eq!(n_full, 34);
    assert_eq!(n_lite, 34);

    let ka2 = vec![(0, 131_948), (77_000, 3), (131_948, 0)];
    let all = input.map_features_board(&board, &ka2);
    let n_ka2 = ka2.len();
    assert_eq!(all.len(), n_ka2 + 34 + 34);
    assert!(all.iter().all(|&(s, n)| s < HALFKA2T_DROPFACT_TOTAL_DIMENSIONS
        && n < HALFKA2T_DROPFACT_TOTAL_DIMENSIONS));
    assert!(all.iter().all(|&(s, n)| {
        !(HALFKA2T_KA_VIRTUAL_BASE..HALFKA2T_LITE_VIRTUAL_BASE).contains(&s)
            && !(HALFKA2T_KA_VIRTUAL_BASE..HALFKA2T_LITE_VIRTUAL_BASE).contains(&n)
    }));
    assert_eq!(all.iter().filter(|&&(s, _)| s >= HALFKA2T_LITE_VIRTUAL_BASE).count(), 34);
}

#[test]
fn lite_features_stand_behind_their_threats() {
    let table = FullToLite::new();
    let input = ShogiHalfKa2ThreatDropFact::new();
    let all = input.map_features_board(&startpos_board(), &vec![(1, 2)]);
    assert_eq!(all[0], (1, 2));
    for pair in all[1..].chunks(2) {
        let (full, lite) = (pair[0], pair[1]);
        assert_eq!(
            lite.0,
            HALFKA2T_LITE_VIRTUAL_BASE + threat_full_to_lite(&table, full.0 - 131_949)
        );
        assert_eq!(
            lite.1,
            HALFKA2T_LITE_VIRTUAL_BASE + threat_full_to_lite(&table, full.1 - 131_949)
        );
    }
}

#[test]
fn lite_features_drop_where_the_attacker_stands() {
    let table = FullToLite::new();
    assert_eq!(threat_full_to_lite(&table, 0), 0);
    assert_eq!(threat_full_to_lite(&table, 71), 79);
    assert_eq!(threat_full_to_lite(&table, 72), 81);
}

#[test]
fn names_of_the_dropfact_inputs() {
    let input = ShogiHalfKa2ThreatDropFact::new();
    assert_eq!(input.shorthand(), "shogi-halfka2-threat-dropfact-376542");
    assert_eq!(
        input.description(),
        "Shogi HalfKA2 (131,949) + Threat (216720, profile=full) + KA virtual (1629) + Threat from-drop virtual (26244)"
    );
}

#[test]
fn lite_features_come_on_top_of_the_threat_features() {
    let pos = ShogiPosition {
        board: startpos_board(),
        ka2: vec![(0, 131_948), (131_948, 0)],
        score: 0,
        result: GameResult::Draw,
    };
    let plain = ShogiHalfKa2Threat::default().map_features(&pos);
    let mut rows = ShogiHalfKa2ThreatDropFact::default().map_features(&pos);
    let all = rows.len();
    rows.retain(|&(s, _)| s < HALFKA2T_LITE_VIRTUAL_BASE);
    assert_eq!(rows, plain);
    assert_eq!(all - rows.len(), plain.iter().filter(|&&(s, _)| s >= 131_949).count());
}

#[test]
fn copies_list_the_same() {
    let board = startpos_board();
    let input = ShogiHalfKa2ThreatDropFact::new();
    assert_eq!(input.clone().map_threat_and_lite(&board), input.map_threat_and_lite(&board));
    let plain = ShogiHalfKa2Threat::new();
    assert_eq!(plain.clone().tables_checksum(), plain.tables_checksum());
}
