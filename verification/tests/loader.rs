use bulletou_lib::batches::BatchStep;
use bulletou_lib::corrupt_entries::{corrupt_entries_skipped, CorruptEntries};
use bulletou_lib::inputs::{OutputBuckets, ShogiPosition, SparseInputType};
use bulletou_lib::loader::{DefaultDataLoader, GameResult, LoadableDataType};
use bulletou_lib::prepare::PrepareConfig;
use bulletou_lib::prepared_data::{PreparedData, TargetLevels};
use bulletou_lib::shogi::ShogiBoard;
use bulletou_lib::shogi_halfka2_threat_effect::ShogiHalfKa2ThreatEffect;
use bulletou_lib::wrm_params::{set_wrm_params, SetParamsError, WrmParams, WrmSettings};

fn sigmoid(x: f32) -> f32 {
    1. / (1. + (-x).exp())
}

fn levels() -> TargetLevels<f32> {
    TargetLevels { zero: 0.0, half: 0.5, one: 1.0 }
}

fn settings() -> WrmSettings<f32> {
    WrmSettings::new(WrmParams {
        nnue2score: 600.0,
        offset: 270.0,
        in_scaling: 340.0,
        out_scaling: 380.0,
        pow_exp: 2.5,
    })
}

fn win_rate(params: &WrmParams<f32>, score: i16) -> f32 {
    let score = f32::from(score);
    let p = sigmoid((score - params.offset) / params.out_scaling);
    let pm = sigmoid((-score - params.offset) / params.out_scaling);
    0.5 * (1.0 + p - pm)
}

fn mix(blend: f32, result: GameResult, score: f32) -> f32 {
    let result = result.index() as f32 / 2.0;
    assert!((0.0..=1.0).contains(&blend), "WDL proportion must be in [0, 1]");
    blend * result + (1. - blend) * score
}

fn squash(score: i16) -> f32 {
    sigmoid(f32::from(score) / 400.0)
}

#[derive(Clone, Copy)]
struct TinyPos {
    a: usize,
    b: usize,
    score: i16,
    result: GameResult,
}

impl LoadableDataType for TinyPos {
    fn score(&self) -> i16 {
        self.score
    }

    fn result(&self) -> GameResult {
        self.result
    }
}

#[derive(Clone)]
struct TinyInput;

impl SparseInputType for TinyInput {
    type RequiredDataType = TinyPos;

    type HandCount = f32;

    fn num_inputs(&self) -> usize {
        8
    }

    fn max_active(&self) -> usize {
        2
    }

    fn map_features(&self, pos: &TinyPos) -> Vec<(usize, usize)> {
        vec![(pos.a, pos.b), ((pos.a + 1) % 8, (pos.b + 1) % 8)]
    }

    fn map_features_split(&self, pos: &TinyPos) -> Vec<(Option<usize>, Option<usize>)> {
        self.map_features(pos).into_iter().map(|(s, n)| (Some(s), Some(n))).collect()
    }

    fn hand_count_dims(&self) -> Option<usize> {
        None
    }

    fn fill_hand_count(&self, _pos: &TinyPos) -> Vec<f32> {
        Vec::new()
    }

    fn empty_hand_count() -> f32 {
        0.0
    }

    fn shorthand(&self) -> String {
        "tiny".to_string()
    }

    fn description(&self) -> String {
        "Tiny test input".to_string()
    }
}

#[derive(Clone, Copy, Default)]
struct TinyBuckets;

impl OutputBuckets<TinyPos> for TinyBuckets {
    const BUCKETS: usize = 3;

    fn bucket(&self, pos: &TinyPos) -> usize {
        pos.a % 3
    }
}

/// Prepares a batch with settings of its own.
fn prepare<I, O, B, W, S, M>(
    config: &mut PrepareConfig<I, O, f32, B, W, S, M>,
    data: &[I::RequiredDataType],
    threads: usize,
    blend: f32,
) -> PreparedData<I, f32>
where
    I: SparseInputType,
    I::RequiredDataType: LoadableDataType,
    O: OutputBuckets<I::RequiredDataType>,
    B: Fn(&I::RequiredDataType, f32) -> f32,
    W: Fn(&I::RequiredDataType) -> f32,
    S: Fn(i16) -> f32,
    M: Fn(f32, GameResult, f32) -> f32,
{
    PreparedData::new(config, data, threads, blend, &mut settings(), &win_rate)
}

/// Prepares a batch in a pool with settings of its own.
fn prepare_in<I, O, B, W, S, M>(
    pool: &rayon::ThreadPool,
    config: &mut PrepareConfig<I, O, f32, B, W, S, M>,
    data: &[I::RequiredDataType],
    threads: usize,
    blend: f32,
) -> PreparedData<I, f32>
where
    I: SparseInputType + Sync,
    I::RequiredDataType: LoadableDataType + Sync,
    I::HandCount: Send,
    O: OutputBuckets<I::RequiredDataType> + Sync,
    B: Fn(&I::RequiredDataType, f32) -> f32 + Sync,
    W: Fn(&I::RequiredDataType) -> f32 + Sync,
    S: Fn(i16) -> f32 + Sync,
    M: Fn(f32, GameResult, f32) -> f32 + Sync,
{
    PreparedData::new_with_pool(
        config,
        data,
        threads,
        blend,
        &mut settings(),
        &win_rate,
        Some(pool),
    )
}

type TinyConfig = PrepareConfig<
    TinyInput,
    TinyBuckets,
    f32,
    fn(&TinyPos, f32) -> f32,
    fn(&TinyPos) -> f32,
    fn(i16) -> f32,
    fn(f32, GameResult, f32) -> f32,
>;

fn same_blend(_pos: &TinyPos, blend: f32) -> f32 {
    blend
}

fn tiny_config(
    weight_getter: Option<fn(&TinyPos) -> f32>,
    use_win_rate_model: bool,
    wdl: bool,
    score_drop_abs: Option<u16>,
) -> TinyConfig {
    PrepareConfig::new(
        TinyInput,
        TinyBuckets,
        same_blend as fn(&TinyPos, f32) -> f32,
        weight_getter,
        use_win_rate_model,
        wdl,
        squash as fn(i16) -> f32,
        mix as fn(f32, GameResult, f32) -> f32,
        score_drop_abs,
        levels(),
    )
}

fn tiny_data() -> Vec<TinyPos> {
    (0..16)
        .map(|i| TinyPos {
            a: i % 7,
            b: (i * 3) % 7,
            score: (i as i16) * 10 - 80,
            result: [GameResult::Loss, GameResult::Draw, GameResult::Win][i % 3],
        })
        .collect()
}

/// A data point that says how many features are active.
#[derive(Clone, Copy)]
struct FakePos {
    n_features: usize,
    feature_base: usize,
    score: i16,
}

impl LoadableDataType for FakePos {
    fn score(&self) -> i16 {
        self.score
    }

    fn result(&self) -> GameResult {
        GameResult::Draw
    }
}

/// Four slots and a hundred inputs; with hand counts of its own where it is asked for them.
#[derive(Clone)]
struct FakeInput {
    hand_dims: Option<usize>,
}

impl SparseInputType for FakeInput {
    type RequiredDataType = FakePos;

    type HandCount = f32;

    fn num_inputs(&self) -> usize {
        100
    }

    fn max_active(&self) -> usize {
        4
    }

    fn map_features(&self, pos: &FakePos) -> Vec<(usize, usize)> {
        (0..pos.n_features).map(|k| (pos.feature_base + k, pos.feature_base + k)).collect()
    }

    fn map_features_split(&self, pos: &FakePos) -> Vec<(Option<usize>, Option<usize>)> {
        self.map_features(pos).into_iter().map(|(s, n)| (Some(s), Some(n))).collect()
    }

    fn hand_count_dims(&self) -> Option<usize> {
        self.hand_dims
    }

    fn fill_hand_count(&self, pos: &FakePos) -> Vec<f32> {
        vec![pos.feature_base as f32; self.hand_dims.unwrap_or(0)]
    }

    fn empty_hand_count() -> f32 {
        0.0
    }

    fn shorthand(&self) -> String {
        "fake".into()
    }

    fn description(&self) -> String {
        "test input".into()
    }
}

#[derive(Clone, Copy, Default)]
struct FakeBuckets;

impl OutputBuckets<FakePos> for FakeBuckets {
    const BUCKETS: usize = 1;

    fn bucket(&self, _pos: &FakePos) -> usize {
        0
    }
}

type FakeConfig = PrepareConfig<
    FakeInput,
    FakeBuckets,
    f32,
    fn(&FakePos, f32) -> f32,
    fn(&FakePos) -> f32,
    fn(i16) -> f32,
    fn(f32, GameResult, f32) -> f32,
>;

fn fake_blend(_pos: &FakePos, blend: f32) -> f32 {
    blend
}

fn fake_config(hand_dims: Option<usize>, wdl: bool) -> FakeConfig {
    PrepareConfig::new(
        FakeInput { hand_dims },
        FakeBuckets,
        fake_blend as fn(&FakePos, f32) -> f32,
        None,
        false,
        wdl,
        squash as fn(i16) -> f32,
        mix as fn(f32, GameResult, f32) -> f32,
        None,
        levels(),
    )
}

fn prepare_fake(data: &[FakePos], threads: usize) -> PreparedData<FakeInput, f32> {
    prepare(&mut fake_config(None, false), data, threads, 0.0)
}

fn healthy(base: usize, score: i16) -> FakePos {
    FakePos { n_features: 4, feature_base: base, score }
}

fn broken(base: usize) -> FakePos {
    FakePos { n_features: 6, feature_base: base, score: 0 }
}

const MA: usize = 4;

#[test]
fn corrupt_entry_does_not_panic_and_is_counted() {
    let mut entries = CorruptEntries::new();
    let before = corrupt_entries_skipped(&entries);
    let data = [healthy(0, 100), broken(10), healthy(20, -100)];
    let prep = prepare_fake(&data, 1);
    entries.report_batch(prep.corrupt);
    assert!(corrupt_entries_skipped(&entries) >= before + 1, "破損件数が計上される");
}

#[test]
fn corrupt_entry_does_not_corrupt_neighbours() {
    let data = [healthy(0, 100), broken(10), healthy(20, -100)];
    let prep = prepare_fake(&data, 1);
    let ma = fake_config(None, false).input_getter.max_active();

    assert_eq!(&prep.stm[0..ma], &[0, 1, 2, 3], "前の健全レコードが無傷");
    assert_eq!(&prep.stm[2 * ma..3 * ma], &[20, 21, 22, 23], "後の健全レコードが無傷");
}

#[test]
fn corrupt_entry_is_replaced_by_donor_not_left_empty() {
    let data = [healthy(0, 100), broken(10), healthy(20, -100)];
    let prep = prepare_fake(&data, 1);
    let ma = fake_config(None, false).input_getter.max_active();
    let slot = &prep.stm[ma..2 * ma];

    assert_ne!(slot, &[-1, -1, -1, -1], "空入力のまま流してはいけない");
    assert_eq!(slot, &prep.stm[0..ma], "donor (先頭の健全レコード) の複製");
    assert_eq!(prep.targets[1], prep.targets[0], "target も donor のもの");
    assert_eq!(prep.weights[1], prep.weights[0], "weight も donor のもの");
}

#[test]
fn corrupt_entry_handled_in_parallel_path_too() {
    let pool = rayon::ThreadPoolBuilder::new().num_threads(2).build().unwrap();
    let data = [healthy(0, 100), broken(10), healthy(20, -100), healthy(30, 50)];
    let mut config = fake_config(None, false);
    let prep = prepare_in(&pool, &mut config, &data, 2, 0.0);
    let ma = config.input_getter.max_active();
    assert_eq!(&prep.stm[0..ma], &[0, 1, 2, 3], "健全レコードが無傷");
    assert_ne!(&prep.stm[ma..2 * ma], &[-1, -1, -1, -1], "破損は donor で埋まる");
}

#[test]
fn prepare_with_pool_matches_scoped_prepare() {
    let data = tiny_data();
    let pool = rayon::ThreadPoolBuilder::new().num_threads(4).build().unwrap();
    let mut config = tiny_config(None, true, false, None);

    let baseline = prepare(&mut config, &data, 4, 0.0);
    let pooled = prepare_in(&pool, &mut config, &data, 4, 0.0);

    assert_eq!(baseline.stm, pooled.stm);
    assert_eq!(baseline.nstm, pooled.nstm);
    assert_eq!(baseline.buckets, pooled.buckets);
    assert_eq!(baseline.targets, pooled.targets);
    assert_eq!(baseline.weights, pooled.weights);
    assert_eq!(baseline.hand_count, pooled.hand_count);
}

#[test]
fn pooled_records_stand_in_order() {
    let pool = rayon::ThreadPoolBuilder::new().num_threads(3).build().unwrap();
    let data: Vec<FakePos> = (0..23).map(|i| healthy(4 * i, i as i16)).collect();
    let mut config = fake_config(None, false);
    let prep = prepare_in(&pool, &mut config, &data, 5, 0.0);
    let expected: Vec<i32> = (0..92).collect();
    assert_eq!(prep.batch_size, 23);
    assert_eq!(prep.stm, expected);
    assert_eq!(prep.nstm, expected);
    assert_eq!(prep.targets[7], sigmoid(7.0 / 400.0));
}

#[test]
fn records_hold_features_bucket_weight_and_target() {
    let data = [
        TinyPos { a: 5, b: 7, score: 400, result: GameResult::Win },
        TinyPos { a: 1, b: 2, score: -400, result: GameResult::Loss },
    ];
    let prep = prepare(&mut tiny_config(None, false, false, None), &data, 1, 0.25);
    assert_eq!(prep.stm, vec![5, 6, 1, 2]);
    assert_eq!(prep.nstm, vec![7, 0, 2, 3]);
    assert_eq!(prep.buckets, vec![2, 1]);
    assert_eq!(prep.weights, vec![1.0, 1.0]);
    assert_eq!(prep.targets, vec![0.25 + 0.75 * sigmoid(1.0), 0.75 * sigmoid(-1.0)]);
    assert_eq!(prep.hand_count, None);
    assert_eq!(prep.corrupt, 0);
    assert!(prep.hopeless_chunks.is_empty());
}

#[test]
fn win_rates_stand_in_for_squashed_scores() {
    let data = [TinyPos { a: 0, b: 0, score: 123, result: GameResult::Draw }];
    let prep = prepare(&mut tiny_config(None, true, false, None), &data, 1, 0.0);
    assert_eq!(prep.targets, vec![win_rate(&settings().standard, 123)]);
}

#[test]
fn wdl_targets_have_a_one_at_the_result() {
    let data = [
        TinyPos { a: 0, b: 0, score: 0, result: GameResult::Loss },
        TinyPos { a: 0, b: 0, score: 0, result: GameResult::Draw },
        TinyPos { a: 0, b: 0, score: 0, result: GameResult::Win },
    ];
    let prep = prepare(&mut tiny_config(None, true, true, None), &data, 2, 0.0);
    assert_eq!(prep.targets, vec![1.0, 0.0, 0.0, 0.0, 1.0, 0.0, 0.0, 0.0, 1.0]);
}

fn weight_by_input(pos: &TinyPos) -> f32 {
    pos.a as f32
}

#[test]
fn large_scores_weigh_nothing() {
    let with_score = |score: i16| TinyPos { a: 3, b: 0, score, result: GameResult::Draw };
    let data = [
        with_score(99),
        with_score(100),
        with_score(-99),
        with_score(-100),
        with_score(i16::MIN),
        with_score(i16::MAX),
    ];
    let mut config = tiny_config(Some(weight_by_input as fn(&TinyPos) -> f32), false, false, Some(100));
    let prep = prepare(&mut config, &data, 1, 0.0);
    assert_eq!(prep.weights, vec![3.0, 0.0, 3.0, 0.0, 0.0, 0.0]);
    let mut config = tiny_config(None, false, false, Some(32_768));
    let prep = prepare(&mut config, &data, 1, 0.0);
    assert_eq!(prep.weights, vec![1.0, 1.0, 1.0, 1.0, 0.0, 1.0]);
}

#[test]
fn an_input_out_of_range_is_corrupt() {
    let data = [FakePos { n_features: 2, feature_base: 99, score: 0 }, healthy(8, 0)];
    let prep = prepare_fake(&data, 1);
    assert_eq!(prep.corrupt, 1);
    assert_eq!(prep.stm, vec![8, 9, 10, 11, 8, 9, 10, 11]);
}

#[test]
fn slots_left_over_hold_minus_one() {
    let data = [FakePos { n_features: 2, feature_base: 50, score: 0 }];
    let prep = prepare_fake(&data, 1);
    assert_eq!(prep.corrupt, 0);
    assert_eq!(prep.stm, vec![50, 51, -1, -1]);
    assert_eq!(prep.nstm, vec![50, 51, -1, -1]);
}

#[test]
fn a_donor_comes_from_the_same_chunk() {
    let data = [healthy(0, 100), healthy(4, 0), broken(10), healthy(20, -100)];
    let prep = prepare_fake(&data, 2);
    assert_eq!(&prep.stm[2 * MA..3 * MA], &[20, 21, 22, 23]);
    assert_eq!(prep.targets[2], sigmoid(-0.25));
}

#[test]
fn a_chunk_without_a_healthy_record_is_neutral() {
    let data = [healthy(0, 100), healthy(4, 0), broken(10), broken(20), broken(30)];
    let prep = prepare_fake(&data, 2);
    assert_eq!(prep.corrupt, 3);
    assert_eq!(prep.hopeless_chunks, vec![2]);
    let prep = prepare_fake(&data, 3);
    assert_eq!(prep.hopeless_chunks, vec![2, 1]);
    assert_eq!(&prep.stm[2 * MA..], &[-1; 3 * MA]);
    assert_eq!(&prep.nstm[2 * MA..], &[-1; 3 * MA]);
    assert_eq!(&prep.targets[2..], &[0.5; 3]);
    assert_eq!(&prep.weights[2..], &[0.0; 3]);
    let prep = prepare(&mut fake_config(Some(2), true), &data[2..], 1, 0.0);
    assert_eq!(prep.targets, vec![0.0, 1.0, 0.0, 0.0, 1.0, 0.0, 0.0, 1.0, 0.0]);
    assert_eq!(prep.hand_count, Some(vec![0.0; 6]));
}

#[test]
fn hand_counts_come_from_the_donor_too() {
    let data = [healthy(0, 100), broken(10), healthy(20, -100)];
    let pool = rayon::ThreadPoolBuilder::new().num_threads(2).build().unwrap();
    let mut config = fake_config(Some(3), false);
    let prep = prepare_in(&pool, &mut config, &data, 1, 0.0);
    assert_eq!(prep.hand_count, Some(vec![0.0, 0.0, 0.0, 0.0, 0.0, 0.0, 20.0, 20.0, 20.0]));
}

#[test]
fn threads_do_not_matter_to_healthy_positions() {
    let data = tiny_data();
    let mut config = tiny_config(None, false, false, None);
    let one = prepare(&mut config, &data, 1, 0.5);
    for threads in [2, 3, 5, 16, 40] {
        let other = prepare(&mut config, &data, threads, 0.5);
        assert_eq!(one.stm, other.stm);
        assert_eq!(one.nstm, other.nstm);
        assert_eq!(one.buckets, other.buckets);
        assert_eq!(one.targets, other.targets);
        assert_eq!(one.weights, other.weights);
    }
}

#[test]
fn loader_prepares_as_its_config_says() {
    let data = tiny_data();
    let pool = rayon::ThreadPoolBuilder::new().num_threads(2).build().unwrap();
    let loader = DefaultDataLoader::new(
        tiny_config(None, false, true, None),
        (),
        &mut settings(),
        &win_rate,
    );
    let here = loader.prepare(&data, 3, 0.0);
    let there = loader.prepare_with_pool(&data, &pool, 3, 0.0);
    assert_eq!(here.targets, there.targets);
    assert_eq!(here.stm, there.stm);
    assert_eq!(here.batch_size, 16);
}

#[test]
fn loader_starts_at_the_position_of_the_batch() {
    let loader = DefaultDataLoader::new(
        tiny_config(None, false, true, None),
        (),
        &mut settings(),
        &win_rate,
    );
    assert_eq!(loader.load_and_map_batches(3, 5).0, 15);
    let (start, mut assembler) = loader.load_and_map_batches_from_position(7, 5);
    assert_eq!(start, 7);
    assembler.feed(tiny_data());
    let mut batches = Vec::new();
    while let BatchStep::Hand(batch) = assembler.step(false) {
        batches.push(batch);
    }
    assert_eq!(batches.len(), 3);
    assert_eq!(batches[2][0].score, 20);
}

#[test]
fn results_have_numbers() {
    for result in [GameResult::Loss, GameResult::Draw, GameResult::Win] {
        assert_eq!(GameResult::from_index(result.index()), result);
    }
    assert_eq!(GameResult::Loss.index(), 0);
    assert_eq!(GameResult::Draw.index(), 1);
    assert_eq!(GameResult::Win.index(), 2);
}

/// Buckets that know nothing of a position with more features than there are slots.
struct StrictBuckets;

impl OutputBuckets<FakePos> for StrictBuckets {
    const BUCKETS: usize = 100;

    fn bucket(&self, pos: &FakePos) -> usize {
        assert!(pos.n_features <= MA, "a corrupt position has no bucket");
        pos.feature_base
    }
}

fn strict_weight(pos: &FakePos) -> f32 {
    assert!(pos.n_features <= MA, "a corrupt position has no weight");
    pos.score as f32
}

fn strict_blend(pos: &FakePos, blend: f32) -> f32 {
    assert!(pos.n_features <= MA, "a corrupt position has no blend");
    blend
}

#[test]
fn getters_are_not_asked_about_corrupt_positions() {
    let mut config = PrepareConfig::new(
        FakeInput { hand_dims: None },
        StrictBuckets,
        strict_blend as fn(&FakePos, f32) -> f32,
        Some(strict_weight as fn(&FakePos) -> f32),
        false,
        false,
        squash as fn(i16) -> f32,
        mix as fn(f32, GameResult, f32) -> f32,
        None,
        levels(),
    );
    let data = [broken(10), healthy(7, 3), broken(20), healthy(9, 4)];
    let prep = prepare(&mut config, &data, 1, 0.5);
    assert_eq!(prep.buckets, vec![7, 7, 7, 9]);
    assert_eq!(prep.weights, vec![3.0, 3.0, 3.0, 4.0]);
    let pool = rayon::ThreadPoolBuilder::new().num_threads(2).build().unwrap();
    let prep = prepare_in(&pool, &mut config, &data, 2, 0.5);
    assert_eq!(prep.buckets, vec![7, 7, 9, 9]);
}

struct OneBucket;

impl OutputBuckets<ShogiPosition> for OneBucket {
    const BUCKETS: usize = 1;

    fn bucket(&self, _pos: &ShogiPosition) -> usize {
        0
    }
}

fn shogi_blend(_pos: &ShogiPosition, blend: f32) -> f32 {
    blend
}

#[test]
fn shogi_positions_go_through_the_loader() {
    let mut config = PrepareConfig::new(
        ShogiHalfKa2ThreatEffect,
        OneBucket,
        shogi_blend as fn(&ShogiPosition, f32) -> f32,
        None::<fn(&ShogiPosition) -> f32>,
        false,
        true,
        squash as fn(i16) -> f32,
        mix as fn(f32, GameResult, f32) -> f32,
        None,
        levels(),
    );
    let loader = DefaultDataLoader::new(config, (), &mut settings(), &win_rate);
    let pos = ShogiPosition {
        board: ShogiBoard::default(),
        ka2: vec![(1, 2)],
        score: 0,
        result: GameResult::Win,
    };
    let (_, mut assembler) = loader.load_and_map_batches(0, 2);
    assembler.feed(vec![pos.clone(), pos]);
    let batch = match assembler.step(false) {
        BatchStep::Hand(batch) => batch,
        BatchStep::Done(_) => panic!("a batch is full"),
    };
    let prep = loader.prepare(&batch, 1, 0.0);
    assert_eq!(prep.batch_size, 2);
    assert_eq!(prep.stm[0], 1);
    assert_eq!(prep.nstm[120], 2);
    assert_eq!(prep.targets, vec![0.0, 0.0, 1.0, 0.0, 0.0, 1.0]);
    assert!(matches!(assembler.step(true), BatchStep::Done(true)));
}

fn win_rate_config() -> FakeConfig {
    let mut config = fake_config(None, false);
    config.use_win_rate_model = true;
    config
}

fn other_params() -> WrmParams<f32> {
    WrmParams { nnue2score: 600.0, offset: 0.0, in_scaling: 285.0, out_scaling: 285.0, pow_exp: 2.0 }
}

#[test]
fn win_rate_parameters_are_used_at_the_first_healthy_record() {
    let mut config = win_rate_config();
    let mut settings = settings();
    let only_corrupt = [broken(1), broken(2)];
    let prep =
        PreparedData::new(&mut config, &only_corrupt, 2, 0.0, &mut settings, &win_rate);
    assert_eq!(prep.targets, vec![0.5, 0.5]);
    assert_eq!(set_wrm_params(&mut settings, other_params()), Ok(()));

    let data = [broken(1), healthy(4, 100)];
    let prep = PreparedData::new(&mut config, &data, 1, 0.0, &mut settings, &win_rate);
    assert_eq!(prep.targets, vec![win_rate(&other_params(), 100); 2]);
    assert_eq!(
        set_wrm_params(&mut settings, other_params()),
        Err(SetParamsError::AlreadyUsed)
    );
    let prep = PreparedData::new(&mut config, &data, 1, 0.0, &mut settings, &win_rate);
    assert_eq!(prep.targets, vec![win_rate(&other_params(), 100); 2]);
}

#[test]
fn a_loader_uses_the_win_rate_parameters_at_once() {
    let mut settings = settings();
    let loader = DefaultDataLoader::new(win_rate_config(), (), &mut settings, &win_rate);
    assert_eq!(
        set_wrm_params(&mut settings, other_params()),
        Err(SetParamsError::AlreadyUsed)
    );
    let prep = loader.prepare(&[healthy(4, 100)], 1, 0.0);
    assert_eq!(prep.targets, vec![win_rate(&settings.standard, 100)]);
}

#[test]
fn win_rate_parameters_stay_unused_with_targets_for_each_result() {
    let mut settings = settings();
    let mut config = fake_config(None, true);
    config.use_win_rate_model = true;
    PreparedData::new(&mut config, &[healthy(4, 100)], 1, 0.0, &mut settings, &win_rate);
    let _ = DefaultDataLoader::new(config, (), &mut settings, &win_rate);
    assert_eq!(set_wrm_params(&mut settings, other_params()), Ok(()));
}

#[test]
fn a_donor_may_be_listed_as_corrupt_itself() {
    let mut prep = prepare_fake(&[healthy(0, 1), healthy(8, 2), healthy(16, 3)], 1);
    let config = fake_config(None, false);
    let hopeless = prep.replace_corrupt_with_donor(
        &vec![1, 2],
        Some(1),
        config.shape(),
        false,
        &levels(),
        0.0,
    );
    assert!(!hopeless);
    assert_eq!(prep.stm, vec![0, 1, 2, 3, 8, 9, 10, 11, 8, 9, 10, 11]);
}
