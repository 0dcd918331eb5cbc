use bulletou_lib::batch::{chunk_ranges, ranges_for_threads};
use bulletou_lib::batches::{BatchAssembler, BatchStep};
use bulletou_lib::corrupt_entries::{corrupt_entries_skipped, CorruptEntries};
use bulletou_lib::score_table::{initialise_win_rate_model_score_table, win_rate_model_score};
use bulletou_lib::wrm_params::{
    set_wrm_params, wrm_params, SetParamsError, WrmParams, WrmSettings,
};

/// Hands the batches of a chunk to `f` until it answers `true`; tells whether it did.
fn map_chunk<D>(
    assembler: &mut BatchAssembler<D>,
    chunk: Vec<D>,
    mut f: impl FnMut(Vec<D>) -> bool,
) -> bool {
    assembler.feed(chunk);
    let mut stop = false;
    loop {
        match assembler.step(stop) {
            BatchStep::Hand(batch) => stop = f(batch),
            BatchStep::Done(stopped) => return stopped,
        }
    }
}

fn all_batches<D>(assembler: &mut BatchAssembler<D>, chunk: Vec<D>) -> Vec<Vec<D>> {
    let mut batches = Vec::new();
    let stopped = map_chunk(assembler, chunk, |batch| {
        batches.push(batch);
        false
    });
    assert!(!stopped);
    batches
}

#[test]
fn batches_are_cut_from_the_stream() {
    let mut assembler = BatchAssembler::new(3);
    assert_eq!(all_batches(&mut assembler, vec![1, 2]), Vec::<Vec<i32>>::new());
    assert_eq!(
        all_batches(&mut assembler, vec![3, 4, 5, 6, 7]),
        vec![vec![1, 2, 3], vec![4, 5, 6]]
    );
    assert_eq!(all_batches(&mut assembler, vec![]), Vec::<Vec<i32>>::new());
    assert_eq!(all_batches(&mut assembler, vec![8, 9]), vec![vec![7, 8, 9]]);
    assert_eq!(all_batches(&mut assembler, vec![10]), Vec::<Vec<i32>>::new());
}

#[test]
fn batches_do_not_depend_on_chunks() {
    let stream: Vec<u32> = (0..50).collect();
    let mut whole = BatchAssembler::new(7);
    let expected = all_batches(&mut whole, stream.clone());
    assert_eq!(expected.len(), 7);
    for step in 1..20 {
        let mut assembler = BatchAssembler::new(7);
        let mut batches = Vec::new();
        for chunk in stream.chunks(step) {
            batches.extend(all_batches(&mut assembler, chunk.to_vec()));
        }
        assert_eq!(batches, expected);
    }
}

#[test]
fn batches_are_handed_on_until_no_more_is_wanted() {
    for k in 1..=5 {
        let mut assembler = BatchAssembler::new(2);
        let mut seen: Vec<Vec<i32>> = Vec::new();
        let mut ends = Vec::new();
        for chunk in [vec![1, 2, 3], vec![4, 5, 6, 7], vec![8, 9, 10]] {
            let stopped = map_chunk(&mut assembler, chunk, |batch| {
                seen.push(batch);
                seen.len() == k
            });
            ends.push(stopped);
            if stopped {
                break;
            }
        }
        let all = [vec![1, 2], vec![3, 4], vec![5, 6], vec![7, 8], vec![9, 10]];
        assert_eq!(seen, all[..k]);
        let chunks = [1, 2, 2, 3, 3][k - 1];
        assert_eq!(ends.len(), chunks);
        assert!(ends[chunks - 1]);
        assert!(ends[..chunks - 1].iter().all(|&stopped| !stopped));
    }
}

#[test]
fn a_stop_at_carried_data_drops_the_rest_of_the_chunk() {
    let mut assembler = BatchAssembler::new(2);
    assert!(all_batches(&mut assembler, vec![1]).is_empty());
    assert!(map_chunk(&mut assembler, vec![2, 3, 4, 5], |_| true));
    assert_eq!(all_batches(&mut assembler, vec![6, 7]), vec![vec![6, 7]]);

    let mut assembler = BatchAssembler::new(2);
    assert!(map_chunk(&mut assembler, vec![2, 3, 4, 5, 6], |_| true));
    assert_eq!(all_batches(&mut assembler, vec![7]), vec![vec![6, 7]]);
}

#[test]
fn data_need_not_be_copied_to_be_batched() {
    let mut assembler = BatchAssembler::new(1);
    let batches = all_batches(&mut assembler, vec![String::from("a"), String::from("b")]);
    assert_eq!(batches, vec![vec![String::from("a")], vec![String::from("b")]]);
}

#[test]
fn chunks_cover_the_positions() {
    assert_eq!(chunk_ranges(10, 4), vec![(0, 4), (4, 8), (8, 10)]);
    assert_eq!(chunk_ranges(8, 4), vec![(0, 4), (4, 8)]);
    assert_eq!(chunk_ranges(1, 5), vec![(0, 1)]);
    assert_eq!(ranges_for_threads(10, 3), vec![(0, 4), (4, 8), (8, 10)]);
    assert_eq!(ranges_for_threads(5, 4), vec![(0, 2), (2, 4), (4, 5)]);
    assert_eq!(ranges_for_threads(2, 7), vec![(0, 1), (1, 2)]);
}

#[test]
fn warnings_come_with_the_first_and_every_hundred_thousandth() {
    let mut entries = CorruptEntries::new();
    assert_eq!(entries.report_corrupt_entry(), Some(1));
    assert_eq!(entries.report_corrupt_entry(), None);
    assert_eq!(entries.report_batch(99_997), Vec::<u64>::new());
    assert_eq!(entries.report_corrupt_entry(), Some(100_000));
    assert_eq!(entries.report_batch(250_000), vec![200_000, 300_000]);
    assert_eq!(corrupt_entries_skipped(&entries), 350_000);
}

fn standard() -> WrmParams<i32> {
    WrmParams { nnue2score: 600, offset: 270, in_scaling: 340, out_scaling: 380, pow_exp: 2 }
}

fn chosen() -> WrmParams<i32> {
    WrmParams { nnue2score: 600, offset: 0, in_scaling: 285, out_scaling: 285, pow_exp: 2 }
}

#[test]
fn standard_parameters_hold_until_others_are_set() {
    let mut settings = WrmSettings::new(standard());
    assert_eq!(wrm_params(&mut settings), standard());
    let mut settings = WrmSettings::new(standard());
    assert_eq!(set_wrm_params(&mut settings, chosen()), Ok(()));
    assert_eq!(wrm_params(&mut settings), chosen());
    assert_eq!(wrm_params(&mut settings), chosen());
}

#[test]
fn parameters_are_set_once_and_before_use() {
    let mut settings = WrmSettings::new(standard());
    assert_eq!(set_wrm_params(&mut settings, chosen()), Ok(()));
    assert_eq!(set_wrm_params(&mut settings, standard()), Err(SetParamsError::AlreadySet));
    assert_eq!(wrm_params(&mut settings), chosen());
    assert_eq!(set_wrm_params(&mut settings, standard()), Err(SetParamsError::AlreadyUsed));
    let mut settings = WrmSettings::new(standard());
    wrm_params(&mut settings);
    assert_eq!(set_wrm_params(&mut settings, chosen()), Err(SetParamsError::AlreadyUsed));
    assert_eq!(wrm_params(&mut settings), standard());
}

#[test]
fn the_table_holds_every_score() {
    let mut settings = WrmSettings::new(standard());
    let table = initialise_win_rate_model_score_table(&mut settings, &|params, score| {
        i32::from(score) * 2 + params.offset
    });
    for score in [i16::MIN, -1, 0, 1, 1234, i16::MAX] {
        assert_eq!(win_rate_model_score(&table, score), i32::from(score) * 2 + 270);
    }
    assert_eq!(set_wrm_params(&mut settings, chosen()), Err(SetParamsError::AlreadyUsed));
}
