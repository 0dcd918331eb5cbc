//! What the vectors of a prepared batch hold, value by value.
use vstd::prelude::*;

use crate::batch;
use crate::inputs::OutputBuckets;
use crate::inputs::SparseInputType;
use crate::loader::GameResult;
use crate::loader::LoadableDataType;
use crate::prepare::PrepareConfig;
use crate::prepared_data::PreparedData;
use crate::rows;
use crate::sparse_rows;
use crate::wrm_params::WrmParams;
use crate::wrm_params::WrmSettings;

verus! {

/// The inputs of the side to move are those that it sees, in the order of the features.
pub proof fn law_ours_are_those_seen(features: Seq<(Option<usize>, Option<usize>)>)
    ensures
        sparse_rows::ours(features) == features.filter(
            |f: (Option<usize>, Option<usize>)| f.0 is Some,
        ).map_values(|f: (Option<usize>, Option<usize>)| f.0->0),
    decreases features.len(),
{
    broadcast use Seq::lemma_filter_push;

    let seen = |f: (Option<usize>, Option<usize>)| f.0 is Some;
    let input = |f: (Option<usize>, Option<usize>)| f.0->0;
    if features.len() == 0 {
        assert(features =~= Seq::empty());
        reveal(Seq::filter);
        assert(features.filter(seen).map_values(input) =~= Seq::empty());
    } else {
        let before = features.drop_last();
        law_ours_are_those_seen(before);
        assert(features =~= before.push(features.last()));
        assert(features.filter(seen).map_values(input) =~= sparse_rows::ours(features));
    }
}

/// The inputs of the other side are those that it sees, in the order of the features.
pub proof fn law_theirs_are_those_seen(features: Seq<(Option<usize>, Option<usize>)>)
    ensures
        sparse_rows::theirs(features) == features.filter(
            |f: (Option<usize>, Option<usize>)| f.1 is Some,
        ).map_values(|f: (Option<usize>, Option<usize>)| f.1->0),
    decreases features.len(),
{
    broadcast use Seq::lemma_filter_push;

    let seen = |f: (Option<usize>, Option<usize>)| f.1 is Some;
    let input = |f: (Option<usize>, Option<usize>)| f.1->0;
    if features.len() == 0 {
        assert(features =~= Seq::empty());
        reveal(Seq::filter);
        assert(features.filter(seen).map_values(input) =~= Seq::empty());
    } else {
        let before = features.drop_last();
        law_theirs_are_those_seen(before);
        assert(features =~= before.push(features.last()));
        assert(features.filter(seen).map_values(input) =~= sparse_rows::theirs(features));
    }
}

/// An input gets a slot if it exists and a slot is left: the inputs kept are the first of those that
/// exist.
pub proof fn law_kept_are_the_first_that_exist(
    inputs: Seq<usize>,
    input_size: usize,
    max_active: usize,
)
    ensures
        ({
            let existing = inputs.filter(|input: usize| input < input_size);
            sparse_rows::kept(inputs, input_size, max_active) == if existing.len() <= max_active {
                existing
            } else {
                existing.take(max_active as int)
            }
        }),
    decreases inputs.len(),
{
    broadcast use Seq::lemma_filter_push;

    let exists_in = |input: usize| input < input_size;
    if inputs.len() == 0 {
        reveal(Seq::filter);
        assert(inputs.filter(exists_in) =~= Seq::empty());
    } else {
        let before = inputs.drop_last();
        law_kept_are_the_first_that_exist(before, input_size, max_active);
        assert(inputs =~= before.push(inputs.last()));
        let now = inputs.filter(exists_in);
        let kept = if now.len() <= max_active {
            now
        } else {
            now.take(max_active as int)
        };
        assert(sparse_rows::kept(inputs, input_size, max_active) =~= kept);
    }
}

impl<I, O, T, B, W, S, M> PrepareConfig<I, O, T, B, W, S, M> where
    I: SparseInputType,
    O: OutputBuckets<I::RequiredDataType>,
    I::RequiredDataType: LoadableDataType,
    T: Copy,
    B: Fn(&I::RequiredDataType, T) -> T,
    W: Fn(&I::RequiredDataType) -> T,
    S: Fn(i16) -> T,
    M: Fn(T, GameResult, T) -> T,
 {
    /// A position is healthy exactly if neither side sees more inputs than there are slots, and
    /// neither sees one that does not exist.
    pub proof fn law_healthy_positions_fit(&self, pos: &I::RequiredDataType)
        ensures
            ({
                let features = self.input_getter.split_features(pos);
                let n = self.input_getter.input_size();
                let limit = self.input_getter.active_limit();
                self.healthy(pos) <==> {
                    &&& features.filter(|f: (Option<usize>, Option<usize>)| f.0 is Some).len()
                        <= limit
                    &&& features.filter(|f: (Option<usize>, Option<usize>)| f.1 is Some).len()
                        <= limit
                    &&& forall|k: int|
                        0 <= k < features.len() ==> {
                            &&& (#[trigger] features[k]).0 matches Some(input) ==> input < n
                            &&& features[k].1 matches Some(input) ==> input < n
                        }
                }
            }),
    {
        let features = self.input_getter.split_features(pos);
        let n = self.input_getter.input_size();
        law_ours_are_those_seen(features);
        law_theirs_are_those_seen(features);
        lemma_all_exist(features, n);
    }

    /// The vectors of a batch have a row for each position.
    pub proof fn law_each_position_has_a_row(
        &self,
        data: Seq<I::RequiredDataType>,
        threads: int,
        blend: T,
        prep: PreparedData<I, T>,
    )
        requires
            self.batch_done(data, threads, blend, prep),
        ensures
            prep.batch_size == data.len(),
            prep.stm@.len() == self.input_getter.active_limit() * data.len(),
            prep.nstm@.len() == self.input_getter.active_limit() * data.len(),
            prep.buckets@.len() == data.len(),
            prep.weights@.len() == data.len(),
            self.wdl ==> prep.targets@.len() == 3 * data.len(),
            !self.wdl ==> prep.targets@.len() == data.len(),
            match self.input_getter.hand_dims() {
                Some(dims) => prep.hand_count is Some && prep.hand_count->0@.len() == dims
                    * data.len(),
                None => prep.hand_count is None,
            },
    {
    }

    /// What a batch holds of a healthy position is made of that position.
    proof fn lemma_healthy(
        &self,
        data: Seq<I::RequiredDataType>,
        threads: int,
        blend: T,
        prep: PreparedData<I, T>,
        i: int,
    )
        requires
            0 < threads,
            self.batch_done(data, threads, blend, prep),
            0 <= i < data.len(),
            self.healthy(&data[i]),
        ensures
            prep.sized(self.spec_shape(), data.len() as int),
            self.makes(&data[i], blend, prep.record(self.spec_shape(), i)),
    {
        self.law_healthy_records_are_kept(data, threads, blend, prep, i);
    }

    /// The slots of a healthy position hold the inputs that the side to move sees, then those that
    /// the other side sees, in order; those left over hold -1.
    pub proof fn law_healthy_position_has_its_inputs(
        &self,
        data: Seq<I::RequiredDataType>,
        threads: int,
        blend: T,
        prep: PreparedData<I, T>,
        i: int,
        j: int,
    )
        requires
            0 < threads,
            self.batch_done(data, threads, blend, prep),
            0 <= i < data.len(),
            self.healthy(&data[i]),
            0 <= j < self.input_getter.active_limit(),
        ensures
            ({
                let features = self.input_getter.split_features(&data[i]);
                let limit = self.input_getter.active_limit();
                let ours = features.filter(|f: (Option<usize>, Option<usize>)| f.0 is Some);
                let theirs = features.filter(|f: (Option<usize>, Option<usize>)| f.1 is Some);
                &&& prep.stm@[limit * i + j] == if j < ours.len() {
                    ours[j].0->0 as i32
                } else {
                    -1i32
                }
                &&& prep.nstm@[limit * i + j] == if j < theirs.len() {
                    theirs[j].1->0 as i32
                } else {
                    -1i32
                }
            }),
    {
        let features = self.input_getter.split_features(&data[i]);
        let shape = self.spec_shape();
        self.lemma_healthy(data, threads, blend, prep, i);
        prep.lemma_rows(shape, data.len() as int, i);
        rows::lemma_has_row(prep.stm@, shape.max_active as int, data.len() as int, i);
        law_ours_are_those_seen(features);
        law_theirs_are_those_seen(features);
        let record = prep.record(shape, i);
        assert(record.stm[j] == prep.stm@[shape.max_active * i + j]);
        assert(record.nstm[j] == prep.nstm@[shape.max_active * i + j]);
    }

    /// The bucket of a healthy position is what the getter gives; it is zero if there is one only.
    pub proof fn law_healthy_position_has_its_bucket(
        &self,
        data: Seq<I::RequiredDataType>,
        threads: int,
        blend: T,
        prep: PreparedData<I, T>,
        i: int,
    )
        requires
            0 < threads,
            self.batch_done(data, threads, blend, prep),
            0 <= i < data.len(),
            self.healthy(&data[i]),
        ensures
            O::BUCKETS > 1 ==> prep.buckets@[i] == self.output_getter.bucket_of(&data[i]) as i32,
            O::BUCKETS <= 1 ==> prep.buckets@[i] == 0,
    {
        self.lemma_healthy(data, threads, blend, prep, i);
        let record = prep.record(self.spec_shape(), i);
        assert(record.bucket == prep.buckets@[i]);
    }

    /// A healthy position whose score is at the cap or beyond it on either side has weight zero, with
    /// the win-rate model or without it, and whatever the weight getter gives.
    pub proof fn law_capped_scores_have_no_weight(
        &self,
        data: Seq<I::RequiredDataType>,
        threads: int,
        blend: T,
        prep: PreparedData<I, T>,
        i: int,
    )
        requires
            0 < threads,
            self.batch_done(data, threads, blend, prep),
            0 <= i < data.len(),
            self.healthy(&data[i]),
            self.score_drop_abs is Some,
            data[i].score_of() >= self.score_drop_abs->0 || -data[i].score_of()
                >= self.score_drop_abs->0,
        ensures
            prep.weights@[i] == self.levels.zero,
    {
        self.lemma_healthy(data, threads, blend, prep, i);
        let record = prep.record(self.spec_shape(), i);
        assert(record.weight == prep.weights@[i]);
    }

    /// Any other healthy position has the weight that the getter gives, or one without a getter: no
    /// score is dropped without a cap, or on this side of it.
    pub proof fn law_other_scores_keep_their_weight(
        &self,
        data: Seq<I::RequiredDataType>,
        threads: int,
        blend: T,
        prep: PreparedData<I, T>,
        i: int,
    )
        requires
            0 < threads,
            self.batch_done(data, threads, blend, prep),
            0 <= i < data.len(),
            self.healthy(&data[i]),
            self.score_drop_abs matches Some(cap) ==> -cap < data[i].score_of() < cap,
        ensures
            self.weight_getter matches Some(getter) ==> call_ensures(
                getter,
                (&data[i],),
                prep.weights@[i],
            ),
            self.weight_getter is None ==> prep.weights@[i] == self.levels.one,
    {
        self.lemma_healthy(data, threads, blend, prep, i);
        let record = prep.record(self.spec_shape(), i);
        assert(record.weight == prep.weights@[i]);
    }

    /// The target of a healthy position is a mix of the result of its game and the value of its
    /// score, by the share that the blend getter gives for it, with the win-rate model or without it;
    /// the model only decides whether the value is the win rate of the score or the squashed score.
    pub proof fn law_targets_mix_result_and_score(
        &self,
        data: Seq<I::RequiredDataType>,
        threads: int,
        blend: T,
        prep: PreparedData<I, T>,
        i: int,
    )
        requires
            0 < threads,
            self.batch_done(data, threads, blend, prep),
            0 <= i < data.len(),
            self.healthy(&data[i]),
            !self.wdl,
        ensures
            exists|share: T, value: T|
                {
                    &&& call_ensures(self.blend_getter, (&data[i], blend), share)
                    &&& self.use_win_rate_model ==> self.win_rates is Some && value
                        == self.win_rates->0.at(data[i].score_of())
                    &&& !self.use_win_rate_model ==> call_ensures(
                        self.squash,
                        (data[i].score_of(),),
                        value,
                    )
                    &&& #[trigger] call_ensures(
                        self.mix,
                        (share, data[i].result_of(), value),
                        prep.targets@[i],
                    )
                },
    {
        self.lemma_healthy(data, threads, blend, prep, i);
        let record = prep.record(self.spec_shape(), i);
        self.lemma_values(prep, data.len() as int, i);
        assert(record.target[0] == prep.targets@[i]);
        let (share, value) = choose|share: T, value: T| #[trigger]
            self.mixes(&data[i], blend, share, value, record.target[0]);
        assert(self.mixes(&data[i], blend, share, value, record.target[0]));
        assert(call_ensures(self.mix, (share, data[i].result_of(), value), prep.targets@[i]));
    }

    /// With a target for each result, a healthy position has a one at the result of its game, a loss
    /// first, then a draw, then a win, and zeros elsewhere.
    pub proof fn law_targets_tell_the_result(
        &self,
        data: Seq<I::RequiredDataType>,
        threads: int,
        blend: T,
        prep: PreparedData<I, T>,
        i: int,
    )
        requires
            0 < threads,
            self.batch_done(data, threads, blend, prep),
            0 <= i < data.len(),
            self.healthy(&data[i]),
            self.wdl,
        ensures
            prep.targets@[3 * i] == if data[i].result_of() == GameResult::Loss {
                self.levels.one
            } else {
                self.levels.zero
            },
            prep.targets@[3 * i + 1] == if data[i].result_of() == GameResult::Draw {
                self.levels.one
            } else {
                self.levels.zero
            },
            prep.targets@[3 * i + 2] == if data[i].result_of() == GameResult::Win {
                self.levels.one
            } else {
                self.levels.zero
            },
    {
        self.lemma_healthy(data, threads, blend, prep, i);
        let record = prep.record(self.spec_shape(), i);
        self.lemma_values(prep, data.len() as int, i);
        assert(record.target[0] == prep.targets@[3 * i]);
        assert(record.target[1] == prep.targets@[3 * i + 1]);
        assert(record.target[2] == prep.targets@[3 * i + 2]);
    }

    /// The hand counts of a healthy position are its own.
    pub proof fn law_healthy_position_has_its_hands(
        &self,
        data: Seq<I::RequiredDataType>,
        threads: int,
        blend: T,
        prep: PreparedData<I, T>,
        i: int,
        j: int,
    )
        requires
            0 < threads,
            self.batch_done(data, threads, blend, prep),
            0 <= i < data.len(),
            self.healthy(&data[i]),
            self.input_getter.hand_dims() is Some,
            0 <= j < self.input_getter.hand_dims()->0,
        ensures
            prep.hand_count is Some,
            prep.hand_count->0@[self.input_getter.hand_dims()->0 * i + j]
                == self.input_getter.hand_counts(&data[i])[j],
    {
        self.lemma_healthy(data, threads, blend, prep, i);
        let shape = self.spec_shape();
        let record = prep.record(shape, i);
        prep.lemma_rows(shape, data.len() as int, i);
        rows::lemma_has_row(prep.hand_count->0@, shape.hand_width(), data.len() as int, i);
        assert(record.hand->0[j] == prep.hand_count->0@[shape.hand_width() * i + j]);
    }

    /// The chunks are as long as they must be for the threads, and no longer.
    proof fn lemma_chunk_size(&self, n: int, threads: int, chunk_size: int, i: int)
        requires
            0 < threads,
            0 <= i < n,
            (chunk_size - 1) * threads < n <= chunk_size * threads,
        ensures
            chunk_size == batch::quotient_up(n, threads),
            0 < chunk_size,
            forall|k: int|
                batch::chunk_start(chunk_size, i / chunk_size) <= k < batch::chunk_end(
                    n,
                    chunk_size,
                    i / chunk_size,
                ) <==> 0 <= k < n && #[trigger] (k / chunk_size) == i / chunk_size,
    {
        batch::law_quotient_up(n, threads, chunk_size);
        assert forall|k: int|
            batch::chunk_start(chunk_size, i / chunk_size) <= k < batch::chunk_end(
                n,
                chunk_size,
                i / chunk_size,
            ) <==> 0 <= k < n && #[trigger] (k / chunk_size) == i / chunk_size by {
            let at = i / chunk_size;
            let of = k / chunk_size;
            vstd::arithmetic::div_mod::lemma_fundamental_div_mod(i, chunk_size);
            vstd::arithmetic::div_mod::lemma_fundamental_div_mod(k, chunk_size);
            vstd::arithmetic::div_mod::lemma_div_pos_is_pos(i, chunk_size);
            assert(chunk_size * (at + 1) == chunk_size * at + chunk_size) by (nonlinear_arith);
            assert(0 <= chunk_size * at) by (nonlinear_arith)
                requires
                    0 < chunk_size,
                    0 <= at,
            ;
            if of < at {
                assert(chunk_size * of + chunk_size <= chunk_size * at) by (nonlinear_arith)
                    requires
                        0 < chunk_size,
                        of + 1 <= at,
                ;
            } else if at < of {
                assert(chunk_size * at + chunk_size <= chunk_size * of) by (nonlinear_arith)
                    requires
                        0 < chunk_size,
                        at + 1 <= of,
                ;
            }
        }
    }

    /// A corrupt position gets the values of the first healthy one of its chunk, in every vector.
    pub proof fn law_corrupt_position_gets_the_first_healthy_record(
        &self,
        data: Seq<I::RequiredDataType>,
        threads: int,
        chunk_size: int,
        blend: T,
        prep: PreparedData<I, T>,
        i: int,
        d: int,
    )
        requires
            0 < threads,
            self.batch_done(data, threads, blend, prep),
            (chunk_size - 1) * threads < data.len() <= chunk_size * threads,
            0 <= i < data.len(),
            !self.healthy(&data[i]),
            0 <= d < data.len(),
            d / chunk_size == i / chunk_size,
            self.healthy(&data[d]),
            forall|k: int|
                0 <= k < d && k / chunk_size == i / chunk_size ==> !self.healthy(
                    &#[trigger] data[k],
                ),
        ensures
            prep.buckets@[i] == prep.buckets@[d],
            prep.weights@[i] == prep.weights@[d],
            forall|j: int|
                0 <= j < self.input_getter.active_limit() ==> {
                    &&& #[trigger] prep.stm@[self.input_getter.active_limit() * i + j]
                        == prep.stm@[self.input_getter.active_limit() * d + j]
                    &&& prep.nstm@[self.input_getter.active_limit() * i + j]
                        == prep.nstm@[self.input_getter.active_limit() * d + j]
                },
            !self.wdl ==> prep.targets@[i] == prep.targets@[d],
            self.wdl ==> forall|j: int|
                0 <= j < 3 ==> #[trigger] prep.targets@[3 * i + j] == prep.targets@[3 * d + j],
            self.input_getter.hand_dims() matches Some(dims) ==> forall|j: int|
                0 <= j < dims ==> #[trigger] prep.hand_count->0@[dims * i + j]
                    == prep.hand_count->0@[dims * d + j],
    {
        let n = data.len() as int;
        self.lemma_chunk_size(n, threads, chunk_size, i);
        let start = batch::chunk_start(chunk_size, i / chunk_size);
        let end = batch::chunk_end(n, chunk_size, i / chunk_size);
        self.law_first_healthy(data, start, end);
        assert(start <= d < end) by {
            assert(d / chunk_size == i / chunk_size);
        }
        assert(self.first_healthy(data, start, end) == Some(d)) by {
            let s = self.first_healthy(data, start, end)->0;
            if self.first_healthy(data, start, end) is None {
                assert(!self.healthy(&data[d]));
            } else if s < d {
                assert(s / chunk_size == i / chunk_size);
                assert(!self.healthy(&data[s]));
            } else if d < s {
                assert(!self.healthy(&data[d]));
            }
        }
        assert(self.batch_record_done(data, chunk_size, blend, prep, i));
        let shape = self.spec_shape();
        let a = prep.record(shape, i);
        let b = prep.record(shape, d);
        assert(a == b);
        assert(a.bucket == b.bucket && a.weight == b.weight);
        self.lemma_values(prep, n, i);
        self.lemma_values(prep, n, d);
        assert forall|j: int| 0 <= j < self.input_getter.active_limit() implies {
            &&& #[trigger] prep.stm@[self.input_getter.active_limit() * i + j]
                == prep.stm@[self.input_getter.active_limit() * d + j]
            &&& prep.nstm@[self.input_getter.active_limit() * i + j]
                == prep.nstm@[self.input_getter.active_limit() * d + j]
        } by {
            assert(a.stm[j] == b.stm[j]);
            assert(a.nstm[j] == b.nstm[j]);
        }
        assert(a.target[0] == b.target[0]);
        if self.wdl {
            assert forall|j: int| 0 <= j < 3 implies #[trigger] prep.targets@[3 * i + j]
                == prep.targets@[3 * d + j] by {
                assert(a.target[j] == b.target[j]);
            }
        }
        if self.input_getter.hand_dims() is Some {
            let dims = self.input_getter.hand_dims()->0;
            assert forall|j: int| 0 <= j < dims implies #[trigger] prep.hand_count->0@[dims * i + j]
                == prep.hand_count->0@[dims * d + j] by {
                assert(a.hand->0[j] == b.hand->0[j]);
            }
        }
    }

    /// The values of a record stand in the vectors where its rows do.
    proof fn lemma_values(&self, prep: PreparedData<I, T>, n: int, i: int)
        requires
            prep.sized(self.spec_shape(), n),
            0 <= i < n,
        ensures
            forall|j: int|
                0 <= j < self.input_getter.active_limit() ==> #[trigger] prep.record(
                    self.spec_shape(),
                    i,
                ).stm[j] == prep.stm@[self.input_getter.active_limit() * i + j],
            forall|j: int|
                0 <= j < self.input_getter.active_limit() ==> #[trigger] prep.record(
                    self.spec_shape(),
                    i,
                ).nstm[j] == prep.nstm@[self.input_getter.active_limit() * i + j],
            self.wdl ==> forall|j: int|
                0 <= j < 3 ==> #[trigger] prep.record(self.spec_shape(), i).target[j]
                    == prep.targets@[3 * i + j],
            !self.wdl ==> prep.record(self.spec_shape(), i).target[0] == prep.targets@[i],
            self.input_getter.hand_dims() is Some ==> prep.record(self.spec_shape(), i).hand
                == Some(
                rows::row(prep.hand_count->0@, self.input_getter.hand_dims()->0 as int, i),
            ),
            self.input_getter.hand_dims() is Some ==> rows::has_row(
                prep.hand_count->0@,
                self.input_getter.hand_dims()->0 as int,
                i,
            ),
            self.input_getter.hand_dims() is Some ==> 0 <= self.input_getter.hand_dims()->0 * i,
    {
        let shape = self.spec_shape();
        prep.lemma_rows(shape, n, i);
        rows::lemma_has_row(prep.stm@, shape.max_active as int, n, i);
        if prep.hand_count is Some {
            rows::lemma_has_row(prep.hand_count->0@, shape.hand_width(), n, i);
        }
        if !self.wdl {
            let width = shape.output_size as int;
            assert(width * i == i) by (nonlinear_arith)
                requires
                    width == 1,
            ;
            assert(prep.record(shape, i).target == prep.targets@.subrange(i, i + 1));
        }
    }

    /// In a chunk without a healthy position every record is empty, drawn, and of weight zero.
    pub proof fn law_hopeless_positions_do_not_count(
        &self,
        data: Seq<I::RequiredDataType>,
        threads: int,
        chunk_size: int,
        blend: T,
        prep: PreparedData<I, T>,
        i: int,
    )
        requires
            0 < threads,
            self.batch_done(data, threads, blend, prep),
            (chunk_size - 1) * threads < data.len() <= chunk_size * threads,
            0 <= i < data.len(),
            forall|k: int|
                0 <= k < data.len() && k / chunk_size == i / chunk_size ==> !self.healthy(
                    &#[trigger] data[k],
                ),
        ensures
            prep.buckets@[i] == 0,
            prep.weights@[i] == self.levels.zero,
            forall|j: int|
                0 <= j < self.input_getter.active_limit() ==> {
                    &&& #[trigger] prep.stm@[self.input_getter.active_limit() * i + j] == -1
                    &&& prep.nstm@[self.input_getter.active_limit() * i + j] == -1
                },
            !self.wdl ==> prep.targets@[i] == self.levels.half,
            self.wdl ==> {
                &&& prep.targets@[3 * i] == self.levels.zero
                &&& prep.targets@[3 * i + 1] == self.levels.one
                &&& prep.targets@[3 * i + 2] == self.levels.zero
            },
            self.input_getter.hand_dims() matches Some(dims) ==> forall|j: int|
                0 <= j < dims ==> #[trigger] prep.hand_count->0@[dims * i + j] == I::no_hand(),
    {
        let n = data.len() as int;
        self.lemma_chunk_size(n, threads, chunk_size, i);
        let start = batch::chunk_start(chunk_size, i / chunk_size);
        let end = batch::chunk_end(n, chunk_size, i / chunk_size);
        self.law_first_healthy(data, start, end);
        assert(i / chunk_size == i / chunk_size);
        assert(!self.healthy(&data[i]));
        assert(self.first_healthy(data, start, end) is None) by {
            if self.first_healthy(data, start, end) is Some {
                let s = self.first_healthy(data, start, end)->0;
                assert(s / chunk_size == i / chunk_size);
                assert(!self.healthy(&data[s]));
            }
        }
        assert(self.batch_record_done(data, chunk_size, blend, prep, i));
        let record = prep.record(self.spec_shape(), i);
        assert(record == self.neutral());
        assert(record.bucket == 0 && record.weight == self.levels.zero);
        self.lemma_values(prep, n, i);
        assert forall|j: int| 0 <= j < self.input_getter.active_limit() implies {
            &&& #[trigger] prep.stm@[self.input_getter.active_limit() * i + j] == -1
            &&& prep.nstm@[self.input_getter.active_limit() * i + j] == -1
        } by {
            assert(record.stm[j] == -1);
            assert(record.nstm[j] == -1);
        }
        if self.wdl {
            assert(record.target[0] == self.levels.zero);
            assert(record.target[1] == self.levels.one);
            assert(record.target[2] == self.levels.zero);
        } else {
            assert(record.target[0] == self.levels.half);
        }
        if self.input_getter.hand_dims() is Some {
            let dims = self.input_getter.hand_dims()->0;
            assert forall|j: int| 0 <= j < dims implies #[trigger] prep.hand_count->0@[dims * i + j]
                == I::no_hand() by {
                assert(record.hand->0[j] == I::no_hand());
            }
        }
    }

    /// A batch counts its corrupt positions: those that are not healthy, each once.
    pub proof fn law_corrupt_positions_are_counted(
        &self,
        data: Seq<I::RequiredDataType>,
        threads: int,
        blend: T,
        prep: PreparedData<I, T>,
    )
        requires
            self.batch_done(data, threads, blend, prep),
        ensures
            prep.corrupt == data.filter(|pos: I::RequiredDataType| !self.healthy(&pos)).len(),
    {
        self.lemma_num_corrupt(data, data.len() as int);
        assert(data.take(data.len() as int) =~= data);
    }

    proof fn lemma_num_corrupt(&self, data: Seq<I::RequiredDataType>, n: int)
        requires
            0 <= n <= data.len(),
        ensures
            self.num_corrupt(data, 0, n) == data.take(n).filter(
                |pos: I::RequiredDataType| !self.healthy(&pos),
            ).len(),
        decreases n,
    {
        broadcast use Seq::lemma_filter_push;

        let corrupt = |pos: I::RequiredDataType| !self.healthy(&pos);
        if n == 0 {
            reveal(Seq::filter);
            assert(data.take(0).filter(corrupt).len() == 0);
        } else {
            self.lemma_num_corrupt(data, n - 1);
            assert(data.take(n) =~= data.take(n - 1).push(data[n - 1]));
        }
    }

    /// Whether none of the positions of chunk `k` is healthy.
    pub open spec fn all_corrupt(
        &self,
        data: Seq<I::RequiredDataType>,
        chunk_size: int,
        k: int,
    ) -> bool {
        forall|i: int|
            0 <= i < data.len() && i / chunk_size == k ==> !self.healthy(&#[trigger] data[i])
    }

    /// A batch tells of each chunk without a healthy position, in order, how long it is.
    pub proof fn law_hopeless_chunks_are_told(
        &self,
        data: Seq<I::RequiredDataType>,
        threads: int,
        chunk_size: int,
        num_chunks: int,
        blend: T,
        prep: PreparedData<I, T>,
    )
        requires
            0 < threads,
            0 < data.len(),
            self.batch_done(data, threads, blend, prep),
            (chunk_size - 1) * threads < data.len() <= chunk_size * threads,
            (num_chunks - 1) * chunk_size < data.len() <= num_chunks * chunk_size,
        ensures
            prep.hopeless_chunks@ == Seq::new(num_chunks as nat, |k: int| k).filter(
                |k: int| self.all_corrupt(data, chunk_size, k),
            ).map_values(
                |k: int|
                    (if k + 1 == num_chunks {
                        data.len() - chunk_size * k
                    } else {
                        chunk_size
                    }) as usize,
            ),
    {
        let n = data.len() as int;
        batch::law_quotient_up(n, threads, chunk_size);
        batch::law_quotient_up(n, chunk_size, num_chunks);
        self.lemma_hopeless(data, threads, chunk_size, num_chunks, num_chunks);
    }

    proof fn lemma_hopeless(
        &self,
        data: Seq<I::RequiredDataType>,
        threads: int,
        chunk_size: int,
        num_chunks: int,
        m: int,
    )
        requires
            0 < threads,
            0 < data.len(),
            0 < chunk_size,
            (chunk_size - 1) * threads < data.len() <= chunk_size * threads,
            num_chunks == batch::quotient_up(data.len() as int, chunk_size),
            0 <= m <= num_chunks,
        ensures
            self.hopeless_lengths(data, chunk_size, m) == Seq::new(m as nat, |k: int| k).filter(
                |k: int| self.all_corrupt(data, chunk_size, k),
            ).map_values(
                |k: int|
                    (if k + 1 == num_chunks {
                        data.len() - chunk_size * k
                    } else {
                        chunk_size
                    }) as usize,
            ),
        decreases m,
    {
        broadcast use Seq::lemma_filter_push;

        let n = data.len() as int;
        let hopeless = |k: int| self.all_corrupt(data, chunk_size, k);
        let length = |k: int|
            (if k + 1 == num_chunks {
                data.len() - chunk_size * k
            } else {
                chunk_size
            }) as usize;
        let all = Seq::new(m as nat, |k: int| k);
        if m == 0 {
            reveal(Seq::filter);
            assert(all.filter(hopeless).map_values(length) =~= Seq::empty());
        } else {
            let k = m - 1;
            self.lemma_hopeless(data, threads, chunk_size, num_chunks, k);
            let before = Seq::new(k as nat, |k: int| k);
            assert(all =~= before.push(k));
            let start = batch::chunk_start(chunk_size, k);
            let end = batch::chunk_end(n, chunk_size, k);
            batch::law_chunks_make_up_the_positions(n, chunk_size, num_chunks, k);
            assert(0 <= start) by (nonlinear_arith)
                requires
                    start == chunk_size * k,
                    0 < chunk_size,
                    0 <= k,
            ;
            vstd::arithmetic::div_mod::lemma_fundamental_div_mod_converse(
                start,
                chunk_size,
                k,
                0,
            );
            assert(start < n) by {
                batch::law_quotient_up(n, chunk_size, num_chunks);
                assert(chunk_size * k <= (num_chunks - 1) * chunk_size) by (nonlinear_arith)
                    requires
                        0 < chunk_size,
                        k <= num_chunks - 1,
                ;
            }
            self.lemma_chunk_size(n, threads, chunk_size, start);
            self.law_first_healthy(data, start, end);
            if self.first_healthy(data, start, end) is Some {
                let s = self.first_healthy(data, start, end)->0;
                assert(s / chunk_size == start / chunk_size);
                assert(!hopeless(k));
            } else {
                assert forall|i: int| 0 <= i < data.len() && i / chunk_size == k implies !self.healthy(
                    &#[trigger] data[i],
                ) by {
                    assert(i / chunk_size == start / chunk_size);
                }
                assert(hopeless(k));
                assert(end - start == if k + 1 == num_chunks {
                    data.len() - chunk_size * k
                } else {
                    chunk_size
                });
            }
            assert(all.filter(hopeless).map_values(length) =~= self.hopeless_lengths(
                data,
                chunk_size,
                m,
            ));
        }
    }

    /// Win rates are lacking exactly where single targets are to be made with the win-rate model, and
    /// none have been worked out.
    pub proof fn law_win_rates_are_lacking(&self)
        ensures
            self.lacks_win_rates() <==> (self.use_win_rate_model && !self.wdl && self.win_rates is None),
    {
    }

    /// Where win rates are lacking and a position is healthy, the preparation works them out with the
    /// parameters that were set, or the standard ones if none were, and marks the parameters used.
    pub proof fn law_lacking_win_rates_are_worked_out<R: Fn(&WrmParams<T>, i16) -> T>(
        &self,
        previous: Self,
        data: Seq<I::RequiredDataType>,
        before: WrmSettings<T>,
        after: WrmSettings<T>,
        wrm_target: R,
        i: int,
        score: i16,
    )
        requires
            self.settled(previous, data, before, after, wrm_target),
            previous.use_win_rate_model,
            !previous.wdl,
            previous.win_rates is None,
            0 <= i < data.len(),
            previous.healthy(&data[i]),
        ensures
            after.used,
            after.chosen == before.chosen,
            after.standard == before.standard,
            self.win_rates is Some,
            before.chosen matches Some(params) ==> call_ensures(
                wrm_target,
                (&params, score),
                self.win_rates->0.at(score),
            ),
            before.chosen is None ==> call_ensures(
                wrm_target,
                (&before.standard, score),
                self.win_rates->0.at(score),
            ),
    {
        previous.law_first_healthy(data, 0, data.len() as int);
        assert(previous.first_healthy(data, 0, data.len() as int) is Some);
        assert(call_ensures(
            wrm_target,
            (&before.current(), score),
            self.win_rates->0.at(score),
        ));
    }

    /// The preparation leaves everything else as it was: win rates that were worked out, the
    /// parameters where no win rates are needed or no position is healthy, and every other setting.
    pub proof fn law_all_else_stays<R: Fn(&WrmParams<T>, i16) -> T>(
        &self,
        previous: Self,
        data: Seq<I::RequiredDataType>,
        before: WrmSettings<T>,
        after: WrmSettings<T>,
        wrm_target: R,
    )
        requires
            self.settled(previous, data, before, after, wrm_target),
        ensures
            self.input_getter == previous.input_getter,
            self.output_getter == previous.output_getter,
            self.blend_getter == previous.blend_getter,
            self.weight_getter == previous.weight_getter,
            self.wdl == previous.wdl,
            self.use_win_rate_model == previous.use_win_rate_model,
            self.squash == previous.squash,
            self.mix == previous.mix,
            self.score_drop_abs == previous.score_drop_abs,
            self.levels == previous.levels,
            !previous.use_win_rate_model || previous.wdl || previous.win_rates is Some || (forall|
                i: int,
            |
                0 <= i < data.len() ==> !previous.healthy(&#[trigger] data[i])) ==> self.win_rates
                == previous.win_rates && after == before,
    {
        previous.law_first_healthy(data, 0, data.len() as int);
    }

    /// Win rates that have been worked out with parameters are what the parameters give for each
    /// score, and nothing else changes by that.
    pub proof fn law_worked_out_win_rates<R: Fn(&WrmParams<T>, i16) -> T>(
        &self,
        before: Self,
        params: WrmParams<T>,
        wrm_target: R,
        score: i16,
    )
        requires
            self.worked_out(before, params, wrm_target),
        ensures
            self.win_rates is Some,
            call_ensures(wrm_target, (&params, score), self.win_rates->0.at(score)),
            self.input_getter == before.input_getter,
            self.output_getter == before.output_getter,
            self.blend_getter == before.blend_getter,
            self.weight_getter == before.weight_getter,
            self.wdl == before.wdl,
            self.use_win_rate_model == before.use_win_rate_model,
            self.squash == before.squash,
            self.mix == before.mix,
            self.score_drop_abs == before.score_drop_abs,
            self.levels == before.levels,
    {
    }
}

proof fn lemma_all_exist(features: Seq<(Option<usize>, Option<usize>)>, input_size: usize)
    ensures
        (forall|j: int|
            0 <= j < sparse_rows::ours(features).len() ==> #[trigger] sparse_rows::ours(features)[j]
                < input_size) <==> (forall|k: int|
            0 <= k < features.len() ==> ((#[trigger] features[k]).0 matches Some(input) ==> input
                < input_size)),
        (forall|j: int|
            0 <= j < sparse_rows::theirs(features).len() ==> #[trigger] sparse_rows::theirs(
                features,
            )[j] < input_size) <==> (forall|k: int|
            0 <= k < features.len() ==> ((#[trigger] features[k]).1 matches Some(input) ==> input
                < input_size)),
    decreases features.len(),
{
    if features.len() > 0 {
        let before = features.drop_last();
        lemma_all_exist(before, input_size);
        lemma_all_below_push(
            sparse_rows::ours(before),
            sparse_rows::ours(features),
            features.last().0,
            input_size,
        );
        lemma_all_below_push(
            sparse_rows::theirs(before),
            sparse_rows::theirs(features),
            features.last().1,
            input_size,
        );
        assert(features =~= before.push(features.last()));
        assert forall|k: int| 0 <= k < before.len() implies #[trigger] before[k] == features[k] by {}
        if forall|k: int|
            0 <= k < features.len() ==> ((#[trigger] features[k]).0 matches Some(input) ==> input
                < input_size) {
            assert forall|k: int| 0 <= k < before.len() implies ((#[trigger] before[k]).0 matches Some(
                input,
            ) ==> input < input_size) by {
                assert(before[k] == features[k]);
            }
        }
        if forall|k: int|
            0 <= k < features.len() ==> ((#[trigger] features[k]).1 matches Some(input) ==> input
                < input_size) {
            assert forall|k: int| 0 <= k < before.len() implies ((#[trigger] before[k]).1 matches Some(
                input,
            ) ==> input < input_size) by {
                assert(before[k] == features[k]);
            }
        }
        assert(features[features.len() - 1] == features.last());
    }
}

proof fn lemma_all_below_push(before: Seq<usize>, now: Seq<usize>, last: Option<usize>, bound: usize)
    requires
        now == match last {
            Some(input) => before.push(input),
            None => before,
        },
    ensures
        (forall|j: int| 0 <= j < now.len() ==> #[trigger] now[j] < bound) <==> (forall|j: int|
            0 <= j < before.len() ==> #[trigger] before[j] < bound) && (last matches Some(input)
            ==> input < bound),
{
    if last is Some && forall|j: int| 0 <= j < now.len() ==> #[trigger] now[j] < bound {
        assert(now[now.len() - 1] < bound);
        assert forall|j: int| 0 <= j < before.len() implies #[trigger] before[j] < bound by {
            assert(now[j] == before[j]);
        }
    }
}

} // verus!
