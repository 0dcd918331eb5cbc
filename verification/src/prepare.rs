//! How positions become the records of a batch.
use vstd::prelude::*;

use crate::inputs::OutputBuckets;
use crate::inputs::SparseInputType;
use crate::loader::GameResult;
use crate::loader::LoadableDataType;
use crate::prepared_data;
use crate::prepared_data::filled;
use crate::prepared_data::PreparedData;
use crate::prepared_data::Shape;
use crate::prepared_data::TargetLevels;
use crate::rows;
use crate::rows::fill_row;
use crate::rows::write_one;
use crate::rows::write_row;
use crate::score_table::initialise_win_rate_model_score_table;
use crate::score_table::win_rate_model_score;
use crate::score_table::ScoreTable;
use crate::sparse_rows;
use crate::sparse_rows::write_features;
use crate::wrm_params::WrmParams;
use crate::wrm_params::WrmSettings;

verus! {

/// What a position is turned into a record with.
pub struct PrepareConfig<I, O, T, B, W, S, M> {
    pub input_getter: I,
    pub output_getter: O,
    /// The share of the result in the target of a position, for a share that is asked for.
    pub blend_getter: B,
    /// The weight of a position; without it every position has weight one.
    pub weight_getter: Option<W>,
    /// Whether the target has a value for each result of the game.
    pub wdl: bool,
    /// Whether win rates stand in for the squashed scores.
    pub use_win_rate_model: bool,
    /// The win rates of the scores, once they have been worked out.
    pub win_rates: Option<ScoreTable<T>>,
    /// The win probability that a score stands for.
    pub squash: S,
    /// The target, from the share of the result, the result, and the value of the score.
    pub mix: M,
    /// The size from which on a score has weight zero.
    pub score_drop_abs: Option<u16>,
    pub levels: TargetLevels<T>,
}

/// The size of a score.
pub open spec fn score_size(score: i16) -> int {
    if score < 0 {
        -score
    } else {
        score as int
    }
}

fn unsigned_score(score: i16) -> (size: u16)
    ensures
        size == score_size(score),
{
    if score < 0 {
        let wide: i32 = score as i32;
        (-wide) as u16
    } else {
        score as u16
    }
}

/// Whether a score of this size has weight zero.
pub open spec fn is_dropped(score_drop_abs: Option<u16>, score: i16) -> bool {
    match score_drop_abs {
        Some(cap) => score_size(score) >= cap,
        None => false,
    }
}

impl<I, O, T, B, W, S, M> PrepareConfig<I, O, T, B, W, S, M> where
    I: SparseInputType,
    O: OutputBuckets<I::RequiredDataType>,
    I::RequiredDataType: LoadableDataType,
    T: Copy,
    B: Fn(&I::RequiredDataType, T) -> T,
    W: Fn(&I::RequiredDataType) -> T,
    S: Fn(i16) -> T,
    M: Fn(T, GameResult, T) -> T,
 {
    /// A way to prepare positions, with no win rates worked out yet.
    pub fn new(
        input_getter: I,
        output_getter: O,
        blend_getter: B,
        weight_getter: Option<W>,
        use_win_rate_model: bool,
        wdl: bool,
        squash: S,
        mix: M,
        score_drop_abs: Option<u16>,
        levels: TargetLevels<T>,
    ) -> (config: Self)
        ensures
            config == (PrepareConfig {
                input_getter,
                output_getter,
                blend_getter,
                weight_getter,
                wdl,
                use_win_rate_model,
                win_rates: None::<ScoreTable<T>>,
                squash,
                mix,
                score_drop_abs,
                levels,
            }),
    {
        PrepareConfig {
            input_getter,
            output_getter,
            blend_getter,
            weight_getter,
            wdl,
            use_win_rate_model,
            win_rates: None,
            squash,
            mix,
            score_drop_abs,
            levels,
        }
    }

    /// Whether targets need win rates that have not been worked out.
    pub open spec fn lacks_win_rates(&self) -> bool {
        self.use_win_rate_model && !self.wdl && self.win_rates is None
    }

    /// Whether the win rates of `self` have been worked out with the parameters, and `self` is as
    /// `before` otherwise.
    pub open spec fn worked_out<R: Fn(&WrmParams<T>, i16) -> T>(
        &self,
        before: Self,
        params: WrmParams<T>,
        wrm_target: R,
    ) -> bool {
        &&& *self == PrepareConfig { win_rates: self.win_rates, ..before }
        &&& self.win_rates is Some
        &&& forall|score: i16|
            call_ensures(
                wrm_target,
                (&params, score),
                #[trigger] self.win_rates->0.at(score),
            )
    }

    /// Works out the win rates, if targets need them and they have not been worked out, with the
    /// parameters in force, which are used by that.
    pub fn work_out_win_rates<R: Fn(&WrmParams<T>, i16) -> T>(
        &mut self,
        settings: &mut WrmSettings<T>,
        wrm_target: &R,
    )
        requires
            old(self).lacks_win_rates() ==> forall|score: i16|
                #[trigger] call_requires(*wrm_target, (&old(settings).current(), score)),
        ensures
            if old(self).lacks_win_rates() {
                &&& final(self).worked_out(*old(self), old(settings).current(), *wrm_target)
                &&& *final(settings) == old(settings).after_use()
            } else {
                &&& *final(self) == *old(self)
                &&& *final(settings) == *old(settings)
            },
    {
        if self.use_win_rate_model && !self.wdl && self.win_rates.is_none() {
            self.win_rates = Some(initialise_win_rate_model_score_table(settings, wrm_target));
        }
    }

    /// How wide the rows of the records are.
    pub open spec fn spec_shape(&self) -> Shape {
        Shape {
            max_active: self.input_getter.active_limit(),
            output_size: if self.wdl {
                3
            } else {
                1
            },
            hand_dims: self.input_getter.hand_dims(),
        }
    }

    pub fn shape(&self) -> (shape: Shape)
        ensures
            shape == self.spec_shape(),
    {
        Shape {
            max_active: self.input_getter.max_active(),
            output_size: if self.wdl {
                3
            } else {
                1
            },
            hand_dims: self.input_getter.hand_count_dims(),
        }
    }

    /// Whether the features of a position can be written into a record.
    pub open spec fn healthy(&self, pos: &I::RequiredDataType) -> bool {
        sparse_rows::writable(
            self.input_getter.split_features(pos),
            self.input_getter.input_size(),
            self.input_getter.active_limit(),
        )
    }

    /// Whether `value` may stand for the score of a position.
    pub open spec fn values_score(&self, pos: &I::RequiredDataType, value: T) -> bool {
        if self.use_win_rate_model {
            self.win_rates matches Some(table) && value == table.at(pos.score_of())
        } else {
            call_ensures(self.squash, (pos.score_of(),), value)
        }
    }

    /// Whether `weight` may be the weight of a position.
    pub open spec fn weighs(&self, pos: &I::RequiredDataType, weight: T) -> bool {
        if is_dropped(self.score_drop_abs, pos.score_of()) {
            weight == self.levels.zero
        } else {
            match self.weight_getter {
                Some(getter) => call_ensures(getter, (pos,), weight),
                None => weight == self.levels.one,
            }
        }
    }

    /// Whether `target` is what comes out for a position with the share `share` of the result and
    /// the value `value` of the score.
    pub open spec fn mixes(
        &self,
        pos: &I::RequiredDataType,
        blend: T,
        share: T,
        value: T,
        target: T,
    ) -> bool {
        &&& call_ensures(self.blend_getter, (pos, blend), share)
        &&& self.values_score(pos, value)
        &&& call_ensures(self.mix, (share, pos.result_of(), value), target)
    }

    /// Whether `target` may be the targets of a position.
    pub open spec fn aims(&self, pos: &I::RequiredDataType, blend: T, target: Seq<T>) -> bool {
        if self.wdl {
            target == prepared_data::one_hot(pos.result_of(), self.levels)
        } else {
            &&& target.len() == 1
            &&& exists|share: T, value: T| #[trigger]
                self.mixes(pos, blend, share, value, target[0])
        }
    }

    /// Whether `record` may be made of a healthy position.
    pub open spec fn makes(
        &self,
        pos: &I::RequiredDataType,
        blend: T,
        record: prepared_data::Record<I::HandCount, T>,
    ) -> bool {
        let features = self.input_getter.split_features(pos);
        let max_active = self.input_getter.active_limit();
        &&& record.stm == sparse_rows::slots(sparse_rows::ours(features), max_active)
        &&& record.nstm == sparse_rows::slots(sparse_rows::theirs(features), max_active)
        &&& record.bucket == if O::BUCKETS > 1 {
            self.output_getter.bucket_of(pos) as i32
        } else {
            0
        }
        &&& self.aims(pos, blend, record.target)
        &&& self.weighs(pos, record.weight)
        &&& record.hand == match self.input_getter.hand_dims() {
            Some(_) => Some(self.input_getter.hand_counts(pos)),
            None => None,
        }
    }

    /// The first healthy position from `start` on, before `end`.
    pub open spec fn first_healthy(
        &self,
        data: Seq<I::RequiredDataType>,
        start: int,
        end: int,
    ) -> Option<int>
        decreases end - start,
    {
        if end <= start {
            None
        } else {
            match self.first_healthy(data, start, end - 1) {
                Some(s) => Some(s),
                None => if self.healthy(&data[end - 1]) {
                    Some(end - 1)
                } else {
                    None
                },
            }
        }
    }

    /// The position that record `i` of the chunk from `start` to `end` is made of: position `i`
    /// itself if it is healthy, else the first healthy one of the chunk.
    pub open spec fn source(
        &self,
        data: Seq<I::RequiredDataType>,
        start: int,
        end: int,
        i: int,
    ) -> Option<int> {
        if self.healthy(&data[i]) {
            Some(i)
        } else {
            self.first_healthy(data, start, end)
        }
    }

    /// How many of the positions from `start` on, before `end`, are corrupt.
    pub open spec fn num_corrupt(
        &self,
        data: Seq<I::RequiredDataType>,
        start: int,
        end: int,
    ) -> nat
        decreases end - start,
    {
        if end <= start {
            0
        } else if self.healthy(&data[end - 1]) {
            self.num_corrupt(data, start, end - 1)
        } else {
            self.num_corrupt(data, start, end - 1) + 1
        }
    }

    /// The record of a position in a chunk without a healthy one.
    pub open spec fn neutral(&self) -> prepared_data::Record<I::HandCount, T> {
        prepared_data::neutral_record(self.spec_shape(), self.wdl, self.levels, I::no_hand())
    }

    /// Whether record `i` is what it should be in the chunk from `start` to `end`.
    pub open spec fn record_done(
        &self,
        data: Seq<I::RequiredDataType>,
        blend: T,
        start: int,
        end: int,
        prep: PreparedData<I, T>,
        i: int,
    ) -> bool {
        let shape = self.spec_shape();
        match self.source(data, start, end, i) {
            Some(s) => {
                &&& prep.record(shape, i) == prep.record(shape, s)
                &&& self.makes(&data[s], blend, prep.record(shape, s))
            },
            None => prep.record(shape, i) == self.neutral(),
        }
    }

    /// Whether `prep` is prepared of the positions of one chunk.
    pub open spec fn chunk_done(
        &self,
        data: Seq<I::RequiredDataType>,
        blend: T,
        prep: PreparedData<I, T>,
    ) -> bool {
        let n = data.len() as int;
        &&& prep.sized(self.spec_shape(), n)
        &&& forall|i: int| 0 <= i < n ==> #[trigger] self.record_done(data, blend, 0, n, prep, i)
        &&& prep.corrupt == self.num_corrupt(data, 0, n)
        &&& prep.hopeless_chunks@ == if self.first_healthy(data, 0, n) is None {
            seq![n as usize]
        } else {
            Seq::empty()
        }
    }

    /// Whether the getters can be called on a position.
    pub open spec fn callable(&self, pos: &I::RequiredDataType, blend: T) -> bool {
        &&& O::BUCKETS > 1 ==> self.output_getter.sorts(pos)
        &&& self.weight_getter matches Some(getter) ==> call_requires(getter, (pos,))
        &&& !self.wdl ==> {
            &&& call_requires(self.blend_getter, (pos, blend))
            &&& if self.use_win_rate_model {
                self.win_rates is Some
            } else {
                call_requires(self.squash, (pos.score_of(),))
            }
            &&& forall|share: T, value: T|
                call_ensures(self.blend_getter, (pos, blend), share) && self.values_score(
                    pos,
                    value,
                ) ==> #[trigger] call_requires(self.mix, (share, pos.result_of(), value))
        }
    }

    /// Whether the getters can be called on every healthy position.
    pub open spec fn ready(&self, data: Seq<I::RequiredDataType>, blend: T) -> bool {
        forall|i: int|
            0 <= i < data.len() && self.healthy(&data[i]) ==> self.callable(
                &#[trigger] data[i],
                blend,
            )
    }

    /// Whether the getters can be called on every healthy position, once any win rates that are
    /// lacking have been worked out with the parameters.
    pub open spec fn ready_with<R: Fn(&WrmParams<T>, i16) -> T>(
        &self,
        data: Seq<I::RequiredDataType>,
        blend: T,
        params: WrmParams<T>,
        wrm_target: R,
    ) -> bool {
        if self.lacks_win_rates() && self.first_healthy(data, 0, data.len() as int) is Some {
            &&& forall|score: i16| #[trigger] call_requires(wrm_target, (&params, score))
            &&& forall|config: Self|
                #[trigger] config.worked_out(*self, params, wrm_target) ==> config.ready(data, blend)
        } else {
            self.ready(data, blend)
        }
    }

    /// The weight of a position.
    fn weight(&self, pos: &I::RequiredDataType) -> (weight: T)
        requires
            self.weight_getter matches Some(getter) ==> call_requires(getter, (pos,)),
        ensures
            self.weighs(pos, weight),
    {
        let weight = match &self.weight_getter {
            Some(getter) => getter(pos),
            None => self.levels.one,
        };
        match self.score_drop_abs {
            Some(cap) => {
                if unsigned_score(pos.score()) >= cap {
                    self.levels.zero
                } else {
                    weight
                }
            },
            None => weight,
        }
    }

    /// The target of a position that has a single one.
    fn target(&self, pos: &I::RequiredDataType, blend: T) -> (target: T)
        requires
            !self.wdl,
            self.callable(pos, blend),
        ensures
            self.aims(pos, blend, seq![target]),
    {
        let value = if self.use_win_rate_model {
            win_rate_model_score(self.win_rates.as_ref().unwrap(), pos.score())
        } else {
            (self.squash)(pos.score())
        };
        let share = (self.blend_getter)(pos, blend);
        let target = (self.mix)(share, pos.result(), value);
        proof {
            assert(self.mixes(pos, blend, share, value, seq![target][0]));
        }
        target
    }

    /// Writes the targets of a position into row `i`.
    fn write_target(&self, targets: &mut Vec<T>, pos: &I::RequiredDataType, blend: T, i: usize)
        requires
            rows::has_row(old(targets)@, self.spec_shape().output_size as int, i as int),
            self.callable(pos, blend),
        ensures
            rows::same_but_row(
                old(targets)@,
                final(targets)@,
                self.spec_shape().output_size as int,
                i as int,
            ),
            self.aims(
                pos,
                blend,
                rows::row(final(targets)@, self.spec_shape().output_size as int, i as int),
            ),
    {
        if self.wdl {
            fill_row(targets, 3, i, self.levels.zero);
            let len: usize = targets.len();
            let ghost zeros = targets@;
            assert(3 * i + 3 <= len);
            let at: usize = 3 * i + pos.result().index();
            targets[at] = self.levels.one;
            proof {
                let hot = prepared_data::one_hot(pos.result_of(), self.levels);
                assert forall|k: int| 0 <= k < 3 implies rows::row(targets@, 3, i as int)[k]
                    == hot[k] by {
                    assert(rows::row(zeros, 3, i as int)[k] == self.levels.zero);
                }
                assert(rows::row(targets@, 3, i as int) =~= hot);
            }
        } else {
            let target = self.target(pos, blend);
            targets[i] = target;
            assert(rows::row(targets@, 1, i as int) =~= seq![target]);
        }
    }

    /// Makes record `i` of a position, and tells whether the position is corrupt.  The getters are
    /// called on healthy positions only.
    fn prepare_record(
        &self,
        prep: &mut PreparedData<I, T>,
        shape: Shape,
        input_size: usize,
        pos: &I::RequiredDataType,
        blend: T,
        i: usize,
    ) -> (corrupt: bool)
        requires
            shape == self.spec_shape(),
            input_size == self.input_getter.input_size(),
            old(prep).sized(shape, old(prep).batch_size as int),
            i < old(prep).batch_size,
            self.healthy(pos) ==> self.callable(pos, blend),
        ensures
            final(prep).sized(shape, old(prep).batch_size as int),
            final(prep).same_but_record(*old(prep), shape, i as int),
            corrupt == !self.healthy(pos),
            !corrupt ==> self.makes(pos, blend, final(prep).record(shape, i as int)),
    {
        proof {
            let n = prep.batch_size as int;
            prep.lemma_rows(shape, n, i as int);
        }
        let width: usize = shape.hand_dim();
        match &mut prep.hand_count {
            Some(counts) => {
                let hand = self.input_getter.fill_hand_count(pos);
                write_row(counts, width, i, &hand);
            },
            None => {},
        }
        let features = self.input_getter.map_features_split(pos);
        let corrupt = write_features(
            &features,
            i,
            input_size,
            shape.max_active,
            &mut prep.stm,
            &mut prep.nstm,
        );
        if corrupt {
            return true;
        }
        proof {
            sparse_rows::law_inputs_that_fit_are_kept(
                sparse_rows::ours(features@),
                input_size,
                shape.max_active,
            );
            sparse_rows::law_inputs_that_fit_are_kept(
                sparse_rows::theirs(features@),
                input_size,
                shape.max_active,
            );
        }
        let bucket: i32 = if O::BUCKETS > 1 {
            self.output_getter.bucket(pos) as i32
        } else {
            0
        };
        write_one(&mut prep.buckets, i, bucket);
        write_one(&mut prep.weights, i, self.weight(pos));
        self.write_target(&mut prep.targets, pos, blend, i);
        false
    }

    /// The first healthy position is healthy, and those before it are corrupt; without one all are.
    pub proof fn law_first_healthy(&self, data: Seq<I::RequiredDataType>, start: int, end: int)
        ensures
            match self.first_healthy(data, start, end) {
                Some(s) => {
                    &&& start <= s < end
                    &&& self.healthy(&data[s])
                    &&& forall|k: int| start <= k < s ==> !self.healthy(&#[trigger] data[k])
                },
                None => forall|k: int| start <= k < end ==> !self.healthy(&#[trigger] data[k]),
            },
        decreases end - start,
    {
        if start < end {
            self.law_first_healthy(data, start, end - 1);
        }
    }

    /// Prepares the records of the positions of one chunk.  A corrupt position gets a copy of the
    /// record of the first healthy position; where there is none, a neutral record.
    pub fn prepare_chunk(&self, data: &[I::RequiredDataType], blend: T) -> (prep: PreparedData<
        I,
        T,
    >)
        requires
            data@.len() > 0,
            self.spec_shape().addressable(data@.len() as int),
            self.ready(data@, blend),
        ensures
            self.chunk_done(data@, blend, prep),
    {
        let n: usize = data.len();
        let shape = self.shape();
        let input_size: usize = self.input_getter.num_inputs();
        let mut prep = PreparedData::<I, T>::unset(
            shape,
            n,
            self.levels.zero,
            I::empty_hand_count(),
        );
        let mut corrupt_indices: Vec<usize> = Vec::new();
        let mut donor: Option<usize> = None;
        let mut i: usize = 0;
        while i < n
            invariant
                i <= n,
                n == data@.len(),
                shape == self.spec_shape(),
                input_size == self.input_getter.input_size(),
                self.ready(data@, blend),
                prep.sized(shape, n as int),
                prep.corrupt == 0,
                prep.hopeless_chunks@.len() == 0,
                corrupt_indices@.len() == self.num_corrupt(data@, 0, i as int),
                corrupt_indices@.len() <= i,
                forall|k: int|
                    0 <= k < corrupt_indices@.len() ==> #[trigger] corrupt_indices@[k] < i
                        && !self.healthy(&data@[corrupt_indices@[k] as int]),
                forall|k: usize|
                    k < i && !self.healthy(&data@[k as int])
                        ==> #[trigger] corrupt_indices@.contains(k),
                match donor {
                    Some(d) => self.first_healthy(data@, 0, i as int) == Some(d as int),
                    None => self.first_healthy(data@, 0, i as int) is None,
                },
                forall|k: int|
                    0 <= k < i && self.healthy(&data@[k]) ==> self.makes(
                        &data@[k],
                        blend,
                        #[trigger] prep.record(shape, k),
                    ),
            decreases n - i,
        {
            let ghost before = prep;
            let ghost listed = corrupt_indices@;
            let corrupt = self.prepare_record(&mut prep, shape, input_size, &data[i], blend, i);
            proof {
                assert forall|k: int| 0 <= k < i implies #[trigger] prep.record(shape, k)
                    == before.record(shape, k) by {
                    prep.lemma_other_record(before, shape, n as int, i as int, k);
                }
            }
            if corrupt {
                corrupt_indices.push(i);
                proof {
                    assert(corrupt_indices@[listed.len() as int] == i);
                    assert forall|k: usize|
                        k <= i && !self.healthy(
                            &data@[k as int],
                        ) implies #[trigger] corrupt_indices@.contains(k) by {
                        if k < i {
                            assert(listed.contains(k));
                            let place = listed.index_of(k);
                            assert(corrupt_indices@[place] == k);
                        }
                    }
                }
            } else {
                if donor.is_none() {
                    donor = Some(i);
                }
            }
            i = i + 1;
        }
        proof {
            self.law_first_healthy(data@, 0, n as int);
            if donor is None {
                assert(!self.healthy(&data@[0]));
                assert(corrupt_indices@.contains(0));
            }
        }
        let ghost before = prep;
        let hopeless = prep.replace_corrupt_with_donor(
            &corrupt_indices,
            donor,
            shape,
            self.wdl,
            &self.levels,
            I::empty_hand_count(),
        );
        let ghost placed = prep;
        prep.corrupt = corrupt_indices.len();
        if hopeless {
            prep.hopeless_chunks.push(n);
        }
        proof {
            assert forall|i: int| 0 <= i < n implies #[trigger] self.record_done(
                data@,
                blend,
                0,
                n as int,
                prep,
                i,
            ) by {
                let at = i as usize;
                assert(placed.record(shape, at as int) == prep.record(shape, i));
                if self.healthy(&data@[i]) {
                    assert(!corrupt_indices@.contains(at));
                    assert(before.record(shape, i) == prep.record(shape, i));
                } else {
                    assert(corrupt_indices@.contains(at));
                    if donor is Some {
                        let d = donor->0;
                        assert(!corrupt_indices@.contains(d));
                        assert(placed.record(shape, d as int) == before.record(shape, d as int));
                        assert(prep.record(shape, d as int) == placed.record(shape, d as int));
                    }
                }
            }
            if hopeless {
                assert(prep.hopeless_chunks@ =~= seq![n]);
            } else {
                assert(prep.hopeless_chunks@ =~= Seq::empty());
            }
        }
        prep
    }

    /// The search for the first healthy position goes through a part as through the whole.
    pub proof fn lemma_first_healthy_of_part(
        &self,
        data: Seq<I::RequiredDataType>,
        start: int,
        end: int,
        len: int,
    )
        requires
            0 <= start <= start + len <= end <= data.len(),
        ensures
            self.first_healthy(data, start, start + len) == match self.first_healthy(
                data.subrange(start, end),
                0,
                len,
            ) {
                Some(s) => Some(s + start),
                None => None,
            },
        decreases len,
    {
        if len > 0 {
            self.lemma_first_healthy_of_part(data, start, end, len - 1);
            assert(data.subrange(start, end)[len - 1] == data[start + len - 1]);
        }
    }

    /// The corrupt positions of a part add to those before it.
    pub proof fn lemma_num_corrupt_of_part(
        &self,
        data: Seq<I::RequiredDataType>,
        start: int,
        end: int,
        len: int,
    )
        requires
            0 <= start <= start + len <= end <= data.len(),
        ensures
            self.num_corrupt(data, 0, start + len) == self.num_corrupt(data, 0, start)
                + self.num_corrupt(data.subrange(start, end), 0, len),
        decreases len,
    {
        if len > 0 {
            self.lemma_num_corrupt_of_part(data, start, end, len - 1);
            assert(data.subrange(start, end)[len - 1] == data[start + len - 1]);
        }
    }

    /// There are no more corrupt positions than positions.
    pub proof fn lemma_num_corrupt_at_most(
        &self,
        data: Seq<I::RequiredDataType>,
        start: int,
        end: int,
    )
        requires
            start <= end,
        ensures
            self.num_corrupt(data, start, end) <= end - start,
        decreases end - start,
    {
        if start < end {
            self.lemma_num_corrupt_at_most(data, start, end - 1);
        }
    }

    /// Whether a position is healthy.
    fn is_healthy(&self, pos: &I::RequiredDataType) -> (healthy: bool)
        ensures
            healthy == self.healthy(pos),
    {
        let max_active: usize = self.input_getter.max_active();
        let features = self.input_getter.map_features_split(pos);
        let mut stm = filled(max_active, -1);
        let mut nstm = filled(max_active, -1);
        assert(max_active * 0 == 0);
        !write_features(
            &features,
            0,
            self.input_getter.num_inputs(),
            max_active,
            &mut stm,
            &mut nstm,
        )
    }

    /// Whether any of the positions is healthy.
    pub fn finds_healthy(&self, data: &[I::RequiredDataType]) -> (found: bool)
        ensures
            found == (self.first_healthy(data@, 0, data@.len() as int) is Some),
    {
        proof {
            self.law_first_healthy(data@, 0, data@.len() as int);
        }
        let mut i: usize = 0;
        while i < data.len()
            invariant
                i <= data@.len(),
                forall|k: int| 0 <= k < i ==> !self.healthy(&#[trigger] data@[k]),
                match self.first_healthy(data@, 0, data@.len() as int) {
                    Some(s) => 0 <= s < data@.len() && self.healthy(&data@[s]),
                    None => forall|k: int|
                        0 <= k < data@.len() ==> !self.healthy(&#[trigger] data@[k]),
                },
            decreases data@.len() - i,
        {
            if self.is_healthy(&data[i]) {
                assert(self.healthy(&data@[i as int]));
                return true;
            }
            i = i + 1;
        }
        false
    }
}

} // verus!
