//! What holds of prepared batches.
use vstd::prelude::*;

use crate::batch;
use crate::inputs::OutputBuckets;
use crate::inputs::SparseInputType;
use crate::loader::GameResult;
use crate::loader::LoadableDataType;
use crate::prepare::PrepareConfig;
use crate::prepared_data;
use crate::prepared_data::PreparedData;
use crate::rows;
use crate::sparse_rows;

verus! {

/// Whether two batches hold the same records.
pub open spec fn same_batch<I: SparseInputType, T>(
    first: PreparedData<I, T>,
    second: PreparedData<I, T>,
) -> bool {
    &&& first.batch_size == second.batch_size
    &&& first.stm@ == second.stm@
    &&& first.nstm@ == second.nstm@
    &&& first.buckets@ == second.buckets@
    &&& first.targets@ == second.targets@
    &&& first.weights@ == second.weights@
    &&& (first.hand_count is Some <==> second.hand_count is Some)
    &&& first.hand_count is Some ==> first.hand_count->0@ == second.hand_count->0@
    &&& first.corrupt == second.corrupt
}

/// Whether a slot is empty or holds one of `input_size` inputs.
pub open spec fn holds_input(slot: i32, input_size: usize) -> bool {
    slot == -1 || exists|input: usize| input < input_size && slot == #[trigger] (input as i32)
}

proof fn lemma_same_records<I: SparseInputType, T>(
    first: PreparedData<I, T>,
    second: PreparedData<I, T>,
    shape: prepared_data::Shape,
    n: int,
)
    requires
        0 <= n,
        first.sized(shape, n),
        second.sized(shape, n),
        first.corrupt == second.corrupt,
        forall|i: int| 0 <= i < n ==> #[trigger] first.record(shape, i) == second.record(shape, i),
    ensures
        same_batch(first, second),
{
    assert forall|i: int| 0 <= i < n implies #[trigger] rows::row(
        first.stm@,
        shape.max_active as int,
        i,
    ) == rows::row(second.stm@, shape.max_active as int, i) by {
        assert(first.record(shape, i) == second.record(shape, i));
    }
    assert forall|i: int| 0 <= i < n implies #[trigger] rows::row(
        first.nstm@,
        shape.max_active as int,
        i,
    ) == rows::row(second.nstm@, shape.max_active as int, i) by {
        assert(first.record(shape, i) == second.record(shape, i));
    }
    assert forall|i: int| 0 <= i < n implies #[trigger] rows::row(
        first.targets@,
        shape.output_size as int,
        i,
    ) == rows::row(second.targets@, shape.output_size as int, i) by {
        assert(first.record(shape, i) == second.record(shape, i));
    }
    assert forall|i: int| 0 <= i < n implies #[trigger] first.buckets@[i] == second.buckets@[i] by {
        assert(first.record(shape, i) == second.record(shape, i));
    }
    assert forall|i: int| 0 <= i < n implies #[trigger] first.weights@[i] == second.weights@[i] by {
        assert(first.record(shape, i) == second.record(shape, i));
    }
    rows::lemma_equal_rows(first.stm@, second.stm@, shape.max_active as int, n);
    rows::lemma_equal_rows(first.nstm@, second.nstm@, shape.max_active as int, n);
    rows::lemma_equal_rows(first.targets@, second.targets@, shape.output_size as int, n);
    assert(first.buckets@ =~= second.buckets@);
    assert(first.weights@ =~= second.weights@);
    if first.hand_count is Some {
        let a = first.hand_count->0@;
        let b = second.hand_count->0@;
        assert forall|i: int| 0 <= i < n implies #[trigger] rows::row(a, shape.hand_width(), i)
            == rows::row(b, shape.hand_width(), i) by {
            assert(first.record(shape, i) == second.record(shape, i));
        }
        rows::lemma_equal_rows(a, b, shape.hand_width(), n);
    }
}

impl<I, O, T, B, W, S, M> PrepareConfig<I, O, T, B, W, S, M> where
    I: SparseInputType,
    O: OutputBuckets<I::RequiredDataType>,
    I::RequiredDataType: LoadableDataType,
    T: Copy,
    B: Fn(&I::RequiredDataType, T) -> T,
    W: Fn(&I::RequiredDataType) -> T,
    S: Fn(i16) -> T,
    M: Fn(T, GameResult, T) -> T,
 {
    /// Whether the getters give the same for the same positions each time.
    pub open spec fn deterministic(&self) -> bool {
        &&& self.weight_getter matches Some(getter) ==> forall|pos: &I::RequiredDataType, a: T, b: T|
            #[trigger] call_ensures(getter, (pos,), a) && #[trigger] call_ensures(getter, (pos,), b)
                ==> a == b
        &&& forall|pos: &I::RequiredDataType, blend: T, a: T, b: T|
            #[trigger] call_ensures(self.blend_getter, (pos, blend), a)
                && #[trigger] call_ensures(self.blend_getter, (pos, blend), b) ==> a == b
        &&& forall|score: i16, a: T, b: T| #[trigger]
            call_ensures(self.squash, (score,), a) && #[trigger] call_ensures(
                self.squash,
                (score,),
                b,
            ) ==> a == b
        &&& forall|share: T, result: GameResult, value: T, a: T, b: T|
            #[trigger] call_ensures(self.mix, (share, result, value), a)
                && #[trigger] call_ensures(self.mix, (share, result, value), b) ==> a == b
    }

    /// Deterministic getters leave no choice of the record of a position.
    proof fn lemma_one_record(
        &self,
        pos: &I::RequiredDataType,
        blend: T,
        a: prepared_data::Record<I::HandCount, T>,
        b: prepared_data::Record<I::HandCount, T>,
    )
        requires
            self.deterministic(),
            self.makes(pos, blend, a),
            self.makes(pos, blend, b),
        ensures
            a == b,
    {
        assert(a.weight == b.weight);
        if !self.wdl {
            let (share_a, value_a) = choose|share: T, value: T| #[trigger]
                self.mixes(pos, blend, share, value, a.target[0]);
            let (share_b, value_b) = choose|share: T, value: T| #[trigger]
                self.mixes(pos, blend, share, value, b.target[0]);
            assert(share_a == share_b);
            assert(value_a == value_b);
            assert(a.target =~= b.target);
        }
        assert(a =~= b);
    }

    /// Whether the chunks of a batch are prepared one after the other or on a pool makes no
    /// difference: with deterministic getters, the positions and the number of threads determine
    /// the batch.
    pub proof fn law_preparation_is_determined(
        &self,
        data: Seq<I::RequiredDataType>,
        threads: int,
        blend: T,
        first: PreparedData<I, T>,
        second: PreparedData<I, T>,
    )
        requires
            self.deterministic(),
            0 < threads,
            self.batch_done(data, threads, blend, first),
            self.batch_done(data, threads, blend, second),
        ensures
            same_batch(first, second),
            first.hopeless_chunks@ == second.hopeless_chunks@,
    {
        let n = data.len() as int;
        let shape = self.spec_shape();
        let chunk_size = batch::quotient_up(n, threads);
        assert forall|i: int| 0 <= i < n implies #[trigger] first.record(shape, i)
            == second.record(shape, i) by {
            assert(self.batch_record_done(data, chunk_size, blend, first, i));
            assert(self.batch_record_done(data, chunk_size, blend, second, i));
            let start = batch::chunk_start(chunk_size, i / chunk_size);
            let end = batch::chunk_end(n, chunk_size, i / chunk_size);
            match self.source(data, start, end, i) {
                Some(s) => {
                    self.lemma_one_record(
                        &data[s],
                        blend,
                        first.record(shape, s),
                        second.record(shape, s),
                    );
                },
                None => {},
            }
        }
        lemma_same_records(first, second, shape, n);
    }

    /// The number of threads makes a difference to corrupt records only: where every position is
    /// healthy, deterministic getters give the same batch for any number of threads.
    pub proof fn law_threads_do_not_matter_to_healthy_positions(
        &self,
        data: Seq<I::RequiredDataType>,
        threads: int,
        other_threads: int,
        blend: T,
        first: PreparedData<I, T>,
        second: PreparedData<I, T>,
    )
        requires
            self.deterministic(),
            0 < threads,
            0 < other_threads,
            forall|i: int| 0 <= i < data.len() ==> self.healthy(&#[trigger] data[i]),
            self.batch_done(data, threads, blend, first),
            self.batch_done(data, other_threads, blend, second),
        ensures
            same_batch(first, second),
    {
        let n = data.len() as int;
        let shape = self.spec_shape();
        assert forall|i: int| 0 <= i < n implies #[trigger] first.record(shape, i)
            == second.record(shape, i) by {
            self.law_healthy_records_are_kept(data, threads, blend, first, i);
            self.law_healthy_records_are_kept(data, other_threads, blend, second, i);
            self.lemma_one_record(
                &data[i],
                blend,
                first.record(shape, i),
                second.record(shape, i),
            );
        }
        lemma_same_records(first, second, shape, n);
    }

    /// The record of a healthy position is made of that position alone: a corrupt position next to
    /// it leaves it as it is.
    pub proof fn law_healthy_records_are_kept(
        &self,
        data: Seq<I::RequiredDataType>,
        threads: int,
        blend: T,
        prep: PreparedData<I, T>,
        i: int,
    )
        requires
            0 < threads,
            self.batch_done(data, threads, blend, prep),
            0 <= i < data.len(),
            self.healthy(&data[i]),
        ensures
            self.makes(&data[i], blend, prep.record(self.spec_shape(), i)),
    {
        assert(self.batch_record_done(
            data,
            batch::quotient_up(data.len() as int, threads),
            blend,
            prep,
            i,
        ));
    }

    /// No record mixes the inputs of one position with the target of another: each is made of one
    /// healthy position of its chunk, or is neutral, has weight zero, and stands in a chunk without
    /// a healthy position.
    pub proof fn law_records_are_whole(
        &self,
        data: Seq<I::RequiredDataType>,
        threads: int,
        blend: T,
        prep: PreparedData<I, T>,
        i: int,
    )
        requires
            0 < threads,
            self.batch_done(data, threads, blend, prep),
            0 <= i < data.len(),
        ensures
            ({
                let n = data.len() as int;
                let chunk_size = batch::quotient_up(n, threads);
                let start = batch::chunk_start(chunk_size, i / chunk_size);
                let end = batch::chunk_end(n, chunk_size, i / chunk_size);
                let record = prep.record(self.spec_shape(), i);
                ||| exists|s: int|
                    start <= s < end && self.healthy(&data[s]) && #[trigger] self.makes(
                        &data[s],
                        blend,
                        record,
                    )
                ||| {
                    &&& record == self.neutral()
                    &&& record.weight == self.levels.zero
                    &&& forall|k: int| start <= k < end ==> !self.healthy(&#[trigger] data[k])
                }
            }),
    {
        let n = data.len() as int;
        let chunk_size = batch::quotient_up(n, threads);
        let start = batch::chunk_start(chunk_size, i / chunk_size);
        let end = batch::chunk_end(n, chunk_size, i / chunk_size);
        assert(self.batch_record_done(data, chunk_size, blend, prep, i));
        self.law_first_healthy(data, start, end);
        batch::law_chunk_of(n, threads, i);
        match self.source(data, start, end, i) {
            Some(s) => {
                assert(self.makes(&data[s], blend, prep.record(self.spec_shape(), i)));
            },
            None => {},
        }
    }

    /// Every slot of a batch is empty or holds an input that exists, whatever the positions are.
    pub proof fn law_slots_hold_inputs(
        &self,
        data: Seq<I::RequiredDataType>,
        threads: int,
        blend: T,
        prep: PreparedData<I, T>,
        i: int,
        j: int,
    )
        requires
            0 < threads,
            self.batch_done(data, threads, blend, prep),
            0 <= i < data.len(),
            0 <= j < self.input_getter.active_limit(),
        ensures
            holds_input(
                prep.record(self.spec_shape(), i).stm[j],
                self.input_getter.input_size(),
            ),
            holds_input(
                prep.record(self.spec_shape(), i).nstm[j],
                self.input_getter.input_size(),
            ),
    {
        let record = prep.record(self.spec_shape(), i);
        self.law_records_are_whole(data, threads, blend, prep, i);
        if record != self.neutral() {
            let s = choose|s: int|
                self.healthy(&data[s]) && #[trigger] self.makes(&data[s], blend, record);
            let features = self.input_getter.split_features(&data[s]);
            let ours = sparse_rows::ours(features);
            let theirs = sparse_rows::theirs(features);
            if j < ours.len() {
                assert(ours[j] < self.input_getter.input_size());
                assert(record.stm[j] == ours[j] as i32);
            }
            if j < theirs.len() {
                assert(theirs[j] < self.input_getter.input_size());
                assert(record.nstm[j] == theirs[j] as i32);
            }
        }
    }
}

} // verus!
