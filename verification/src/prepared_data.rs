//! Batches in the layout that a trainer reads.
use vstd::prelude::*;

use crate::inputs::SparseInputType;
use crate::loader::GameResult;
use crate::rows;
use crate::rows::copy_row;
use crate::rows::fill_row;

verus! {

/// The three values that targets and weights are set to without a formula.
#[derive(Debug)]
pub struct TargetLevels<T> {
    pub zero: T,
    pub half: T,
    pub one: T,
}

/// How wide the rows of a batch are.
#[derive(Clone, Copy, Debug)]
pub struct Shape {
    /// The slots of a record for the active inputs of either side.
    pub max_active: usize,
    /// The targets of a record.
    pub output_size: usize,
    /// The hand counts of a record, if there are any.
    pub hand_dims: Option<usize>,
}

impl Shape {
    pub open spec fn hand_width(self) -> int {
        match self.hand_dims {
            Some(dims) => dims as int,
            None => 0,
        }
    }

    pub fn hand_dim(&self) -> (dim: usize)
        ensures
            dim == self.hand_width(),
    {
        match self.hand_dims {
            Some(dims) => dims,
            None => 0,
        }
    }

    /// Whether a batch of `n` records can be laid out in memory.
    pub open spec fn addressable(self, n: int) -> bool {
        &&& self.max_active * n <= usize::MAX
        &&& self.output_size * n <= usize::MAX
        &&& self.hand_width() * n <= usize::MAX
    }
}

/// What a batch holds of one record.
#[verifier::ext_equal]
pub ghost struct Record<H, T> {
    /// The inputs that the side to move sees active.
    pub stm: Seq<i32>,
    /// The inputs that the other side sees active.
    pub nstm: Seq<i32>,
    pub bucket: i32,
    pub target: Seq<T>,
    pub weight: T,
    pub hand: Option<Seq<H>>,
}

/// The targets with a one at the result of the game.
pub open spec fn one_hot<T>(result: GameResult, levels: TargetLevels<T>) -> Seq<T> {
    Seq::new(
        3,
        |k: int|
            if k == result.number() {
                levels.one
            } else {
                levels.zero
            },
    )
}

/// The targets that say nothing of the result: a draw.
pub open spec fn neutral_target<T>(wdl: bool, levels: TargetLevels<T>) -> Seq<T> {
    if wdl {
        one_hot(GameResult::Draw, levels)
    } else {
        seq![levels.half]
    }
}

/// A record without inputs that does not count.
pub open spec fn neutral_record<H, T>(
    shape: Shape,
    wdl: bool,
    levels: TargetLevels<T>,
    no_hand: H,
) -> Record<H, T> {
    Record {
        stm: Seq::new(shape.max_active as nat, |j: int| -1i32),
        nstm: Seq::new(shape.max_active as nat, |j: int| -1i32),
        bucket: 0,
        target: neutral_target(wdl, levels),
        weight: levels.zero,
        hand: match shape.hand_dims {
            Some(dims) => Some(Seq::new(dims as nat, |j: int| no_hand)),
            None => None,
        },
    }
}

/// A batch of data, record after record in each of the vectors.
pub struct PreparedData<I: SparseInputType, T> {
    pub batch_size: usize,
    pub stm: Vec<i32>,
    pub nstm: Vec<i32>,
    pub buckets: Vec<i32>,
    pub targets: Vec<T>,
    pub weights: Vec<T>,
    /// The hand counts, where the input type has them.
    pub hand_count: Option<Vec<I::HandCount>>,
    /// How many records were corrupt.
    pub corrupt: usize,
    /// The lengths of the chunks in which every record was corrupt.
    pub hopeless_chunks: Vec<usize>,
}

/// A vector of `n` times the same value.
pub fn filled<A: Copy>(n: usize, value: A) -> (v: Vec<A>)
    ensures
        v@ == Seq::new(n as nat, |i: int| value),
{
    let mut v: Vec<A> = Vec::new();
    let mut i: usize = 0;
    while i < n
        invariant
            i <= n,
            v@ == Seq::new(i as nat, |k: int| value),
        decreases n - i,
    {
        v.push(value);
        i = i + 1;
        assert(v@ =~= Seq::new(i as nat, |k: int| value));
    }
    v
}

impl<I: SparseInputType, T> PreparedData<I, T> {
    /// Whether the vectors have the lengths for `n` records.
    pub open spec fn sized(self, shape: Shape, n: int) -> bool {
        &&& self.batch_size == n
        &&& self.stm@.len() == shape.max_active * n
        &&& self.nstm@.len() == shape.max_active * n
        &&& self.buckets@.len() == n
        &&& self.targets@.len() == shape.output_size * n
        &&& self.weights@.len() == n
        &&& self.hand_count is Some <==> shape.hand_dims is Some
        &&& self.hand_count matches Some(counts) ==> counts@.len() == shape.hand_width() * n
    }

    /// Record `i`.
    pub open spec fn record(self, shape: Shape, i: int) -> Record<I::HandCount, T> {
        Record {
            stm: rows::row(self.stm@, shape.max_active as int, i),
            nstm: rows::row(self.nstm@, shape.max_active as int, i),
            bucket: self.buckets@[i],
            target: rows::row(self.targets@, shape.output_size as int, i),
            weight: self.weights@[i],
            hand: match self.hand_count {
                Some(counts) => Some(rows::row(counts@, shape.hand_width(), i)),
                None => None,
            },
        }
    }

    /// Whether `self` and `other` differ in record `i` at most.
    pub open spec fn same_but_record(self, other: Self, shape: Shape, i: int) -> bool {
        &&& rows::same_but_row(other.stm@, self.stm@, shape.max_active as int, i)
        &&& rows::same_but_row(other.nstm@, self.nstm@, shape.max_active as int, i)
        &&& rows::same_but_row(other.buckets@, self.buckets@, 1, i)
        &&& rows::same_but_row(other.targets@, self.targets@, shape.output_size as int, i)
        &&& rows::same_but_row(other.weights@, self.weights@, 1, i)
        &&& (self.hand_count is Some <==> other.hand_count is Some)
        &&& self.hand_count is Some ==> rows::same_but_row(
            other.hand_count->0@,
            self.hand_count->0@,
            shape.hand_width(),
            i,
        )
        &&& self.batch_size == other.batch_size
        &&& self.corrupt == other.corrupt
        &&& self.hopeless_chunks == other.hopeless_chunks
    }

    pub proof fn lemma_rows(self, shape: Shape, n: int, i: int)
        requires
            self.sized(shape, n),
            0 <= i < n,
        ensures
            rows::has_row(self.stm@, shape.max_active as int, i),
            rows::has_row(self.nstm@, shape.max_active as int, i),
            rows::has_row(self.targets@, shape.output_size as int, i),
            self.hand_count matches Some(counts) ==> rows::has_row(
                counts@,
                shape.hand_width(),
                i,
            ),
    {
        rows::lemma_has_row(self.stm@, shape.max_active as int, n, i);
        rows::lemma_has_row(self.nstm@, shape.max_active as int, n, i);
        rows::lemma_has_row(self.targets@, shape.output_size as int, n, i);
        if self.hand_count is Some {
            rows::lemma_has_row(self.hand_count->0@, shape.hand_width(), n, i);
        }
    }

    pub proof fn lemma_other_record(self, other: Self, shape: Shape, n: int, i: int, j: int)
        requires
            other.sized(shape, n),
            self.same_but_record(other, shape, i),
            0 <= i < n,
            0 <= j < n,
            i != j,
        ensures
            self.record(shape, j) == other.record(shape, j),
    {
        other.lemma_rows(shape, n, j);
        rows::lemma_other_row(other.stm@, self.stm@, shape.max_active as int, i, j);
        rows::lemma_other_row(other.nstm@, self.nstm@, shape.max_active as int, i, j);
        rows::lemma_other_row(other.targets@, self.targets@, shape.output_size as int, i, j);
        if self.hand_count is Some {
            rows::lemma_other_row(
                other.hand_count->0@,
                self.hand_count->0@,
                shape.hand_width(),
                i,
                j,
            );
        }
    }
}

impl<I: SparseInputType, T: Copy> PreparedData<I, T> {
    /// A batch of `n` records to be made: no inputs, bucket 0, and zeros elsewhere.
    pub fn unset(shape: Shape, n: usize, zero: T, no_hand: I::HandCount) -> (prep: Self)
        requires
            shape.addressable(n as int),
        ensures
            prep.sized(shape, n as int),
            prep.stm@ == Seq::new((shape.max_active * n) as nat, |k: int| -1i32),
            prep.nstm@ == Seq::new((shape.max_active * n) as nat, |k: int| -1i32),
            prep.buckets@ == Seq::new(n as nat, |k: int| 0i32),
            prep.targets@ == Seq::new((shape.output_size * n) as nat, |k: int| zero),
            prep.weights@ == Seq::new(n as nat, |k: int| zero),
            prep.hand_count matches Some(counts) ==> counts@ == Seq::new(
                (shape.hand_width() * n) as nat,
                |k: int| no_hand,
            ),
            prep.corrupt == 0,
            prep.hopeless_chunks@ == Seq::<usize>::empty(),
    {
        proof {
            assert(0 <= shape.max_active * n) by (nonlinear_arith);
            assert(0 <= shape.output_size * n) by (nonlinear_arith);
        }
        PreparedData {
            batch_size: n,
            stm: filled(shape.max_active * n, -1),
            nstm: filled(shape.max_active * n, -1),
            buckets: filled(n, 0),
            targets: filled(shape.output_size * n, zero),
            weights: filled(n, zero),
            hand_count: match shape.hand_dims {
                Some(dims) => {
                    proof {
                        assert(0 <= dims * n) by (nonlinear_arith);
                    }
                    Some(filled(dims * n, no_hand))
                },
                None => None,
            },
            corrupt: 0,
            hopeless_chunks: Vec::new(),
        }
    }

    /// Puts the records of `other` behind those of `self`.
    pub fn append(&mut self, shape: Shape, other: PreparedData<I, T>)
        requires
            old(self).sized(shape, old(self).batch_size as int),
            other.sized(shape, other.batch_size as int),
            old(self).batch_size + other.batch_size <= usize::MAX,
            old(self).corrupt + other.corrupt <= usize::MAX,
        ensures
            final(self).sized(shape, old(self).batch_size + other.batch_size),
            final(self).corrupt == old(self).corrupt + other.corrupt,
            final(self).hopeless_chunks@ == old(self).hopeless_chunks@ + other.hopeless_chunks@,
            forall|i: int|
                0 <= i < old(self).batch_size + other.batch_size ==> #[trigger] final(self).record(
                    shape,
                    i,
                ) == if i < old(self).batch_size {
                    old(self).record(shape, i)
                } else {
                    other.record(shape, i - old(self).batch_size)
                },
    {
        let ghost m = self.batch_size as int;
        let ghost n = other.batch_size as int;
        let ghost before = *self;
        let mut rest = other;
        self.stm.append(&mut rest.stm);
        self.nstm.append(&mut rest.nstm);
        self.buckets.append(&mut rest.buckets);
        self.targets.append(&mut rest.targets);
        self.weights.append(&mut rest.weights);
        match (&mut self.hand_count, &mut rest.hand_count) {
            (Some(counts), Some(more)) => counts.append(more),
            _ => {},
        }
        self.hopeless_chunks.append(&mut rest.hopeless_chunks);
        self.batch_size = self.batch_size + rest.batch_size;
        self.corrupt = self.corrupt + rest.corrupt;
        proof {
            let width = shape.hand_width();
            assert(shape.max_active * (m + n) == shape.max_active * m + shape.max_active * n)
                by (nonlinear_arith);
            assert(shape.output_size * (m + n) == shape.output_size * m + shape.output_size * n)
                by (nonlinear_arith);
            assert(width * (m + n) == width * m + width * n) by (nonlinear_arith);
            assert forall|i: int| 0 <= i < m + n implies #[trigger] self.record(shape, i) == (
            if i < m {
                before.record(shape, i)
            } else {
                other.record(shape, i - m)
            }) by {
                rows::lemma_joined_row(
                    before.stm@,
                    other.stm@,
                    shape.max_active as int,
                    m,
                    n,
                    i,
                );
                rows::lemma_joined_row(
                    before.nstm@,
                    other.nstm@,
                    shape.max_active as int,
                    m,
                    n,
                    i,
                );
                rows::lemma_joined_row(
                    before.targets@,
                    other.targets@,
                    shape.output_size as int,
                    m,
                    n,
                    i,
                );
                if shape.hand_dims is Some {
                    rows::lemma_joined_row(
                        before.hand_count->0@,
                        other.hand_count->0@,
                        width,
                        m,
                        n,
                        i,
                    );
                }
            }
        }
    }

    /// Copies record `src` over record `dst`.
    fn copy_record(&mut self, shape: Shape, src: usize, dst: usize)
        requires
            old(self).sized(shape, old(self).batch_size as int),
            src < old(self).batch_size,
            dst < old(self).batch_size,
        ensures
            final(self).sized(shape, old(self).batch_size as int),
            final(self).same_but_record(*old(self), shape, dst as int),
            final(self).record(shape, dst as int) == old(self).record(shape, src as int),
    {
        let ghost n = self.batch_size as int;
        proof {
            self.lemma_rows(shape, n, src as int);
            self.lemma_rows(shape, n, dst as int);
        }
        copy_row(&mut self.stm, shape.max_active, src, dst);
        copy_row(&mut self.nstm, shape.max_active, src, dst);
        copy_row(&mut self.targets, shape.output_size, src, dst);
        let bucket: i32 = self.buckets[src];
        self.buckets[dst] = bucket;
        let weight = self.weights[src];
        self.weights[dst] = weight;
        let width: usize = shape.hand_dim();
        match &mut self.hand_count {
            Some(counts) => copy_row(counts, width, src, dst),
            None => {},
        }
    }

    /// Makes record `dst` neutral.
    fn clear_record(
        &mut self,
        shape: Shape,
        wdl: bool,
        levels: &TargetLevels<T>,
        no_hand: I::HandCount,
        dst: usize,
    )
        requires
            old(self).sized(shape, old(self).batch_size as int),
            shape.output_size == (if wdl { 3int } else { 1 }),
            dst < old(self).batch_size,
        ensures
            final(self).sized(shape, old(self).batch_size as int),
            final(self).same_but_record(*old(self), shape, dst as int),
            final(self).record(shape, dst as int) == neutral_record(shape, wdl, *levels, no_hand),
    {
        let ghost n = self.batch_size as int;
        proof {
            self.lemma_rows(shape, n, dst as int);
        }
        fill_row(&mut self.stm, shape.max_active, dst, -1);
        fill_row(&mut self.nstm, shape.max_active, dst, -1);
        self.buckets[dst] = 0;
        self.weights[dst] = levels.zero;
        if wdl {
            fill_row(&mut self.targets, 3, dst, levels.zero);
            let len: usize = self.targets.len();
            let ghost zeros = self.targets@;
            assert(3 * dst + 3 <= len);
            let draw: usize = 3 * dst + 1;
            self.targets[draw] = levels.one;
            assert forall|k: int| 0 <= k < 3 implies rows::row(self.targets@, 3, dst as int)[k]
                == neutral_target(wdl, *levels)[k] by {
                assert(rows::row(zeros, 3, dst as int)[k] == levels.zero);
            }
            assert(rows::row(self.targets@, 3, dst as int) =~= neutral_target(wdl, *levels));
        } else {
            self.targets[dst] = levels.half;
            assert(rows::row(self.targets@, 1, dst as int) =~= neutral_target(wdl, *levels));
        }
        let width: usize = shape.hand_dim();
        match &mut self.hand_count {
            Some(counts) => fill_row(counts, width, dst, no_hand),
            None => {},
        }
        assert(self.record(shape, dst as int) =~= neutral_record(shape, wdl, *levels, no_hand));
    }

    /// Replaces the corrupt records by copies of the record `donor`, or by neutral records where
    /// there is no donor, and tells whether the latter was done.
    pub fn replace_corrupt_with_donor(
        &mut self,
        corrupt_indices: &Vec<usize>,
        donor: Option<usize>,
        shape: Shape,
        wdl: bool,
        levels: &TargetLevels<T>,
        no_hand: I::HandCount,
    ) -> (hopeless: bool)
        requires
            old(self).sized(shape, old(self).batch_size as int),
            forall|k: int|
                0 <= k < corrupt_indices@.len() ==> #[trigger] corrupt_indices@[k] < old(
                    self,
                ).batch_size,
            corrupt_indices@.len() > 0 ==> match donor {
                Some(d) => d < old(self).batch_size,
                None => shape.output_size == if wdl { 3int } else { 1 },
            },
        ensures
            final(self).sized(shape, old(self).batch_size as int),
            final(self).corrupt == old(self).corrupt,
            final(self).hopeless_chunks == old(self).hopeless_chunks,
            hopeless == (donor is None && corrupt_indices@.len() > 0),
            forall|i: usize|
                i < old(self).batch_size ==> #[trigger] final(self).record(shape, i as int) == (
                if !corrupt_indices@.contains(i) {
                    old(self).record(shape, i as int)
                } else {
                    match donor {
                        Some(d) => old(self).record(shape, d as int),
                        None => neutral_record(shape, wdl, *levels, no_hand),
                    }
                }),
    {
        let ghost n = self.batch_size as int;
        let mut k: usize = 0;
        while k < corrupt_indices.len()
            invariant
                k <= corrupt_indices@.len(),
                n == old(self).batch_size,
                old(self).sized(shape, n),
                forall|k: int|
                    0 <= k < corrupt_indices@.len() ==> #[trigger] corrupt_indices@[k] < n,
                corrupt_indices@.len() > 0 ==> match donor {
                    Some(d) => d < n,
                    None => shape.output_size == if wdl { 3int } else { 1 },
                },
                self.sized(shape, n),
                self.corrupt == old(self).corrupt,
                self.hopeless_chunks == old(self).hopeless_chunks,
                forall|i: usize|
                    i < n ==> #[trigger] self.record(shape, i as int) == (
                    if !corrupt_indices@.take(k as int).contains(i) {
                        old(self).record(shape, i as int)
                    } else {
                        match donor {
                            Some(d) => old(self).record(shape, d as int),
                            None => neutral_record(shape, wdl, *levels, no_hand),
                        }
                    }),
            decreases corrupt_indices@.len() - k,
        {
            let ghost before = *self;
            let at: usize = corrupt_indices[k];
            match donor {
                Some(d) => {
                    assert(self.record(shape, d as int) == old(self).record(shape, d as int));
                    self.copy_record(shape, d, at);
                },
                None => {
                    self.clear_record(shape, wdl, levels, no_hand, at);
                },
            }
            proof {
                let done = corrupt_indices@.take(k as int);
                let now = corrupt_indices@.take(k + 1);
                assert(now =~= done.push(at));
                assert forall|i: usize| i < n implies #[trigger] self.record(shape, i as int) == (
                if !now.contains(i) {
                    old(self).record(shape, i as int)
                } else {
                    match donor {
                        Some(d) => old(self).record(shape, d as int),
                        None => neutral_record(shape, wdl, *levels, no_hand),
                    }
                }) by {
                    if i == at {
                        assert(now[k as int] == at);
                    } else {
                        self.lemma_other_record(before, shape, n, at as int, i as int);
                        if now.contains(i) {
                            let place = now.index_of(i);
                            assert(done[place] == i);
                        }
                        if done.contains(i) {
                            let place = done.index_of(i);
                            assert(now[place] == i);
                        }
                        assert(before.record(shape, i as int) == self.record(shape, i as int));
                    }
                }
            }
            k = k + 1;
        }
        assert(corrupt_indices@.take(corrupt_indices@.len() as int) =~= corrupt_indices@);
        donor.is_none() && corrupt_indices.len() > 0
    }
}

} // verus!
