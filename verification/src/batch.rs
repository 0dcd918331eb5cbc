//! Preparation of whole batches, chunk by chunk.
use vstd::prelude::*;

use crate::inputs::OutputBuckets;
use crate::inputs::SparseInputType;
use crate::loader::GameResult;
use crate::loader::LoadableDataType;
use crate::parallel::map_in_pool;
use crate::prepare::PrepareConfig;
use crate::prepared_data::PreparedData;
use crate::wrm_params::WrmParams;
use crate::wrm_params::WrmSettings;

verus! {

/// The least `q` with `q * parts >= n`.
pub open spec fn quotient_up(n: int, parts: int) -> int {
    (n + parts - 1) / parts
}

fn div_up(n: usize, parts: usize) -> (q: usize)
    requires
        n > 0,
        parts > 0,
    ensures
        q == quotient_up(n as int, parts as int),
        0 < q <= n,
        (q - 1) * parts < n <= q * parts,
{
    let q: usize = (n - 1) / parts + 1;
    proof {
        lemma_quotient_up(n as int, parts as int);
        vstd::arithmetic::div_mod::lemma_fundamental_div_mod(n - 1, parts as int);
        vstd::arithmetic::div_mod::lemma_div_plus_one(n - 1, parts as int);
    }
    q
}

/// Where chunk `k` begins.
pub open spec fn chunk_start(chunk_size: int, k: int) -> int {
    chunk_size * k
}

/// Where chunk `k` of `n` positions ends: the last chunk may be shorter than the others.
pub open spec fn chunk_end(n: int, chunk_size: int, k: int) -> int {
    if chunk_start(chunk_size, k + 1) <= n {
        chunk_start(chunk_size, k + 1)
    } else {
        n
    }
}

/// The positions of chunk `k`.
pub open spec fn chunk<D>(data: Seq<D>, chunk_size: int, k: int) -> Seq<D> {
    data.subrange(chunk_start(chunk_size, k), chunk_end(data.len() as int, chunk_size, k))
}

proof fn lemma_chunk(n: int, chunk_size: int, num_chunks: int, k: int)
    requires
        0 < n,
        0 < chunk_size,
        num_chunks == quotient_up(n, chunk_size),
        (num_chunks - 1) * chunk_size < n <= num_chunks * chunk_size,
        0 <= k < num_chunks,
    ensures
        0 <= chunk_start(chunk_size, k) < chunk_end(n, chunk_size, k) <= n,
        k + 1 < num_chunks ==> chunk_end(n, chunk_size, k) == chunk_start(chunk_size, k + 1),
        k + 1 == num_chunks ==> chunk_end(n, chunk_size, k) == n,
        forall|i: int|
            chunk_start(chunk_size, k) <= i < chunk_end(n, chunk_size, k) ==> #[trigger] (i
                / chunk_size) == k,
{
    assert(0 <= chunk_size * k) by (nonlinear_arith)
        requires
            0 < chunk_size,
            0 <= k,
    ;
    assert(chunk_size * (k + 1) == chunk_size * k + chunk_size) by (nonlinear_arith);
    assert(chunk_size * k <= (num_chunks - 1) * chunk_size) by (nonlinear_arith)
        requires
            0 < chunk_size,
            k <= num_chunks - 1,
    ;
    if k + 1 < num_chunks {
        assert(chunk_size * (k + 1) <= (num_chunks - 1) * chunk_size) by (nonlinear_arith)
            requires
                0 < chunk_size,
                k + 1 <= num_chunks - 1,
        ;
    } else {
        assert(chunk_size * (k + 1) == num_chunks * chunk_size) by (nonlinear_arith)
            requires
                k + 1 == num_chunks,
        ;
    }
    assert forall|i: int|
        chunk_start(chunk_size, k) <= i < chunk_end(n, chunk_size, k) implies #[trigger] (i
        / chunk_size) == k by {
        assert(k * chunk_size == chunk_size * k) by (nonlinear_arith);
        vstd::arithmetic::div_mod::lemma_fundamental_div_mod_converse(
            i,
            chunk_size,
            k,
            i - chunk_size * k,
        );
    }
}

proof fn lemma_quotient_up(n: int, parts: int)
    requires
        0 < n,
        0 < parts,
    ensures
        0 < quotient_up(n, parts) <= n,
        (quotient_up(n, parts) - 1) * parts < n <= quotient_up(n, parts) * parts,
{
    let less = (n - 1) / parts;
    vstd::arithmetic::div_mod::lemma_fundamental_div_mod(n - 1, parts);
    vstd::arithmetic::div_mod::lemma_div_pos_is_pos(n - 1, parts);
    assert(less * parts == parts * less) by (nonlinear_arith);
    assert((less + 1) * parts == parts * less + parts) by (nonlinear_arith);
    vstd::arithmetic::div_mod::lemma_fundamental_div_mod_converse(
        n + parts - 1,
        parts,
        less + 1,
        (n - 1) % parts,
    );
    assert(less <= n - 1) by (nonlinear_arith)
        requires
            parts * less <= n - 1,
            parts >= 1,
            less >= 0,
    ;
}

/// The quotient is the one number that suffices and is no larger than it must be.
pub proof fn law_quotient_up(n: int, parts: int, q: int)
    requires
        0 < n,
        0 < parts,
    ensures
        q == quotient_up(n, parts) <==> (q - 1) * parts < n <= q * parts,
        0 < quotient_up(n, parts) <= n,
{
    lemma_quotient_up(n, parts);
    let up = quotient_up(n, parts);
    if (q - 1) * parts < n <= q * parts {
        assert(q == up) by (nonlinear_arith)
            requires
                0 < parts,
                (q - 1) * parts < n <= q * parts,
                (up - 1) * parts < n <= up * parts,
        ;
    }
}

/// The chunks make up the positions: the first begins at the first position, each other one where
/// the one before it ends, and the last ends at the last position.
pub proof fn law_chunks_make_up_the_positions(n: int, chunk_size: int, num_chunks: int, k: int)
    requires
        0 < n,
        0 < chunk_size,
        num_chunks == quotient_up(n, chunk_size),
        0 <= k < num_chunks,
    ensures
        k == 0 ==> chunk_start(chunk_size, k) == 0,
        k + 1 < num_chunks ==> chunk_end(n, chunk_size, k) == chunk_start(chunk_size, k + 1),
        k + 1 < num_chunks ==> chunk_end(n, chunk_size, k) - chunk_start(chunk_size, k)
            == chunk_size,
        k + 1 == num_chunks ==> chunk_end(n, chunk_size, k) == n,
        0 < chunk_end(n, chunk_size, k) - chunk_start(chunk_size, k) <= chunk_size,
{
    lemma_quotient_up(n, chunk_size);
    lemma_chunk(n, chunk_size, num_chunks, k);
    assert(chunk_size * (k + 1) == chunk_size * k + chunk_size) by (nonlinear_arith);
    if k == 0 {
        assert(chunk_size * k == 0) by (nonlinear_arith)
            requires
                k == 0,
        ;
    }
}

/// Each position lies in its chunk.
pub proof fn law_chunk_of(n: int, threads: int, i: int)
    requires
        0 < threads,
        0 <= i < n,
    ensures
        ({
            let chunk_size = quotient_up(n, threads);
            chunk_start(chunk_size, i / chunk_size) <= i < chunk_end(n, chunk_size, i / chunk_size)
        }),
{
    let chunk_size = quotient_up(n, threads);
    lemma_quotient_up(n, threads);
    vstd::arithmetic::div_mod::lemma_fundamental_div_mod(i, chunk_size);
    let k = i / chunk_size;
    assert(chunk_size * (k + 1) == chunk_size * k + chunk_size) by (nonlinear_arith);
}

/// There are no more chunks than threads.
pub proof fn law_no_more_chunks_than_threads(n: int, threads: int)
    requires
        0 < n,
        0 < threads,
    ensures
        quotient_up(n, quotient_up(n, threads)) <= threads,
{
    let chunk_size = quotient_up(n, threads);
    lemma_quotient_up(n, threads);
    lemma_quotient_up(n, chunk_size);
    let num_chunks = quotient_up(n, chunk_size);
    assert(num_chunks <= threads) by (nonlinear_arith)
        requires
            (num_chunks - 1) * chunk_size < n,
            n <= chunk_size * threads,
            0 < chunk_size,
    ;
}

/// Where the chunks of `n` positions begin and end.
pub fn chunk_ranges(n: usize, chunk_size: usize) -> (ranges: Vec<(usize, usize)>)
    requires
        0 < n,
        0 < chunk_size,
    ensures
        ranges@.len() == quotient_up(n as int, chunk_size as int),
        forall|k: int|
            0 <= k < ranges@.len() ==> (#[trigger] ranges@[k]).0 == chunk_start(
                chunk_size as int,
                k,
            ) && ranges@[k].1 == chunk_end(n as int, chunk_size as int, k) && ranges@[k].0
                < ranges@[k].1 <= n,
{
    let num_chunks: usize = div_up(n, chunk_size);
    let mut ranges: Vec<(usize, usize)> = Vec::new();
    let mut k: usize = 0;
    let mut start: usize = 0;
    while k < num_chunks
        invariant
            0 < n,
            0 < chunk_size,
            k <= num_chunks,
            num_chunks == quotient_up(n as int, chunk_size as int),
            (num_chunks - 1) * chunk_size < n <= num_chunks * chunk_size,
            start <= n,
            k < num_chunks ==> start == chunk_start(chunk_size as int, k as int),
            ranges@.len() == k,
            forall|k: int|
                0 <= k < ranges@.len() ==> (#[trigger] ranges@[k]).0 == chunk_start(
                    chunk_size as int,
                    k,
                ) && ranges@[k].1 == chunk_end(n as int, chunk_size as int, k) && ranges@[k].0
                    < ranges@[k].1 <= n,
        decreases num_chunks - k,
    {
        proof {
            lemma_chunk(n as int, chunk_size as int, num_chunks as int, k as int);
            assert(chunk_size * (k + 1) == chunk_size * k + chunk_size) by (nonlinear_arith);
        }
        let end: usize = if n - start >= chunk_size {
            start + chunk_size
        } else {
            n
        };
        ranges.push((start, end));
        start = end;
        k = k + 1;
    }
    ranges
}

/// Where the chunks of `n` positions begin and end that `threads` threads work on: one chunk for each
/// thread, of which the last may be shorter or missing.
pub fn ranges_for_threads(n: usize, threads: usize) -> (ranges: Vec<(usize, usize)>)
    requires
        0 < n,
        0 < threads,
    ensures
        ({
            let chunk_size = quotient_up(n as int, threads as int);
            &&& ranges@.len() == quotient_up(n as int, chunk_size)
            &&& forall|k: int|
                0 <= k < ranges@.len() ==> (#[trigger] ranges@[k]).0 == chunk_start(chunk_size, k)
                    && ranges@[k].1 == chunk_end(n as int, chunk_size, k) && ranges@[k].0
                    < ranges@[k].1 <= n
        }),
{
    chunk_ranges(n, div_up(n, threads))
}

impl<I, O, T, B, W, S, M> PrepareConfig<I, O, T, B, W, S, M> where
    I: SparseInputType,
    O: OutputBuckets<I::RequiredDataType>,
    I::RequiredDataType: LoadableDataType,
    T: Copy,
    B: Fn(&I::RequiredDataType, T) -> T,
    W: Fn(&I::RequiredDataType) -> T,
    S: Fn(i16) -> T,
    M: Fn(T, GameResult, T) -> T,
 {
    /// The lengths of those of the first `k` chunks that have no healthy position.
    pub open spec fn hopeless_lengths(
        &self,
        data: Seq<I::RequiredDataType>,
        chunk_size: int,
        k: int,
    ) -> Seq<usize>
        decreases k,
    {
        if k <= 0 {
            Seq::empty()
        } else {
            let start = chunk_start(chunk_size, k - 1);
            let end = chunk_end(data.len() as int, chunk_size, k - 1);
            if self.first_healthy(data, start, end) is None {
                self.hopeless_lengths(data, chunk_size, k - 1).push((end - start) as usize)
            } else {
                self.hopeless_lengths(data, chunk_size, k - 1)
            }
        }
    }

    /// Whether record `i` is what it should be where the positions go through chunks of
    /// `chunk_size`.
    pub open spec fn batch_record_done(
        &self,
        data: Seq<I::RequiredDataType>,
        chunk_size: int,
        blend: T,
        prep: PreparedData<I, T>,
        i: int,
    ) -> bool {
        self.record_done(
            data,
            blend,
            chunk_start(chunk_size, i / chunk_size),
            chunk_end(data.len() as int, chunk_size, i / chunk_size),
            prep,
            i,
        )
    }

    /// Whether `prep` is prepared of the first `m` positions, which fill the first `k` chunks.
    pub open spec fn part_done(
        &self,
        data: Seq<I::RequiredDataType>,
        chunk_size: int,
        blend: T,
        prep: PreparedData<I, T>,
        m: int,
        k: int,
    ) -> bool {
        &&& prep.sized(self.spec_shape(), m)
        &&& forall|i: int|
            0 <= i < m ==> #[trigger] self.batch_record_done(data, chunk_size, blend, prep, i)
        &&& prep.corrupt == self.num_corrupt(data, 0, m)
        &&& prep.hopeless_chunks@ == self.hopeless_lengths(data, chunk_size, k)
    }

    /// Whether `prep` is prepared of the positions, in as many chunks as there are threads, of
    /// which the last may be shorter or missing.
    pub open spec fn batch_done(
        &self,
        data: Seq<I::RequiredDataType>,
        threads: int,
        blend: T,
        prep: PreparedData<I, T>,
    ) -> bool {
        let n = data.len() as int;
        let chunk_size = quotient_up(n, threads);
        self.part_done(data, chunk_size, blend, prep, n, quotient_up(n, chunk_size))
    }

    /// Whether `chunks` are the chunks of the positions, each prepared by itself.
    pub open spec fn chunks_done(
        &self,
        data: Seq<I::RequiredDataType>,
        chunk_size: int,
        blend: T,
        chunks: Seq<PreparedData<I, T>>,
    ) -> bool {
        &&& chunks.len() == quotient_up(data.len() as int, chunk_size)
        &&& forall|k: int|
            0 <= k < chunks.len() ==> self.chunk_done(
                chunk(data, chunk_size, k),
                blend,
                #[trigger] chunks[k],
            )
    }

    /// A chunk that is put behind the prepared ones makes one chunk more prepared.
    proof fn lemma_one_more_chunk(
        &self,
        data: Seq<I::RequiredDataType>,
        chunk_size: int,
        blend: T,
        before: PreparedData<I, T>,
        part: PreparedData<I, T>,
        prep: PreparedData<I, T>,
        num_chunks: int,
        k: int,
    )
        requires
            0 < data.len(),
            0 < chunk_size,
            num_chunks == quotient_up(data.len() as int, chunk_size),
            (num_chunks - 1) * chunk_size < data.len() <= num_chunks * chunk_size,
            0 <= k < num_chunks,
            self.part_done(data, chunk_size, blend, before, chunk_start(chunk_size, k), k),
            self.chunk_done(chunk(data, chunk_size, k), blend, part),
            prep.sized(self.spec_shape(), before.batch_size + part.batch_size),
            prep.corrupt == before.corrupt + part.corrupt,
            prep.hopeless_chunks@ == before.hopeless_chunks@ + part.hopeless_chunks@,
            forall|i: int|
                0 <= i < before.batch_size + part.batch_size ==> #[trigger] prep.record(
                    self.spec_shape(),
                    i,
                ) == if i < before.batch_size {
                    before.record(self.spec_shape(), i)
                } else {
                    part.record(self.spec_shape(), i - before.batch_size)
                },
        ensures
            self.part_done(
                data,
                chunk_size,
                blend,
                prep,
                chunk_end(data.len() as int, chunk_size, k),
                k + 1,
            ),
    {
        let n = data.len() as int;
        let shape = self.spec_shape();
        let start = chunk_start(chunk_size, k);
        let end = chunk_end(n, chunk_size, k);
        let sub = chunk(data, chunk_size, k);
        lemma_chunk(n, chunk_size, num_chunks, k);
        self.lemma_first_healthy_of_part(data, start, end, end - start);
        self.lemma_num_corrupt_of_part(data, start, end, end - start);
        self.law_first_healthy(sub, 0, end - start);
        assert forall|i: int| 0 <= i < end implies #[trigger] self.batch_record_done(
            data,
            chunk_size,
            blend,
            prep,
            i,
        ) by {
            if i < start {
                assert(self.batch_record_done(data, chunk_size, blend, before, i));
                self.lemma_source_before(data, chunk_size, num_chunks, k, i);
            } else {
                assert(i / chunk_size == k);
                assert(self.record_done(sub, blend, 0, end - start, part, i - start));
                assert(sub[i - start] == data[i]);
                assert(prep.record(shape, i) == part.record(shape, i - start));
                match self.source(sub, 0, end - start, i - start) {
                    Some(s) => {
                        assert(sub[s] == data[s + start]);
                        assert(prep.record(shape, s + start) == part.record(shape, s));
                    },
                    None => {},
                }
            }
        }
        assert(prep.hopeless_chunks@ =~= self.hopeless_lengths(data, chunk_size, k + 1));
    }

    /// A record before chunk `k` is made of a position before chunk `k`.
    proof fn lemma_source_before(
        &self,
        data: Seq<I::RequiredDataType>,
        chunk_size: int,
        num_chunks: int,
        k: int,
        i: int,
    )
        requires
            0 < data.len(),
            0 < chunk_size,
            num_chunks == quotient_up(data.len() as int, chunk_size),
            (num_chunks - 1) * chunk_size < data.len() <= num_chunks * chunk_size,
            0 <= k < num_chunks,
            0 <= i < chunk_start(chunk_size, k),
        ensures
            match self.source(
                data,
                chunk_start(chunk_size, i / chunk_size),
                chunk_end(data.len() as int, chunk_size, i / chunk_size),
                i,
            ) {
                Some(s) => 0 <= s < chunk_start(chunk_size, k),
                None => true,
            },
    {
        let at = i / chunk_size;
        vstd::arithmetic::div_mod::lemma_fundamental_div_mod(i, chunk_size);
        assert(0 <= at < k) by (nonlinear_arith)
            requires
                0 < chunk_size,
                0 <= i < chunk_size * k,
                i == chunk_size * at + i % chunk_size,
                0 <= i % chunk_size < chunk_size,
        ;
        lemma_chunk(data.len() as int, chunk_size, num_chunks, at);
        assert(chunk_size * (at + 1) <= chunk_size * k) by (nonlinear_arith)
            requires
                0 < chunk_size,
                at + 1 <= k,
        ;
        self.law_first_healthy(
            data,
            chunk_start(chunk_size, at),
            chunk_end(data.len() as int, chunk_size, at),
        );
    }

    /// A part of the positions can be prepared if all of them can.
    proof fn lemma_part_ready(&self, data: Seq<I::RequiredDataType>, blend: T, start: int, end: int)
        requires
            0 <= start <= end <= data.len(),
            self.ready(data, blend),
            self.spec_shape().addressable(data.len() as int),
        ensures
            self.ready(data.subrange(start, end), blend),
            self.spec_shape().addressable(end - start),
    {
        let shape = self.spec_shape();
        let part = data.subrange(start, end);
        let m = end - start;
        let n = data.len() as int;
        let width = shape.hand_width();
        assert forall|i: int| 0 <= i < part.len() && self.healthy(&part[i]) implies self.callable(
            &#[trigger] part[i],
            blend,
        ) by {
            assert(part[i] == data[start + i]);
        }
        assert(shape.max_active * m <= shape.max_active * n) by (nonlinear_arith)
            requires
                0 <= m <= n,
        ;
        assert(shape.output_size * m <= shape.output_size * n) by (nonlinear_arith)
            requires
                0 <= m <= n,
        ;
        assert(width * m <= width * n) by (nonlinear_arith)
            requires
                0 <= m <= n,
                0 <= width,
        ;
    }

    /// Prepares the positions from `range.0` on, before `range.1`, as one chunk.
    pub fn prepare_range(
        &self,
        data: &[I::RequiredDataType],
        blend: T,
        range: (usize, usize),
    ) -> (prep: PreparedData<I, T>)
        requires
            range.0 < range.1 <= data@.len(),
            self.ready(data@, blend),
            self.spec_shape().addressable(data@.len() as int),
        ensures
            self.chunk_done(data@.subrange(range.0 as int, range.1 as int), blend, prep),
    {
        proof {
            self.lemma_part_ready(data@, blend, range.0 as int, range.1 as int);
        }
        let part = vstd::slice::slice_subrange(data, range.0, range.1);
        self.prepare_chunk(part, blend)
    }

    /// Prepares the chunks of the positions one after the other.
    fn prepare_in_turn(
        &self,
        data: &[I::RequiredDataType],
        threads: usize,
        blend: T,
    ) -> (chunks: Vec<PreparedData<I, T>>)
        requires
            0 < data@.len(),
            0 < threads,
            self.ready(data@, blend),
            self.spec_shape().addressable(data@.len() as int),
        ensures
            self.chunks_done(
                data@,
                quotient_up(data@.len() as int, threads as int),
                blend,
                chunks@,
            ),
    {
        let ranges = ranges_for_threads(data.len(), threads);
        let ghost chunk_size = quotient_up(data@.len() as int, threads as int);
        let mut chunks: Vec<PreparedData<I, T>> = Vec::new();
        let mut k: usize = 0;
        while k < ranges.len()
            invariant
                k <= ranges@.len(),
                self.ready(data@, blend),
                self.spec_shape().addressable(data@.len() as int),
                chunks@.len() == k,
                forall|k: int|
                    0 <= k < ranges@.len() ==> (#[trigger] ranges@[k]).0 == chunk_start(
                        chunk_size,
                        k,
                    ) && ranges@[k].1 == chunk_end(data@.len() as int, chunk_size, k)
                        && ranges@[k].0 < ranges@[k].1 <= data@.len(),
                forall|k: int|
                    0 <= k < chunks@.len() ==> self.chunk_done(
                        chunk(data@, chunk_size, k),
                        blend,
                        #[trigger] chunks@[k],
                    ),
            decreases ranges@.len() - k,
        {
            let range = ranges[k];
            chunks.push(self.prepare_range(data, blend, range));
            k = k + 1;
        }
        chunks
    }

    /// Puts the prepared chunks behind each other.
    pub fn join_chunks(
        &self,
        data: &[I::RequiredDataType],
        threads: usize,
        blend: T,
        chunks: Vec<PreparedData<I, T>>,
    ) -> (prep: PreparedData<I, T>)
        requires
            0 < data@.len(),
            0 < threads,
            self.chunks_done(
                data@,
                quotient_up(data@.len() as int, threads as int),
                blend,
                chunks@,
            ),
        ensures
            self.batch_done(data@, threads as int, blend, prep),
    {
        let n: usize = data.len();
        let chunk_size: usize = div_up(n, threads);
        let shape = self.shape();
        let num_chunks: usize = div_up(n, chunk_size);
        let mut prep = PreparedData::<I, T>::unset(
            shape,
            0,
            self.levels.zero,
            I::empty_hand_count(),
        );
        let mut rest = chunks;
        let mut k: usize = 0;
        proof {
            assert(prep.hopeless_chunks@ =~= self.hopeless_lengths(data@, chunk_size as int, 0));
            assert(chunks@.skip(0) =~= chunks@);
            assert(chunk_start(chunk_size as int, 0) == 0);
        }
        while k < num_chunks
            invariant
                n == data@.len(),
                0 < n,
                0 < chunk_size,
                shape == self.spec_shape(),
                num_chunks == quotient_up(n as int, chunk_size as int),
                (num_chunks - 1) * chunk_size < n <= num_chunks * chunk_size,
                k <= num_chunks,
                self.chunks_done(data@, chunk_size as int, blend, chunks@),
                rest@ == chunks@.skip(k as int),
                k < num_chunks ==> self.part_done(
                    data@,
                    chunk_size as int,
                    blend,
                    prep,
                    chunk_start(chunk_size as int, k as int),
                    k as int,
                ),
                k == num_chunks ==> self.part_done(
                    data@,
                    chunk_size as int,
                    blend,
                    prep,
                    n as int,
                    k as int,
                ),
            decreases num_chunks - k,
        {
            let ghost before = prep;
            let ghost start = chunk_start(chunk_size as int, k as int);
            let ghost end = chunk_end(n as int, chunk_size as int, k as int);
            let part = rest.remove(0);
            proof {
                assert(part == chunks@[k as int]);
                assert(rest@ =~= chunks@.skip(k + 1));
                lemma_chunk(n as int, chunk_size as int, num_chunks as int, k as int);
                self.lemma_num_corrupt_at_most(data@, 0, start);
                self.lemma_num_corrupt_at_most(
                    chunk(data@, chunk_size as int, k as int),
                    0,
                    end - start,
                );
            }
            prep.append(shape, part);
            proof {
                self.lemma_one_more_chunk(
                    data@,
                    chunk_size as int,
                    blend,
                    before,
                    part,
                    prep,
                    num_chunks as int,
                    k as int,
                );
            }
            k = k + 1;
        }
        prep
    }

    /// Prepares a batch for `threads` threads, with any win rates that it needs worked out: the
    /// positions are split into that many chunks.
    pub fn prepare_batch(&self, data: &[I::RequiredDataType], threads: usize, blend: T) -> (prep:
        PreparedData<I, T>)
        requires
            0 < data@.len(),
            0 < threads,
            self.ready(data@, blend),
            self.spec_shape().addressable(data@.len() as int),
        ensures
            self.batch_done(data@, threads as int, blend, prep),
    {
        let chunks = self.prepare_in_turn(data, threads, blend);
        self.join_chunks(data, threads, blend, chunks)
    }

    /// Prepares a batch as `prepare_batch` does.  With a pool the chunks go to its threads, except
    /// where hand counts are asked for, where there is one thread to use, or where there is one
    /// position.
    pub fn prepare_batch_with_pool(
        &self,
        data: &[I::RequiredDataType],
        threads: usize,
        blend: T,
        pool: Option<&rayon::ThreadPool>,
    ) -> (prep: PreparedData<I, T>) where
        I: Sync,
        I::RequiredDataType: Sync,
        I::HandCount: Send,
        O: Sync,
        T: Send + Sync,
        B: Sync,
        W: Sync,
        S: Sync,
        M: Sync,

        requires
            0 < data@.len(),
            0 < threads,
            self.ready(data@, blend),
            self.spec_shape().addressable(data@.len() as int),
        ensures
            self.batch_done(data@, threads as int, blend, prep),
    {
        let n: usize = data.len();
        match pool {
            Some(pool) => {
                if self.shape().hand_dim() == 0 && threads > 1 && n > 1 {
                    let ranges = ranges_for_threads(n, threads);
                    let ghost given = ranges@;
                    let prepare = |range: (usize, usize)| -> (chunk: PreparedData<I, T>)
                        requires
                            range.0 < range.1 <= data@.len(),
                        ensures
                            self.chunk_done(
                                data@.subrange(range.0 as int, range.1 as int),
                                blend,
                                chunk,
                            ),
                        { self.prepare_range(data, blend, range) };
                    let chunks = map_in_pool(pool, ranges, prepare);
                    proof {
                        let chunk_size = quotient_up(n as int, threads as int);
                        assert forall|k: int| 0 <= k < chunks@.len() implies self.chunk_done(
                            chunk(data@, chunk_size, k),
                            blend,
                            #[trigger] chunks@[k],
                        ) by {
                            assert(call_ensures(prepare, (given[k],), chunks@[k]));
                        }
                    }
                    return self.join_chunks(data, threads, blend, chunks);
                }
            },
            None => {},
        }
        self.prepare_batch(data, threads, blend)
    }

    /// Works out the win rates if they are lacking and one of the positions is healthy.
    fn work_out_win_rates_for<R: Fn(&WrmParams<T>, i16) -> T>(
        &mut self,
        data: &[I::RequiredDataType],
        settings: &mut WrmSettings<T>,
        wrm_target: &R,
    )
        requires
            old(self).lacks_win_rates() && old(self).first_healthy(
                data@,
                0,
                data@.len() as int,
            ) is Some ==> forall|score: i16|
                #[trigger] call_requires(*wrm_target, (&old(settings).current(), score)),
        ensures
            final(self).settled(
                *old(self),
                data@,
                *old(settings),
                *final(settings),
                *wrm_target,
            ),
    {
        if self.use_win_rate_model && !self.wdl && self.win_rates.is_none() && self.finds_healthy(
            data,
        ) {
            self.work_out_win_rates(settings, wrm_target);
        }
    }

    /// Whether `self` and the settings `after` are what the preparation of the positions leaves of
    /// `previous` and the settings `before`: win rates that were lacking are worked out at the first
    /// healthy position, and the parameters are used then; else nothing changes.
    pub open spec fn settled<R: Fn(&WrmParams<T>, i16) -> T>(
        &self,
        previous: Self,
        data: Seq<I::RequiredDataType>,
        before: WrmSettings<T>,
        after: WrmSettings<T>,
        wrm_target: R,
    ) -> bool {
        if previous.lacks_win_rates() && previous.first_healthy(data, 0, data.len() as int) is Some {
            &&& self.worked_out(previous, before.current(), wrm_target)
            &&& after == before.after_use()
        } else {
            &&& *self == previous
            &&& after == before
        }
    }
}

impl<I: SparseInputType, T: Copy> PreparedData<I, T> {
    /// Prepares a batch for `threads` threads: the positions are split into that many chunks.  Win
    /// rates that the config lacks are worked out at the first healthy position.
    pub fn new<O, B, W, S, M, R>(
        config: &mut PrepareConfig<I, O, T, B, W, S, M>,
        data: &[I::RequiredDataType],
        threads: usize,
        blend: T,
        settings: &mut WrmSettings<T>,
        wrm_target: &R,
    ) -> (prep: Self) where
        O: OutputBuckets<I::RequiredDataType>,
        I::RequiredDataType: LoadableDataType,
        B: Fn(&I::RequiredDataType, T) -> T,
        W: Fn(&I::RequiredDataType) -> T,
        S: Fn(i16) -> T,
        M: Fn(T, GameResult, T) -> T,
        R: Fn(&WrmParams<T>, i16) -> T,

        requires
            0 < data@.len(),
            0 < threads,
            old(config).ready_with(data@, blend, old(settings).current(), *wrm_target),
            old(config).spec_shape().addressable(data@.len() as int),
        ensures
            final(config).settled(
                *old(config),
                data@,
                *old(settings),
                *final(settings),
                *wrm_target,
            ),
            final(config).batch_done(data@, threads as int, blend, prep),
    {
        config.work_out_win_rates_for(data, settings, wrm_target);
        config.prepare_batch(data, threads, blend)
    }

    /// Prepares a batch as `new` does.  With a pool the chunks go to its threads, except where hand
    /// counts are asked for, where there is one thread to use, or where there is one position.
    pub fn new_with_pool<O, B, W, S, M, R>(
        config: &mut PrepareConfig<I, O, T, B, W, S, M>,
        data: &[I::RequiredDataType],
        threads: usize,
        blend: T,
        settings: &mut WrmSettings<T>,
        wrm_target: &R,
        pool: Option<&rayon::ThreadPool>,
    ) -> (prep: Self) where
        I: Sync,
        I::RequiredDataType: LoadableDataType + Sync,
        I::HandCount: Send,
        O: OutputBuckets<I::RequiredDataType> + Sync,
        T: Send + Sync,
        B: Fn(&I::RequiredDataType, T) -> T + Sync,
        W: Fn(&I::RequiredDataType) -> T + Sync,
        S: Fn(i16) -> T + Sync,
        M: Fn(T, GameResult, T) -> T + Sync,
        R: Fn(&WrmParams<T>, i16) -> T,

        requires
            0 < data@.len(),
            0 < threads,
            old(config).ready_with(data@, blend, old(settings).current(), *wrm_target),
            old(config).spec_shape().addressable(data@.len() as int),
        ensures
            final(config).settled(
                *old(config),
                data@,
                *old(settings),
                *final(settings),
                *wrm_target,
            ),
            final(config).batch_done(data@, threads as int, blend, prep),
    {
        config.work_out_win_rates_for(data, settings, wrm_target);
        config.prepare_batch_with_pool(data, threads, blend, pool)
    }
}

} // verus!
