//! Cutting a stream of data into batches.
use vstd::prelude::*;

use crate::rows;

verus! {

/// What is asked of whoever runs an assembler: to hand on a batch, or nothing more for this chunk.
pub enum BatchStep<B> {
    /// This batch is to be handed on, and the answer to it brought back.
    Hand(B),
    /// The chunk is done; `true` if no more data are wanted.
    Done(bool),
}

/// The state of an assembler.
#[verifier::ext_equal]
pub ghost struct Assembly<D> {
    /// How many data make a batch.
    pub size: int,
    /// The full batches that are still to be handed on.
    pub waiting: Seq<Seq<D>>,
    /// The data that wait for a batch to be full.
    pub pending: Seq<D>,
    /// Whether the batch to be handed on next begins with data of earlier chunks.
    pub carried: bool,
    /// Whether the batch that was handed on last began with data of earlier chunks.
    pub handed_carried: bool,
}

impl<D> Assembly<D> {
    /// The state before any data came.
    pub open spec fn fresh(size: int) -> Self {
        Assembly {
            size,
            waiting: Seq::empty(),
            pending: Seq::empty(),
            carried: false,
            handed_carried: false,
        }
    }

    /// The state after a chunk came.
    pub open spec fn fed(self, chunk: Seq<D>) -> Self {
        Assembly {
            size: self.size,
            waiting: full_batches(self.pending + chunk, self.size),
            pending: left_over(self.pending + chunk, self.size),
            carried: self.pending.len() > 0,
            handed_carried: false,
        }
    }

    /// What is asked next, where `stop` is the answer to the last batch of the chunk, `false` before
    /// the first.
    pub open spec fn asks(self, stop: bool) -> BatchStep<Seq<D>> {
        if stop {
            BatchStep::Done(true)
        } else if self.waiting.len() == 0 {
            BatchStep::Done(false)
        } else {
            BatchStep::Hand(self.waiting[0])
        }
    }

    /// The state after that.  Once no more data are wanted, the batches that are left are dropped;
    /// and if the last batch was one that began with earlier data, the rest of the chunk is dropped
    /// whole.
    pub open spec fn stepped(self, stop: bool) -> Self {
        if stop {
            Assembly {
                waiting: Seq::empty(),
                pending: if self.handed_carried {
                    Seq::empty()
                } else {
                    self.pending
                },
                carried: false,
                handed_carried: false,
                ..self
            }
        } else if self.waiting.len() == 0 {
            Assembly { carried: false, handed_carried: false, ..self }
        } else {
            Assembly {
                waiting: self.waiting.drop_first(),
                carried: false,
                handed_carried: self.carried,
                ..self
            }
        }
    }

    /// What is handed on for the rest of a chunk, where `stop` is the answer to the last batch and
    /// `answers` are the answers to the batches to come.
    pub open spec fn handed_on(self, stop: bool, answers: Seq<bool>) -> Seq<Seq<D>>
        decreases self.waiting.len(),
    {
        match self.asks(stop) {
            BatchStep::Hand(batch) => seq![batch] + self.stepped(stop).handed_on(
                answers[0],
                answers.drop_first(),
            ),
            BatchStep::Done(_) => Seq::empty(),
        }
    }

    /// The state in which the chunk is done, and whether no more data are wanted then.
    pub open spec fn ended(self, stop: bool, answers: Seq<bool>) -> (Self, bool)
        decreases self.waiting.len(),
    {
        match self.asks(stop) {
            BatchStep::Hand(_) => self.stepped(stop).ended(answers[0], answers.drop_first()),
            BatchStep::Done(stopped) => (self.stepped(stop), stopped),
        }
    }

    /// A chunk is put behind the data that wait, and what both make up is cut into batches from its
    /// first datum on: as many as it fills, and what is left over waits.
    pub proof fn law_a_chunk_is_cut_into_batches(self, chunk: Seq<D>, b: int, o: int)
        requires
            0 < self.size,
        ensures
            ({
                let stream = self.pending + chunk;
                let fed = self.fed(chunk);
                let n = fed.waiting.len() as int;
                &&& fed.size == self.size
                &&& n * self.size <= stream.len() < (n + 1) * self.size
                &&& 0 <= b < n ==> fed.waiting[b].len() == self.size
                &&& 0 <= b < n && 0 <= o < self.size ==> fed.waiting[b][o] == stream[self.size * b
                    + o]
                &&& fed.pending.len() == stream.len() - n * self.size
                &&& 0 <= o < fed.pending.len() ==> fed.pending[o] == stream[n * self.size + o]
                &&& fed.carried <==> self.pending.len() > 0
                &&& !fed.handed_carried
            }),
    {
        let stream = self.pending + chunk;
        let n = num_batches(stream, self.size);
        vstd::arithmetic::div_mod::lemma_fundamental_div_mod(stream.len() as int, self.size);
        vstd::arithmetic::div_mod::lemma_div_pos_is_pos(stream.len() as int, self.size);
        assert(n * self.size == self.size * n) by (nonlinear_arith);
        assert((n + 1) * self.size == self.size * n + self.size) by (nonlinear_arith);
        assert(0 <= n * self.size) by (nonlinear_arith)
            requires
                0 <= n,
                0 < self.size,
        ;
        if 0 <= b < n {
            lemma_has_batch(stream, self.size, b);
        }
    }

    /// If no answer asks to stop, every batch is handed on, once and in order, and nothing waits any
    /// more but the data that are short of a batch.
    pub proof fn law_all_batches_are_handed_on(self, answers: Seq<bool>)
        requires
            self.waiting.len() <= answers.len(),
            forall|j: int| 0 <= j < self.waiting.len() ==> !#[trigger] answers[j],
        ensures
            self.handed_on(false, answers) == self.waiting,
            !self.ended(false, answers).1,
            self.ended(false, answers).0.waiting == Seq::<Seq<D>>::empty(),
            self.ended(false, answers).0.pending == self.pending,
            self.ended(false, answers).0.size == self.size,
        decreases self.waiting.len(),
    {
        if self.waiting.len() > 0 {
            let rest = answers.drop_first();
            assert forall|j: int| 0 <= j < self.waiting.len() - 1 implies !#[trigger] rest[j] by {
                assert(!answers[j + 1]);
            }
            assert(!answers[0]);
            self.stepped(false).law_all_batches_are_handed_on(rest);
            assert(seq![self.waiting[0]] + self.waiting.drop_first() =~= self.waiting);
        } else {
            assert(self.waiting =~= Seq::empty());
        }
    }

    /// If the answer to batch `k` is the first that asks to stop, the batches up to and with that one
    /// are handed on, each once and in order, and none behind it; and the chunk ends with no more
    /// data wanted.
    pub proof fn law_nothing_is_handed_on_after_a_stop(self, answers: Seq<bool>, k: int)
        requires
            0 <= k < self.waiting.len(),
            self.waiting.len() <= answers.len(),
            forall|j: int| 0 <= j < k ==> !#[trigger] answers[j],
            answers[k],
        ensures
            self.handed_on(false, answers) == self.waiting.take(k + 1),
            self.ended(false, answers).1,
            self.ended(false, answers).0.waiting == Seq::<Seq<D>>::empty(),
            self.ended(false, answers).0.pending == if k == 0 && self.carried {
                Seq::empty()
            } else {
                self.pending
            },
            self.ended(false, answers).0.size == self.size,
        decreases self.waiting.len(),
    {
        let rest = answers.drop_first();
        let next = self.stepped(false);
        if k > 0 {
            assert forall|j: int| 0 <= j < k - 1 implies !#[trigger] rest[j] by {
                assert(!answers[j + 1]);
            }
            assert(!answers[0]);
            assert(rest[k - 1]);
            next.law_nothing_is_handed_on_after_a_stop(rest, k - 1);
            assert(seq![self.waiting[0]] + self.waiting.drop_first().take(k) =~= self.waiting.take(
                k + 1,
            ));
        } else {
            assert(next.handed_on(true, rest) =~= Seq::empty());
            assert(next.ended(true, rest) == (next.stepped(true), true));
            assert(seq![self.waiting[0]] + Seq::<Seq<D>>::empty() =~= self.waiting.take(1));
        }
    }
}

/// Collects data, chunk after chunk, until a batch is full.
pub struct BatchAssembler<D> {
    batch_size: usize,
    incomplete: Vec<D>,
    /// The batches to be handed on, the next one last.
    ready: Vec<Vec<D>>,
    carried: bool,
    handed_carried: bool,
}

/// The batches in the order in which they are handed on.
spec fn in_order<D>(ready: Seq<Vec<D>>) -> Seq<Seq<D>> {
    Seq::new(ready.len(), |k: int| ready[ready.len() - 1 - k]@)
}

impl<D> View for BatchAssembler<D> {
    type V = Assembly<D>;

    closed spec fn view(&self) -> Assembly<D> {
        Assembly {
            size: self.batch_size as int,
            waiting: in_order(self.ready@),
            pending: self.incomplete@,
            carried: self.carried,
            handed_carried: self.handed_carried,
        }
    }
}

impl<D> BatchAssembler<D> {
    #[verifier::type_invariant]
    spec fn short_of_a_batch(self) -> bool {
        self.incomplete@.len() < self.batch_size
    }

    /// An assembler that nothing was fed to.
    pub fn new(batch_size: usize) -> (assembler: Self)
        requires
            batch_size > 0,
        ensures
            assembler@ == Assembly::<D>::fresh(batch_size as int),
    {
        let assembler = BatchAssembler {
            batch_size,
            incomplete: Vec::new(),
            ready: Vec::new(),
            carried: false,
            handed_carried: false,
        };
        assert(assembler@ =~= Assembly::<D>::fresh(batch_size as int));
        assembler
    }
}

/// The values of a vector in the opposite order.
fn turned_round<A>(values: Vec<A>) -> (turned: Vec<A>)
    ensures
        turned@ == values@.reverse(),
{
    let mut rest = values;
    let mut turned: Vec<A> = Vec::new();
    while rest.len() > 0
        invariant
            rest@.len() + turned@.len() == values@.len(),
            rest@ == values@.take(rest@.len() as int),
            forall|k: int|
                0 <= k < turned@.len() ==> #[trigger] turned@[k] == values@[values@.len() - 1 - k],
        decreases rest@.len(),
    {
        match rest.pop() {
            Some(value) => turned.push(value),
            None => {},
        }
    }
    assert(turned@ =~= values@.reverse());
    turned
}

/// How many batches the stream fills.
pub open spec fn num_batches<D>(stream: Seq<D>, size: int) -> int {
    stream.len() as int / size
}

/// What the stream holds behind its last full batch.
pub open spec fn left_over<D>(stream: Seq<D>, size: int) -> Seq<D> {
    stream.skip(size * num_batches(stream, size))
}

/// The full batches of the stream.
pub open spec fn full_batches<D>(stream: Seq<D>, size: int) -> Seq<Seq<D>> {
    Seq::new(num_batches(stream, size) as nat, |k: int| rows::row(stream, size, k))
}

proof fn lemma_num_batches<D>(stream: Seq<D>, size: int, full: int)
    requires
        0 < size,
        0 <= full,
        size * full <= stream.len() < size * full + size,
    ensures
        num_batches(stream, size) == full,
{
    assert(full * size == size * full) by (nonlinear_arith);
    vstd::arithmetic::div_mod::lemma_fundamental_div_mod_converse(
        stream.len() as int,
        size,
        full,
        stream.len() - size * full,
    );
}

proof fn lemma_has_batch<D>(stream: Seq<D>, size: int, k: int)
    requires
        0 < size,
        0 <= k < num_batches(stream, size),
    ensures
        0 <= size * k,
        size * k + size <= stream.len(),
{
    vstd::arithmetic::div_mod::lemma_fundamental_div_mod(stream.len() as int, size);
    let full = num_batches(stream, size);
    assert(0 <= size * k) by (nonlinear_arith)
        requires
            0 < size,
            0 <= k,
    ;
    assert(size * k + size <= size * full) by (nonlinear_arith)
        requires
            0 < size,
            k < full,
    ;
}

impl<D> BatchAssembler<D> {
    /// Takes a chunk of data in; the batches that are full with it are then to be handed on.  All
    /// those of the chunk before have to be by then.
    pub fn feed(&mut self, chunk: Vec<D>)
        requires
            old(self)@.waiting.len() == 0,
        ensures
            final(self)@ == old(self)@.fed(chunk@),
    {
        proof {
            use_type_invariant(&*self);
        }
        let size: usize = self.batch_size;
        let ghost pending = self.incomplete@;
        let ghost n = chunk@.len() as int;
        let carried: bool = self.incomplete.len() > 0;
        let mut buf: Vec<D> = Vec::new();
        std::mem::swap(&mut buf, &mut self.incomplete);
        let mut rest = turned_round(chunk);
        let mut batches: Vec<Vec<D>> = Vec::new();
        let ghost mut i: int = 0;
        proof {
            assert(pending + chunk@.take(0) =~= pending);
            assert(buf@ =~= pending.skip(0));
            assert(size * 0 == 0);
        }
        while rest.len() > 0
            invariant
                0 <= i <= n,
                n == chunk@.len(),
                rest@.len() == n - i,
                forall|k: int| 0 <= k < n - i ==> #[trigger] rest@[k] == chunk@[n - 1 - k],
                0 < size,
                buf@.len() < size,
                (pending + chunk@.take(i)).len() == size * batches@.len() + buf@.len(),
                buf@ == (pending + chunk@.take(i)).skip(size * batches@.len()),
                forall|k: int|
                    0 <= k < batches@.len() ==> (#[trigger] batches@[k])@ == rows::row(
                        pending + chunk@.take(i),
                        size as int,
                        k,
                    ),
            decreases rest@.len(),
        {
            let ghost before = pending + chunk@.take(i);
            let ghost now = pending + chunk@.take(i + 1);
            let ghost full = batches@.len() as int;
            proof {
                assert(now =~= before.push(chunk@[i]));
                assert(0 <= size * full) by (nonlinear_arith)
                    requires
                        0 <= full,
                ;
                assert forall|k: int| 0 <= k < full implies (#[trigger] batches@[k])@
                    == rows::row(now, size as int, k) by {
                    assert(size * k + size <= size * full) by (nonlinear_arith)
                        requires
                            k < full,
                    ;
                    assert(0 <= size * k) by (nonlinear_arith)
                        requires
                            0 <= k,
                    ;
                    assert(rows::row(now, size as int, k) =~= rows::row(before, size as int, k));
                }
            }
            match rest.pop() {
                Some(value) => buf.push(value),
                None => {},
            }
            assert(buf@ =~= now.skip(size * full));
            if buf.len() == size {
                let mut batch: Vec<D> = Vec::new();
                std::mem::swap(&mut batch, &mut buf);
                batches.push(batch);
                proof {
                    assert(batches@[full]@ =~= rows::row(now, size as int, full));
                    assert(size * (full + 1) == size * full + size) by (nonlinear_arith);
                    assert(buf@ =~= now.skip(size * (full + 1)));
                }
            }
            proof {
                i = i + 1;
            }
        }
        let ready = turned_round(batches);
        proof {
            let stream = pending + chunk@;
            let full = batches@.len() as int;
            assert(chunk@.take(n) =~= chunk@);
            lemma_num_batches(stream, size as int, full);
            assert(in_order(ready@) =~= full_batches(stream, size as int));
        }
        self.incomplete = buf;
        self.ready = ready;
        self.carried = carried;
        self.handed_carried = false;
    }

    /// Tells what to do next, given the answer `stop` to the last batch of the chunk: whether no more
    /// data are wanted.  Before the first batch it is `false`.
    pub fn step(&mut self, stop: bool) -> (next: BatchStep<Vec<D>>)
        ensures
            final(self)@ == old(self)@.stepped(stop),
            match next {
                BatchStep::Hand(batch) => old(self)@.asks(stop) == BatchStep::Hand(batch@),
                BatchStep::Done(stopped) => old(self)@.asks(stop) == BatchStep::<Seq<D>>::Done(
                    stopped,
                ),
            },
    {
        proof {
            use_type_invariant(&*self);
        }
        if stop {
            if self.handed_carried {
                self.incomplete = Vec::new();
            }
            self.ready = Vec::new();
            self.carried = false;
            self.handed_carried = false;
            assert(self@ =~= old(self)@.stepped(stop));
            return BatchStep::Done(true);
        }
        let mut ready: Vec<Vec<D>> = Vec::new();
        std::mem::swap(&mut ready, &mut self.ready);
        let popped = ready.pop();
        self.ready = ready;
        match popped {
            Some(batch) => {
                self.handed_carried = self.carried;
                self.carried = false;
                assert(self@ =~= old(self)@.stepped(stop));
                BatchStep::Hand(batch)
            },
            None => {
                self.carried = false;
                self.handed_carried = false;
                assert(self@ =~= old(self)@.stepped(stop));
                BatchStep::Done(false)
            },
        }
    }
}

/// What is handed out in full batches and what is left over make up the stream.
pub proof fn law_batches_make_up_the_stream<D>(stream: Seq<D>, size: int)
    requires
        0 < size,
    ensures
        full_batches(stream, size).flatten() + left_over(stream, size) == stream,
        left_over(stream, size).len() < size,
        forall|k: int|
            0 <= k < num_batches(stream, size) ==> (#[trigger] full_batches(stream, size)[k]).len()
                == size,
    decreases stream.len(),
{
    let full = num_batches(stream, size);
    let batches = full_batches(stream, size);
    vstd::arithmetic::div_mod::lemma_fundamental_div_mod(stream.len() as int, size);
    assert forall|k: int| 0 <= k < full implies (#[trigger] batches[k]).len() == size by {
        lemma_has_batch(stream, size, k);
    }
    if full > 0 {
        lemma_has_batch(stream, size, 0);
        let rest = stream.skip(size);
        let rest_batches = full_batches(rest, size);
        assert(size * (full - 1) == size * full - size) by (nonlinear_arith);
        lemma_num_batches(rest, size, full - 1);
        law_batches_make_up_the_stream(rest, size);
        assert(batches.drop_first() =~= rest_batches) by {
            assert forall|k: int| 0 <= k < full - 1 implies #[trigger] batches.drop_first()[k]
                == rest_batches[k] by {
                lemma_has_batch(stream, size, k + 1);
                assert(size * (k + 1) == size * k + size) by (nonlinear_arith);
                assert(rows::row(stream, size, k + 1) =~= rows::row(rest, size, k));
            }
        }
        assert(batches.first() =~= stream.take(size));
        assert(left_over(stream, size) =~= left_over(rest, size));
        assert(batches.flatten() == batches.first() + batches.drop_first().flatten());
        assert(stream =~= stream.take(size) + rest);
        assert(batches.flatten() + left_over(stream, size) =~= stream.take(size) + (
        rest_batches.flatten() + left_over(rest, size)));
    } else {
        assert(full == 0) by (nonlinear_arith)
            requires
                full <= 0,
                full == stream.len() as int / size,
                0 < size,
        ;
        assert(batches =~= Seq::empty());
        assert(batches.flatten() =~= Seq::empty());
        assert(left_over(stream, size) =~= stream);
    }
}

/// The batches do not depend on how the stream came in chunks: two chunks after each other give the
/// batches, and leave over the data, that both together do.
pub proof fn law_batches_do_not_depend_on_chunks<D>(
    pending: Seq<D>,
    first: Seq<D>,
    second: Seq<D>,
    size: int,
)
    requires
        0 < size,
    ensures
        full_batches(pending + first, size) + full_batches(
            left_over(pending + first, size) + second,
            size,
        ) == full_batches(pending + (first + second), size),
        left_over(left_over(pending + first, size) + second, size) == left_over(
            pending + (first + second),
            size,
        ),
{
    let one = pending + first;
    let two = left_over(one, size) + second;
    let all = pending + (first + second);
    let a = num_batches(one, size);
    let b = num_batches(two, size);
    vstd::arithmetic::div_mod::lemma_fundamental_div_mod(one.len() as int, size);
    vstd::arithmetic::div_mod::lemma_fundamental_div_mod(two.len() as int, size);
    vstd::arithmetic::div_mod::lemma_div_pos_is_pos(one.len() as int, size);
    vstd::arithmetic::div_mod::lemma_div_pos_is_pos(two.len() as int, size);
    assert(0 <= size * a) by (nonlinear_arith)
        requires
            0 < size,
            0 <= a,
    ;
    assert(0 <= size * b) by (nonlinear_arith)
        requires
            0 < size,
            0 <= b,
    ;
    assert(size * (a + b) == size * a + size * b) by (nonlinear_arith);
    assert(all =~= one + second);
    assert(two =~= all.skip(size * a));
    lemma_num_batches(all, size, a + b);
    assert(full_batches(one, size) + full_batches(two, size) =~= full_batches(all, size)) by {
        assert forall|k: int| 0 <= k < a + b implies #[trigger] (full_batches(one, size)
            + full_batches(two, size))[k] == full_batches(all, size)[k] by {
            lemma_has_batch(all, size, k);
            if k < a {
                lemma_has_batch(one, size, k);
                assert(rows::row(one, size, k) =~= rows::row(all, size, k));
            } else {
                lemma_has_batch(two, size, k - a);
                assert(size * k == size * a + size * (k - a)) by (nonlinear_arith);
                assert(rows::row(two, size, k - a) =~= rows::row(all, size, k));
            }
        }
    }
    assert(left_over(two, size) =~= left_over(all, size));
}

/// What is handed on of a stream that comes in `chunks`, where `answers` are the answers to the batches
/// in turn, and whether it ended with no more data wanted; no chunk is fed after that.
pub open spec fn handed_on_of_stream<D>(
    state: Assembly<D>,
    chunks: Seq<Seq<D>>,
    answers: Seq<bool>,
) -> (Seq<Seq<D>>, bool)
    decreases chunks.len(),
{
    if chunks.len() == 0 {
        (Seq::empty(), false)
    } else {
        let fed = state.fed(chunks[0]);
        let handed = fed.handed_on(false, answers);
        let (end, stopped) = fed.ended(false, answers);
        if stopped {
            (handed, true)
        } else {
            let rest = handed_on_of_stream(
                end,
                chunks.drop_first(),
                answers.skip(handed.len() as int),
            );
            (handed + rest.0, rest.1)
        }
    }
}

/// However the stream comes in chunks, its batches are handed on in order, each once.  If the answer
/// to batch `k` is the first that asks to stop, that batch is the last; if there is none, which is
/// `k` at the number of batches, all are handed on.
pub proof fn law_stream_is_handed_on_until_a_stop<D>(
    state: Assembly<D>,
    chunks: Seq<Seq<D>>,
    answers: Seq<bool>,
    k: int,
)
    requires
        state.pending.len() < state.size,
        ({
            let batches = full_batches(state.pending + chunks.flatten(), state.size);
            &&& batches.len() <= answers.len()
            &&& 0 <= k <= batches.len()
            &&& k < batches.len() ==> answers[k]
        }),
        forall|j: int| 0 <= j < k ==> !#[trigger] answers[j],
    ensures
        ({
            let batches = full_batches(state.pending + chunks.flatten(), state.size);
            let handed = handed_on_of_stream(state, chunks, answers);
            if k < batches.len() {
                handed == (batches.take(k + 1), true)
            } else {
                handed == (batches, false)
            }
        }),
    decreases chunks.len(),
{
    let size = state.size;
    let batches = full_batches(state.pending + chunks.flatten(), size);
    if chunks.len() == 0 {
        assert(state.pending + chunks.flatten() =~= state.pending);
        lemma_num_batches(state.pending, size, 0);
        assert(batches =~= Seq::empty());
    } else {
        let rest = chunks.drop_first();
        let fed = state.fed(chunks[0]);
        let first = fed.waiting;
        let n = first.len() as int;
        let others = full_batches(fed.pending + rest.flatten(), size);
        assert(chunks.flatten() == chunks[0] + rest.flatten());
        law_batches_do_not_depend_on_chunks(state.pending, chunks[0], rest.flatten(), size);
        law_batches_make_up_the_stream(state.pending + chunks[0], size);
        assert(batches == first + others);
        if k < n {
            fed.law_nothing_is_handed_on_after_a_stop(answers, k);
            assert(batches.take(k + 1) =~= first.take(k + 1));
        } else {
            fed.law_all_batches_are_handed_on(answers);
            let end = fed.ended(false, answers).0;
            let later = answers.skip(n);
            assert forall|j: int| 0 <= j < k - n implies !#[trigger] later[j] by {
                assert(!answers[j + n]);
            }
            law_stream_is_handed_on_until_a_stop(end, rest, later, k - n);
            if k < batches.len() {
                assert(batches.take(k + 1) =~= first + others.take(k - n + 1));
            }
        }
    }
}

} // verus!
