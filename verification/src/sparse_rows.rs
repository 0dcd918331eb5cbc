//! The active inputs of a position as a row of slots.
use vstd::prelude::*;

use crate::rows;

verus! {

/// The inputs that the side to move sees active.
pub open spec fn ours(features: Seq<(Option<usize>, Option<usize>)>) -> Seq<usize>
    decreases features.len(),
{
    if features.len() == 0 {
        Seq::empty()
    } else {
        match features.last().0 {
            Some(input) => ours(features.drop_last()).push(input),
            None => ours(features.drop_last()),
        }
    }
}

/// The inputs that the other side sees active.
pub open spec fn theirs(features: Seq<(Option<usize>, Option<usize>)>) -> Seq<usize>
    decreases features.len(),
{
    if features.len() == 0 {
        Seq::empty()
    } else {
        match features.last().1 {
            Some(input) => theirs(features.drop_last()).push(input),
            None => theirs(features.drop_last()),
        }
    }
}

/// Whether a row has a slot for each of the inputs, and each of them exists.
pub open spec fn fits(inputs: Seq<usize>, input_size: usize, max_active: usize) -> bool {
    &&& inputs.len() <= max_active
    &&& forall|j: int| 0 <= j < inputs.len() ==> #[trigger] inputs[j] < input_size
}

/// Whether the features of a position can be written: those of a corrupt one cannot.
pub open spec fn writable(
    features: Seq<(Option<usize>, Option<usize>)>,
    input_size: usize,
    max_active: usize,
) -> bool {
    fits(ours(features), input_size, max_active) && fits(theirs(features), input_size, max_active)
}

/// The row of the inputs: one in each slot, from the first on, and -1 in the slots left over.
pub open spec fn slots(inputs: Seq<usize>, max_active: usize) -> Seq<i32> {
    Seq::new(
        max_active as nat,
        |j: int|
            if j < inputs.len() {
                inputs[j] as i32
            } else {
                -1i32
            },
    )
}

/// The inputs that get a slot: those that exist, as long as there are slots left.
pub open spec fn kept(inputs: Seq<usize>, input_size: usize, max_active: usize) -> Seq<usize>
    decreases inputs.len(),
{
    if inputs.len() == 0 {
        Seq::empty()
    } else {
        let before = kept(inputs.drop_last(), input_size, max_active);
        if inputs.last() < input_size && before.len() < max_active {
            before.push(inputs.last())
        } else {
            before
        }
    }
}

/// Inputs that fit all get a slot.
pub proof fn law_inputs_that_fit_are_kept(inputs: Seq<usize>, input_size: usize, max_active: usize)
    requires
        fits(inputs, input_size, max_active),
    ensures
        kept(inputs, input_size, max_active) == inputs,
    decreases inputs.len(),
{
    if inputs.len() > 0 {
        let before = inputs.drop_last();
        lemma_one_more(before, inputs.last(), input_size, max_active);
        assert(inputs =~= before.push(inputs.last()));
        law_inputs_that_fit_are_kept(before, input_size, max_active);
    } else {
        assert(inputs =~= Seq::empty());
    }
}

/// Whether the first `used` slots of the row that begins at `start` hold the inputs that are kept,
/// and `bad` tells whether some are not.
spec fn written(
    inputs: Seq<usize>,
    row: Seq<i32>,
    start: int,
    used: usize,
    bad: bool,
    input_size: usize,
    max_active: usize,
) -> bool {
    let kept_inputs = kept(inputs, input_size, max_active);
    &&& used <= max_active
    &&& bad == !fits(inputs, input_size, max_active)
    &&& used == kept_inputs.len()
    &&& forall|k: int|
        start <= k < start + used ==> #[trigger] row[k] == kept_inputs[k - start] as i32
}

/// Fills the slots that the inputs left over with -1.
fn fill_rest(v: &mut Vec<i32>, start: usize, used: usize, max_active: usize)
    requires
        used <= max_active,
        start + max_active <= old(v)@.len(),
    ensures
        final(v)@.len() == old(v)@.len(),
        forall|k: int| start + used <= k < start + max_active ==> #[trigger] final(v)@[k] == -1,
        forall|k: int|
            0 <= k < old(v)@.len() && !(start + used <= k < start + max_active) ==>
                #[trigger] final(v)@[k] == old(v)@[k],
{
    let len: usize = v.len();
    let mut j: usize = used;
    while j < max_active
        invariant
            used <= j <= max_active,
            start + max_active <= len,
            v@.len() == old(v)@.len() == len,
            forall|k: int| start + used <= k < start + j ==> #[trigger] v@[k] == -1,
            forall|k: int|
                0 <= k < len && !(start + used <= k < start + j) ==> #[trigger] v@[k] == old(v)@[k],
        decreases max_active - j,
    {
        let at: usize = start + j;
        v[at] = -1;
        j = j + 1;
    }
}

/// Writes the features of a position into row `i` of both sides, and tells whether the position is
/// corrupt.  No slot of another row is touched, whatever the features are: inputs that do not exist,
/// or have no slot left, are passed over.
pub fn write_features(
    features: &Vec<(Option<usize>, Option<usize>)>,
    i: usize,
    input_size: usize,
    max_active: usize,
    stm: &mut Vec<i32>,
    nstm: &mut Vec<i32>,
) -> (corrupt: bool)
    requires
        rows::has_row(old(stm)@, max_active as int, i as int),
        rows::has_row(old(nstm)@, max_active as int, i as int),
    ensures
        corrupt == !writable(features@, input_size, max_active),
        rows::same_but_row(old(stm)@, final(stm)@, max_active as int, i as int),
        rows::same_but_row(old(nstm)@, final(nstm)@, max_active as int, i as int),
        rows::row(final(stm)@, max_active as int, i as int) == slots(
            kept(ours(features@), input_size, max_active),
            max_active,
        ),
        rows::row(final(nstm)@, max_active as int, i as int) == slots(
            kept(theirs(features@), input_size, max_active),
            max_active,
        ),
{
    proof {
        assert(0 <= max_active * i) by (nonlinear_arith);
    }
    let stm_len: usize = stm.len();
    let nstm_len: usize = nstm.len();
    let start: usize = max_active * i;
    let mut used_stm: usize = 0;
    let mut used_nstm: usize = 0;
    let mut bad_stm: bool = false;
    let mut bad_nstm: bool = false;
    let mut k: usize = 0;
    while k < features.len()
        invariant
            k <= features@.len(),
            start == max_active * i,
            start + max_active <= stm_len,
            start + max_active <= nstm_len,
            stm_len == old(stm)@.len(),
            nstm_len == old(nstm)@.len(),
            rows::same_but_row(old(stm)@, stm@, max_active as int, i as int),
            rows::same_but_row(old(nstm)@, nstm@, max_active as int, i as int),
            written(
                ours(features@.take(k as int)),
                stm@,
                start as int,
                used_stm,
                bad_stm,
                input_size,
                max_active,
            ),
            written(
                theirs(features@.take(k as int)),
                nstm@,
                start as int,
                used_nstm,
                bad_nstm,
                input_size,
                max_active,
            ),
        decreases features@.len() - k,
    {
        let (our, their) = features[k];
        let ghost before = features@.take(k as int);
        let ghost now = features@.take(k + 1);
        proof {
            assert(now.drop_last() =~= before);
            assert(now.last() == (our, their));
        }
        match our {
            Some(input) => {
                proof {
                    lemma_keep_one_more(ours(before), input, input_size, max_active);
                }
                if input < input_size && used_stm < max_active {
                    let at: usize = start + used_stm;
                    stm[at] = input as i32;
                    used_stm = used_stm + 1;
                } else {
                    bad_stm = true;
                }
            },
            None => {},
        }
        match their {
            Some(input) => {
                proof {
                    lemma_keep_one_more(theirs(before), input, input_size, max_active);
                }
                if input < input_size && used_nstm < max_active {
                    let at: usize = start + used_nstm;
                    nstm[at] = input as i32;
                    used_nstm = used_nstm + 1;
                } else {
                    bad_nstm = true;
                }
            },
            None => {},
        }
        k = k + 1;
    }
    proof {
        assert(features@.take(features@.len() as int) =~= features@);
    }
    fill_rest(stm, start, used_stm, max_active);
    fill_rest(nstm, start, used_nstm, max_active);
    proof {
        assert(rows::row(stm@, max_active as int, i as int) =~= slots(
            kept(ours(features@), input_size, max_active),
            max_active,
        ));
        assert(rows::row(nstm@, max_active as int, i as int) =~= slots(
            kept(theirs(features@), input_size, max_active),
            max_active,
        ));
    }
    bad_stm || bad_nstm
}

proof fn lemma_keep_one_more(inputs: Seq<usize>, input: usize, input_size: usize, max_active: usize)
    ensures
        ({
            let before = kept(inputs, input_size, max_active);
            &&& kept(inputs.push(input), input_size, max_active) == if input < input_size
                && before.len() < max_active {
                before.push(input)
            } else {
                before
            }
            &&& before.len() <= max_active
            &&& fits(inputs.push(input), input_size, max_active) == (fits(
                inputs,
                input_size,
                max_active,
            ) && input < input_size && before.len() < max_active)
        }),
{
    lemma_one_more(inputs, input, input_size, max_active);
    lemma_kept_have_slots(inputs, input_size, max_active);
    assert(inputs.push(input).drop_last() =~= inputs);
    if fits(inputs, input_size, max_active) {
        law_inputs_that_fit_are_kept(inputs, input_size, max_active);
    }
}

proof fn lemma_kept_have_slots(inputs: Seq<usize>, input_size: usize, max_active: usize)
    ensures
        kept(inputs, input_size, max_active).len() <= max_active,
    decreases inputs.len(),
{
    if inputs.len() > 0 {
        lemma_kept_have_slots(inputs.drop_last(), input_size, max_active);
    }
}

proof fn lemma_one_more(inputs: Seq<usize>, input: usize, input_size: usize, max_active: usize)
    ensures
        fits(inputs.push(input), input_size, max_active) == (fits(inputs, input_size, max_active)
            && input < input_size && inputs.len() < max_active),
{
    let more = inputs.push(input);
    if fits(more, input_size, max_active) {
        assert(more[inputs.len() as int] == input);
        assert forall|j: int| 0 <= j < inputs.len() implies #[trigger] inputs[j] < input_size by {
            assert(more[j] == inputs[j]);
        }
    }
}

} // verus!
