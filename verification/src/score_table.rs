//! The win rates of all scores, worked out once.
use vstd::prelude::*;

use crate::wrm_params::wrm_params;
use crate::wrm_params::WrmParams;
use crate::wrm_params::WrmSettings;

verus! {

/// The number of scores.
pub const NUM_SCORES: usize = 65_536;

/// The place of a score in the table: scores stand in rising order.
pub open spec fn score_place(score: i16) -> int {
    score - i16::MIN
}

/// A value for every score.
pub struct ScoreTable<T> {
    values: Vec<T>,
}

impl<T> ScoreTable<T> {
    #[verifier::type_invariant]
    spec fn complete(self) -> bool {
        self.values@.len() == NUM_SCORES
    }

    /// The value of a score.
    pub closed spec fn at(self, score: i16) -> T {
        self.values@[score_place(score)]
    }
}

/// Works out the win rate of every score with the parameters in force, which are used by that.
pub fn initialise_win_rate_model_score_table<T: Copy, R: Fn(&WrmParams<T>, i16) -> T>(
    settings: &mut WrmSettings<T>,
    wrm_target: &R,
) -> (table: ScoreTable<T>)
    requires
        forall|score: i16|
            #[trigger] call_requires(*wrm_target, (&old(settings).current(), score)),
    ensures
        *final(settings) == old(settings).after_use(),
        forall|score: i16|
            call_ensures(
                *wrm_target,
                (&old(settings).current(), score),
                #[trigger] table.at(score),
            ),
{
    let params = wrm_params(settings);
    let mut values: Vec<T> = Vec::new();
    let mut score: i32 = -32_768;
    while score < 32_768
        invariant
            -32_768 <= score <= 32_768,
            values@.len() == score + 32_768,
            forall|score: i16| #[trigger] call_requires(*wrm_target, (&params, score)),
            forall|k: int|
                0 <= k < values@.len() ==> call_ensures(
                    *wrm_target,
                    (&params, (k - 32_768) as i16),
                    #[trigger] values@[k],
                ),
        decreases 32_768 - score,
    {
        let value = wrm_target(&params, score as i16);
        values.push(value);
        score = score + 1;
    }
    let table = ScoreTable { values };
    assert forall|score: i16| call_ensures(
        *wrm_target,
        (&params, score),
        #[trigger] table.at(score),
    ) by {
        assert((score_place(score) - 32_768) as i16 == score);
        assert(table.at(score) == table.values@[score_place(score)]);
    }
    table
}

/// The win rate of a score.
pub fn win_rate_model_score<T: Copy>(table: &ScoreTable<T>, score: i16) -> (value: T)
    ensures
        value == table.at(score),
{
    proof {
        use_type_invariant(table);
    }
    let place: usize = (score as i32 + 32_768) as usize;
    table.values[place]
}

} // verus!
