//! Which positions the shogi inputs can be written of.
use vstd::prelude::*;

use crate::inputs;
use crate::inputs::ShogiPosition;
use crate::inputs::SparseInputType;
use crate::shogi::ShogiBoard;
use crate::shogi_halfka2_threat;
use crate::shogi_halfka2_threat::ShogiHalfKa2Threat;
use crate::shogi_halfka2_threat::HALFKA2_DIMENSIONS;
use crate::shogi_halfka2_threat::MAX_ACTIVE_FEATURES;
use crate::shogi_halfka2_threat::MAX_ACTIVE_THREAT_FEATURES;
use crate::shogi_halfka2_threat_dropfact;
use crate::shogi_halfka2_threat_dropfact::ShogiHalfKa2ThreatDropFact;
use crate::shogi_halfka2_threat_effect;
use crate::shogi_halfka2_threat_effect::ShogiHalfKa2ThreatEffect;
use crate::sparse_rows;
use crate::threat_laws;

verus! {

/// Whether the HalfKA2 features of a position are such: few enough, and in range.
pub open spec fn ka2_fits(ka2: Seq<(usize, usize)>) -> bool {
    &&& ka2.len() <= MAX_ACTIVE_FEATURES
    &&& forall|i: int|
        0 <= i < ka2.len() ==> (#[trigger] ka2[i]).0 < HALFKA2_DIMENSIONS && ka2[i].1
            < HALFKA2_DIMENSIONS
}

/// Where both sides see all inputs, each side's inputs are one half of the features.
pub proof fn law_both_sides_see_all(features: Seq<(usize, usize)>)
    ensures
        sparse_rows::ours(inputs::both_sides_of(features)) == features.map_values(
            |feature: (usize, usize)| feature.0,
        ),
        sparse_rows::theirs(inputs::both_sides_of(features)) == features.map_values(
            |feature: (usize, usize)| feature.1,
        ),
    decreases features.len(),
{
    let split = inputs::both_sides_of(features);
    let firsts = features.map_values(|feature: (usize, usize)| feature.0);
    let seconds = features.map_values(|feature: (usize, usize)| feature.1);
    if features.len() > 0 {
        let before = features.drop_last();
        law_both_sides_see_all(before);
        assert(split.drop_last() =~= inputs::both_sides_of(before));
        assert(firsts =~= before.map_values(|feature: (usize, usize)| feature.0).push(
            features.last().0,
        ));
        assert(seconds =~= before.map_values(|feature: (usize, usize)| feature.1).push(
            features.last().1,
        ));
    } else {
        assert(firsts =~= Seq::empty());
        assert(seconds =~= Seq::empty());
    }
}

proof fn lemma_writable(features: Seq<(usize, usize)>, input_size: usize, max_active: usize)
    requires
        features.len() <= max_active,
        forall|i: int|
            0 <= i < features.len() ==> (#[trigger] features[i]).0 < input_size && features[i].1
                < input_size,
    ensures
        sparse_rows::writable(inputs::both_sides_of(features), input_size, max_active),
{
    law_both_sides_see_all(features);
    let firsts = features.map_values(|feature: (usize, usize)| feature.0);
    let seconds = features.map_values(|feature: (usize, usize)| feature.1);
    assert forall|i: int| 0 <= i < firsts.len() implies #[trigger] firsts[i] < input_size by {
        assert(features[i].0 < input_size);
    }
    assert forall|i: int| 0 <= i < seconds.len() implies #[trigger] seconds[i] < input_size by {
        assert(features[i].0 < input_size);
    }
}

/// Whether a board has no more pieces that are no kings than a game has pieces.
pub open spec fn pieces_fit(board: &ShogiBoard) -> bool {
    shogi_halfka2_threat_effect::pieces_below(board, 81).len() <= MAX_ACTIVE_FEATURES
}

/// With no more pieces than a game has, the threats never go beyond their limit.
pub proof fn law_threat_limit_is_safe(board: &ShogiBoard)
    requires
        pieces_fit(board),
    ensures
        shogi_halfka2_threat::threats(board).len() <= MAX_ACTIVE_THREAT_FEATURES,
{
    threat_laws::law_at_most_eight_threats_for_each_piece(board);
}

/// A position with no more threats than their limit is never taken for corrupt.
pub proof fn law_few_threats_can_be_written(input: &ShogiHalfKa2Threat, pos: &ShogiPosition)
    requires
        ka2_fits(pos.ka2@),
        shogi_halfka2_threat::threats(&pos.board).len() <= MAX_ACTIVE_THREAT_FEATURES,
    ensures
        sparse_rows::writable(input.split_features(pos), input.input_size(), input.active_limit()),
{
    let threats = shogi_halfka2_threat::threat_features(&pos.board);
    let features = input.features(pos);
    let n = pos.ka2@.len() as int;
    threat_laws::law_threat_features_in_range(&pos.board);
    assert forall|i: int| 0 <= i < features.len() implies (#[trigger] features[i]).0
        < input.input_size() && features[i].1 < input.input_size() by {
        if i < n {
            assert(features[i] == pos.ka2@[i]);
        } else {
            assert(threats[i - n].0 + HALFKA2_DIMENSIONS == features[i].0);
        }
    }
    lemma_writable(features, input.input_size(), input.active_limit());
}

/// The same holds where each threat comes with its lite virtual feature.
pub proof fn law_few_threats_and_lite_can_be_written(
    input: &ShogiHalfKa2ThreatDropFact,
    pos: &ShogiPosition,
)
    requires
        ka2_fits(pos.ka2@),
        shogi_halfka2_threat::threats(&pos.board).len() <= MAX_ACTIVE_THREAT_FEATURES,
    ensures
        sparse_rows::writable(input.split_features(pos), input.input_size(), input.active_limit()),
{
    let features = input.features(pos);
    shogi_halfka2_threat_dropfact::law_dropfact_rows(&pos.board, pos.ka2@);
    lemma_writable(features, input.input_size(), input.active_limit());
}

/// A position with no more pieces than a game has is never taken for corrupt because of its threats.
pub proof fn law_threats_can_be_written(input: &ShogiHalfKa2Threat, pos: &ShogiPosition)
    requires
        ka2_fits(pos.ka2@),
        pieces_fit(&pos.board),
    ensures
        sparse_rows::writable(input.split_features(pos), input.input_size(), input.active_limit()),
{
    law_threat_limit_is_safe(&pos.board);
    law_few_threats_can_be_written(input, pos);
}

/// The same holds where each threat comes with its lite virtual feature.
pub proof fn law_threats_and_lite_can_be_written(
    input: &ShogiHalfKa2ThreatDropFact,
    pos: &ShogiPosition,
)
    requires
        ka2_fits(pos.ka2@),
        pieces_fit(&pos.board),
    ensures
        sparse_rows::writable(input.split_features(pos), input.input_size(), input.active_limit()),
{
    law_threat_limit_is_safe(&pos.board);
    law_few_threats_and_lite_can_be_written(input, pos);
}

/// Without the lite virtual features, which the other rows of the threat inputs lie below, what is
/// listed of a position is what the threat inputs list, in the same order; and one lite virtual
/// feature is listed for each threat.  This holds wherever the HalfKA2 features are HalfKA2 features.
pub proof fn law_lite_features_come_on_top(
    plain: &ShogiHalfKa2Threat,
    input: &ShogiHalfKa2ThreatDropFact,
    pos: &ShogiPosition,
)
    requires
        forall|i: int| 0 <= i < pos.ka2@.len() ==> (#[trigger] pos.ka2@[i]).0 < HALFKA2_DIMENSIONS,
    ensures
        input.features(pos).filter(
            |row: (usize, usize)| shogi_halfka2_threat_dropfact::is_base_row(row),
        ) == plain.features(pos),
        input.features(pos).len() - plain.features(pos).len() == plain.features(pos).filter(
            |row: (usize, usize)| shogi_halfka2_threat_dropfact::is_threat_row(row),
        ).len(),
{
    shogi_halfka2_threat_dropfact::law_base_rows_are_the_threat_inputs(&pos.board, pos.ka2@);
}

/// A position with no more pieces than a game has is never taken for corrupt because of its effect
/// features, of which there are two for each piece that is no king.
pub proof fn law_effects_can_be_written(input: &ShogiHalfKa2ThreatEffect, pos: &ShogiPosition)
    requires
        ka2_fits(pos.ka2@),
        pieces_fit(&pos.board),
    ensures
        sparse_rows::writable(input.split_features(pos), input.input_size(), input.active_limit()),
{
    let effects = shogi_halfka2_threat_effect::effect_features(&pos.board);
    let features = input.features(pos);
    let n = pos.ka2@.len() as int;
    shogi_halfka2_threat_effect::law_effect_features_in_range(&pos.board);
    assert forall|i: int| 0 <= i < features.len() implies (#[trigger] features[i]).0
        < input.input_size() && features[i].1 < input.input_size() by {
        if i < n {
            assert(features[i] == pos.ka2@[i]);
        } else {
            assert(effects[i - n].0 + HALFKA2_DIMENSIONS == features[i].0);
        }
    }
    lemma_writable(features, input.input_size(), input.active_limit());
}

} // verus!
