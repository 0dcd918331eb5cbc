//! What a trainer asks of sparse inputs and of output buckets, and the shogi inputs.
use vstd::prelude::*;

use crate::loader::GameResult;
use crate::loader::LoadableDataType;
use crate::shogi::ShogiBoard;
use crate::shogi_halfka2_threat;
use crate::shogi_halfka2_threat::copy_features;
use crate::shogi_halfka2_threat::ShogiHalfKa2Threat;
use crate::shogi_halfka2_threat::HALFKA2_DIMENSIONS;
use crate::shogi_halfka2_threat::HALFKA2_THREAT_TOTAL_DIMENSIONS;
use crate::shogi_halfka2_threat::MAX_ACTIVE_FEATURES;
use crate::shogi_halfka2_threat::MAX_ACTIVE_THREAT_FEATURES;
use crate::shogi_halfka2_threat_dropfact;
use crate::shogi_halfka2_threat_dropfact::ShogiHalfKa2ThreatDropFact;
use crate::shogi_halfka2_threat_dropfact::HALFKA2T_DROPFACT_TOTAL_DIMENSIONS;
use crate::shogi_halfka2_threat_effect;
use crate::shogi_halfka2_threat_effect::ShogiHalfKa2ThreatEffect;
use crate::shogi_halfka2_threat_effect::HALFKA2_THREATEFFECT_DIMENSIONS;
use crate::shogi_halfka2_threat_effect::HALFKA2_THREATEFFECT_TOTAL_DIMENSIONS;
use crate::shogi_halfka2_threat_effect::MAX_ACTIVE_EFFECT_FEATURES;
use crate::threat_class::HALFKA2_THREAT_DIMENSIONS;
use crate::threat_laws;

verus! {

/// Inputs of which only a few are active in a position.
///
/// With the spec functions an impl says what its methods give.
pub trait SparseInputType {
    /// The positions that the inputs are read from.
    type RequiredDataType;

    /// The values of the hand counts.
    type HandCount: Copy;

    /// The number of inputs.
    open spec fn input_size(&self) -> usize {
        arbitrary()
    }

    /// How many inputs a position may have active, for either side.
    open spec fn active_limit(&self) -> usize {
        arbitrary()
    }

    /// The active inputs of a position: each as the side to move and as the other side sees it.
    open spec fn features(&self, pos: &Self::RequiredDataType) -> Seq<(usize, usize)> {
        arbitrary()
    }

    /// The active inputs of a position where the two sides need not see the same number of them.
    open spec fn split_features(&self, pos: &Self::RequiredDataType) -> Seq<
        (Option<usize>, Option<usize>),
    > {
        arbitrary()
    }

    /// The number of values of the hand counts that go with each position, if any do.
    open spec fn hand_dims(&self) -> Option<usize> {
        arbitrary()
    }

    /// The hand counts of a position.
    open spec fn hand_counts(&self, pos: &Self::RequiredDataType) -> Seq<Self::HandCount> {
        arbitrary()
    }

    /// The hand count of a position of which nothing is known.
    open spec fn no_hand() -> Self::HandCount {
        arbitrary()
    }

    fn num_inputs(&self) -> (n: usize)
        ensures
            n == self.input_size(),
    ;

    fn max_active(&self) -> (n: usize)
        ensures
            n == self.active_limit(),
    ;

    fn map_features(&self, pos: &Self::RequiredDataType) -> (features: Vec<(usize, usize)>)
        ensures
            features@ == self.features(pos),
    ;

    fn map_features_split(&self, pos: &Self::RequiredDataType) -> (features: Vec<
        (Option<usize>, Option<usize>),
    >)
        ensures
            features@ == self.split_features(pos),
    ;

    fn hand_count_dims(&self) -> (dims: Option<usize>)
        ensures
            dims == self.hand_dims(),
    ;

    fn fill_hand_count(&self, pos: &Self::RequiredDataType) -> (counts: Vec<Self::HandCount>)
        ensures
            counts@ == self.hand_counts(pos),
            counts@.len() == match self.hand_dims() {
                Some(dims) => dims,
                None => 0,
            },
    ;

    fn empty_hand_count() -> (count: Self::HandCount)
        ensures
            count == Self::no_hand(),
    ;

    /// A short name.
    fn shorthand(&self) -> String;

    /// A name that tells what the inputs are.
    fn description(&self) -> String;
}

/// A way to sort positions into buckets, one for each set of output weights.
///
/// With the spec functions an impl says what its method gives, and of which positions.
pub trait OutputBuckets<D> {
    /// The number of buckets.
    const BUCKETS: usize;

    /// Whether a position can be sorted; one that makes no sense need not be.
    open spec fn sorts(&self, pos: &D) -> bool {
        arbitrary()
    }

    /// The bucket of a position.
    open spec fn bucket_of(&self, pos: &D) -> usize {
        arbitrary()
    }

    fn bucket(&self, pos: &D) -> (b: usize)
        requires
            self.sorts(pos),
        ensures
            b == self.bucket_of(pos),
    ;
}

/// The inputs with both sides seeing all of them.
pub open spec fn both_sides_of(features: Seq<(usize, usize)>) -> Seq<
    (Option<usize>, Option<usize>),
> {
    features.map_values(|feature: (usize, usize)| (Some(feature.0), Some(feature.1)))
}

pub fn both_sides(features: &Vec<(usize, usize)>) -> (split: Vec<(Option<usize>, Option<usize>)>)
    ensures
        split@ == both_sides_of(features@),
{
    let mut split: Vec<(Option<usize>, Option<usize>)> = Vec::new();
    let mut i: usize = 0;
    while i < features.len()
        invariant
            i <= features@.len(),
            split@ == both_sides_of(features@.take(i as int)),
        decreases features@.len() - i,
    {
        let (s, n) = features[i];
        split.push((Some(s), Some(n)));
        assert(split@ =~= both_sides_of(features@.take(i + 1)));
        i = i + 1;
    }
    assert(features@.take(features@.len() as int) =~= features@);
    split
}

/// The features `ka2` followed by the features `part`, moved up behind the HalfKA2 inputs.
fn joined(ka2: &Vec<(usize, usize)>, part: &Vec<(usize, usize)>) -> (features: Vec<(usize, usize)>)
    requires
        forall|i: int|
            0 <= i < part@.len() ==> (#[trigger] part@[i]).0 < HALFKA2_THREAT_DIMENSIONS
                && part@[i].1 < HALFKA2_THREAT_DIMENSIONS,
    ensures
        features@ == ka2@ + shogi_halfka2_threat::moved_up(part@, HALFKA2_DIMENSIONS),
{
    let mut features = copy_features(ka2);
    let mut i: usize = 0;
    assert(features@ =~= ka2@ + shogi_halfka2_threat::moved_up(part@.take(0), HALFKA2_DIMENSIONS));
    while i < part.len()
        invariant
            i <= part@.len(),
            forall|i: int|
                0 <= i < part@.len() ==> (#[trigger] part@[i]).0 < HALFKA2_THREAT_DIMENSIONS
                    && part@[i].1 < HALFKA2_THREAT_DIMENSIONS,
            features@ == ka2@ + shogi_halfka2_threat::moved_up(
                part@.take(i as int),
                HALFKA2_DIMENSIONS,
            ),
        decreases part@.len() - i,
    {
        let (s, n) = part[i];
        features.push((HALFKA2_DIMENSIONS + s, HALFKA2_DIMENSIONS + n));
        assert(features@ =~= ka2@ + shogi_halfka2_threat::moved_up(
            part@.take(i + 1),
            HALFKA2_DIMENSIONS,
        ));
        i = i + 1;
    }
    assert(part@.take(part@.len() as int) =~= part@);
    features
}

/// A decoded training position: the board with its HalfKA2 features, the score that was given to
/// it, and how the game ended for the side to move.
#[derive(Clone, Debug)]
pub struct ShogiPosition {
    pub board: ShogiBoard,
    /// The HalfKA2 features of the board, each as the side to move and as the other side sees it.
    pub ka2: Vec<(usize, usize)>,
    pub score: i16,
    pub result: GameResult,
}

impl LoadableDataType for ShogiPosition {
    open spec fn score_of(&self) -> i16 {
        self.score
    }

    open spec fn result_of(&self) -> GameResult {
        self.result
    }

    fn score(&self) -> (score: i16) {
        self.score
    }

    fn result(&self) -> (result: GameResult) {
        self.result
    }
}

impl SparseInputType for ShogiHalfKa2Threat {
    type RequiredDataType = ShogiPosition;

    type HandCount = u8;

    open spec fn input_size(&self) -> usize {
        HALFKA2_THREAT_TOTAL_DIMENSIONS
    }

    open spec fn active_limit(&self) -> usize {
        (MAX_ACTIVE_FEATURES + MAX_ACTIVE_THREAT_FEATURES) as usize
    }

    /// The HalfKA2 features, then the threats.
    open spec fn features(&self, pos: &ShogiPosition) -> Seq<(usize, usize)> {
        pos.ka2@ + shogi_halfka2_threat::moved_up(
            shogi_halfka2_threat::threat_features(&pos.board),
            HALFKA2_DIMENSIONS,
        )
    }

    open spec fn split_features(&self, pos: &ShogiPosition) -> Seq<(Option<usize>, Option<usize>)> {
        both_sides_of(self.features(pos))
    }

    open spec fn hand_dims(&self) -> Option<usize> {
        None
    }

    open spec fn hand_counts(&self, pos: &ShogiPosition) -> Seq<u8> {
        Seq::empty()
    }

    open spec fn no_hand() -> u8 {
        0
    }

    fn num_inputs(&self) -> (n: usize) {
        HALFKA2_THREAT_TOTAL_DIMENSIONS
    }

    fn max_active(&self) -> (n: usize) {
        MAX_ACTIVE_FEATURES + MAX_ACTIVE_THREAT_FEATURES
    }

    fn map_features(&self, pos: &ShogiPosition) -> (features: Vec<(usize, usize)>) {
        let threats = self.map_threat_only(&pos.board);
        proof {
            threat_laws::law_threat_features_in_range(&pos.board);
        }
        joined(&pos.ka2, &threats)
    }

    fn map_features_split(&self, pos: &ShogiPosition) -> (features: Vec<
        (Option<usize>, Option<usize>),
    >) {
        both_sides(&self.map_features(pos))
    }

    fn hand_count_dims(&self) -> (dims: Option<usize>) {
        None
    }

    fn fill_hand_count(&self, pos: &ShogiPosition) -> (counts: Vec<u8>) {
        Vec::new()
    }

    fn empty_hand_count() -> (count: u8) {
        0
    }

    fn shorthand(&self) -> (name: String)
        ensures
            name@ == "shogi-halfka2-threat-348669"@,
    {
        "shogi-halfka2-threat-348669".to_owned()
    }

    fn description(&self) -> (name: String)
        ensures
            name@ == "Shogi HalfKA2 (131,949) + Threat (216720, profile=full)"@,
    {
        "Shogi HalfKA2 (131,949) + Threat (216720, profile=full)".to_owned()
    }
}

impl SparseInputType for ShogiHalfKa2ThreatDropFact {
    type RequiredDataType = ShogiPosition;

    type HandCount = u8;

    open spec fn input_size(&self) -> usize {
        HALFKA2T_DROPFACT_TOTAL_DIMENSIONS
    }

    open spec fn active_limit(&self) -> usize {
        (MAX_ACTIVE_FEATURES + 2 * MAX_ACTIVE_THREAT_FEATURES) as usize
    }

    /// The HalfKA2 features, then each threat and its lite virtual feature.
    open spec fn features(&self, pos: &ShogiPosition) -> Seq<(usize, usize)> {
        pos.ka2@ + shogi_halfka2_threat_dropfact::threat_and_lite_rows(
            shogi_halfka2_threat::threat_features(&pos.board),
        )
    }

    open spec fn split_features(&self, pos: &ShogiPosition) -> Seq<(Option<usize>, Option<usize>)> {
        both_sides_of(self.features(pos))
    }

    open spec fn hand_dims(&self) -> Option<usize> {
        None
    }

    open spec fn hand_counts(&self, pos: &ShogiPosition) -> Seq<u8> {
        Seq::empty()
    }

    open spec fn no_hand() -> u8 {
        0
    }

    /// The number of rows in training, virtual rows included.
    fn num_inputs(&self) -> (n: usize) {
        HALFKA2T_DROPFACT_TOTAL_DIMENSIONS
    }

    fn max_active(&self) -> (n: usize) {
        MAX_ACTIVE_FEATURES + 2 * MAX_ACTIVE_THREAT_FEATURES
    }

    fn map_features(&self, pos: &ShogiPosition) -> (features: Vec<(usize, usize)>) {
        self.map_features_board(&pos.board, &pos.ka2)
    }

    fn map_features_split(&self, pos: &ShogiPosition) -> (features: Vec<
        (Option<usize>, Option<usize>),
    >) {
        both_sides(&self.map_features(pos))
    }

    fn hand_count_dims(&self) -> (dims: Option<usize>) {
        None
    }

    fn fill_hand_count(&self, pos: &ShogiPosition) -> (counts: Vec<u8>) {
        Vec::new()
    }

    fn empty_hand_count() -> (count: u8) {
        0
    }

    fn shorthand(&self) -> (name: String)
        ensures
            name@ == "shogi-halfka2-threat-dropfact-376542"@,
    {
        "shogi-halfka2-threat-dropfact-376542".to_owned()
    }

    fn description(&self) -> (name: String)
        ensures
            name@
                == "Shogi HalfKA2 (131,949) + Threat (216720, profile=full) + KA virtual (1629) + Threat from-drop virtual (26244)"@,
    {
        "Shogi HalfKA2 (131,949) + Threat (216720, profile=full) + KA virtual (1629) + Threat from-drop virtual (26244)".to_owned()
    }
}

impl SparseInputType for ShogiHalfKa2ThreatEffect {
    type RequiredDataType = ShogiPosition;

    type HandCount = u8;

    open spec fn input_size(&self) -> usize {
        HALFKA2_THREATEFFECT_TOTAL_DIMENSIONS
    }

    open spec fn active_limit(&self) -> usize {
        (MAX_ACTIVE_FEATURES + MAX_ACTIVE_EFFECT_FEATURES) as usize
    }

    /// The HalfKA2 features, then the effect features.
    open spec fn features(&self, pos: &ShogiPosition) -> Seq<(usize, usize)> {
        pos.ka2@ + shogi_halfka2_threat::moved_up(
            shogi_halfka2_threat_effect::effect_features(&pos.board),
            HALFKA2_DIMENSIONS,
        )
    }

    open spec fn split_features(&self, pos: &ShogiPosition) -> Seq<(Option<usize>, Option<usize>)> {
        both_sides_of(self.features(pos))
    }

    open spec fn hand_dims(&self) -> Option<usize> {
        None
    }

    open spec fn hand_counts(&self, pos: &ShogiPosition) -> Seq<u8> {
        Seq::empty()
    }

    open spec fn no_hand() -> u8 {
        0
    }

    fn num_inputs(&self) -> (n: usize) {
        HALFKA2_THREATEFFECT_TOTAL_DIMENSIONS
    }

    fn max_active(&self) -> (n: usize) {
        MAX_ACTIVE_FEATURES + MAX_ACTIVE_EFFECT_FEATURES
    }

    fn map_features(&self, pos: &ShogiPosition) -> (features: Vec<(usize, usize)>) {
        let effects = self.map_effect_only(&pos.board);
        proof {
            shogi_halfka2_threat_effect::law_effect_features_in_range(&pos.board);
            assert(HALFKA2_THREATEFFECT_DIMENSIONS <= HALFKA2_THREAT_DIMENSIONS);
        }
        joined(&pos.ka2, &effects)
    }

    fn map_features_split(&self, pos: &ShogiPosition) -> (features: Vec<
        (Option<usize>, Option<usize>),
    >) {
        both_sides(&self.map_features(pos))
    }

    fn hand_count_dims(&self) -> (dims: Option<usize>) {
        None
    }

    fn fill_hand_count(&self, pos: &ShogiPosition) -> (counts: Vec<u8>) {
        Vec::new()
    }

    fn empty_hand_count() -> (count: u8) {
        0
    }

    fn shorthand(&self) -> (name: String)
        ensures
            name@ == "shogi-halfka2-threateffect-158193"@,
    {
        "shogi-halfka2-threateffect-158193".to_owned()
    }

    fn description(&self) -> (name: String)
        ensures
            name@ == "Shogi HalfKA2 (131,949) + ThreatEffect long/short buckets (26244)"@,
    {
        "Shogi HalfKA2 (131,949) + ThreatEffect long/short buckets (26244)".to_owned()
    }
}

} // verus!
