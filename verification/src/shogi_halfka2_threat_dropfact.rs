//! HalfKA2 features and threats, joined with the threats once more without the attacker's square.
//!
//! The rows are laid out as
//! `[HalfKA2 131,949][Threat 216,720][KA virtual 1,629][Lite virtual 26,244]`. The KA virtual rows
//! are never listed here. Every threat is listed a second time as a lite virtual feature, which
//! keeps the combination and the target's square only; attackers that differ in nothing else give
//! the same lite feature, and it is then listed once for each of them.
use vstd::prelude::*;

use crate::checksum;
use crate::shogi::Color;
use crate::shogi::ShogiBoard;
use crate::shogi::Square;
use crate::shogi_halfka2_threat;
use crate::shogi_halfka2_threat::copy_features;
use crate::shogi_halfka2_threat::ShogiHalfKa2Threat;
use crate::shogi_halfka2_threat::HALFKA2_DIMENSIONS;
use crate::shogi_halfka2_threat::HALFKA2_THREAT_TOTAL_DIMENSIONS;
use crate::shogi_halfka2_threat::PIECE_INPUTS;
use crate::threat_class;
use crate::threat_class::ThreatClass;
use crate::threat_class::HALFKA2_THREAT_DIMENSIONS;
use crate::threat_class::NUM_PAIRS;
use crate::threat_class::NUM_THREAT_CLASSES;
use crate::threat_index;
use crate::threat_laws;
use crate::threat_tables;

verus! {

/// Number of lite features: combinations times target squares.
pub const HALFKA2_THREAT_LITE_DIMENSIONS: usize = 2 * NUM_THREAT_CLASSES * 2 * NUM_THREAT_CLASSES
    * 81;

/// The first KA virtual row.
pub const HALFKA2T_KA_VIRTUAL_BASE: usize = HALFKA2_THREAT_TOTAL_DIMENSIONS;

/// The first lite virtual row.
pub const HALFKA2T_LITE_VIRTUAL_BASE: usize = HALFKA2T_KA_VIRTUAL_BASE + PIECE_INPUTS;

/// Number of rows altogether.
pub const HALFKA2T_DROPFACT_TOTAL_DIMENSIONS: usize = HALFKA2T_LITE_VIRTUAL_BASE
    + HALFKA2_THREAT_LITE_DIMENSIONS;

/// The threat with index `full`: its combination and the squares of attacker and target.
pub open spec fn threat_numbered(full: int) -> (int, int, int) {
    choose|t: (int, int, int)| #[trigger]
        threat_index::is_threat(t.0, t.1, t.2) && threat_index::full_index(t.0, t.1, t.2) == full
}

/// The lite index of the threat with index `full`.
pub open spec fn lite_of(full: int) -> int {
    let threat = threat_numbered(full);
    threat_index::lite_index(threat.0, threat.2)
}

/// The lite index of a threat keeps its combination and its target's square.
pub proof fn law_lite_of_threat(pair: int, from: int, to: int)
    requires
        threat_index::is_threat(pair, from, to),
    ensures
        lite_of(threat_index::full_index(pair, from, to) as int) == threat_index::lite_index(
            pair,
            to,
        ),
{
    let full = threat_index::full_index(pair, from, to) as int;
    let t = (pair, from, to);
    assert(threat_index::is_threat(t.0, t.1, t.2));
    let u = threat_numbered(full);
    threat_index::law_full_index_is_unique(pair, from, to, u.0, u.1, u.2);
}

/// Every index of a threat has a lite index, whose combination is the one that the index of the
/// threat lies in.
pub proof fn law_lite_keeps_pair(full: int)
    requires
        0 <= full < HALFKA2_THREAT_DIMENSIONS,
    ensures
        0 <= lite_of(full) < HALFKA2_THREAT_LITE_DIMENSIONS,
        threat_index::pair_base(lite_of(full) / 81) <= full < threat_index::pair_base(
            lite_of(full) / 81 + 1,
        ),
{
    let t = threat_index::law_every_index_is_a_threat(full);
    law_lite_of_threat(t.0, t.1, t.2);
    threat_index::law_lite_index_tells_pair_and_target(t.0, t.2);
    threat_index::lemma_full_index_bounds(t.0, t.1, t.2);
}

/// Builds the table of the lite indices of all threats, by going through the threats in the order
/// of their indices.
pub fn build_full_to_lite() -> (table: Vec<u32>)
    ensures
        table@.len() == HALFKA2_THREAT_DIMENSIONS,
        forall|full: int|
            0 <= full < HALFKA2_THREAT_DIMENSIONS ==> #[trigger] table@[full] == lite_of(full),
{
    let mut table: Vec<u32> = Vec::new();
    let mut pair: usize = 0;
    while pair < NUM_PAIRS
        invariant
            pair <= NUM_PAIRS,
            table@.len() == threat_index::pair_base(pair as int),
            forall|full: int| 0 <= full < table@.len() ==> #[trigger] table@[full] == lite_of(full),
        decreases NUM_PAIRS - pair,
    {
        let attacker = ThreatClass::from_index((pair % 162) / 18);
        let oriented = if pair < 162 {
            Color::Black
        } else {
            Color::White
        };
        let mut from: u8 = 0;
        while from < 81
            invariant
                pair < NUM_PAIRS,
                attacker == threat_index::pair_class(pair as int),
                oriented == threat_index::pair_color(pair as int),
                from <= 81,
                table@.len() == threat_index::pair_base(pair as int)
                    + threat_class::attacks_from_below(attacker, oriented, from as int),
                forall|full: int|
                    0 <= full < table@.len() ==> #[trigger] table@[full] == lite_of(full),
            decreases 81 - from,
        {
            let mut to: u8 = 0;
            while to < 81
                invariant
                    pair < NUM_PAIRS,
                    attacker == threat_index::pair_class(pair as int),
                    oriented == threat_index::pair_color(pair as int),
                    from < 81,
                    to <= 81,
                    table@.len() == threat_index::full_index(pair as int, from as int, to as int),
                    forall|full: int|
                        0 <= full < table@.len() ==> #[trigger] table@[full] == lite_of(full),
                decreases 81 - to,
            {
                if threat_class::attacks_square(attacker, oriented, Square(from), Square(to)) {
                    proof {
                        law_lite_of_threat(pair as int, from as int, to as int);
                    }
                    table.push((pair * 81 + to as usize) as u32);
                }
                to = to + 1;
            }
            from = from + 1;
        }
        pair = pair + 1;
    }
    proof {
        threat_index::law_number_of_threats();
    }
    table
}

/// The table of the lite indices of all threats.
#[derive(Debug)]
pub struct FullToLite {
    table: Vec<u32>,
}

/// The lite indices of all threats, in the order of their indices.
pub open spec fn lite_table() -> Seq<u32> {
    Seq::new(HALFKA2_THREAT_DIMENSIONS as nat, |full: int| lite_of(full) as u32)
}

impl View for FullToLite {
    type V = Seq<u32>;

    /// The lite indices, in the order of the indices of the threats.
    closed spec fn view(&self) -> Seq<u32> {
        self.table@
    }
}

impl FullToLite {
    #[verifier::type_invariant]
    spec fn inv(&self) -> bool {
        &&& self.table@.len() == HALFKA2_THREAT_DIMENSIONS
        &&& forall|full: int|
            0 <= full < HALFKA2_THREAT_DIMENSIONS ==> #[trigger] self.table@[full] == lite_of(full)
    }

    /// Builds the table.
    pub fn new() -> (table: FullToLite)
        ensures
            table@ == lite_table(),
    {
        let table = build_full_to_lite();
        assert(table@ =~= lite_table());
        FullToLite { table }
    }
}

impl Clone for FullToLite {
    fn clone(&self) -> (copy: FullToLite)
        ensures
            copy@ == self@,
    {
        proof {
            use_type_invariant(self);
        }
        let table = self.table.clone();
        assert(table@ =~= self.table@);
        FullToLite { table }
    }
}

/// The lite index of the threat with index `full`.
pub fn threat_full_to_lite(table: &FullToLite, full: usize) -> (lite: usize)
    requires
        full < HALFKA2_THREAT_DIMENSIONS,
    ensures
        lite == table@[full as int],
        lite == lite_of(full as int),
        lite < HALFKA2_THREAT_LITE_DIMENSIONS,
{
    proof {
        use_type_invariant(table);
        law_lite_keeps_pair(full as int);
    }
    table.table[full] as usize
}

/// The lite indices of all threats in the order of their indices.
pub open spec fn lite_values() -> Seq<u64> {
    Seq::new(HALFKA2_THREAT_DIMENSIONS as nat, |full: int| lite_of(full) as u64)
}

/// The FNV-1a checksum of the table of lite indices.
pub fn threat_full_to_lite_checksum(table: &FullToLite) -> (h: u64)
    ensures
        h == checksum::fnv1a(lite_values()),
{
    proof {
        use_type_invariant(table);
    }
    let mut h: u64 = checksum::FNV_BASIS;
    let ghost values = lite_values();
    let mut i: usize = 0;
    assert(values.take(0) =~= seq![]);
    while i < table.table.len()
        invariant
            i <= table.table@.len(),
            table.inv(),
            values == lite_values(),
            h == checksum::fnv1a(values.take(i as int)),
        decreases table.table@.len() - i,
    {
        assert(values[i as int] == table.table@[i as int] as u64);
        assert(values.take(i + 1) =~= values.take(i as int).push(values[i as int]));
        proof {
            checksum::lemma_fnv1a_push(values.take(i as int), values[i as int]);
        }
        h = checksum::mix(h, table.table[i] as u64);
        i = i + 1;
    }
    assert(values.take(values.len() as int) =~= values);
    h
}

/// A threat feature with its lite indices: for the side to move, for the other side, then the
/// lite indices in the same order.
pub open spec fn with_lite(feature: (usize, usize)) -> (usize, usize, usize, usize) {
    (feature.0, feature.1, lite_of(feature.0 as int) as usize, lite_of(feature.1 as int) as usize)
}

/// The threats as rows, each followed by its lite virtual row.
pub open spec fn threat_and_lite_rows(features: Seq<(usize, usize)>) -> Seq<(usize, usize)> {
    Seq::new(
        2 * features.len(),
        |i: int|
            {
                let feature = features[i / 2];
                if i % 2 == 0 {
                    (
                        (HALFKA2_DIMENSIONS + feature.0) as usize,
                        (HALFKA2_DIMENSIONS + feature.1) as usize,
                    )
                } else {
                    (
                        (HALFKA2T_LITE_VIRTUAL_BASE + lite_of(feature.0 as int)) as usize,
                        (HALFKA2T_LITE_VIRTUAL_BASE + lite_of(feature.1 as int)) as usize,
                    )
                }
            },
    )
}

/// The HalfKA2, threat and lite virtual inputs.
#[derive(Debug)]
pub struct ShogiHalfKa2ThreatDropFact {
    threat: ShogiHalfKa2Threat,
    full_to_lite: FullToLite,
}

impl ShogiHalfKa2ThreatDropFact {
    /// Everything that the tables of the threats hold.
    pub closed spec fn threat_contents(&self) -> Seq<u64> {
        self.threat.table_contents()
    }

    /// The lite indices of the threats, in the order of the indices of the threats.
    pub closed spec fn lite_contents(&self) -> Seq<u32> {
        self.full_to_lite@
    }

    /// The inputs, with their tables built.
    pub fn new() -> (input: ShogiHalfKa2ThreatDropFact)
        ensures
            input.threat_contents() == threat_tables::table_values(),
            input.lite_contents() == lite_table(),
    {
        ShogiHalfKa2ThreatDropFact {
            threat: ShogiHalfKa2Threat::new(),
            full_to_lite: FullToLite::new(),
        }
    }

    /// Lists the threats of a position together with their lite indices, each index in the space
    /// of its own.
    pub fn map_threat_and_lite(&self, board: &ShogiBoard) -> (features: Vec<
        (usize, usize, usize, usize),
    >)
        ensures
            features@ == shogi_halfka2_threat::threat_features(board).map_values(
                |feature: (usize, usize)| with_lite(feature),
            ),
            forall|i: int|
                0 <= i < features@.len() ==> {
                    &&& (#[trigger] features@[i]).2 == self.lite_contents()[features@[i].0 as int]
                    &&& features@[i].3 == self.lite_contents()[features@[i].1 as int]
                },
    {
        let threats = self.threat.map_threat_only(board);
        let mut features: Vec<(usize, usize, usize, usize)> = Vec::new();
        proof {
            threat_laws::law_threat_features_in_range(board);
        }
        let mut i: usize = 0;
        while i < threats.len()
            invariant
                i <= threats@.len(),
                forall|k: int|
                    0 <= k < threats@.len() ==> (#[trigger] threats@[k]).0
                        < HALFKA2_THREAT_DIMENSIONS && threats@[k].1 < HALFKA2_THREAT_DIMENSIONS,
                features@.len() == i,
                forall|k: int| 0 <= k < i ==> #[trigger] features@[k] == with_lite(threats@[k]),
                forall|k: int|
                    0 <= k < i ==> {
                        &&& (#[trigger] features@[k]).2
                            == self.lite_contents()[features@[k].0 as int]
                        &&& features@[k].3 == self.lite_contents()[features@[k].1 as int]
                    },
            decreases threats@.len() - i,
        {
            let (s, n) = threats[i];
            let s_lite = threat_full_to_lite(&self.full_to_lite, s);
            let n_lite = threat_full_to_lite(&self.full_to_lite, n);
            features.push((s, n, s_lite, n_lite));
            i = i + 1;
        }
        assert(features@ =~= shogi_halfka2_threat::threat_features(board).map_values(
            |feature: (usize, usize)| with_lite(feature),
        ));
        features
    }

    /// Lists all features of a position: the HalfKA2 features `ka2`, then every threat and after
    /// it its lite virtual feature.
    pub fn map_features_board(&self, board: &ShogiBoard, ka2: &Vec<(usize, usize)>) -> (features:
        Vec<(usize, usize)>)
        ensures
            features@ == ka2@ + threat_and_lite_rows(shogi_halfka2_threat::threat_features(board)),
    {
        let mut features = copy_features(ka2);
        let threats = self.threat.map_threat_only(board);
        proof {
            threat_laws::law_threat_features_in_range(board);
        }
        let mut i: usize = 0;
        assert(features@ =~= ka2@ + threat_and_lite_rows(threats@.take(0)));
        while i < threats.len()
            invariant
                i <= threats@.len(),
                forall|k: int|
                    0 <= k < threats@.len() ==> (#[trigger] threats@[k]).0
                        < HALFKA2_THREAT_DIMENSIONS && threats@[k].1 < HALFKA2_THREAT_DIMENSIONS,
                features@ == ka2@ + threat_and_lite_rows(threats@.take(i as int)),
            decreases threats@.len() - i,
        {
            let (s, n) = threats[i];
            let s_lite = threat_full_to_lite(&self.full_to_lite, s);
            let n_lite = threat_full_to_lite(&self.full_to_lite, n);
            features.push((HALFKA2_DIMENSIONS + s, HALFKA2_DIMENSIONS + n));
            features.push(
                (HALFKA2T_LITE_VIRTUAL_BASE + s_lite, HALFKA2T_LITE_VIRTUAL_BASE + n_lite),
            );
            assert(features@ =~= ka2@ + threat_and_lite_rows(threats@.take(i + 1)));
            i = i + 1;
        }
        assert(threats@.take(threats@.len() as int) =~= threats@);
        features
    }
}

impl Default for ShogiHalfKa2ThreatDropFact {
    fn default() -> (input: ShogiHalfKa2ThreatDropFact)
        ensures
            input.threat_contents() == threat_tables::table_values(),
            input.lite_contents() == lite_table(),
    {
        ShogiHalfKa2ThreatDropFact::new()
    }
}

impl Clone for ShogiHalfKa2ThreatDropFact {
    fn clone(&self) -> (copy: ShogiHalfKa2ThreatDropFact)
        ensures
            copy.threat_contents() == self.threat_contents(),
            copy.lite_contents() == self.lite_contents(),
    {
        ShogiHalfKa2ThreatDropFact {
            threat: self.threat.clone(),
            full_to_lite: self.full_to_lite.clone(),
        }
    }
}

/// The features of a position stay within the rows, and none is a KA virtual row, provided that
/// the HalfKA2 features are HalfKA2 features.
pub proof fn law_dropfact_rows(board: &ShogiBoard, ka2: Seq<(usize, usize)>)
    requires
        forall|i: int|
            0 <= i < ka2.len() ==> (#[trigger] ka2[i]).0 < HALFKA2_DIMENSIONS && ka2[i].1
                < HALFKA2_DIMENSIONS,
    ensures
        ({
            let rows = ka2 + threat_and_lite_rows(shogi_halfka2_threat::threat_features(board));
            forall|i: int|
                0 <= i < rows.len() ==> {
                    &&& (#[trigger] rows[i]).0 < HALFKA2T_DROPFACT_TOTAL_DIMENSIONS
                    &&& rows[i].1 < HALFKA2T_DROPFACT_TOTAL_DIMENSIONS
                    &&& !(HALFKA2T_KA_VIRTUAL_BASE <= rows[i].0 < HALFKA2T_LITE_VIRTUAL_BASE)
                    &&& !(HALFKA2T_KA_VIRTUAL_BASE <= rows[i].1 < HALFKA2T_LITE_VIRTUAL_BASE)
                }
        }),
{
    let threats = shogi_halfka2_threat::threat_features(board);
    threat_laws::law_threat_features_in_range(board);
    let rows = ka2 + threat_and_lite_rows(threats);
    assert forall|i: int| 0 <= i < rows.len() implies {
        &&& (#[trigger] rows[i]).0 < HALFKA2T_DROPFACT_TOTAL_DIMENSIONS
        &&& rows[i].1 < HALFKA2T_DROPFACT_TOTAL_DIMENSIONS
        &&& !(HALFKA2T_KA_VIRTUAL_BASE <= rows[i].0 < HALFKA2T_LITE_VIRTUAL_BASE)
        &&& !(HALFKA2T_KA_VIRTUAL_BASE <= rows[i].1 < HALFKA2T_LITE_VIRTUAL_BASE)
    } by {
        if i < ka2.len() {
            assert(rows[i] == ka2[i]);
        } else {
            let feature = threats[(i - ka2.len()) / 2];
            law_lite_keeps_pair(feature.0 as int);
            law_lite_keeps_pair(feature.1 as int);
        }
    }
}

proof fn lemma_base_rows(threats: Seq<(usize, usize)>)
    requires
        forall|i: int|
            0 <= i < threats.len() ==> (#[trigger] threats[i]).0 < HALFKA2_THREAT_DIMENSIONS,
    ensures
        threat_and_lite_rows(threats).filter(|row: (usize, usize)| is_base_row(row))
            == shogi_halfka2_threat::moved_up(threats, HALFKA2_DIMENSIONS),
    decreases threats.len(),
{
    broadcast use Seq::lemma_filter_push;

    let rows = threat_and_lite_rows(threats);
    let base = |row: (usize, usize)| is_base_row(row);
    reveal(Seq::filter);
    if threats.len() > 0 {
        let before = threats.drop_last();
        let last = threats.last();
        assert(last == threats[threats.len() - 1]);
        assert forall|i: int| 0 <= i < before.len() implies (#[trigger] before[i]).0
            < HALFKA2_THREAT_DIMENSIONS by {
            assert(before[i] == threats[i]);
        }
        lemma_base_rows(before);
        let full = (
            (HALFKA2_DIMENSIONS + last.0) as usize,
            (HALFKA2_DIMENSIONS + last.1) as usize,
        );
        let lite = (
            (HALFKA2T_LITE_VIRTUAL_BASE + lite_of(last.0 as int)) as usize,
            (HALFKA2T_LITE_VIRTUAL_BASE + lite_of(last.1 as int)) as usize,
        );
        assert(rows =~= threat_and_lite_rows(before).push(full).push(lite));
        law_lite_keeps_pair(last.0 as int);
        assert(is_base_row(full));
        assert(!is_base_row(lite));
        assert(shogi_halfka2_threat::moved_up(threats, HALFKA2_DIMENSIONS)
            =~= shogi_halfka2_threat::moved_up(before, HALFKA2_DIMENSIONS).push(full));
    } else {
        assert(rows =~= Seq::empty());
        assert(shogi_halfka2_threat::moved_up(threats, HALFKA2_DIMENSIONS) =~= Seq::empty());
    }
}

/// Whether a feature is none of the lite virtual ones, as the side to move sees it.
pub open spec fn is_base_row(row: (usize, usize)) -> bool {
    row.0 < HALFKA2T_LITE_VIRTUAL_BASE
}

/// Whether a feature is one of a threat, as the side to move sees it.
pub open spec fn is_threat_row(row: (usize, usize)) -> bool {
    row.0 >= HALFKA2_DIMENSIONS
}

/// Without the lite virtual features, the features of a position are the HalfKA2 and threat
/// features, in the same order; and there is one lite virtual feature for each threat.  This holds
/// wherever the HalfKA2 features are HalfKA2 features.
pub proof fn law_base_rows_are_the_threat_inputs(board: &ShogiBoard, ka2: Seq<(usize, usize)>)
    requires
        forall|i: int| 0 <= i < ka2.len() ==> (#[trigger] ka2[i]).0 < HALFKA2_DIMENSIONS,
    ensures
        ({
            let threats = shogi_halfka2_threat::threat_features(board);
            let rows = ka2 + threat_and_lite_rows(threats);
            let plain = ka2 + shogi_halfka2_threat::moved_up(threats, HALFKA2_DIMENSIONS);
            &&& rows.filter(|row: (usize, usize)| is_base_row(row)) == plain
            &&& rows.len() - plain.len() == plain.filter(
                |row: (usize, usize)| is_threat_row(row),
            ).len()
        }),
{
    let threats = shogi_halfka2_threat::threat_features(board);
    let moved = shogi_halfka2_threat::moved_up(threats, HALFKA2_DIMENSIONS);
    let base = |row: (usize, usize)| is_base_row(row);
    let threat = |row: (usize, usize)| is_threat_row(row);
    threat_laws::law_threat_features_in_range(board);
    lemma_base_rows(threats);
    lemma_filter_all(ka2, base);
    lemma_filter_none(ka2, threat);
    assert forall|i: int| 0 <= i < moved.len() implies threat(#[trigger] moved[i]) by {
        assert(threats[i].0 < HALFKA2_THREAT_DIMENSIONS);
    }
    lemma_filter_all(moved, threat);
    Seq::filter_distributes_over_add(ka2, threat_and_lite_rows(threats), base);
    Seq::filter_distributes_over_add(ka2, moved, threat);
}

proof fn lemma_filter_all<A>(s: Seq<A>, pred: spec_fn(A) -> bool)
    requires
        forall|i: int| 0 <= i < s.len() ==> pred(#[trigger] s[i]),
    ensures
        s.filter(pred) == s,
    decreases s.len(),
{
    reveal(Seq::filter);
    if s.len() > 0 {
        lemma_filter_all(s.drop_last(), pred);
        assert(s.drop_last().push(s.last()) =~= s);
    }
}

proof fn lemma_filter_none<A>(s: Seq<A>, pred: spec_fn(A) -> bool)
    requires
        forall|i: int| 0 <= i < s.len() ==> !pred(#[trigger] s[i]),
    ensures
        s.filter(pred).len() == 0,
    decreases s.len(),
{
    reveal(Seq::filter);
    if s.len() > 0 {
        lemma_filter_none(s.drop_last(), pred);
    }
}

} // verus!
