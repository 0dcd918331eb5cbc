//! The numbering of threats: which index belongs to an attacker and its target, and the tables
//! from which it is computed.
use vstd::prelude::*;

use crate::shogi::Color;
use crate::threat_class;
use crate::threat_class::ThreatClass;
use crate::threat_class::HALFKA2_THREAT_DIMENSIONS;
use crate::threat_class::NUM_ATTACK_PATTERNS;
use crate::threat_class::NUM_PAIRS;

verus! {

/// Which combinations of attacker and target count as threats.
#[derive(Clone, Copy, Debug, PartialEq, Eq, Structural)]
pub enum ThreatProfile {
    /// All of them.
    Full,
}

/// The number of a combination of an attacker's side and class with a target's side and class;
/// side 0 is one's own, side 1 the other.
pub open spec fn pair_of(
    attacker_side: int,
    attacker: ThreatClass,
    attacked_side: int,
    attacked: ThreatClass,
) -> int {
    attacker_side * 162 + attacker.number() * 18 + attacked_side * 9 + attacked.number()
}

/// The class of the attacker in combination `pair`.
pub open spec fn pair_class(pair: int) -> ThreatClass {
    ThreatClass::numbered((pair % 162) / 18)
}

/// The side for which the attacker in combination `pair` moves, seen from one's own side.
pub open spec fn pair_color(pair: int) -> Color {
    if pair < 162 {
        Color::Black
    } else {
        Color::White
    }
}

/// The number of a combination tells the side and the class of the attacker.
pub proof fn law_pair_tells_attacker(
    attacker_side: int,
    attacker: ThreatClass,
    attacked_side: int,
    attacked: ThreatClass,
)
    requires
        0 <= attacker_side < 2,
        0 <= attacked_side < 2,
    ensures
        ({
            let pair = pair_of(attacker_side, attacker, attacked_side, attacked);
            &&& 0 <= pair < 324
            &&& pair_class(pair) == attacker
            &&& pair_color(pair) == if attacker_side == 0 {
                Color::Black
            } else {
                Color::White
            }
        }),
{
    let pair = pair_of(attacker_side, attacker, attacked_side, attacked);
    let n = attacker.number();
    let rest = attacked_side * 9 + attacked.number();
    assert(0 <= rest < 18);
    assert(0 <= n < 9);
    assert(pair % 162 == n * 18 + rest);
    assert((n * 18 + rest) / 18 == n);
}

/// The number of a combination tells all four of its parts: it has a place for each.
pub proof fn law_pair_tells_its_parts(
    attacker_side: int,
    attacker: ThreatClass,
    attacked_side: int,
    attacked: ThreatClass,
)
    requires
        0 <= attacker_side < 2,
        0 <= attacked_side < 2,
    ensures
        ({
            let pair = pair_of(attacker_side, attacker, attacked_side, attacked);
            &&& pair / 162 == attacker_side
            &&& (pair % 162) / 18 == attacker.number()
            &&& (pair % 18) / 9 == attacked_side
            &&& pair % 9 == attacked.number()
        }),
{
    let pair = pair_of(attacker_side, attacker, attacked_side, attacked);
    let n = attacker.number();
    let m = attacked.number();
    let rest = attacked_side * 9 + m;
    assert(0 <= m < 9 && 0 <= n < 9);
    assert(0 <= rest < 18);
    assert(pair == attacker_side * 162 + n * 18 + rest);
    assert(pair % 162 == n * 18 + rest);
    assert(pair % 18 == rest);
    assert(pair % 9 == m);
}

/// Combinations that differ in any part have different numbers: so an attack on a piece of the other
/// side is never numbered as the defence of one's own piece of the same class.
pub proof fn law_combinations_are_told_apart(
    attacker_side1: int,
    attacker1: ThreatClass,
    attacked_side1: int,
    attacked1: ThreatClass,
    attacker_side2: int,
    attacker2: ThreatClass,
    attacked_side2: int,
    attacked2: ThreatClass,
)
    requires
        0 <= attacker_side1 < 2,
        0 <= attacked_side1 < 2,
        0 <= attacker_side2 < 2,
        0 <= attacked_side2 < 2,
        pair_of(attacker_side1, attacker1, attacked_side1, attacked1) == pair_of(
            attacker_side2,
            attacker2,
            attacked_side2,
            attacked2,
        ),
    ensures
        attacker_side1 == attacker_side2,
        attacker1 == attacker2,
        attacked_side1 == attacked_side2,
        attacked1 == attacked2,
{
    law_pair_tells_its_parts(attacker_side1, attacker1, attacked_side1, attacked1);
    law_pair_tells_its_parts(attacker_side2, attacker2, attacked_side2, attacked2);
}

/// The first index of combination `pair`: the number of threats in all combinations before it.
pub open spec fn pair_base(pair: int) -> nat
    decreases pair,
{
    if pair <= 0 {
        0
    } else {
        pair_base(pair - 1) + threat_class::attacks_from_below(
            pair_class(pair - 1),
            pair_color(pair - 1),
            81,
        )
    }
}

/// Whether combination `pair` allows an attacker on `from` to threaten a target on `to`.
pub open spec fn is_threat(pair: int, from: int, to: int) -> bool {
    &&& 0 <= pair < 324
    &&& 0 <= from < 81
    &&& 0 <= to < 81
    &&& threat_class::attacks(pair_class(pair), pair_color(pair), from, to)
}

/// The index of the threat of an attacker on `from` to a target on `to` in combination `pair`.
pub open spec fn full_index(pair: int, from: int, to: int) -> nat {
    pair_base(pair) + threat_class::attacks_from_below(pair_class(pair), pair_color(pair), from)
        + threat_class::attacked_below(pair_class(pair), pair_color(pair), from, to)
}

/// The index of a threat once the attacker's square is left out.
pub open spec fn lite_index(pair: int, to: int) -> int {
    pair * 81 + to
}

/// The attacks of all classes below the one with number `n`.
spec fn attacks_below_class(n: int) -> int {
    if n <= 0 {
        0
    } else if n == 1 {
        72
    } else if n == 2 {
        396
    } else if n == 3 {
        508
    } else if n == 4 {
        836
    } else if n == 5 {
        1252
    } else if n == 6 {
        2068
    } else if n == 7 {
        3364
    } else if n == 8 {
        4468
    } else {
        6020
    }
}

proof fn lemma_pair_base(pair: int)
    requires
        0 <= pair <= 324,
    ensures
        pair_base(pair) == (pair / 162) * 108_360 + 18 * attacks_below_class((pair % 162) / 18) + (
        pair % 18) * threat_class::class_attacks(pair_class(pair)),
    decreases pair,
{
    if pair > 0 {
        let p = pair - 1;
        lemma_pair_base(p);
        threat_class::law_class_attacks(pair_class(p), pair_color(p));
        let n = (p % 162) / 18;
        assert(p == (p / 162) * 162 + n * 18 + p % 18);
        assert(attacks_below_class(n + 1) == attacks_below_class(n) + threat_class::class_attacks(
            ThreatClass::numbered(n),
        ));
        if p % 18 < 17 {
            assert(pair / 162 == p / 162);
            assert((pair % 162) / 18 == n);
            assert(pair % 18 == p % 18 + 1);
            assert((p % 18 + 1) * threat_class::class_attacks(pair_class(p)) == (p % 18)
                * threat_class::class_attacks(pair_class(p)) + threat_class::class_attacks(
                pair_class(p),
            )) by (nonlinear_arith);
        } else {
            assert(pair % 18 == 0);
            assert(0 * threat_class::class_attacks(pair_class(pair)) == 0) by (nonlinear_arith);
            if n < 8 {
                assert(pair / 162 == p / 162);
                assert((pair % 162) / 18 == n + 1);
            } else {
                assert(pair / 162 == p / 162 + 1);
                assert((pair % 162) / 18 == 0);
            }
        }
    } else {
        assert(0 * threat_class::class_attacks(pair_class(pair)) == 0) by (nonlinear_arith);
    }
}

/// There are exactly as many threats as there are indices.
pub proof fn law_number_of_threats()
    ensures
        pair_base(324) == HALFKA2_THREAT_DIMENSIONS,
{
    lemma_pair_base(324);
}

pub proof fn lemma_attacked_below_grows(
    class: ThreatClass,
    color: Color,
    from: int,
    m: int,
    n: int,
)
    requires
        0 <= m <= n,
    ensures
        threat_class::attacked_below(class, color, from, m) <= threat_class::attacked_below(
            class,
            color,
            from,
            n,
        ) <= threat_class::attacked_below(class, color, from, m) + (n - m),
    decreases n,
{
    if m < n {
        lemma_attacked_below_grows(class, color, from, m, n - 1);
    }
}

pub proof fn lemma_attacks_from_below_grows(class: ThreatClass, color: Color, m: int, n: int)
    requires
        0 <= m <= n,
    ensures
        threat_class::attacks_from_below(class, color, m) <= threat_class::attacks_from_below(
            class,
            color,
            n,
        ),
    decreases n,
{
    if m < n {
        lemma_attacks_from_below_grows(class, color, m, n - 1);
    }
}

pub proof fn lemma_pair_base_grows(m: int, n: int)
    requires
        0 <= m <= n,
    ensures
        pair_base(m) <= pair_base(n),
    decreases n,
{
    if m < n {
        lemma_pair_base_grows(m, n - 1);
    }
}

/// Where the index of a threat lies: within its combination, within the attacks from its square,
/// and below all that comes after it.
pub proof fn lemma_full_index_bounds(pair: int, from: int, to: int)
    requires
        is_threat(pair, from, to),
    ensures
        ({
            let class = pair_class(pair);
            let color = pair_color(pair);
            let here = pair_base(pair) + threat_class::attacks_from_below(class, color, from);
            &&& here <= full_index(pair, from, to)
            &&& full_index(pair, from, to) < here + threat_class::attacked_below(
                class,
                color,
                from,
                to + 1,
            ) <= pair_base(pair) + threat_class::attacks_from_below(class, color, from + 1)
            &&& pair_base(pair) + threat_class::attacks_from_below(class, color, from + 1)
                <= pair_base(pair + 1)
        }),
{
    let class = pair_class(pair);
    let color = pair_color(pair);
    lemma_attacked_below_grows(class, color, from, to + 1, 81);
    lemma_attacks_from_below_grows(class, color, from + 1, 81);
}

/// Every threat has an index below the number of threats.
pub proof fn law_full_index_in_range(pair: int, from: int, to: int)
    requires
        is_threat(pair, from, to),
    ensures
        full_index(pair, from, to) < HALFKA2_THREAT_DIMENSIONS,
{
    law_number_of_threats();
    lemma_full_index_bounds(pair, from, to);
    lemma_pair_base_grows(pair + 1, 324);
}

/// Threats are numbered in the order of their combination, then of the attacker's square, then of
/// the target's square.
pub proof fn law_full_index_follows_order(
    pair1: int,
    from1: int,
    to1: int,
    pair2: int,
    from2: int,
    to2: int,
)
    requires
        is_threat(pair1, from1, to1),
        is_threat(pair2, from2, to2),
        pair1 < pair2 || (pair1 == pair2 && (from1 < from2 || (from1 == from2 && to1 < to2))),
    ensures
        full_index(pair1, from1, to1) < full_index(pair2, from2, to2),
{
    lemma_full_index_bounds(pair1, from1, to1);
    lemma_full_index_bounds(pair2, from2, to2);
    let class = pair_class(pair1);
    let color = pair_color(pair1);
    if pair1 < pair2 {
        lemma_pair_base_grows(pair1 + 1, pair2);
    } else if from1 < from2 {
        lemma_attacks_from_below_grows(class, color, from1 + 1, from2);
    } else {
        lemma_attacked_below_grows(class, color, from1, to1 + 1, to2);
    }
}

/// Different threats have different indices.
pub proof fn law_full_index_is_unique(
    pair1: int,
    from1: int,
    to1: int,
    pair2: int,
    from2: int,
    to2: int,
)
    requires
        is_threat(pair1, from1, to1),
        is_threat(pair2, from2, to2),
        full_index(pair1, from1, to1) == full_index(pair2, from2, to2),
    ensures
        pair1 == pair2,
        from1 == from2,
        to1 == to2,
{
    if pair1 < pair2 || (pair1 == pair2 && (from1 < from2 || (from1 == from2 && to1 < to2))) {
        law_full_index_follows_order(pair1, from1, to1, pair2, from2, to2);
    } else if pair1 != pair2 || from1 != from2 || to1 != to2 {
        law_full_index_follows_order(pair2, from2, to2, pair1, from1, to1);
    }
}

proof fn lemma_find_pair(x: int, n: int) -> (pair: int)
    requires
        0 <= x < pair_base(n),
    ensures
        0 <= pair < n,
        pair_base(pair) <= x < pair_base(pair + 1),
    decreases n,
{
    if x >= pair_base(n - 1) {
        n - 1
    } else {
        lemma_find_pair(x, n - 1)
    }
}

proof fn lemma_find_from(class: ThreatClass, color: Color, x: int, n: int) -> (from: int)
    requires
        0 <= x < threat_class::attacks_from_below(class, color, n),
    ensures
        0 <= from < n,
        threat_class::attacks_from_below(class, color, from) <= x
            < threat_class::attacks_from_below(class, color, from + 1),
    decreases n,
{
    if x >= threat_class::attacks_from_below(class, color, n - 1) {
        n - 1
    } else {
        lemma_find_from(class, color, x, n - 1)
    }
}

proof fn lemma_find_to(class: ThreatClass, color: Color, from: int, x: int, n: int) -> (to: int)
    requires
        0 <= x < threat_class::attacked_below(class, color, from, n),
    ensures
        0 <= to < n,
        threat_class::attacks(class, color, from, to),
        threat_class::attacked_below(class, color, from, to) == x,
    decreases n,
{
    if x >= threat_class::attacked_below(class, color, from, n - 1) {
        n - 1
    } else {
        lemma_find_to(class, color, from, x, n - 1)
    }
}

/// Every index below the number of threats belongs to some threat.
pub proof fn law_every_index_is_a_threat(full: int) -> (threat: (int, int, int))
    requires
        0 <= full < HALFKA2_THREAT_DIMENSIONS,
    ensures
        is_threat(threat.0, threat.1, threat.2),
        full_index(threat.0, threat.1, threat.2) == full,
{
    law_number_of_threats();
    let pair = lemma_find_pair(full, 324);
    let class = pair_class(pair);
    let color = pair_color(pair);
    let in_pair = full - pair_base(pair);
    let from = lemma_find_from(class, color, in_pair, 81);
    let rest = in_pair - threat_class::attacks_from_below(class, color, from);
    let to = lemma_find_to(class, color, from, rest, 81);
    (pair, from, to)
}

/// Leaving out the attacker's square, a threat's index still tells the combination and the
/// target's square, and stays below 324 times 81.
pub proof fn law_lite_index_tells_pair_and_target(pair: int, to: int)
    requires
        0 <= pair < 324,
        0 <= to < 81,
    ensures
        0 <= lite_index(pair, to) < 26_244,
        lite_index(pair, to) / 81 == pair,
        lite_index(pair, to) % 81 == to,
{
}

/// The first indices of the combinations, and the number of threats.
pub fn build_pair_base(profile: ThreatProfile) -> (r: (Vec<usize>, usize))
    ensures
        r.0@.len() == NUM_PAIRS,
        forall|pair: int| 0 <= pair < NUM_PAIRS ==> #[trigger] r.0@[pair] == pair_base(pair),
        r.1 == HALFKA2_THREAT_DIMENSIONS,
{
    let mut bases: Vec<usize> = Vec::new();
    let mut next: usize = 0;
    let mut pair: usize = 0;
    while pair < NUM_PAIRS
        invariant
            pair <= NUM_PAIRS,
            bases@.len() == pair,
            next == pair_base(pair as int),
            next <= HALFKA2_THREAT_DIMENSIONS,
            forall|p: int| 0 <= p < pair ==> #[trigger] bases@[p] == pair_base(p),
        decreases NUM_PAIRS - pair,
    {
        bases.push(next);
        let class = ThreatClass::from_index((pair % 162) / 18);
        let ghost color = pair_color(pair as int);
        proof {
            threat_class::law_class_attacks(class, color);
            law_number_of_threats();
            lemma_pair_base_grows(pair + 1, 324);
        }
        next = next + threat_class::class_attack_count(class);
        pair = pair + 1;
    }
    proof {
        law_number_of_threats();
    }
    (bases, next)
}

/// The class of attack pattern `pattern`.
pub open spec fn pattern_class(pattern: int) -> ThreatClass {
    if pattern < 9 {
        ThreatClass::numbered(pattern)
    } else {
        ThreatClass::numbered(pattern - 9)
    }
}

/// The side of attack pattern `pattern`.
pub open spec fn pattern_color(pattern: int) -> Color {
    if pattern < 9 {
        Color::Black
    } else {
        Color::White
    }
}

/// The pattern in which a class attacks for a side. White has patterns of its own for the first
/// five classes; the others attack alike for both sides.
pub open spec fn pattern_of(class: ThreatClass, color: Color) -> int {
    if color == Color::White && class.number() < 5 {
        class.number() + 9
    } else {
        class.number()
    }
}

pub fn attack_pattern_id(class: ThreatClass, color: Color) -> (pattern: usize)
    ensures
        pattern == pattern_of(class, color),
        pattern < NUM_ATTACK_PATTERNS,
{
    let n: usize = class.index();
    match color {
        Color::Black => n,
        Color::White => if n < 5 {
            n + 9
        } else {
            n
        },
    }
}

pub proof fn lemma_pattern_attacks(class: ThreatClass, color: Color, from: int, n: int)
    requires
        0 <= n,
    ensures
        ({
            let p = pattern_of(class, color);
            threat_class::attacked_below(pattern_class(p), pattern_color(p), from, n)
                == threat_class::attacked_below(class, color, from, n)
        }),
    decreases n,
{
    let p = pattern_of(class, color);
    assert(pattern_class(p) == class);
    if n > 0 {
        lemma_pattern_attacks(class, color, from, n - 1);
        if pattern_color(p) != color {
            assert(class.number() >= 5);
        }
    }
}

pub proof fn lemma_pattern_attacks_from(class: ThreatClass, color: Color, n: int)
    requires
        0 <= n,
    ensures
        ({
            let p = pattern_of(class, color);
            threat_class::attacks_from_below(pattern_class(p), pattern_color(p), n)
                == threat_class::attacks_from_below(class, color, n)
        }),
    decreases n,
{
    if n > 0 {
        lemma_pattern_attacks_from(class, color, n - 1);
        lemma_pattern_attacks(class, color, n - 1, 81);
    }
}

} // verus!
