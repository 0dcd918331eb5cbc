//! HalfKA2 features joined with threat effects: how often each side attacks each piece.
//!
//! The inputs are laid out as `[HalfKA2 131,949][ThreatEffect 26,244]`. Every piece that is no
//! king gives two features, one for each attacking side: they tell on which side the attacker and
//! the piece are, the class and the square of the piece, and how many long and how many short
//! effects the attacking side, its king included, exerts on it: none, one, or more.
use vstd::prelude::*;

use crate::movement;
use crate::shogi;
use crate::shogi::Color;
use crate::shogi::ShogiBoard;
use crate::shogi::Square;
use crate::shogi_halfka2_threat;
use crate::shogi_halfka2_threat::HALFKA2_DIMENSIONS;
use crate::threat_class::ThreatClass;

verus! {

/// Number of effect features: sides and class, squares, and three buckets of each kind of effect.
pub const HALFKA2_THREATEFFECT_DIMENSIONS: usize = 2 * 2 * 9 * 81 * 3 * 3;

/// Number of HalfKA2 and effect features together.
pub const HALFKA2_THREATEFFECT_TOTAL_DIMENSIONS: usize = HALFKA2_DIMENSIONS
    + HALFKA2_THREATEFFECT_DIMENSIONS;

/// How many effect features are active at most.
pub const MAX_ACTIVE_EFFECT_FEATURES: usize = 80;

/// The bucket of a number of effects: none, one, or more.
pub open spec fn bucket_of(n: int) -> int {
    if n >= 2 {
        2
    } else {
        n
    }
}

pub fn bucket(n: u8) -> (b: usize)
    ensures
        b == bucket_of(n as int),
        b < 3,
{
    if n >= 2 {
        2
    } else {
        n as usize
    }
}

/// None, one, two and more effects are told apart, and nothing else is: two numbers of effects have
/// the same bucket exactly if they are equal or both are two or more.
pub proof fn law_buckets_keep_apart(m: int, n: int)
    requires
        0 <= m,
        0 <= n,
    ensures
        bucket_of(m) == bucket_of(n) <==> m == n || (m >= 2 && n >= 2),
        bucket_of(0) == 0,
        bucket_of(1) == 1,
        bucket_of(2) == 2,
        m <= n ==> bucket_of(m) <= bucket_of(n),
{
}

/// The index of an effect feature.
pub open spec fn effect_index_of(
    attacker_side: int,
    defender_side: int,
    class: ThreatClass,
    to: int,
    long_bucket: int,
    short_bucket: int,
) -> int {
    (((attacker_side * 18 + defender_side * 9 + class.number()) * 81 + to) * 3 + long_bucket) * 3
        + short_bucket
}

pub fn effect_index(
    attacker_side: usize,
    defender_side: usize,
    dc: ThreatClass,
    to_n: Square,
    lb: usize,
    sb: usize,
) -> (index: usize)
    requires
        attacker_side < 2,
        defender_side < 2,
        to_n.is_valid(),
        lb < 3,
        sb < 3,
    ensures
        index == effect_index_of(
            attacker_side as int,
            defender_side as int,
            dc,
            to_n.0 as int,
            lb as int,
            sb as int,
        ),
        index < HALFKA2_THREATEFFECT_DIMENSIONS,
{
    let group: usize = attacker_side * 18 + defender_side * 9 + dc.index();
    ((group * 81 + to_n.index()) * 3 + lb) * 3 + sb
}

/// The index of an effect feature tells everything that it was made from.
pub proof fn law_effect_index_is_unique(
    as1: int,
    ds1: int,
    class1: ThreatClass,
    to1: int,
    lb1: int,
    sb1: int,
    as2: int,
    ds2: int,
    class2: ThreatClass,
    to2: int,
    lb2: int,
    sb2: int,
)
    requires
        0 <= as1 < 2 && 0 <= ds1 < 2 && 0 <= to1 < 81 && 0 <= lb1 < 3 && 0 <= sb1 < 3,
        0 <= as2 < 2 && 0 <= ds2 < 2 && 0 <= to2 < 81 && 0 <= lb2 < 3 && 0 <= sb2 < 3,
        effect_index_of(as1, ds1, class1, to1, lb1, sb1) == effect_index_of(
            as2,
            ds2,
            class2,
            to2,
            lb2,
            sb2,
        ),
    ensures
        as1 == as2,
        ds1 == ds2,
        class1 == class2,
        to1 == to2,
        lb1 == lb2,
        sb1 == sb2,
{
    let (g1, g2) = (as1 * 18 + ds1 * 9 + class1.number(), as2 * 18 + ds2 * 9 + class2.number());
    assert(0 <= class1.number() < 9 && 0 <= class2.number() < 9);
    assert((g1 * 81 + to1) * 3 + lb1 == (g2 * 81 + to2) * 3 + lb2);
    assert(g1 * 81 + to1 == g2 * 81 + to2);
    assert(g1 == g2);
}

/// The index of an effect feature has a place for each thing that it was made from.
pub proof fn law_effect_index_tells_its_parts(
    attacker_side: int,
    defender_side: int,
    class: ThreatClass,
    to: int,
    long_bucket: int,
    short_bucket: int,
)
    requires
        0 <= attacker_side < 2,
        0 <= defender_side < 2,
        0 <= to < 81,
        0 <= long_bucket < 3,
        0 <= short_bucket < 3,
    ensures
        ({
            let index = effect_index_of(
                attacker_side,
                defender_side,
                class,
                to,
                long_bucket,
                short_bucket,
            );
            &&& index % 3 == short_bucket
            &&& (index / 3) % 3 == long_bucket
            &&& (index / 9) % 81 == to
            &&& (index / 729) % 9 == class.number()
            &&& (index / 6_561) % 2 == defender_side
            &&& index / 13_122 == attacker_side
        }),
{
    let index = effect_index_of(attacker_side, defender_side, class, to, long_bucket, short_bucket);
    let m = class.number();
    assert(0 <= m < 9);
    let with_class = attacker_side * 18 + defender_side * 9 + m;
    let with_square = with_class * 81 + to;
    assert(index / 3 == with_square * 3 + long_bucket);
    assert(index / 9 == with_square);
    assert(index / 729 == with_class);
    assert(with_class % 9 == m);
    assert(index / 6_561 == attacker_side * 2 + defender_side);
}

/// Whether `color` has a piece on `from` that exerts a long (or a short) effect on `to`.
pub open spec fn exerts(board: &ShogiBoard, color: Color, from: int, to: int, long: bool) -> bool {
    let piece = board.at(from);
    &&& !piece.is_none()
    &&& piece.color == color
    &&& movement::reaches(board, piece.piece_type, color, from, to, long)
}

/// How many of the pieces of `color` on the squares below `n` exert a long (or a short) effect on
/// `to`.
pub open spec fn effects_below(
    board: &ShogiBoard,
    color: Color,
    to: int,
    long: bool,
    n: int,
) -> nat
    decreases n,
{
    if n <= 0 {
        0
    } else {
        effects_below(board, color, to, long, n - 1) + if exerts(board, color, n - 1, to, long) {
            1nat
        } else {
            0
        }
    }
}

/// How many long (or short) effects the pieces of `color` exert on `to`.
pub open spec fn effect_count(board: &ShogiBoard, color: Color, to: int, long: bool) -> nat {
    effects_below(board, color, to, long, 81)
}

proof fn lemma_few_effects(board: &ShogiBoard, color: Color, to: int, long: bool, n: int)
    requires
        0 <= n,
    ensures
        effects_below(board, color, to, long, n) <= n,
    decreases n,
{
    if n > 0 {
        lemma_few_effects(board, color, to, long, n - 1);
    }
}

/// One, if an effect of this kind on `to` is among those listed.
spec fn listed(effects: Seq<(Square, bool)>, to: int, long: bool) -> nat {
    if effects.contains((Square(to as u8), long)) {
        1
    } else {
        0
    }
}

proof fn lemma_list_one_more(effects: Seq<(Square, bool)>, i: int, to: int, long: bool)
    requires
        0 <= i < effects.len(),
        0 <= to < 81,
        forall|j: int, k: int|
            0 <= j < k < effects.len() ==> (#[trigger] effects[j]).0 != (#[trigger] effects[k]).0,
    ensures
        listed(effects.take(i + 1), to, long) == listed(effects.take(i), to, long) + (if effects[i]
            == (Square(to as u8), long) {
            1nat
        } else {
            0
        }),
{
    let e = (Square(to as u8), long);
    let before = effects.take(i);
    let after = effects.take(i + 1);
    assert(after =~= before.push(effects[i]));
    if effects[i] == e {
        assert(after[i] == e);
        if before.contains(e) {
            let k = choose|k: int| 0 <= k < before.len() && before[k] == e;
            assert(effects[k].0 != effects[i].0);
        }
    } else {
        if after.contains(e) {
            let k = choose|k: int| 0 <= k < after.len() && after[k] == e;
            assert(before[k] == e);
        }
        if before.contains(e) {
            let k = choose|k: int| 0 <= k < before.len() && before[k] == e;
            assert(after[k] == e);
        }
    }
}

/// The index, as `perspective` sees it, of the feature that tells how `attacker` attacks the piece
/// on `sq`.
pub open spec fn seen_effect(
    board: &ShogiBoard,
    perspective: Color,
    attacker: Color,
    sq: int,
) -> int {
    effect_index_of(
        shogi_halfka2_threat::side_of(attacker, perspective),
        shogi_halfka2_threat::side_of(board.at(sq).color, perspective),
        shogi_halfka2_threat::class_at(board, sq),
        shogi::normalized(sq, perspective),
        bucket_of(effect_count(board, attacker, sq, true) as int),
        bucket_of(effect_count(board, attacker, sq, false) as int),
    )
}

/// The feature that tells how `attacker` attacks the piece on `sq`: its index as the side to move
/// sees it, and its index as the other side sees it.
pub open spec fn effect_feature(board: &ShogiBoard, attacker: Color, sq: int) -> (usize, usize) {
    let stm = board.side_to_move;
    (
        seen_effect(board, stm, attacker, sq) as usize,
        seen_effect(board, stm.opponent(), attacker, sq) as usize,
    )
}

/// The pieces below square `n` that are no kings.
pub open spec fn pieces_below(board: &ShogiBoard, n: int) -> Seq<int>
    decreases n,
{
    if n <= 0 {
        seq![]
    } else if shogi_halfka2_threat::has_class(board, n - 1) {
        pieces_below(board, n - 1).push(n - 1)
    } else {
        pieces_below(board, n - 1)
    }
}

/// The features of the pieces on `squares`: for each how Black, then how White attacks it.
pub open spec fn as_effect_features(board: &ShogiBoard, squares: Seq<int>) -> Seq<(usize, usize)> {
    Seq::new(
        2 * squares.len(),
        |i: int|
            effect_feature(
                board,
                if i % 2 == 0 {
                    Color::Black
                } else {
                    Color::White
                },
                squares[i / 2],
            ),
    )
}

/// All effect features of a position; none where a king is missing.
pub open spec fn effect_features(board: &ShogiBoard) -> Seq<(usize, usize)> {
    if board.has_both_kings() {
        as_effect_features(board, pieces_below(board, 81))
    } else {
        seq![]
    }
}

/// The index of an effect feature is in range for both sides.
proof fn lemma_seen_effect(board: &ShogiBoard, perspective: Color, attacker: Color, sq: int)
    requires
        0 <= sq < 81,
    ensures
        0 <= seen_effect(board, perspective, attacker, sq) < HALFKA2_THREATEFFECT_DIMENSIONS,
{
    let group = shogi_halfka2_threat::side_of(attacker, perspective) * 18
        + shogi_halfka2_threat::side_of(board.at(sq).color, perspective) * 9
        + shogi_halfka2_threat::class_at(board, sq).number();
    assert(0 <= group < 36);
}

pub proof fn lemma_pieces_below(board: &ShogiBoard, n: int)
    requires
        0 <= n <= 81,
    ensures
        forall|i: int|
            0 <= i < pieces_below(board, n).len() ==> 0 <= #[trigger] pieces_below(board, n)[i] < n
                && shogi_halfka2_threat::has_class(board, pieces_below(board, n)[i]),
        forall|i: int, j: int|
            0 <= i < j < pieces_below(board, n).len() ==> #[trigger] pieces_below(board, n)[i]
                < #[trigger] pieces_below(board, n)[j],
        forall|sq: int|
            0 <= sq < n && shogi_halfka2_threat::has_class(board, sq) ==> #[trigger] pieces_below(
                board,
                n,
            ).contains(sq),
    decreases n,
{
    if n > 0 {
        lemma_pieces_below(board, n - 1);
        let before = pieces_below(board, n - 1);
        let list = pieces_below(board, n);
        assert forall|sq: int|
            0 <= sq < n && shogi_halfka2_threat::has_class(board, sq) implies #[trigger] list.contains(
            sq,
        ) by {
            if sq == n - 1 {
                assert(list[list.len() - 1] == sq);
            } else {
                assert(before.contains(sq));
                let i = choose|i: int| 0 <= i < before.len() && before[i] == sq;
                assert(list[i] == sq);
            }
        }
    }
}

/// Each piece that is no king is listed once, provided that both kings are on the board, and gives
/// exactly two features: one for either attacking side, even if that side does not attack it.
pub proof fn law_two_features_for_each_piece(board: &ShogiBoard)
    requires
        board.has_both_kings(),
    ensures
        effect_features(board).len() == 2 * pieces_below(board, 81).len(),
        pieces_below(board, 81).no_duplicates(),
        forall|sq: int|
            pieces_below(board, 81).contains(sq) <==> 0 <= sq < 81
                && #[trigger] shogi_halfka2_threat::has_class(board, sq),
        forall|i: int|
            0 <= i < pieces_below(board, 81).len() ==> {
                &&& effect_features(board)[2 * i] == effect_feature(
                    board,
                    Color::Black,
                    #[trigger] pieces_below(board, 81)[i],
                )
                &&& effect_features(board)[2 * i + 1] == effect_feature(
                    board,
                    Color::White,
                    pieces_below(board, 81)[i],
                )
            },
{
    lemma_pieces_below(board, 81);
    let list = pieces_below(board, 81);
    assert forall|sq: int|
        list.contains(sq) implies 0 <= sq < 81 && #[trigger] shogi_halfka2_threat::has_class(
        board,
        sq,
    ) by {
        let i = choose|i: int| 0 <= i < list.len() && list[i] == sq;
    }
}

/// Every index of an effect feature, for either side, is in range.
pub proof fn law_effect_features_in_range(board: &ShogiBoard)
    ensures
        ({
            let features = effect_features(board);
            forall|i: int|
                0 <= i < features.len() ==> {
                    &&& (#[trigger] features[i]).0 < HALFKA2_THREATEFFECT_DIMENSIONS
                    &&& features[i].1 < HALFKA2_THREATEFFECT_DIMENSIONS
                }
        }),
{
    let features = effect_features(board);
    lemma_pieces_below(board, 81);
    let stm = board.side_to_move;
    assert forall|i: int| 0 <= i < features.len() implies {
        &&& (#[trigger] features[i]).0 < HALFKA2_THREATEFFECT_DIMENSIONS
        &&& features[i].1 < HALFKA2_THREATEFFECT_DIMENSIONS
    } by {
        let attacker = if i % 2 == 0 {
            Color::Black
        } else {
            Color::White
        };
        lemma_seen_effect(board, stm, attacker, pieces_below(board, 81)[i / 2]);
        lemma_seen_effect(board, stm.opponent(), attacker, pieces_below(board, 81)[i / 2]);
    }
}

proof fn lemma_seen_effects_differ(
    board: &ShogiBoard,
    perspective: Color,
    attacker1: Color,
    sq1: int,
    attacker2: Color,
    sq2: int,
)
    requires
        0 <= sq1 < 81,
        0 <= sq2 < 81,
        attacker1 != attacker2 || sq1 != sq2,
    ensures
        seen_effect(board, perspective, attacker1, sq1) != seen_effect(
            board,
            perspective,
            attacker2,
            sq2,
        ),
{
    if seen_effect(board, perspective, attacker1, sq1) == seen_effect(
        board,
        perspective,
        attacker2,
        sq2,
    ) {
        law_effect_index_is_unique(
            shogi_halfka2_threat::side_of(attacker1, perspective),
            shogi_halfka2_threat::side_of(board.at(sq1).color, perspective),
            shogi_halfka2_threat::class_at(board, sq1),
            shogi::normalized(sq1, perspective),
            bucket_of(effect_count(board, attacker1, sq1, true) as int),
            bucket_of(effect_count(board, attacker1, sq1, false) as int),
            shogi_halfka2_threat::side_of(attacker2, perspective),
            shogi_halfka2_threat::side_of(board.at(sq2).color, perspective),
            shogi_halfka2_threat::class_at(board, sq2),
            shogi::normalized(sq2, perspective),
            bucket_of(effect_count(board, attacker2, sq2, true) as int),
            bucket_of(effect_count(board, attacker2, sq2, false) as int),
        );
    }
}

/// No two effect features of a position have the same index, for either side.
pub proof fn law_effect_features_are_distinct(board: &ShogiBoard)
    ensures
        ({
            let features = effect_features(board);
            forall|i: int, j: int|
                0 <= i < j < features.len() ==> {
                    &&& (#[trigger] features[i]).0 != (#[trigger] features[j]).0
                    &&& features[i].1 != features[j].1
                }
        }),
{
    let features = effect_features(board);
    let list = pieces_below(board, 81);
    lemma_pieces_below(board, 81);
    let stm = board.side_to_move;
    assert forall|i: int, j: int| 0 <= i < j < features.len() implies {
        &&& (#[trigger] features[i]).0 != (#[trigger] features[j]).0
        &&& features[i].1 != features[j].1
    } by {
        let a1 = if i % 2 == 0 {
            Color::Black
        } else {
            Color::White
        };
        let a2 = if j % 2 == 0 {
            Color::Black
        } else {
            Color::White
        };
        let (sq1, sq2) = (list[i / 2], list[j / 2]);
        if i / 2 < j / 2 {
            assert(sq1 < sq2);
        }
        lemma_seen_effect(board, stm, a1, sq1);
        lemma_seen_effect(board, stm.opponent(), a1, sq1);
        lemma_seen_effect(board, stm, a2, sq2);
        lemma_seen_effect(board, stm.opponent(), a2, sq2);
        lemma_seen_effects_differ(board, stm, a1, sq1, a2, sq2);
        lemma_seen_effects_differ(board, stm.opponent(), a1, sq1, a2, sq2);
    }
}

/// The HalfKA2 and effect inputs.
#[derive(Clone, Copy, Debug)]
pub struct ShogiHalfKa2ThreatEffect;

impl ShogiHalfKa2ThreatEffect {
    /// Counts the effects on every square: Black's first, then White's, and for each the long
    /// ones and the short ones.
    pub fn effect_counts(board: &ShogiBoard) -> (counts: [[(u8, u8); 81]; 2])
        ensures
            forall|to: int|
                0 <= to < 81 ==> {
                    &&& (#[trigger] counts@[0]@[to]).0 == effect_count(board, Color::Black, to, true)
                    &&& counts@[0]@[to].1 == effect_count(board, Color::Black, to, false)
                },
            forall|to: int|
                0 <= to < 81 ==> {
                    &&& (#[trigger] counts@[1]@[to]).0 == effect_count(board, Color::White, to, true)
                    &&& counts@[1]@[to].1 == effect_count(board, Color::White, to, false)
                },
    {
        let black = Self::effect_counts_of(board, Color::Black);
        let white = Self::effect_counts_of(board, Color::White);
        [black, white]
    }

    /// Counts the effects of one side on every square: the long ones and the short ones.
    fn effect_counts_of(board: &ShogiBoard, color: Color) -> (counts: [(u8, u8); 81])
        ensures
            forall|to: int|
                0 <= to < 81 ==> {
                    &&& (#[trigger] counts@[to]).0 == effect_count(board, color, to, true)
                    &&& counts@[to].1 == effect_count(board, color, to, false)
                },
    {
        let mut counts: [(u8, u8); 81] = [(0u8, 0u8);81];
        let mut sq: u8 = 0;
        while sq < 81
            invariant
                sq <= 81,
                forall|to: int|
                    0 <= to < 81 ==> {
                        &&& (#[trigger] counts@[to]).0 == effects_below(
                            board,
                            color,
                            to,
                            true,
                            sq as int,
                        )
                        &&& counts@[to].1 == effects_below(board, color, to, false, sq as int)
                    },
            decreases 81 - sq,
        {
            let from = Square(sq);
            let piece = board.piece_on(from);
            if piece.is_none() || piece.color != color {
                sq = sq + 1;
                continue ;
            }
            let effects = movement::for_each_effect(piece.piece_type, color, from, board);
            proof {
                movement::law_effects_are_distinct(board, piece.piece_type, color, sq as int);
                assert(effects@.take(0) =~= seq![]);
            }
            let mut i: usize = 0;
            while i < effects.len()
                invariant
                    sq < 81,
                    i <= effects@.len(),
                    forall|j: int|
                        0 <= j < effects@.len() ==> (#[trigger] effects@[j]).0.is_valid(),
                    forall|j: int, k: int|
                        0 <= j < k < effects@.len() ==> (#[trigger] effects@[j]).0 != (
                        #[trigger] effects@[k]).0,
                    forall|to: int|
                        0 <= to < 81 ==> {
                            &&& (#[trigger] counts@[to]).0 == effects_below(
                                board,
                                color,
                                to,
                                true,
                                sq as int,
                            ) + listed(effects@.take(i as int), to, true)
                            &&& counts@[to].1 == effects_below(board, color, to, false, sq as int)
                                + listed(effects@.take(i as int), to, false)
                        },
                decreases effects@.len() - i,
            {
                let (to, is_long) = effects[i];
                let (long, short) = counts[to.index()];
                let ghost old_counts = counts@;
                proof {
                    lemma_few_effects(board, color, to.0 as int, true, sq as int);
                    lemma_few_effects(board, color, to.0 as int, false, sq as int);
                    lemma_list_one_more(effects@, i as int, to.0 as int, true);
                    lemma_list_one_more(effects@, i as int, to.0 as int, false);
                    assert(effects@[i as int] == (Square(to.0), is_long));
                }
                if is_long {
                    counts[to.index()] = (long.saturating_add(1), short);
                } else {
                    counts[to.index()] = (long, short.saturating_add(1));
                }
                assert forall|t: int| 0 <= t < 81 implies {
                    &&& (#[trigger] counts@[t]).0 == effects_below(board, color, t, true, sq as int)
                        + listed(effects@.take(i + 1), t, true)
                    &&& counts@[t].1 == effects_below(board, color, t, false, sq as int) + listed(
                        effects@.take(i + 1),
                        t,
                        false,
                    )
                } by {
                    lemma_list_one_more(effects@, i as int, t, true);
                    lemma_list_one_more(effects@, i as int, t, false);
                }
                i = i + 1;
            }
            assert(effects@.take(effects@.len() as int) =~= effects@);
            assert forall|to: int| 0 <= to < 81 implies {
                &&& (#[trigger] counts@[to]).0 == effects_below(board, color, to, true, sq + 1)
                &&& counts@[to].1 == effects_below(board, color, to, false, sq + 1)
            } by {
                movement::law_effects_are_what_is_reached(
                    board,
                    piece.piece_type,
                    color,
                    sq as int,
                    to,
                    true,
                );
                movement::law_effects_are_what_is_reached(
                    board,
                    piece.piece_type,
                    color,
                    sq as int,
                    to,
                    false,
                );
            }
            sq = sq + 1;
        }
        counts
    }

    /// The index of the feature that tells how `attacker` attacks the piece on `sq`, for one side.
    fn effect_seen_by(
        board: &ShogiBoard,
        perspective: Color,
        attacker: Color,
        sq: Square,
        class: ThreatClass,
        counts: (u8, u8),
    ) -> (index: usize)
        requires
            sq.is_valid(),
            shogi_halfka2_threat::has_class(board, sq.0 as int),
            class == shogi_halfka2_threat::class_at(board, sq.0 as int),
            counts.0 == effect_count(board, attacker, sq.0 as int, true),
            counts.1 == effect_count(board, attacker, sq.0 as int, false),
        ensures
            index == seen_effect(board, perspective, attacker, sq.0 as int),
    {
        let defender = board.piece_on(sq).color;
        effect_index(
            if attacker == perspective {
                0
            } else {
                1
            },
            if defender == perspective {
                0
            } else {
                1
            },
            class,
            shogi::normalize_sq(sq, perspective),
            bucket(counts.0),
            bucket(counts.1),
        )
    }

    /// Lists the effect features of a position, each as the side to move and as the other side
    /// sees it. The indices are those of the effect part alone.
    pub fn map_effect_only(&self, board: &ShogiBoard) -> (features: Vec<(usize, usize)>)
        ensures
            features@ == effect_features(board),
    {
        let stm = board.side_to_move;
        let nstm = stm.opponent();
        let mut features: Vec<(usize, usize)> = Vec::new();
        if !board.king_square(stm).is_valid() || !board.king_square(nstm).is_valid() {
            return features;
        }
        let counts = Self::effect_counts(board);
        let mut n: u8 = 0;
        assert(features@ =~= as_effect_features(board, pieces_below(board, 0)));
        while n < 81
            invariant
                n <= 81,
                stm == board.side_to_move,
                nstm == stm.opponent(),
                forall|to: int|
                    0 <= to < 81 ==> {
                        &&& (#[trigger] counts@[0]@[to]).0 == effect_count(
                            board,
                            Color::Black,
                            to,
                            true,
                        )
                        &&& counts@[0]@[to].1 == effect_count(board, Color::Black, to, false)
                    },
                forall|to: int|
                    0 <= to < 81 ==> {
                        &&& (#[trigger] counts@[1]@[to]).0 == effect_count(
                            board,
                            Color::White,
                            to,
                            true,
                        )
                        &&& counts@[1]@[to].1 == effect_count(board, Color::White, to, false)
                    },
                features@ == as_effect_features(board, pieces_below(board, n as int)),
            decreases 81 - n,
        {
            let sq = Square(n);
            let ghost list = pieces_below(board, n as int);
            n = n + 1;
            let class = match ThreatClass::from_piece_type(board.piece_on(sq).piece_type) {
                Some(class) => class,
                None => {
                    continue ;
                },
            };
            let black = counts[0][sq.index()];
            let white = counts[1][sq.index()];
            assert(counts@[0]@[sq.0 as int] == black);
            assert(counts@[1]@[sq.0 as int] == white);
            features.push(
                (
                    Self::effect_seen_by(board, stm, Color::Black, sq, class, black),
                    Self::effect_seen_by(board, nstm, Color::Black, sq, class, black),
                ),
            );
            features.push(
                (
                    Self::effect_seen_by(board, stm, Color::White, sq, class, white),
                    Self::effect_seen_by(board, nstm, Color::White, sq, class, white),
                ),
            );
            assert(features@ =~= as_effect_features(board, list.push(sq.0 as int)));
        }
        features
    }
}

impl Default for ShogiHalfKa2ThreatEffect {
    fn default() -> ShogiHalfKa2ThreatEffect {
        ShogiHalfKa2ThreatEffect
    }
}

} // verus!
