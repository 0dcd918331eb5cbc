//! What holds of the threats of any position.
use vstd::prelude::*;

use crate::movement;
use crate::shogi;
use crate::shogi::Color;
use crate::shogi::ShogiBoard;
use crate::shogi::Square;
use crate::shogi_halfka2_threat;
use crate::shogi_halfka2_threat_effect;
use crate::threat_class;
use crate::threat_class::HALFKA2_THREAT_DIMENSIONS;
use crate::threat_index;

verus! {

/// Whether the piece on `from` threatens the piece on `to`: both are there, neither is a king,
/// and the first reaches the second.
pub open spec fn threatens(board: &ShogiBoard, from: int, to: int) -> bool {
    let piece = board.at(from);
    &&& 0 <= from < 81
    &&& 0 <= to < 81
    &&& shogi_halfka2_threat::has_class(board, from)
    &&& shogi_halfka2_threat::has_class(board, to)
    &&& exists|long: bool| #[trigger]
        movement::reaches(board, piece.piece_type, piece.color, from, to, long)
}

proof fn lemma_threats_from(board: &ShogiBoard, from: int, n: int)
    requires
        0 <= from < 81,
        0 <= n <= shogi_halfka2_threat::effects_at(board, from).len(),
    ensures
        ({
            let list = shogi_halfka2_threat::threats_from(board, from, n);
            let effects = shogi_halfka2_threat::effects_at(board, from);
            &&& forall|i: int|
                0 <= i < list.len() ==> {
                    &&& (#[trigger] list[i]).0 == from
                    &&& shogi_halfka2_threat::has_class(board, list[i].1)
                    &&& exists|k: int| 0 <= k < n && list[i].1 == (#[trigger] effects[k]).0.0
                }
            &&& forall|i: int, j: int|
                0 <= i < j < list.len() ==> #[trigger] list[i] != #[trigger] list[j]
            &&& forall|k: int|
                0 <= k < n && shogi_halfka2_threat::has_class(
                    board,
                    (#[trigger] effects[k]).0.0 as int,
                ) ==> list.contains((from, effects[k].0.0 as int))
        }),
    decreases n,
{
    let list = shogi_halfka2_threat::threats_from(board, from, n);
    let effects = shogi_halfka2_threat::effects_at(board, from);
    if n > 0 {
        lemma_threats_from(board, from, n - 1);
        movement::law_effects_are_distinct(
            board,
            board.at(from).piece_type,
            board.at(from).color,
            from,
        );
        let before = shogi_halfka2_threat::threats_from(board, from, n - 1);
        let to = effects[n - 1].0.0 as int;
        if shogi_halfka2_threat::has_class(board, to) {
            assert(list == before.push((from, to)));
            assert forall|i: int| 0 <= i < before.len() implies #[trigger] before[i] != (
            from,
            to,
        ) by {
                let k = choose|k: int|
                    0 <= k < n - 1 && before[i].1 == (#[trigger] effects[k]).0.0;
                assert(effects[k].0 != effects[n - 1].0);
            }
            assert forall|k: int|
                0 <= k < n && shogi_halfka2_threat::has_class(
                    board,
                    (#[trigger] effects[k]).0.0 as int,
                ) implies list.contains((from, effects[k].0.0 as int)) by {
                let e = (from, effects[k].0.0 as int);
                if k == n - 1 {
                    assert(list[before.len() as int] == e);
                } else {
                    assert(before.contains(e));
                    let i = choose|i: int| 0 <= i < before.len() && before[i] == e;
                    assert(list[i] == e);
                }
            }
            assert forall|i: int| 0 <= i < list.len() implies {
                &&& (#[trigger] list[i]).0 == from
                &&& shogi_halfka2_threat::has_class(board, list[i].1)
                &&& exists|k: int| 0 <= k < n && list[i].1 == (#[trigger] effects[k]).0.0
            } by {
                if i < before.len() {
                    assert(list[i] == before[i]);
                } else {
                    assert(list[i].1 == effects[n - 1].0.0);
                }
            }
        }
    }
}

proof fn lemma_threats_below(board: &ShogiBoard, n: int)
    requires
        0 <= n <= 81,
    ensures
        ({
            let list = shogi_halfka2_threat::threats_below(board, n);
            &&& forall|i: int|
                0 <= i < list.len() ==> {
                    &&& 0 <= (#[trigger] list[i]).0 < n
                    &&& threatens(board, list[i].0, list[i].1)
                }
            &&& forall|i: int, j: int|
                0 <= i < j < list.len() ==> #[trigger] list[i] != #[trigger] list[j]
            &&& forall|from: int, to: int|
                from < n && #[trigger] threatens(board, from, to) ==> list.contains((from, to))
        }),
    decreases n,
{
    let list = shogi_halfka2_threat::threats_below(board, n);
    if n > 0 {
        lemma_threats_below(board, n - 1);
        let before = shogi_halfka2_threat::threats_below(board, n - 1);
        let from = n - 1;
        if shogi_halfka2_threat::has_class(board, from) {
            let effects = shogi_halfka2_threat::effects_at(board, from);
            let piece = board.at(from);
            lemma_threats_from(board, from, effects.len() as int);
            let new = shogi_halfka2_threat::threats_from(board, from, effects.len() as int);
            let m = before.len();
            movement::law_effects_are_distinct(board, piece.piece_type, piece.color, from);
            assert forall|i: int| 0 <= i < list.len() implies {
                &&& 0 <= (#[trigger] list[i]).0 < n
                &&& threatens(board, list[i].0, list[i].1)
            } by {
                if i < m {
                    assert(list[i] == before[i]);
                } else {
                    assert(list[i] == new[i - m]);
                    let k = choose|k: int|
                        0 <= k < effects.len() && new[i - m].1 == (#[trigger] effects[k]).0.0;
                    movement::law_effects_are_what_is_reached(
                        board,
                        piece.piece_type,
                        piece.color,
                        from,
                        effects[k].0.0 as int,
                        effects[k].1,
                    );
                    assert(effects.contains(effects[k]));
                    assert(effects[k] == (Square(effects[k].0.0), effects[k].1));
                }
            }
            assert forall|i: int, j: int| 0 <= i < j < list.len() implies #[trigger] list[i]
                != #[trigger] list[j] by {
                if j < m {
                    assert(list[i] == before[i] && list[j] == before[j]);
                } else if i >= m {
                    assert(list[i] == new[i - m] && list[j] == new[j - m]);
                } else {
                    assert(list[i] == before[i] && list[j] == new[j - m]);
                }
            }
            assert forall|f: int, to: int|
                f < n && #[trigger] threatens(board, f, to) implies list.contains((f, to)) by {
                if f < n - 1 {
                    assert(before.contains((f, to)));
                    let i = choose|i: int| 0 <= i < before.len() && before[i] == (f, to);
                    assert(list[i] == (f, to));
                } else {
                    let long = choose|long: bool| #[trigger]
                        movement::reaches(board, piece.piece_type, piece.color, from, to, long);
                    movement::law_effects_are_what_is_reached(
                        board,
                        piece.piece_type,
                        piece.color,
                        from,
                        to,
                        long,
                    );
                    let k = choose|k: int|
                        0 <= k < effects.len() && effects[k] == (Square(to as u8), long);
                    assert(effects[k].0.0 as int == to);
                    assert(new.contains((from, to)));
                    let i = choose|i: int| 0 <= i < new.len() && new[i] == (from, to);
                    assert(list[m + i] == (from, to));
                }
            }
        } else {
            assert forall|f: int, to: int|
                f < n && #[trigger] threatens(board, f, to) implies list.contains((f, to)) by {
                assert(f < n - 1);
            }
        }
    }
}

/// The threats that are listed are exactly those that there are, provided that both kings are on
/// the board; otherwise none is listed.
pub proof fn law_threats_are_listed(board: &ShogiBoard, from: int, to: int)
    ensures
        shogi_halfka2_threat::threats(board).contains((from, to)) <==> board.has_both_kings()
            && threatens(board, from, to),
{
    lemma_threats_below(board, 81);
    let list = shogi_halfka2_threat::threats(board);
    if list.contains((from, to)) {
        let i = choose|i: int| 0 <= i < list.len() && list[i] == (from, to);
        assert(threatens(board, list[i].0, list[i].1));
    }
}

/// No threat is listed twice.
pub proof fn law_threats_are_listed_once(board: &ShogiBoard)
    ensures
        shogi_halfka2_threat::threats(board).no_duplicates(),
{
    lemma_threats_below(board, 81);
}

/// Whether two targets come in this order among the squares that the piece on `from` reaches.
pub open spec fn reached_in_turn(board: &ShogiBoard, from: int, first: int, second: int) -> bool {
    let list = movement::effects(
        board,
        board.board@[from].piece_type,
        board.board@[from].color,
        from,
    );
    exists|a: int, b: int|
        0 <= a < b < list.len() && (#[trigger] list[a]).0.0 == first && (#[trigger] list[b]).0.0
            == second
}

/// Threats are listed attacker by attacker, from the first square to the last, and those of one
/// attacker in the order in which it reaches the targets.
pub proof fn law_threats_come_in_order(board: &ShogiBoard, i: int, j: int)
    requires
        0 <= i < j < shogi_halfka2_threat::threats(board).len(),
    ensures
        ({
            let (from1, to1) = shogi_halfka2_threat::threats(board)[i];
            let (from2, to2) = shogi_halfka2_threat::threats(board)[j];
            from1 < from2 || (from1 == from2 && reached_in_turn(board, from1, to1, to2))
        }),
{
    lemma_threats_in_order(board, 81, i, j);
}

proof fn lemma_threats_in_order(board: &ShogiBoard, n: int, i: int, j: int)
    requires
        0 <= n <= 81,
        0 <= i < j < shogi_halfka2_threat::threats_below(board, n).len(),
    ensures
        ({
            let (from1, to1) = shogi_halfka2_threat::threats_below(board, n)[i];
            let (from2, to2) = shogi_halfka2_threat::threats_below(board, n)[j];
            from1 < from2 || (from1 == from2 && reached_in_turn(board, from1, to1, to2))
        }),
    decreases n,
{
    if n > 0 {
        let list = shogi_halfka2_threat::threats_below(board, n);
        let before = shogi_halfka2_threat::threats_below(board, n - 1);
        let from = n - 1;
        lemma_threats_below(board, n - 1);
        if j < before.len() {
            lemma_threats_in_order(board, n - 1, i, j);
            assert(list[i] == before[i] && list[j] == before[j]);
        } else {
            let effects = shogi_halfka2_threat::effects_at(board, from);
            let new = shogi_halfka2_threat::threats_from(board, from, effects.len() as int);
            let m = before.len();
            lemma_threats_from(board, from, effects.len() as int);
            assert(list[j] == new[j - m]);
            if i < m {
                assert(list[i] == before[i]);
            } else {
                assert(list[i] == new[i - m]);
                lemma_threats_from_in_order(board, from, effects.len() as int, i - m, j - m);
            }
        }
    }
}

proof fn lemma_threats_from_in_order(board: &ShogiBoard, from: int, n: int, i: int, j: int)
    requires
        0 <= from < 81,
        0 <= n <= shogi_halfka2_threat::effects_at(board, from).len(),
        0 <= i < j < shogi_halfka2_threat::threats_from(board, from, n).len(),
    ensures
        reached_in_turn(
            board,
            from,
            shogi_halfka2_threat::threats_from(board, from, n)[i].1,
            shogi_halfka2_threat::threats_from(board, from, n)[j].1,
        ),
    decreases n,
{
    if n > 0 {
        let list = shogi_halfka2_threat::threats_from(board, from, n);
        let before = shogi_halfka2_threat::threats_from(board, from, n - 1);
        let effects = shogi_halfka2_threat::effects_at(board, from);
        if j < before.len() {
            lemma_threats_from_in_order(board, from, n - 1, i, j);
        } else {
            lemma_threats_from(board, from, n - 1);
            assert(list[i] == before[i]);
            let k = choose|k: int| 0 <= k < n - 1 && before[i].1 == (#[trigger] effects[k]).0.0;
            assert(effects[k].0.0 == list[i].1);
            assert(effects[n - 1].0.0 == list[j].1);
        }
    }
}

proof fn lemma_threat_attacks(board: &ShogiBoard, from: int, to: int)
    requires
        threatens(board, from, to),
    ensures
        threat_class::attacks(
            shogi_halfka2_threat::class_at(board, from),
            board.at(from).color,
            from,
            to,
        ),
{
    let piece = board.at(from);
    let long = choose|long: bool| #[trigger]
        movement::reaches(board, piece.piece_type, piece.color, from, to, long);
    threat_class::law_reached_squares_are_attacked(
        board,
        piece.piece_type,
        piece.color,
        from,
        to,
        long,
    );
}

/// Every index that a threat gets, for either side, is one of a threat.
pub proof fn law_threat_features_in_range(board: &ShogiBoard)
    ensures
        forall|i: int|
            0 <= i < shogi_halfka2_threat::threat_features(board).len() ==> {
                &&& (#[trigger] shogi_halfka2_threat::threat_features(board)[i]).0
                    < HALFKA2_THREAT_DIMENSIONS
                &&& shogi_halfka2_threat::threat_features(board)[i].1 < HALFKA2_THREAT_DIMENSIONS
            },
{
    let list = shogi_halfka2_threat::threats(board);
    let features = shogi_halfka2_threat::threat_features(board);
    let stm = board.side_to_move;
    lemma_threats_below(board, 81);
    assert forall|i: int| 0 <= i < features.len() implies {
        &&& (#[trigger] features[i]).0 < HALFKA2_THREAT_DIMENSIONS
        &&& features[i].1 < HALFKA2_THREAT_DIMENSIONS
    } by {
        let (from, to) = list[i];
        lemma_threat_attacks(board, from, to);
        shogi_halfka2_threat::lemma_seen_threat(board, stm, from, to);
        shogi_halfka2_threat::lemma_seen_threat(board, stm.opponent(), from, to);
    }
}

/// Different threats get different indices, for either side.
pub proof fn law_threat_indices_are_unique(
    board: &ShogiBoard,
    perspective: Color,
    from1: int,
    to1: int,
    from2: int,
    to2: int,
)
    requires
        threatens(board, from1, to1),
        threatens(board, from2, to2),
        shogi_halfka2_threat::seen_threat(board, perspective, from1, to1)
            == shogi_halfka2_threat::seen_threat(board, perspective, from2, to2),
    ensures
        from1 == from2,
        to1 == to2,
{
    lemma_threat_attacks(board, from1, to1);
    lemma_threat_attacks(board, from2, to2);
    shogi_halfka2_threat::lemma_seen_threat(board, perspective, from1, to1);
    shogi_halfka2_threat::lemma_seen_threat(board, perspective, from2, to2);
    threat_index::law_full_index_is_unique(
        shogi_halfka2_threat::seen_pair(board, perspective, from1, to1),
        shogi::normalized(from1, perspective),
        shogi::normalized(to1, perspective),
        shogi_halfka2_threat::seen_pair(board, perspective, from2, to2),
        shogi::normalized(from2, perspective),
        shogi::normalized(to2, perspective),
    );
}

/// No two features of a position have the same index, for either side.
pub proof fn law_threat_features_are_distinct(board: &ShogiBoard)
    ensures
        ({
            let features = shogi_halfka2_threat::threat_features(board);
            forall|i: int, j: int|
                0 <= i < j < features.len() ==> {
                    &&& (#[trigger] features[i]).0 != (#[trigger] features[j]).0
                    &&& features[i].1 != features[j].1
                }
        }),
{
    let list = shogi_halfka2_threat::threats(board);
    let features = shogi_halfka2_threat::threat_features(board);
    let stm = board.side_to_move;
    lemma_threats_below(board, 81);
    assert forall|i: int, j: int| 0 <= i < j < features.len() implies {
        &&& (#[trigger] features[i]).0 != (#[trigger] features[j]).0
        &&& features[i].1 != features[j].1
    } by {
        let (from1, to1) = list[i];
        let (from2, to2) = list[j];
        assert(list[i] != list[j]);
        lemma_threat_attacks(board, from1, to1);
        lemma_threat_attacks(board, from2, to2);
        shogi_halfka2_threat::lemma_seen_threat(board, stm, from1, to1);
        shogi_halfka2_threat::lemma_seen_threat(board, stm.opponent(), from1, to1);
        shogi_halfka2_threat::lemma_seen_threat(board, stm, from2, to2);
        shogi_halfka2_threat::lemma_seen_threat(board, stm.opponent(), from2, to2);
        if features[i].0 == features[j].0 {
            law_threat_indices_are_unique(board, stm, from1, to1, from2, to2);
        }
        if features[i].1 == features[j].1 {
            law_threat_indices_are_unique(board, stm.opponent(), from1, to1, from2, to2);
        }
    }
}

proof fn lemma_same_threats(board1: &ShogiBoard, board2: &ShogiBoard, n: int)
    requires
        board1.board@ == board2.board@,
        0 <= n <= 81,
    ensures
        shogi_halfka2_threat::threats_below(board1, n) == shogi_halfka2_threat::threats_below(
            board2,
            n,
        ),
    decreases n,
{
    if n > 0 {
        lemma_same_threats(board1, board2, n - 1);
        let from = n - 1;
        movement::law_effects_depend_on_occupied_squares(
            board1,
            board2,
            board1.at(from).piece_type,
            board1.at(from).color,
            from,
        );
        lemma_same_threats_from(
            board1,
            board2,
            from,
            shogi_halfka2_threat::effects_at(board1, from).len() as int,
        );
    }
}

proof fn lemma_same_threats_from(board1: &ShogiBoard, board2: &ShogiBoard, from: int, n: int)
    requires
        board1.board@ == board2.board@,
        shogi_halfka2_threat::effects_at(board1, from) == shogi_halfka2_threat::effects_at(
            board2,
            from,
        ),
    ensures
        shogi_halfka2_threat::threats_from(board1, from, n) == shogi_halfka2_threat::threats_from(
            board2,
            from,
            n,
        ),
    decreases n,
{
    if n > 0 {
        lemma_same_threats_from(board1, board2, from, n - 1);
    }
}

/// With the other side to move, the same threats are listed in the same order, and the two
/// indices of each trade places.
pub proof fn law_threats_with_the_other_side_to_move(board: &ShogiBoard, other: &ShogiBoard)
    requires
        other.board@ == board.board@,
        other.black_king_sq == board.black_king_sq,
        other.white_king_sq == board.white_king_sq,
        other.side_to_move == board.side_to_move.opponent(),
    ensures
        shogi_halfka2_threat::threat_features(other).len()
            == shogi_halfka2_threat::threat_features(board).len(),
        forall|i: int|
            0 <= i < shogi_halfka2_threat::threat_features(board).len()
                ==> #[trigger] shogi_halfka2_threat::threat_features(other)[i] == (
                shogi_halfka2_threat::threat_features(board)[i].1,
                shogi_halfka2_threat::threat_features(board)[i].0,
            ),
{
    lemma_same_threats(board, other, 81);
    let list = shogi_halfka2_threat::threats(board);
    assert forall|i: int| 0 <= i < list.len() implies shogi_halfka2_threat::threat_feature(
        other,
        #[trigger] list[i],
    ) == (
        shogi_halfka2_threat::threat_feature(board, list[i]).1,
        shogi_halfka2_threat::threat_feature(board, list[i]).0,
    ) by {}
}

/// Whether `turned` is the position `board` after half a turn, with the sides exchanged.
pub open spec fn is_turned(board: &ShogiBoard, turned: &ShogiBoard) -> bool {
    &&& forall|sq: int|
        0 <= sq < 81 ==> {
            &&& (#[trigger] turned.at(sq)).piece_type == board.at(80 - sq).piece_type
            &&& turned.at(sq).color == board.at(80 - sq).color.opponent()
        }
    &&& turned.side_to_move == board.side_to_move.opponent()
    &&& turned.black_king_sq.is_valid() == board.white_king_sq.is_valid()
    &&& turned.white_king_sq.is_valid() == board.black_king_sq.is_valid()
}

proof fn lemma_threat_turns(board: &ShogiBoard, turned: &ShogiBoard, from: int, to: int)
    requires
        is_turned(board, turned),
        threatens(board, from, to),
    ensures
        threatens(turned, 80 - from, 80 - to),
        shogi_halfka2_threat::threat_feature(turned, (80 - from, 80 - to))
            == shogi_halfka2_threat::threat_feature(board, (from, to)),
{
    let piece = board.at(from);
    assert(turned.at(80 - from).piece_type == board.at(80 - (80 - from)).piece_type);
    assert(turned.at(80 - to).piece_type == board.at(80 - (80 - to)).piece_type);
    let long = choose|long: bool| #[trigger]
        movement::reaches(board, piece.piece_type, piece.color, from, to, long);
    assert forall|sq: int| 0 <= sq < 81 implies #[trigger] turned.occupied(sq) == board.occupied(
        80 - sq,
    ) by {
        assert(turned.at(sq).piece_type == board.at(80 - sq).piece_type);
    }
    movement::law_reach_turns_with_the_board(
        board,
        turned,
        piece.piece_type,
        piece.color,
        from,
        to,
        long,
    );
    assert(movement::reaches(
        turned,
        turned.at(80 - from).piece_type,
        turned.at(80 - from).color,
        80 - from,
        80 - to,
        long,
    ));
}

/// Turning the board by half a turn and exchanging the sides keeps the features: each side sees
/// what it saw before.
pub proof fn law_threat_features_turn_with_the_board(
    board: &ShogiBoard,
    turned: &ShogiBoard,
    feature: (usize, usize),
)
    requires
        is_turned(board, turned),
    ensures
        shogi_halfka2_threat::threat_features(board).contains(feature)
            == shogi_halfka2_threat::threat_features(turned).contains(feature),
{
    if shogi_halfka2_threat::threat_features(board).contains(feature) {
        lemma_feature_turns(board, turned, feature);
    }
    if shogi_halfka2_threat::threat_features(turned).contains(feature) {
        assert forall|sq: int| 0 <= sq < 81 implies {
            &&& (#[trigger] board.at(sq)).piece_type == turned.at(80 - sq).piece_type
            &&& board.at(sq).color == turned.at(80 - sq).color.opponent()
        } by {
            assert(turned.at(80 - sq).piece_type == board.at(80 - (80 - sq)).piece_type);
        }
        lemma_feature_turns(turned, board, feature);
    }
}

proof fn lemma_feature_turns(board: &ShogiBoard, turned: &ShogiBoard, feature: (usize, usize))
    requires
        is_turned(board, turned),
        shogi_halfka2_threat::threat_features(board).contains(feature),
    ensures
        shogi_halfka2_threat::threat_features(turned).contains(feature),
{
    let features = shogi_halfka2_threat::threat_features(board);
    let list = shogi_halfka2_threat::threats(board);
    let i = choose|i: int| 0 <= i < features.len() && features[i] == feature;
    let (from, to) = list[i];
    assert(list.contains((from, to)));
    law_threats_are_listed(board, from, to);
    lemma_threat_turns(board, turned, from, to);
    law_threats_are_listed(turned, 80 - from, 80 - to);
    let other = shogi_halfka2_threat::threats(turned);
    let j = choose|j: int| 0 <= j < other.len() && other[j] == (80 - from, 80 - to);
    assert(shogi_halfka2_threat::threat_features(turned)[j] == feature);
}

/// How many of the listed squares hold a piece that is no king.
spec fn num_pieces(board: &ShogiBoard, list: Seq<(Square, bool)>) -> nat
    decreases list.len(),
{
    if list.len() == 0 {
        0
    } else {
        num_pieces(board, list.drop_last()) + if shogi_halfka2_threat::has_class(
            board,
            list.last().0.0 as int,
        ) {
            1nat
        } else {
            0
        }
    }
}

proof fn lemma_num_pieces_add(
    board: &ShogiBoard,
    first: Seq<(Square, bool)>,
    second: Seq<(Square, bool)>,
)
    ensures
        num_pieces(board, first + second) == num_pieces(board, first) + num_pieces(board, second),
    decreases second.len(),
{
    if second.len() == 0 {
        assert(first + second =~= first);
    } else {
        lemma_num_pieces_add(board, first, second.drop_last());
        assert((first + second).drop_last() =~= first + second.drop_last());
    }
}

proof fn lemma_num_pieces_one(board: &ShogiBoard, effect: (Square, bool))
    ensures
        num_pieces(board, seq![effect]) <= 1,
        !board.occupied(effect.0.0 as int) ==> num_pieces(board, seq![effect]) == 0,
{
    reveal_with_fuel(num_pieces, 2);
    assert(seq![effect].drop_last() =~= Seq::empty());
}

/// A ray ends at the first piece.
proof fn lemma_one_piece_on_a_ray(board: &ShogiBoard, f: int, r: int, df: int, dr: int)
    ensures
        num_pieces(
            board,
            movement::ray(board, f, r, df, dr).map_values(|sq: Square| (sq, true)),
        ) <= 1,
    decreases movement::steps_left(f, r, df, dr),
{
    let squares = movement::ray(board, f, r, df, dr);
    let list = squares.map_values(|sq: Square| (sq, true));
    if shogi::on_board(f, r) && (df != 0 || dr != 0) {
        let here = shogi::square_at(f, r);
        lemma_num_pieces_one(board, (here, true));
        if board.occupied(here.0 as int) {
            assert(list =~= seq![(here, true)]);
        } else {
            let rest = movement::ray(board, f + df, r + dr, df, dr);
            lemma_one_piece_on_a_ray(board, f + df, r + dr, df, dr);
            assert(list =~= seq![(here, true)] + rest.map_values(|sq: Square| (sq, true)));
            lemma_num_pieces_add(
                board,
                seq![(here, true)],
                rest.map_values(|sq: Square| (sq, true)),
            );
        }
    } else {
        assert(list =~= Seq::empty());
    }
}

proof fn lemma_one_piece_in_each_direction(
    board: &ShogiBoard,
    from: int,
    dirs: Seq<(int, int, bool)>,
    n: int,
)
    requires
        0 <= n,
    ensures
        num_pieces(board, movement::effects_along(board, from, dirs, n)) <= n,
    decreases n,
{
    if n > 0 {
        let dir = dirs[n - 1];
        let f = shogi::file_of(from) + dir.0;
        let r = shogi::rank_of(from) + dir.1;
        let list = movement::line(board, from, dir).map_values(|sq: Square| (sq, dir.2));
        lemma_one_piece_in_each_direction(board, from, dirs, n - 1);
        lemma_num_pieces_add(board, movement::effects_along(board, from, dirs, n - 1), list);
        if dir.2 {
            lemma_one_piece_on_a_ray(board, f, r, dir.0, dir.1);
            assert(list =~= movement::ray(board, f, r, dir.0, dir.1).map_values(
                |sq: Square| (sq, true),
            ));
        } else if shogi::on_board(f, r) {
            lemma_num_pieces_one(board, (shogi::square_at(f, r), false));
            assert(list =~= seq![(shogi::square_at(f, r), false)]);
        } else {
            assert(list =~= Seq::empty());
        }
    }
}

proof fn lemma_number_of_threats_from(board: &ShogiBoard, from: int, n: int)
    requires
        0 <= n <= shogi_halfka2_threat::effects_at(board, from).len(),
    ensures
        shogi_halfka2_threat::threats_from(board, from, n).len() == num_pieces(
            board,
            shogi_halfka2_threat::effects_at(board, from).take(n),
        ),
    decreases n,
{
    if n > 0 {
        let effects = shogi_halfka2_threat::effects_at(board, from);
        lemma_number_of_threats_from(board, from, n - 1);
        assert(effects.take(n).drop_last() =~= effects.take(n - 1));
        assert(effects.take(n).last() == effects[n - 1]);
    }
}

proof fn lemma_number_of_threats_below(board: &ShogiBoard, n: int)
    requires
        0 <= n <= 81,
    ensures
        shogi_halfka2_threat::threats_below(board, n).len() <= 8
            * shogi_halfka2_threat_effect::pieces_below(board, n).len(),
    decreases n,
{
    if n > 0 {
        lemma_number_of_threats_below(board, n - 1);
        let from = n - 1;
        let piece = board.at(from);
        let effects = shogi_halfka2_threat::effects_at(board, from);
        let dirs = movement::directions(piece.piece_type, piece.color);
        lemma_number_of_threats_from(board, from, effects.len() as int);
        lemma_one_piece_in_each_direction(board, from, dirs, dirs.len() as int);
        assert(effects.take(effects.len() as int) =~= effects);
        assert(dirs.len() <= 8);
    }
}

/// A piece poses no more than eight threats, one in each direction: so there are at most eight times
/// as many threats as pieces that are no kings.
pub proof fn law_at_most_eight_threats_for_each_piece(board: &ShogiBoard)
    ensures
        shogi_halfka2_threat::threats(board).len() <= 8 * shogi_halfka2_threat_effect::pieces_below(
            board,
            81,
        ).len(),
{
    lemma_number_of_threats_below(board, 81);
}

} // verus!
