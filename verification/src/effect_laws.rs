//! What holds of the effect features of any position.
use vstd::prelude::*;

use crate::movement;
use crate::shogi::Color;
use crate::shogi::ShogiBoard;
use crate::shogi_halfka2_threat_effect;
use crate::threat_laws;

verus! {

proof fn lemma_same_effect_count(
    board1: &ShogiBoard,
    board2: &ShogiBoard,
    color: Color,
    to: int,
    long: bool,
    n: int,
)
    requires
        board1.board@ == board2.board@,
        0 <= to < 81,
        0 <= n <= 81,
    ensures
        shogi_halfka2_threat_effect::effects_below(board1, color, to, long, n)
            == shogi_halfka2_threat_effect::effects_below(board2, color, to, long, n),
    decreases n,
{
    if n > 0 {
        lemma_same_effect_count(board1, board2, color, to, long, n - 1);
        let pt = board1.at(n - 1).piece_type;
        movement::law_effects_depend_on_occupied_squares(board1, board2, pt, color, n - 1);
        movement::law_effects_are_what_is_reached(board1, pt, color, n - 1, to, long);
        movement::law_effects_are_what_is_reached(board2, pt, color, n - 1, to, long);
    }
}

proof fn lemma_same_pieces(board1: &ShogiBoard, board2: &ShogiBoard, n: int)
    requires
        board1.board@ == board2.board@,
    ensures
        shogi_halfka2_threat_effect::pieces_below(board1, n)
            == shogi_halfka2_threat_effect::pieces_below(board2, n),
    decreases n,
{
    if n > 0 {
        lemma_same_pieces(board1, board2, n - 1);
    }
}

/// With the other side to move, the same features are listed in the same order, and the two
/// indices of each trade places.
pub proof fn law_effects_with_the_other_side_to_move(board: &ShogiBoard, other: &ShogiBoard)
    requires
        other.board@ == board.board@,
        other.black_king_sq == board.black_king_sq,
        other.white_king_sq == board.white_king_sq,
        other.side_to_move == board.side_to_move.opponent(),
    ensures
        shogi_halfka2_threat_effect::effect_features(other).len()
            == shogi_halfka2_threat_effect::effect_features(board).len(),
        forall|i: int|
            0 <= i < shogi_halfka2_threat_effect::effect_features(board).len()
                ==> #[trigger] shogi_halfka2_threat_effect::effect_features(other)[i] == (
                shogi_halfka2_threat_effect::effect_features(board)[i].1,
                shogi_halfka2_threat_effect::effect_features(board)[i].0,
            ),
{
    lemma_same_pieces(board, other, 81);
    shogi_halfka2_threat_effect::lemma_pieces_below(board, 81);
    let features = shogi_halfka2_threat_effect::effect_features(board);
    let swapped = shogi_halfka2_threat_effect::effect_features(other);
    assert forall|i: int| 0 <= i < features.len() implies #[trigger] swapped[i] == (
        features[i].1,
        features[i].0,
    ) by {
        let sq = shogi_halfka2_threat_effect::pieces_below(board, 81)[i / 2];
        lemma_same_effect_count(board, other, Color::Black, sq, true, 81);
        lemma_same_effect_count(board, other, Color::Black, sq, false, 81);
        lemma_same_effect_count(board, other, Color::White, sq, true, 81);
        lemma_same_effect_count(board, other, Color::White, sq, false, 81);
    }
}

proof fn lemma_exerts_turns(
    board: &ShogiBoard,
    turned: &ShogiBoard,
    color: Color,
    from: int,
    to: int,
    long: bool,
)
    requires
        threat_laws::is_turned(board, turned),
        0 <= from < 81,
        0 <= to < 81,
    ensures
        shogi_halfka2_threat_effect::exerts(turned, color.opponent(), 80 - from, 80 - to, long)
            == shogi_halfka2_threat_effect::exerts(board, color, from, to, long),
{
    assert(turned.at(80 - from).piece_type == board.at(80 - (80 - from)).piece_type);
    assert forall|sq: int| 0 <= sq < 81 implies #[trigger] turned.occupied(sq) == board.occupied(
        80 - sq,
    ) by {
        assert(turned.at(sq).piece_type == board.at(80 - sq).piece_type);
    }
    movement::law_reach_turns_with_the_board(
        board,
        turned,
        board.at(from).piece_type,
        color,
        from,
        to,
        long,
    );
}

proof fn lemma_count_turns(
    board: &ShogiBoard,
    turned: &ShogiBoard,
    color: Color,
    to: int,
    long: bool,
    n: int,
)
    requires
        threat_laws::is_turned(board, turned),
        0 <= to < 81,
        0 <= n <= 81,
    ensures
        shogi_halfka2_threat_effect::effects_below(turned, color.opponent(), 80 - to, long, n)
            + shogi_halfka2_threat_effect::effects_below(board, color, to, long, 81 - n)
            == shogi_halfka2_threat_effect::effect_count(board, color, to, long),
    decreases n,
{
    if n > 0 {
        lemma_count_turns(board, turned, color, to, long, n - 1);
        lemma_exerts_turns(board, turned, color, 81 - n, to, long);
    }
}

/// Turning the board by half a turn and exchanging the sides keeps how often a side attacks each
/// square.
pub proof fn law_effect_counts_turn_with_the_board(
    board: &ShogiBoard,
    turned: &ShogiBoard,
    color: Color,
    to: int,
    long: bool,
)
    requires
        threat_laws::is_turned(board, turned),
        0 <= to < 81,
    ensures
        shogi_halfka2_threat_effect::effect_count(turned, color.opponent(), 80 - to, long)
            == shogi_halfka2_threat_effect::effect_count(board, color, to, long),
{
    lemma_count_turns(board, turned, color, to, long, 81);
}

proof fn lemma_feature_turns(board: &ShogiBoard, turned: &ShogiBoard, feature: (usize, usize))
    requires
        threat_laws::is_turned(board, turned),
        shogi_halfka2_threat_effect::effect_features(board).contains(feature),
    ensures
        shogi_halfka2_threat_effect::effect_features(turned).contains(feature),
{
    let features = shogi_halfka2_threat_effect::effect_features(board);
    let i = choose|i: int| 0 <= i < features.len() && features[i] == feature;
    let list = shogi_halfka2_threat_effect::pieces_below(board, 81);
    let other = shogi_halfka2_threat_effect::pieces_below(turned, 81);
    shogi_halfka2_threat_effect::lemma_pieces_below(board, 81);
    shogi_halfka2_threat_effect::lemma_pieces_below(turned, 81);
    let sq = list[i / 2];
    let attacker = if i % 2 == 0 {
        Color::Black
    } else {
        Color::White
    };
    assert(turned.at(80 - sq).piece_type == board.at(80 - (80 - sq)).piece_type);
    assert(other.contains(80 - sq));
    let k = choose|k: int| 0 <= k < other.len() && other[k] == 80 - sq;
    law_effect_counts_turn_with_the_board(board, turned, attacker, sq, true);
    law_effect_counts_turn_with_the_board(board, turned, attacker, sq, false);
    assert(shogi_halfka2_threat_effect::effect_feature(turned, attacker.opponent(), 80 - sq)
        == shogi_halfka2_threat_effect::effect_feature(board, attacker, sq));
    let j = if i % 2 == 0 {
        2 * k + 1
    } else {
        2 * k
    };
    assert(j / 2 == k);
    assert(shogi_halfka2_threat_effect::effect_features(turned)[j] == feature);
}

/// Turning the board by half a turn and exchanging the sides keeps the features: each side sees
/// what it saw before.
pub proof fn law_effect_features_turn_with_the_board(
    board: &ShogiBoard,
    turned: &ShogiBoard,
    feature: (usize, usize),
)
    requires
        threat_laws::is_turned(board, turned),
    ensures
        shogi_halfka2_threat_effect::effect_features(board).contains(feature)
            == shogi_halfka2_threat_effect::effect_features(turned).contains(feature),
{
    if shogi_halfka2_threat_effect::effect_features(board).contains(feature) {
        lemma_feature_turns(board, turned, feature);
    }
    if shogi_halfka2_threat_effect::effect_features(turned).contains(feature) {
        assert forall|sq: int| 0 <= sq < 81 implies {
            &&& (#[trigger] board.at(sq)).piece_type == turned.at(80 - sq).piece_type
            &&& board.at(sq).color == turned.at(80 - sq).color.opponent()
        } by {
            assert(turned.at(80 - sq).piece_type == board.at(80 - (80 - sq)).piece_type);
        }
        lemma_feature_turns(turned, board, feature);
    }
}

} // verus!
