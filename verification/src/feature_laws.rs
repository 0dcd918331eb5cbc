//! What the features of a position tell of it.
use vstd::prelude::*;

use crate::inputs::ShogiPosition;
use crate::inputs::SparseInputType;
use crate::loader::LoadableDataType;
use crate::movement;
use crate::movement_laws;
use crate::shogi::Color;
use crate::shogi::PieceType;
use crate::shogi::ShogiBoard;
use crate::shogi_halfka2_threat;
use crate::shogi_halfka2_threat::ShogiHalfKa2Threat;
use crate::shogi_halfka2_threat_dropfact;
use crate::shogi_halfka2_threat_dropfact::ShogiHalfKa2ThreatDropFact;
use crate::shogi_halfka2_threat_effect;
use crate::shogi_halfka2_threat_effect::ShogiHalfKa2ThreatEffect;
use crate::threat_class;
use crate::threat_class::ThreatClass;
use crate::threat_index;
use crate::threat_laws;

verus! {

/// Whether a piece stands on the square that is no king.
pub open spec fn holds_piece(board: &ShogiBoard, sq: int) -> bool {
    board.board@[sq].piece_type != PieceType::Empty && board.board@[sq].piece_type
        != PieceType::King
}

/// One for the other side, zero for one's own.
pub open spec fn other_side(color: Color, perspective: Color) -> int {
    if color == perspective {
        0
    } else {
        1
    }
}

/// The square as a side sees it: White from the other end of the board.
pub open spec fn seen_square(sq: int, perspective: Color) -> int {
    if perspective == Color::Black {
        sq
    } else {
        (8 - sq / 9) * 9 + (8 - sq % 9)
    }
}

/// Every kind of piece but the king has a class.
pub proof fn law_pieces_have_classes(pt: PieceType)
    ensures
        ThreatClass::of(pt) is None <==> pt == PieceType::Empty || pt == PieceType::King,
{
}

/// Pieces of one class reach the same squares on every board.
pub proof fn law_pieces_of_a_class_move_alike(
    board: &ShogiBoard,
    pt1: PieceType,
    pt2: PieceType,
    color: Color,
    from: int,
)
    requires
        ThreatClass::of(pt1) is Some,
        ThreatClass::of(pt1) == ThreatClass::of(pt2),
    ensures
        movement::effects(board, pt1, color, from) == movement::effects(board, pt2, color, from),
{
    assert(movement::directions(pt1, color) =~= movement::directions(pt2, color));
}

/// Pieces of different classes reach different squares from the middle of the empty board.
pub proof fn law_classes_move_differently(
    board: &ShogiBoard,
    pt1: PieceType,
    pt2: PieceType,
    color: Color,
) -> (to: int)
    requires
        ThreatClass::of(pt1) is Some,
        ThreatClass::of(pt2) is Some,
        ThreatClass::of(pt1) != ThreatClass::of(pt2),
        forall|sq: int| 0 <= sq < 81 ==> board.board@[sq].piece_type == PieceType::Empty,
    ensures
        0 <= to < 81,
        (exists|long: bool| #[trigger] movement_laws::reached(board, pt1, color, 40, to, long)) != (
        exists|long: bool| #[trigger] movement_laws::reached(board, pt2, color, 40, to, long)),
{
    let c1 = ThreatClass::of(pt1)->0;
    let c2 = ThreatClass::of(pt2)->0;
    let to = lemma_classes_attack_differently(c1, c2, color);
    assert forall|sq: int| 0 <= sq < 81 implies !#[trigger] board.occupied(sq) by {
        assert(board.board@[sq].piece_type == PieceType::Empty);
    }
    lemma_reached_if_attacked(board, pt1, color, 40, to);
    lemma_reached_if_attacked(board, pt2, color, 40, to);
    to
}

/// What a class attacks is what its pieces reach on the empty board.
pub proof fn law_attacks_are_what_the_empty_board_allows(
    board: &ShogiBoard,
    pt: PieceType,
    class: ThreatClass,
    color: Color,
    from: int,
    to: int,
)
    requires
        0 <= from < 81,
        0 <= to < 81,
        ThreatClass::of(pt) == Some(class),
        forall|sq: int| 0 <= sq < 81 ==> board.board@[sq].piece_type == PieceType::Empty,
    ensures
        threat_class::attacks(class, color, from, to) <==> exists|long: bool| #[trigger]
            movement_laws::reached(board, pt, color, from, to, long),
{
    assert forall|sq: int| 0 <= sq < 81 implies !#[trigger] board.occupied(sq) by {
        assert(board.board@[sq].piece_type == PieceType::Empty);
    }
    lemma_reached_if_attacked(board, pt, color, from, to);
}

/// The classes are numbered from pawn, lance, knight and silver over gold, which the small pieces
/// share once promoted, to bishop and rook, and then horse and dragon.
pub proof fn law_classes_are_numbered(pt: PieceType)
    requires
        pt != PieceType::Empty,
        pt != PieceType::King,
    ensures
        ThreatClass::of(pt)->0.number() == match pt {
            PieceType::Pawn => 0int,
            PieceType::Lance => 1,
            PieceType::Knight => 2,
            PieceType::Silver => 3,
            PieceType::Bishop => 5,
            PieceType::Rook => 6,
            PieceType::Horse => 7,
            PieceType::Dragon => 8,
            _ => 4,
        },
        ThreatClass::numbered(ThreatClass::of(pt)->0.number()) == ThreatClass::of(pt)->0,
{
}

/// An attack pattern is shared exactly by what attacks the same squares: the pieces of one class, and
/// of both sides if the class attacks alike for both.
pub proof fn law_patterns_are_shared_by_equal_attacks(
    class1: ThreatClass,
    color1: Color,
    class2: ThreatClass,
    color2: Color,
)
    ensures
        threat_index::pattern_of(class1, color1) == threat_index::pattern_of(class2, color2) <==> (
        class1 == class2 && (color1 == color2 || forall|from: int, to: int|
            0 <= from < 81 && 0 <= to < 81 ==> #[trigger] threat_class::attacks(
                class1,
                color1,
                from,
                to,
            ) == threat_class::attacks(class1, color2, from, to))),
        0 <= threat_index::pattern_of(class1, color1) < 14,
        threat_index::pattern_class(threat_index::pattern_of(class1, color1)) == class1,
{
    if color1 != color2 {
        if class1.number() < 5 {
            assert(threat_class::attacks(class1, color1, 40, 39) != threat_class::attacks(
                class1,
                color2,
                40,
                39,
            ) || threat_class::attacks(class1, color1, 40, 47) != threat_class::attacks(
                class1,
                color2,
                40,
                47,
            ) || threat_class::attacks(class1, color1, 40, 50) != threat_class::attacks(
                class1,
                color2,
                40,
                50,
            ));
        } else {
            assert forall|from: int, to: int| 0 <= from < 81 && 0 <= to < 81 implies
                #[trigger] threat_class::attacks(class1, color1, from, to)
                == threat_class::attacks(class1, color2, from, to) by {}
        }
    }
}

proof fn lemma_reached_if_attacked(
    board: &ShogiBoard,
    pt: PieceType,
    color: Color,
    from: int,
    to: int,
)
    requires
        0 <= from < 81,
        0 <= to < 81,
        ThreatClass::of(pt) is Some,
        forall|sq: int| 0 <= sq < 81 ==> !#[trigger] board.occupied(sq),
    ensures
        (exists|long: bool| #[trigger] movement_laws::reached(board, pt, color, from, to, long))
            == threat_class::attacks(ThreatClass::of(pt)->0, color, from, to),
{
    movement::law_effects_are_what_is_reached(board, pt, color, from, to, true);
    movement::law_effects_are_what_is_reached(board, pt, color, from, to, false);
    if threat_class::attacks(ThreatClass::of(pt)->0, color, from, to) {
        threat_class::law_attacked_squares_are_reached(board, pt, color, from, to);
        let long = choose|long: bool| #[trigger]
            movement::reaches(board, pt, color, from, to, long);
        assert(movement_laws::reached(board, pt, color, from, to, long));
    }
    if exists|long: bool| #[trigger] movement_laws::reached(board, pt, color, from, to, long) {
        let long = choose|long: bool| #[trigger]
            movement_laws::reached(board, pt, color, from, to, long);
        assert(movement::reaches(board, pt, color, from, to, long));
        threat_class::law_reached_squares_are_attacked(board, pt, color, from, to, long);
    }
}

#[verifier::spinoff_prover]
#[verifier::rlimit(40)]
proof fn lemma_classes_attack_differently(c1: ThreatClass, c2: ThreatClass, color: Color) -> (to: int)
    requires
        c1 != c2,
    ensures
        0 <= to < 81,
        threat_class::attacks(c1, color, 40, to) != threat_class::attacks(c2, color, 40, to),
{
    let ahead = match color {
        Color::Black => -1int,
        Color::White => 1int,
    };
    // The squares by which the classes differ: ahead, far ahead, a knight's jump, diagonally ahead
    // and behind, beside, far away on a diagonal, on a file behind, and on a rank.
    if threat_class::attacks(c1, color, 40, 40 + ahead) != threat_class::attacks(
        c2,
        color,
        40,
        40 + ahead,
    ) {
        40 + ahead
    } else if threat_class::attacks(c1, color, 40, 40 + 3 * ahead) != threat_class::attacks(
        c2,
        color,
        40,
        40 + 3 * ahead,
    ) {
        40 + 3 * ahead
    } else if threat_class::attacks(c1, color, 40, 49 + 2 * ahead) != threat_class::attacks(
        c2,
        color,
        40,
        49 + 2 * ahead,
    ) {
        49 + 2 * ahead
    } else if threat_class::attacks(c1, color, 40, 49 + ahead) != threat_class::attacks(
        c2,
        color,
        40,
        49 + ahead,
    ) {
        49 + ahead
    } else if threat_class::attacks(c1, color, 40, 49 - ahead) != threat_class::attacks(
        c2,
        color,
        40,
        49 - ahead,
    ) {
        49 - ahead
    } else if threat_class::attacks(c1, color, 40, 49) != threat_class::attacks(c2, color, 40, 49) {
        49
    } else if threat_class::attacks(c1, color, 40, 60) != threat_class::attacks(c2, color, 40, 60) {
        60
    } else {
        58
    }
}

/// The threats listed are exactly the pairs of pieces that are no kings of which the first reaches
/// the second, provided that both kings are on the board; otherwise there are none.
pub proof fn law_threats_are_pieces_that_reach_pieces(board: &ShogiBoard, from: int, to: int)
    ensures
        shogi_halfka2_threat::threats(board).contains((from, to)) <==> {
            &&& board.black_king_sq.0 < 81
            &&& board.white_king_sq.0 < 81
            &&& 0 <= from < 81
            &&& 0 <= to < 81
            &&& holds_piece(board, from)
            &&& holds_piece(board, to)
            &&& exists|long: bool| #[trigger]
                movement_laws::reached(
                    board,
                    board.board@[from].piece_type,
                    board.board@[from].color,
                    from,
                    to,
                    long,
                )
        },
{
    threat_laws::law_threats_are_listed(board, from, to);
    if 0 <= from < 81 && 0 <= to < 81 {
        let piece = board.board@[from];
        let pt = piece.piece_type;
        let color = piece.color;
        assert(board.at(from) == piece);
        law_pieces_have_classes(pt);
        law_pieces_have_classes(board.board@[to].piece_type);
        movement::law_effects_are_what_is_reached(board, pt, color, from, to, true);
        movement::law_effects_are_what_is_reached(board, pt, color, from, to, false);
        if exists|long: bool| #[trigger] movement::reaches(board, pt, color, from, to, long) {
            let long = choose|long: bool| #[trigger]
                movement::reaches(board, pt, color, from, to, long);
            assert(movement_laws::reached(board, pt, color, from, to, long));
        }
        if exists|long: bool| #[trigger] movement_laws::reached(board, pt, color, from, to, long) {
            let long = choose|long: bool| #[trigger]
                movement_laws::reached(board, pt, color, from, to, long);
            assert(movement::reaches(board, pt, color, from, to, long));
        }
    }
}

/// The combination of the two pieces as a side sees it.
pub open spec fn combination(board: &ShogiBoard, perspective: Color, from: int, to: int) -> int {
    other_side(board.board@[from].color, perspective) * 162 + ThreatClass::of(
        board.board@[from].piece_type,
    )->0.number() * 18 + other_side(board.board@[to].color, perspective) * 9 + ThreatClass::of(
        board.board@[to].piece_type,
    )->0.number()
}

/// Each threat is listed under two indices, first for the side to move, then for the other side, each
/// by the sides, the classes and the squares of the two pieces as that side sees them.
pub proof fn law_threat_features_tell_the_threats(board: &ShogiBoard, i: int)
    requires
        0 <= i < shogi_halfka2_threat::threats(board).len(),
    ensures
        ({
            let (from, to) = shogi_halfka2_threat::threats(board)[i];
            let feature = shogi_halfka2_threat::threat_features(board)[i];
            let stm = board.side_to_move;
            let nstm = if stm == Color::Black {
                Color::White
            } else {
                Color::Black
            };
            &&& feature.0 == threat_index::full_index(
                combination(board, stm, from, to),
                seen_square(from, stm),
                seen_square(to, stm),
            )
            &&& feature.1 == threat_index::full_index(
                combination(board, nstm, from, to),
                seen_square(from, nstm),
                seen_square(to, nstm),
            )
        }),
        shogi_halfka2_threat::threat_features(board).len() == shogi_halfka2_threat::threats(
            board,
        ).len(),
{
    let (from, to) = shogi_halfka2_threat::threats(board)[i];
    assert(shogi_halfka2_threat::threats(board).contains((from, to)));
    law_threats_are_pieces_that_reach_pieces(board, from, to);
    threat_laws::law_threat_features_in_range(board);
    threat_laws::law_threats_are_listed(board, from, to);
    let stm = board.side_to_move;
    lemma_seen(board, stm, from, to);
    lemma_seen(board, stm.opponent(), from, to);
}

proof fn lemma_seen(board: &ShogiBoard, perspective: Color, from: int, to: int)
    requires
        threat_laws::threatens(board, from, to),
    ensures
        shogi_halfka2_threat::seen_threat(board, perspective, from, to) == threat_index::full_index(
            combination(board, perspective, from, to),
            seen_square(from, perspective),
            seen_square(to, perspective),
        ),
        shogi_halfka2_threat::seen_threat(board, perspective, from, to) < 216_720,
        shogi_halfka2_threat::seen_pair(board, perspective, from, to) == combination(
            board,
            perspective,
            from,
            to,
        ),
        threat_index::is_threat(
            combination(board, perspective, from, to),
            seen_square(from, perspective),
            seen_square(to, perspective),
        ),
{
    let piece = board.at(from);
    let long = choose|long: bool| #[trigger]
        movement::reaches(board, piece.piece_type, piece.color, from, to, long);
    threat_class::law_reached_squares_are_attacked(
        board,
        piece.piece_type,
        piece.color,
        from,
        to,
        long,
    );
    shogi_halfka2_threat::lemma_seen_threat(board, perspective, from, to);
}

/// An index of a threat tells all that it stands for: two threats, on any two boards and for either
/// side, have the same index exactly if attackers and targets are alike in side, class and square.
pub proof fn law_threat_indices_tell_threats_apart(
    board1: &ShogiBoard,
    perspective1: Color,
    from1: int,
    to1: int,
    board2: &ShogiBoard,
    perspective2: Color,
    from2: int,
    to2: int,
)
    requires
        threat_laws::threatens(board1, from1, to1),
        threat_laws::threatens(board2, from2, to2),
    ensures
        shogi_halfka2_threat::seen_threat(board1, perspective1, from1, to1)
            == shogi_halfka2_threat::seen_threat(board2, perspective2, from2, to2) <==> {
            &&& (board1.board@[from1].color == perspective1) == (board2.board@[from2].color
                == perspective2)
            &&& (board1.board@[to1].color == perspective1) == (board2.board@[to2].color
                == perspective2)
            &&& ThreatClass::of(board1.board@[from1].piece_type) == ThreatClass::of(
                board2.board@[from2].piece_type,
            )
            &&& ThreatClass::of(board1.board@[to1].piece_type) == ThreatClass::of(
                board2.board@[to2].piece_type,
            )
            &&& seen_square(from1, perspective1) == seen_square(from2, perspective2)
            &&& seen_square(to1, perspective1) == seen_square(to2, perspective2)
        },
{
    lemma_seen(board1, perspective1, from1, to1);
    lemma_seen(board2, perspective2, from2, to2);
    if shogi_halfka2_threat::seen_threat(board1, perspective1, from1, to1)
        == shogi_halfka2_threat::seen_threat(board2, perspective2, from2, to2) {
        threat_index::law_full_index_is_unique(
            combination(board1, perspective1, from1, to1),
            seen_square(from1, perspective1),
            seen_square(to1, perspective1),
            combination(board2, perspective2, from2, to2),
            seen_square(from2, perspective2),
            seen_square(to2, perspective2),
        );
        threat_index::law_combinations_are_told_apart(
            other_side(board1.board@[from1].color, perspective1),
            ThreatClass::of(board1.board@[from1].piece_type)->0,
            other_side(board1.board@[to1].color, perspective1),
            ThreatClass::of(board1.board@[to1].piece_type)->0,
            other_side(board2.board@[from2].color, perspective2),
            ThreatClass::of(board2.board@[from2].piece_type)->0,
            other_side(board2.board@[to2].color, perspective2),
            ThreatClass::of(board2.board@[to2].piece_type)->0,
        );
    }
}

/// The number of effects of one kind of a side on a square is the number of its pieces, kings among
/// them, that reach the square so.
pub proof fn law_effects_are_counted(board: &ShogiBoard, color: Color, to: int, long: bool)
    requires
        0 <= to < 81,
    ensures
        shogi_halfka2_threat_effect::effect_count(board, color, to, long) == Seq::new(
            81,
            |from: int| from,
        ).filter(|from: int| exerts_effect(board, color, from, to, long)).len(),
{
    lemma_effects_below(board, color, to, long, 81);
}

/// Whether the side has a piece on `from` that reaches `to`, by a long effect or a short one.
pub open spec fn exerts_effect(
    board: &ShogiBoard,
    color: Color,
    from: int,
    to: int,
    long: bool,
) -> bool {
    &&& board.board@[from].piece_type != PieceType::Empty
    &&& board.board@[from].color == color
    &&& movement_laws::reached(board, board.board@[from].piece_type, color, from, to, long)
}

proof fn lemma_effects_below(board: &ShogiBoard, color: Color, to: int, long: bool, n: int)
    requires
        0 <= to < 81,
        0 <= n <= 81,
    ensures
        shogi_halfka2_threat_effect::effects_below(board, color, to, long, n) == Seq::new(
            n as nat,
            |from: int| from,
        ).filter(|from: int| exerts_effect(board, color, from, to, long)).len(),
    decreases n,
{
    broadcast use Seq::lemma_filter_push;

    let pred = |from: int| exerts_effect(board, color, from, to, long);
    let all = Seq::new(n as nat, |from: int| from);
    if n == 0 {
        reveal(Seq::filter);
        assert(all.filter(pred).len() == 0);
    } else {
        lemma_effects_below(board, color, to, long, n - 1);
        assert(all =~= Seq::new((n - 1) as nat, |from: int| from).push(n - 1));
        movement::law_effects_are_what_is_reached(
            board,
            board.at(n - 1).piece_type,
            color,
            n - 1,
            to,
            long,
        );
    }
}

/// The pieces with effect features are all that are no kings, from the first square to the last.
pub proof fn law_pieces_are_listed_in_order(board: &ShogiBoard, n: int)
    requires
        0 <= n <= 81,
    ensures
        shogi_halfka2_threat_effect::pieces_below(board, n) == Seq::new(
            n as nat,
            |sq: int| sq,
        ).filter(|sq: int| holds_piece(board, sq)),
    decreases n,
{
    broadcast use Seq::lemma_filter_push;

    let pred = |sq: int| holds_piece(board, sq);
    let all = Seq::new(n as nat, |sq: int| sq);
    if n == 0 {
        reveal(Seq::filter);
        assert(all.filter(pred) =~= Seq::empty());
    } else {
        law_pieces_are_listed_in_order(board, n - 1);
        assert(all =~= Seq::new((n - 1) as nat, |sq: int| sq).push(n - 1));
        law_pieces_have_classes(board.board@[n - 1].piece_type);
    }
}

/// Whether an index is that of the feature which tells how the side attacks the piece on the square,
/// as seen by a side: its places tell the two sides, the class and the square of the piece, and
/// whether it is reached by no, one, or more long and short effects.
pub open spec fn tells_effect(
    index: int,
    board: &ShogiBoard,
    perspective: Color,
    attacker: Color,
    sq: int,
) -> bool {
    let long = shogi_halfka2_threat_effect::effect_count(board, attacker, sq, true);
    let short = shogi_halfka2_threat_effect::effect_count(board, attacker, sq, false);
    &&& index / 13_122 == other_side(attacker, perspective)
    &&& (index / 6_561) % 2 == other_side(board.board@[sq].color, perspective)
    &&& (index / 729) % 9 == ThreatClass::of(board.board@[sq].piece_type)->0.number()
    &&& (index / 9) % 81 == seen_square(sq, perspective)
    &&& (index / 3) % 3 == 0 <==> long == 0
    &&& (index / 3) % 3 == 1 <==> long == 1
    &&& (index / 3) % 3 == 2 <==> long >= 2
    &&& index % 3 == 0 <==> short == 0
    &&& index % 3 == 1 <==> short == 1
    &&& index % 3 == 2 <==> short >= 2
}

proof fn lemma_tells_effect(board: &ShogiBoard, perspective: Color, attacker: Color, sq: int)
    requires
        0 <= sq < 81,
    ensures
        tells_effect(
            shogi_halfka2_threat_effect::seen_effect(board, perspective, attacker, sq),
            board,
            perspective,
            attacker,
            sq,
        ),
        0 <= shogi_halfka2_threat_effect::seen_effect(board, perspective, attacker, sq) < 26_244,
{
    let long = shogi_halfka2_threat_effect::effect_count(board, attacker, sq, true) as int;
    let short = shogi_halfka2_threat_effect::effect_count(board, attacker, sq, false) as int;
    shogi_halfka2_threat_effect::law_effect_index_tells_its_parts(
        other_side(attacker, perspective),
        other_side(board.board@[sq].color, perspective),
        ThreatClass::of(board.board@[sq].piece_type)->0,
        seen_square(sq, perspective),
        shogi_halfka2_threat_effect::bucket_of(long),
        shogi_halfka2_threat_effect::bucket_of(short),
    );
}

/// With both kings on the board, each piece that is no king gives two features, one after the other:
/// how Black, then how White attacks it, each first as the side to move and then as the other side
/// sees it.
pub proof fn law_effect_features_tell_the_effects(board: &ShogiBoard, i: int)
    requires
        board.black_king_sq.0 < 81,
        board.white_king_sq.0 < 81,
        0 <= i < Seq::new(81, |sq: int| sq).filter(|sq: int| holds_piece(board, sq)).len(),
    ensures
        ({
            let sq = Seq::new(81, |sq: int| sq).filter(|sq: int| holds_piece(board, sq))[i];
            let features = shogi_halfka2_threat_effect::effect_features(board);
            let stm = board.side_to_move;
            let nstm = if stm == Color::Black {
                Color::White
            } else {
                Color::Black
            };
            &&& features.len() == 2 * Seq::new(81, |sq: int| sq).filter(
                |sq: int| holds_piece(board, sq),
            ).len()
            &&& tells_effect(features[2 * i].0 as int, board, stm, Color::Black, sq)
            &&& tells_effect(features[2 * i].1 as int, board, nstm, Color::Black, sq)
            &&& tells_effect(features[2 * i + 1].0 as int, board, stm, Color::White, sq)
            &&& tells_effect(features[2 * i + 1].1 as int, board, nstm, Color::White, sq)
        }),
{
    law_pieces_are_listed_in_order(board, 81);
    shogi_halfka2_threat_effect::lemma_pieces_below(board, 81);
    let sq = shogi_halfka2_threat_effect::pieces_below(board, 81)[i];
    let stm = board.side_to_move;
    lemma_tells_effect(board, stm, Color::Black, sq);
    lemma_tells_effect(board, stm.opponent(), Color::Black, sq);
    lemma_tells_effect(board, stm, Color::White, sq);
    lemma_tells_effect(board, stm.opponent(), Color::White, sq);
    let features = shogi_halfka2_threat_effect::effect_features(board);
    assert((2 * i) / 2 == i && (2 * i + 1) / 2 == i);
    assert(features[2 * i] == shogi_halfka2_threat_effect::effect_feature(board, Color::Black, sq));
    assert(features[2 * i + 1] == shogi_halfka2_threat_effect::effect_feature(
        board,
        Color::White,
        sq,
    ));
}

/// Without both kings on the board there are no threats and no effect features.
pub proof fn law_no_features_without_kings(board: &ShogiBoard)
    requires
        board.black_king_sq.0 >= 81 || board.white_king_sq.0 >= 81,
    ensures
        shogi_halfka2_threat::threat_features(board).len() == 0,
        shogi_halfka2_threat_effect::effect_features(board).len() == 0,
{
}

/// The lite index of a threat feature leaves out the attacker's square: it tells the combination and
/// the target's square as the same side sees them.
pub proof fn law_lite_indices_drop_the_attackers_square(board: &ShogiBoard, i: int)
    requires
        0 <= i < shogi_halfka2_threat::threats(board).len(),
    ensures
        ({
            let (from, to) = shogi_halfka2_threat::threats(board)[i];
            let feature = shogi_halfka2_threat::threat_features(board)[i];
            let lite = shogi_halfka2_threat_dropfact::with_lite(feature);
            let stm = board.side_to_move;
            let nstm = if stm == Color::Black {
                Color::White
            } else {
                Color::Black
            };
            &&& lite.0 == feature.0
            &&& lite.1 == feature.1
            &&& lite.2 == combination(board, stm, from, to) * 81 + seen_square(to, stm)
            &&& lite.3 == combination(board, nstm, from, to) * 81 + seen_square(to, nstm)
        }),
{
    let (from, to) = shogi_halfka2_threat::threats(board)[i];
    assert(shogi_halfka2_threat::threats(board).contains((from, to)));
    threat_laws::law_threats_are_listed(board, from, to);
    law_threat_features_tell_the_threats(board, i);
    let stm = board.side_to_move;
    lemma_lite(board, stm, from, to);
    lemma_lite(board, stm.opponent(), from, to);
}

proof fn lemma_lite(board: &ShogiBoard, perspective: Color, from: int, to: int)
    requires
        threat_laws::threatens(board, from, to),
    ensures
        shogi_halfka2_threat_dropfact::lite_of(
            threat_index::full_index(
                combination(board, perspective, from, to),
                seen_square(from, perspective),
                seen_square(to, perspective),
            ) as int,
        ) == combination(board, perspective, from, to) * 81 + seen_square(to, perspective),
        0 <= combination(board, perspective, from, to) < 324,
{
    lemma_seen(board, perspective, from, to);
    shogi_halfka2_threat_dropfact::law_lite_of_threat(
        combination(board, perspective, from, to),
        seen_square(from, perspective),
        seen_square(to, perspective),
    );
}

/// The HalfKA2 features come first; behind them stands a feature for each threat, moved up by the
/// number of HalfKA2 inputs.
pub proof fn law_threat_inputs_of_a_position(
    input: &ShogiHalfKa2Threat,
    pos: &ShogiPosition,
    i: int,
)
    requires
        0 <= i < pos.ka2@.len() + shogi_halfka2_threat::threats(&pos.board).len(),
    ensures
        ({
            let features = input.features(pos);
            let n = pos.ka2@.len() as int;
            &&& features.len() == n + shogi_halfka2_threat::threats(&pos.board).len()
            &&& i < n ==> features[i] == pos.ka2@[i]
            &&& i >= n ==> {
                let threat = shogi_halfka2_threat::threat_features(&pos.board)[i - n];
                features[i].0 == 131_949 + threat.0 && features[i].1 == 131_949 + threat.1
            }
        }),
{
    threat_laws::law_threat_features_in_range(&pos.board);
    let n = pos.ka2@.len() as int;
    if i >= n {
        let threat = shogi_halfka2_threat::threat_features(&pos.board)[i - n];
        assert(threat.0 < 216_720 && threat.1 < 216_720);
    }
}

/// The HalfKA2 features come first; behind them stand two features for each threat: its own, and one
/// that tells the combination and the target's square only, moved up behind all others.
pub proof fn law_dropfact_inputs_of_a_position(
    input: &ShogiHalfKa2ThreatDropFact,
    pos: &ShogiPosition,
    i: int,
    j: int,
)
    requires
        0 <= j < shogi_halfka2_threat::threats(&pos.board).len(),
    ensures
        ({
            let features = input.features(pos);
            let n = pos.ka2@.len() as int;
            let threat = shogi_halfka2_threat::threat_features(&pos.board)[j];
            let (from, to) = shogi_halfka2_threat::threats(&pos.board)[j];
            let stm = pos.board.side_to_move;
            let nstm = if stm == Color::Black {
                Color::White
            } else {
                Color::Black
            };
            &&& features.len() == n + 2 * shogi_halfka2_threat::threats(&pos.board).len()
            &&& 0 <= i < n ==> features[i] == pos.ka2@[i]
            &&& features[n + 2 * j].0 == 131_949 + threat.0
            &&& features[n + 2 * j].1 == 131_949 + threat.1
            &&& features[n + 2 * j + 1].0 == 350_298 + combination(&pos.board, stm, from, to) * 81
                + seen_square(to, stm)
            &&& features[n + 2 * j + 1].1 == 350_298 + combination(&pos.board, nstm, from, to) * 81
                + seen_square(to, nstm)
        }),
{
    let board = &pos.board;
    threat_laws::law_threat_features_in_range(board);
    let (from, to) = shogi_halfka2_threat::threats(board)[j];
    assert(shogi_halfka2_threat::threats(board).contains((from, to)));
    threat_laws::law_threats_are_listed(board, from, to);
    law_threat_features_tell_the_threats(board, j);
    let stm = board.side_to_move;
    lemma_lite(board, stm, from, to);
    lemma_lite(board, stm.opponent(), from, to);
    let threat = shogi_halfka2_threat::threat_features(board)[j];
    assert(threat.0 < 216_720 && threat.1 < 216_720);
    assert((2 * j) / 2 == j && (2 * j + 1) / 2 == j);
}

/// The HalfKA2 features come first; behind them stand the effect features, moved up by the number of
/// HalfKA2 inputs.
pub proof fn law_effect_inputs_of_a_position(
    input: &ShogiHalfKa2ThreatEffect,
    pos: &ShogiPosition,
    i: int,
)
    requires
        0 <= i < pos.ka2@.len() + shogi_halfka2_threat_effect::effect_features(&pos.board).len(),
    ensures
        ({
            let features = input.features(pos);
            let n = pos.ka2@.len() as int;
            let effects = shogi_halfka2_threat_effect::effect_features(&pos.board);
            &&& features.len() == n + effects.len()
            &&& i < n ==> features[i] == pos.ka2@[i]
            &&& i >= n ==> features[i].0 == 131_949 + effects[i - n].0 && features[i].1 == 131_949
                + effects[i - n].1
        }),
{
    shogi_halfka2_threat_effect::law_effect_features_in_range(&pos.board);
    let n = pos.ka2@.len() as int;
    if i >= n {
        let effect = shogi_halfka2_threat_effect::effect_features(&pos.board)[i - n];
        assert(effect.0 < 26_244 && effect.1 < 26_244);
    }
}

/// Both sides see every feature of the shogi inputs.
pub proof fn law_both_sides_see_every_feature(
    threat: &ShogiHalfKa2Threat,
    dropfact: &ShogiHalfKa2ThreatDropFact,
    effect: &ShogiHalfKa2ThreatEffect,
    pos: &ShogiPosition,
    i: int,
)
    ensures
        threat.split_features(pos).len() == threat.features(pos).len(),
        dropfact.split_features(pos).len() == dropfact.features(pos).len(),
        effect.split_features(pos).len() == effect.features(pos).len(),
        0 <= i < threat.features(pos).len() ==> threat.split_features(pos)[i] == (
            Some(threat.features(pos)[i].0),
            Some(threat.features(pos)[i].1),
        ),
        0 <= i < dropfact.features(pos).len() ==> dropfact.split_features(pos)[i] == (
            Some(dropfact.features(pos)[i].0),
            Some(dropfact.features(pos)[i].1),
        ),
        0 <= i < effect.features(pos).len() ==> effect.split_features(pos)[i] == (
            Some(effect.features(pos)[i].0),
            Some(effect.features(pos)[i].1),
        ),
{
}

/// The table of lite indices has an entry for each threat: its combination and its target's square.
pub proof fn law_lite_table_drops_the_attackers_square(pair: int, from: int, to: int)
    requires
        threat_index::is_threat(pair, from, to),
    ensures
        ({
            let full = threat_index::full_index(pair, from, to) as int;
            &&& shogi_halfka2_threat_dropfact::lite_table().len() == 216_720
            &&& shogi_halfka2_threat_dropfact::lite_values().len() == 216_720
            &&& full < 216_720
            &&& shogi_halfka2_threat_dropfact::lite_table()[full] == pair * 81 + to
            &&& shogi_halfka2_threat_dropfact::lite_values()[full] == pair * 81 + to
        }),
{
    shogi_halfka2_threat_dropfact::law_lite_of_threat(pair, from, to);
    threat_index::law_full_index_in_range(pair, from, to);
}

/// The numbers of inputs, how many of them a position may have active, and that none of these inputs
/// has hand counts.
pub proof fn law_sizes_of_the_inputs(
    threat: &ShogiHalfKa2Threat,
    dropfact: &ShogiHalfKa2ThreatDropFact,
    effect: &ShogiHalfKa2ThreatEffect,
)
    ensures
        threat.input_size() == 131_949 + 216_720,
        dropfact.input_size() == 131_949 + 216_720 + 1_629 + 26_244,
        effect.input_size() == 131_949 + 26_244,
        threat.active_limit() == 40 + 320,
        dropfact.active_limit() == 40 + 2 * 320,
        effect.active_limit() == 40 + 2 * 40,
        threat.hand_dims() is None,
        dropfact.hand_dims() is None,
        effect.hand_dims() is None,
{
}

/// A position gives the score and the result that it was made with.
pub proof fn law_positions_keep_score_and_result(pos: &ShogiPosition)
    ensures
        pos.score_of() == pos.score,
        pos.result_of() == pos.result,
{
}

} // verus!
