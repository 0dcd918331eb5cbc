//! HalfKA2 features joined with threats: which piece attacks which.
//!
//! The inputs are laid out as `[HalfKA2 131,949][Threat 216,720]`. A threat is an attack of one
//! piece on another, kings left out on both ends; its index depends on the sides and classes of
//! the two pieces and on their squares as the viewing side sees them. The board is turned for
//! White but never mirrored from left to right, just as in the HalfKA2 part.
use vstd::prelude::*;

use crate::checksum;
use crate::movement;
use crate::shogi;
use crate::shogi::Color;
use crate::shogi::ShogiBoard;
use crate::shogi::Square;
use crate::threat_class;
use crate::threat_class::ThreatClass;
use crate::threat_class::HALFKA2_THREAT_DIMENSIONS;
use crate::threat_index;
use crate::threat_tables;
use crate::threat_tables::ThreatParams;
use crate::threat_tables::ThreatTables;

verus! {

/// Number of HalfKA2 features: 81 king squares times 1,629 piece inputs.
pub const HALFKA2_DIMENSIONS: usize = 131_949;

/// Number of piece inputs for one king square.
pub const PIECE_INPUTS: usize = 1_629;

/// How many HalfKA2 features are active at most.
pub const MAX_ACTIVE_FEATURES: usize = 40;

/// How many threats are active at most: eight for each of 40 pieces.
pub const MAX_ACTIVE_THREAT_FEATURES: usize = 320;

/// Number of HalfKA2 and threat features together.
pub const HALFKA2_THREAT_TOTAL_DIMENSIONS: usize = HALFKA2_DIMENSIONS + HALFKA2_THREAT_DIMENSIONS;

/// Which side a piece of `color` is on for `perspective`: 0 is its own side, 1 the other.
pub open spec fn side_of(color: Color, perspective: Color) -> int {
    if color == perspective {
        0
    } else {
        1
    }
}

/// Whether the piece on `sq` can threaten and be threatened: it is there, and is no king.
pub open spec fn has_class(board: &ShogiBoard, sq: int) -> bool {
    ThreatClass::of(board.at(sq).piece_type) is Some
}

/// The class of the piece on `sq`.
pub open spec fn class_at(board: &ShogiBoard, sq: int) -> ThreatClass {
    ThreatClass::of(board.at(sq).piece_type)->0
}

/// The combination of the pieces on `from` and `to` as `perspective` sees it.
pub open spec fn seen_pair(board: &ShogiBoard, perspective: Color, from: int, to: int) -> int {
    threat_index::pair_of(
        side_of(board.at(from).color, perspective),
        class_at(board, from),
        side_of(board.at(to).color, perspective),
        class_at(board, to),
    )
}

/// The index, as `perspective` sees it, of the threat that the piece on `from` poses to the piece
/// on `to`.
pub open spec fn seen_threat(board: &ShogiBoard, perspective: Color, from: int, to: int) -> nat {
    threat_index::full_index(
        seen_pair(board, perspective, from, to),
        shogi::normalized(from, perspective),
        shogi::normalized(to, perspective),
    )
}

/// The effect of the piece on `from`.
pub open spec fn effects_at(board: &ShogiBoard, from: int) -> Seq<(Square, bool)> {
    movement::effects(board, board.at(from).piece_type, board.at(from).color, from)
}

/// The threats that lie in the first `n` effects of the piece on `from`: the squares of the two
/// pieces of each.
pub open spec fn threats_from(board: &ShogiBoard, from: int, n: int) -> Seq<(int, int)>
    decreases n,
{
    if n <= 0 {
        seq![]
    } else {
        let to = effects_at(board, from)[n - 1].0.0 as int;
        if has_class(board, to) {
            threats_from(board, from, n - 1).push((from, to))
        } else {
            threats_from(board, from, n - 1)
        }
    }
}

/// The threats that the pieces on the squares below `n` pose.
pub open spec fn threats_below(board: &ShogiBoard, n: int) -> Seq<(int, int)>
    decreases n,
{
    if n <= 0 {
        seq![]
    } else if has_class(board, n - 1) {
        threats_below(board, n - 1) + threats_from(
            board,
            n - 1,
            effects_at(board, n - 1).len() as int,
        )
    } else {
        threats_below(board, n - 1)
    }
}

/// All threats of a position, as the squares of the two pieces; none where a king is missing.
pub open spec fn threats(board: &ShogiBoard) -> Seq<(int, int)> {
    if board.has_both_kings() {
        threats_below(board, 81)
    } else {
        seq![]
    }
}

/// A threat as a feature: its index as the side to move sees it, and its index as the other side
/// sees it.
pub open spec fn threat_feature(board: &ShogiBoard, threat: (int, int)) -> (usize, usize) {
    let stm = board.side_to_move;
    (
        seen_threat(board, stm, threat.0, threat.1) as usize,
        seen_threat(board, stm.opponent(), threat.0, threat.1) as usize,
    )
}

/// The given threats as features.
pub open spec fn as_features(board: &ShogiBoard, list: Seq<(int, int)>) -> Seq<(usize, usize)> {
    list.map_values(|threat: (int, int)| threat_feature(board, threat))
}

/// All threats of a position as features.
pub open spec fn threat_features(board: &ShogiBoard) -> Seq<(usize, usize)> {
    as_features(board, threats(board))
}

/// The indices `(a, b)`, each moved up by `base`.
pub open spec fn moved_up(features: Seq<(usize, usize)>, base: usize) -> Seq<(usize, usize)> {
    features.map_values(|p: (usize, usize)| ((base + p.0) as usize, (base + p.1) as usize))
}

/// A list of features once more.
pub fn copy_features(features: &Vec<(usize, usize)>) -> (copy: Vec<(usize, usize)>)
    ensures
        copy@ == features@,
{
    let mut copy: Vec<(usize, usize)> = Vec::new();
    let mut i: usize = 0;
    while i < features.len()
        invariant
            i <= features@.len(),
            copy@ == features@.take(i as int),
        decreases features@.len() - i,
    {
        copy.push(features[i]);
        i = i + 1;
    }
    assert(features@.take(features@.len() as int) =~= features@);
    copy
}

/// The index of a threat is well defined for both sides.
pub proof fn lemma_seen_threat(board: &ShogiBoard, perspective: Color, from: int, to: int)
    requires
        0 <= from < 81,
        0 <= to < 81,
        has_class(board, from),
        has_class(board, to),
        threat_class::attacks(class_at(board, from), board.at(from).color, from, to),
    ensures
        ({
            let pair = seen_pair(board, perspective, from, to);
            &&& 0 <= pair < 324
            &&& threat_index::pair_class(pair) == class_at(board, from)
            &&& threat_index::pair_color(pair) == (if perspective == Color::Black {
                board.at(from).color
            } else {
                board.at(from).color.opponent()
            })
            &&& threat_index::is_threat(
                pair,
                shogi::normalized(from, perspective),
                shogi::normalized(to, perspective),
            )
            &&& seen_threat(board, perspective, from, to) < HALFKA2_THREAT_DIMENSIONS
        }),
{
    let pair = seen_pair(board, perspective, from, to);
    let class = class_at(board, from);
    let color = board.at(from).color;
    threat_index::law_pair_tells_attacker(
        side_of(color, perspective),
        class,
        side_of(board.at(to).color, perspective),
        class_at(board, to),
    );
    threat_class::law_attacks_turn_with_the_board(class, color, from, to);
    threat_index::law_full_index_in_range(
        pair,
        shogi::normalized(from, perspective),
        shogi::normalized(to, perspective),
    );
}

/// Every effect of a piece that is no king is an attack on the empty board.
proof fn lemma_effect_attacks(board: &ShogiBoard, from: int, n: int)
    requires
        0 <= from < 81,
        has_class(board, from),
        0 <= n < effects_at(board, from).len(),
    ensures
        effects_at(board, from)[n].0.is_valid(),
        threat_class::attacks(
            class_at(board, from),
            board.at(from).color,
            from,
            effects_at(board, from)[n].0.0 as int,
        ),
{
    let piece = board.at(from);
    let list = effects_at(board, from);
    movement::law_effects_are_distinct(board, piece.piece_type, piece.color, from);
    let to = list[n].0.0 as int;
    movement::law_effects_are_what_is_reached(
        board,
        piece.piece_type,
        piece.color,
        from,
        to,
        list[n].1,
    );
    assert(list.contains((Square(to as u8), list[n].1)));
    threat_class::law_reached_squares_are_attacked(
        board,
        piece.piece_type,
        piece.color,
        from,
        to,
        list[n].1,
    );
}

/// The HalfKA2 and threat inputs.
#[derive(Debug)]
pub struct ShogiHalfKa2Threat {
    tables: ThreatTables,
}

impl ShogiHalfKa2Threat {
    /// Everything that the tables of these inputs hold.
    pub closed spec fn table_contents(&self) -> Seq<u64> {
        self.tables.contents()
    }

    /// The inputs, with their tables built.
    pub fn new() -> (input: ShogiHalfKa2Threat)
        ensures
            input.table_contents() == threat_tables::table_values(),
    {
        ShogiHalfKa2Threat { tables: ThreatTables::new() }
    }

    /// Number of threat features.
    pub fn threat_dimensions(&self) -> (n: usize)
        ensures
            n == HALFKA2_THREAT_DIMENSIONS,
            n == threat_index::pair_base(324),
    {
        proof {
            threat_index::law_number_of_threats();
        }
        HALFKA2_THREAT_DIMENSIONS
    }

    /// The FNV-1a checksum of the tables: the first indices of the combinations, the offsets of
    /// the squares and the orders of the attacked squares.
    pub fn tables_checksum(&self) -> (h: u64)
        ensures
            h == checksum::fnv1a(self.table_contents()),
            h == checksum::fnv1a(threat_tables::table_values()),
    {
        self.tables.checksum()
    }

    /// The index of the threat of the piece on `from` to the piece on `to`, for one side.
    fn threat_seen_by(
        &self,
        board: &ShogiBoard,
        perspective: Color,
        from: Square,
        to: Square,
        attacker: ThreatClass,
        attacked: ThreatClass,
    ) -> (index: usize)
        requires
            from.is_valid(),
            to.is_valid(),
            has_class(board, from.0 as int),
            has_class(board, to.0 as int),
            attacker == class_at(board, from.0 as int),
            attacked == class_at(board, to.0 as int),
            threat_class::attacks(attacker, board.at(from.0 as int).color, from.0 as int, to.0 as int),
        ensures
            index == seen_threat(board, perspective, from.0 as int, to.0 as int),
            index < HALFKA2_THREAT_DIMENSIONS,
    {
        let attacker_color = board.piece_on(from).color;
        let target_color = board.piece_on(to).color;
        let params = ThreatParams {
            attacker_side: if attacker_color == perspective {
                0
            } else {
                1
            },
            attacker_class: attacker,
            oriented_color: match perspective {
                Color::Black => attacker_color,
                Color::White => attacker_color.opponent(),
            },
            attacked_side: if target_color == perspective {
                0
            } else {
                1
            },
            attacked_class: attacked,
            from_sq_n: shogi::normalize_sq(from, perspective),
            to_sq_n: shogi::normalize_sq(to, perspective),
        };
        proof {
            lemma_seen_threat(board, perspective, from.0 as int, to.0 as int);
        }
        self.tables.threat_index(&params).unwrap()
    }

    /// Lists the threats of a position, each as the side to move and as the other side sees it.
    /// The indices are those of the threat part alone.
    pub fn map_threat_only(&self, board: &ShogiBoard) -> (features: Vec<(usize, usize)>)
        ensures
            features@ == threat_features(board),
    {
        let stm = board.side_to_move;
        let nstm = stm.opponent();
        let mut features: Vec<(usize, usize)> = Vec::new();
        if !board.king_square(stm).is_valid() || !board.king_square(nstm).is_valid() {
            assert(features@ =~= threat_features(board));
            return features;
        }
        let mut sq: u8 = 0;
        assert(features@ =~= as_features(board, threats_below(board, 0)));
        while sq < 81
            invariant
                sq <= 81,
                stm == board.side_to_move,
                nstm == stm.opponent(),
                features@ == as_features(board, threats_below(board, sq as int)),
            decreases 81 - sq,
        {
            let from = Square(sq);
            let piece = board.piece_on(from);
            sq = sq + 1;
            let attacker = match ThreatClass::from_piece_type(piece.piece_type) {
                Some(class) => class,
                None => {
                    continue ;
                },
            };
            let effects = movement::for_each_effect(piece.piece_type, piece.color, from, board);
            let ghost before = threats_below(board, from.0 as int);
            let mut i: usize = 0;
            assert(before + threats_from(board, from.0 as int, 0) =~= before);
            while i < effects.len()
                invariant
                    i <= effects@.len(),
                    from.is_valid(),
                    stm == board.side_to_move,
                    nstm == stm.opponent(),
                    piece == board.at(from.0 as int),
                    effects@ == effects_at(board, from.0 as int),
                    ThreatClass::of(piece.piece_type) == Some(attacker),
                    features@ == as_features(
                        board,
                        before + threats_from(board, from.0 as int, i as int),
                    ),
                decreases effects@.len() - i,
            {
                let (to, _) = effects[i];
                proof {
                    lemma_effect_attacks(board, from.0 as int, i as int);
                }
                let ghost list = before + threats_from(board, from.0 as int, i as int);
                i = i + 1;
                let attacked = match ThreatClass::from_piece_type(board.piece_on(to).piece_type) {
                    Some(class) => class,
                    None => {
                        continue ;
                    },
                };
                let stm_idx = self.threat_seen_by(board, stm, from, to, attacker, attacked);
                let nstm_idx = self.threat_seen_by(board, nstm, from, to, attacker, attacked);
                features.push((stm_idx, nstm_idx));
                proof {
                    let threat = (from.0 as int, to.0 as int);
                    assert(before + threats_from(board, from.0 as int, i as int) =~= list.push(
                        threat,
                    ));
                    assert(as_features(board, list.push(threat)) =~= as_features(board, list).push(
                        threat_feature(board, threat),
                    ));
                }
            }
        }
        features
    }
}

impl Default for ShogiHalfKa2Threat {
    fn default() -> (input: ShogiHalfKa2Threat)
        ensures
            input.table_contents() == threat_tables::table_values(),
    {
        ShogiHalfKa2Threat::new()
    }
}

impl Clone for ShogiHalfKa2Threat {
    fn clone(&self) -> (copy: ShogiHalfKa2Threat)
        ensures
            copy.table_contents() == self.table_contents(),
    {
        ShogiHalfKa2Threat { tables: self.tables.clone() }
    }
}

} // verus!
