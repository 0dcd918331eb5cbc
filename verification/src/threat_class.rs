//! Classes of pieces that threaten and are threatened, and how many threats there can be.
use vstd::prelude::*;

use crate::movement;
use crate::shogi;
use crate::shogi::Color;
use crate::shogi::PieceType;
use crate::shogi::ShogiBoard;
use crate::shogi::Square;

verus! {

/// Number of classes of pieces.
pub const NUM_THREAT_CLASSES: usize = 9;

/// Number of ways in which the pieces of a class attack: those of White differ from those of
/// Black in the classes that know a forward direction.
pub const NUM_ATTACK_PATTERNS: usize = 14;

/// Number of combinations of an attacker's side and class with a target's side and class.
pub const NUM_PAIRS: usize = 324;

/// Number of threats: combinations as above, with the squares of the attacker and the target.
pub const HALFKA2_THREAT_DIMENSIONS: usize = 216_720;

/// Pieces that move alike and that are no kings.
#[derive(Clone, Copy, Debug, PartialEq, Eq, Structural)]
pub enum ThreatClass {
    Pawn,
    Lance,
    Knight,
    Silver,
    GoldLike,
    Bishop,
    Rook,
    Horse,
    Dragon,
}

impl ThreatClass {
    /// The number of the class.
    pub open spec fn number(self) -> int {
        match self {
            ThreatClass::Pawn => 0,
            ThreatClass::Lance => 1,
            ThreatClass::Knight => 2,
            ThreatClass::Silver => 3,
            ThreatClass::GoldLike => 4,
            ThreatClass::Bishop => 5,
            ThreatClass::Rook => 6,
            ThreatClass::Horse => 7,
            ThreatClass::Dragon => 8,
        }
    }

    /// The class with number `n`.
    pub open spec fn numbered(n: int) -> ThreatClass {
        if n <= 0 {
            ThreatClass::Pawn
        } else if n == 1 {
            ThreatClass::Lance
        } else if n == 2 {
            ThreatClass::Knight
        } else if n == 3 {
            ThreatClass::Silver
        } else if n == 4 {
            ThreatClass::GoldLike
        } else if n == 5 {
            ThreatClass::Bishop
        } else if n == 6 {
            ThreatClass::Rook
        } else if n == 7 {
            ThreatClass::Horse
        } else {
            ThreatClass::Dragon
        }
    }

    pub fn index(self) -> (n: usize)
        ensures
            n == self.number(),
            n < 9,
    {
        match self {
            ThreatClass::Pawn => 0,
            ThreatClass::Lance => 1,
            ThreatClass::Knight => 2,
            ThreatClass::Silver => 3,
            ThreatClass::GoldLike => 4,
            ThreatClass::Bishop => 5,
            ThreatClass::Rook => 6,
            ThreatClass::Horse => 7,
            ThreatClass::Dragon => 8,
        }
    }

    pub fn from_index(n: usize) -> (class: ThreatClass)
        requires
            n < 9,
        ensures
            class == Self::numbered(n as int),
            class.number() == n,
    {
        match n {
            0 => ThreatClass::Pawn,
            1 => ThreatClass::Lance,
            2 => ThreatClass::Knight,
            3 => ThreatClass::Silver,
            4 => ThreatClass::GoldLike,
            5 => ThreatClass::Bishop,
            6 => ThreatClass::Rook,
            7 => ThreatClass::Horse,
            _ => ThreatClass::Dragon,
        }
    }

    pub open spec fn of(pt: PieceType) -> Option<ThreatClass> {
        match pt {
            PieceType::Empty | PieceType::King => None,
            PieceType::Pawn => Some(ThreatClass::Pawn),
            PieceType::Lance => Some(ThreatClass::Lance),
            PieceType::Knight => Some(ThreatClass::Knight),
            PieceType::Silver => Some(ThreatClass::Silver),
            PieceType::Gold
            | PieceType::ProPawn
            | PieceType::ProLance
            | PieceType::ProKnight
            | PieceType::ProSilver => Some(ThreatClass::GoldLike),
            PieceType::Bishop => Some(ThreatClass::Bishop),
            PieceType::Rook => Some(ThreatClass::Rook),
            PieceType::Horse => Some(ThreatClass::Horse),
            PieceType::Dragon => Some(ThreatClass::Dragon),
        }
    }

    /// The class of a piece; kings have none.
    pub fn from_piece_type(pt: PieceType) -> (class: Option<ThreatClass>)
        ensures
            class == Self::of(pt),
    {
        match pt {
            PieceType::Empty | PieceType::King => None,
            PieceType::Pawn => Some(ThreatClass::Pawn),
            PieceType::Lance => Some(ThreatClass::Lance),
            PieceType::Knight => Some(ThreatClass::Knight),
            PieceType::Silver => Some(ThreatClass::Silver),
            PieceType::Gold
            | PieceType::ProPawn
            | PieceType::ProLance
            | PieceType::ProKnight
            | PieceType::ProSilver => Some(ThreatClass::GoldLike),
            PieceType::Bishop => Some(ThreatClass::Bishop),
            PieceType::Rook => Some(ThreatClass::Rook),
            PieceType::Horse => Some(ThreatClass::Horse),
            PieceType::Dragon => Some(ThreatClass::Dragon),
        }
    }
}

/// Whether a piece of the class attacks, on an empty board, the square `side` files beside it
/// and `ahead` ranks ahead of it.
pub open spec fn attack_shape(class: ThreatClass, side: int, ahead: int) -> bool {
    let beside = movement::magnitude(side);
    let away = movement::magnitude(ahead);
    match class {
        ThreatClass::Pawn => beside == 0 && ahead == 1,
        ThreatClass::Lance => beside == 0 && ahead >= 1,
        ThreatClass::Knight => beside == 1 && ahead == 2,
        ThreatClass::Silver => (beside <= 1 && ahead == 1) || (beside == 1 && ahead == -1),
        ThreatClass::GoldLike => (beside <= 1 && ahead == 1) || (beside == 1 && ahead == 0) || (
        beside == 0 && ahead == -1),
        ThreatClass::Bishop => beside == away && beside != 0,
        ThreatClass::Rook => (beside == 0) != (away == 0),
        ThreatClass::Horse => (beside == away && beside != 0) || beside + away == 1,
        ThreatClass::Dragon => (beside == 0) != (away == 0) || (beside == 1 && away == 1),
    }
}

/// How many ranks `to` lies ahead of `from` for `color`.
pub open spec fn ranks_ahead(color: Color, from: int, to: int) -> int {
    match color {
        Color::Black => shogi::rank_of(from) - shogi::rank_of(to),
        Color::White => shogi::rank_of(to) - shogi::rank_of(from),
    }
}

/// Whether a piece of the class and side on `from` attacks `to` on an empty board.
pub open spec fn attacks(class: ThreatClass, color: Color, from: int, to: int) -> bool {
    attack_shape(
        class,
        shogi::file_of(to) - shogi::file_of(from),
        ranks_ahead(color, from, to),
    )
}

/// Whether a piece of the class and side on `from` attacks `to` on an empty board.
pub fn attacks_square(class: ThreatClass, color: Color, from: Square, to: Square) -> (r: bool)
    requires
        from.is_valid(),
        to.is_valid(),
    ensures
        r == attacks(class, color, from.0 as int, to.0 as int),
{
    let (file1, rank1): (i8, i8) = ((from.0 / 9) as i8, (from.0 % 9) as i8);
    let (file2, rank2): (i8, i8) = ((to.0 / 9) as i8, (to.0 % 9) as i8);
    let beside: i8 = if file2 >= file1 {
        file2 - file1
    } else {
        file1 - file2
    };
    let ahead: i8 = match color {
        Color::Black => rank1 - rank2,
        Color::White => rank2 - rank1,
    };
    let away: i8 = if ahead >= 0 {
        ahead
    } else {
        -ahead
    };
    match class {
        ThreatClass::Pawn => beside == 0 && ahead == 1,
        ThreatClass::Lance => beside == 0 && ahead >= 1,
        ThreatClass::Knight => beside == 1 && ahead == 2,
        ThreatClass::Silver => (beside <= 1 && ahead == 1) || (beside == 1 && ahead == -1),
        ThreatClass::GoldLike => (beside <= 1 && ahead == 1) || (beside == 1 && ahead == 0) || (
        beside == 0 && ahead == -1),
        ThreatClass::Bishop => beside == away && beside != 0,
        ThreatClass::Rook => (beside == 0) != (away == 0),
        ThreatClass::Horse => (beside == away && beside != 0) || beside + away == 1,
        ThreatClass::Dragon => (beside == 0) != (away == 0) || (beside == 1 && away == 1),
    }
}

/// How many of the squares below `n` a piece on `from` attacks on an empty board.
pub open spec fn attacked_below(class: ThreatClass, color: Color, from: int, n: int) -> nat
    decreases n,
{
    if n <= 0 {
        0
    } else {
        attacked_below(class, color, from, n - 1) + if attacks(class, color, from, n - 1) {
            1nat
        } else {
            0
        }
    }
}

/// How many attacks on an empty board start from the squares below `n`.
pub open spec fn attacks_from_below(class: ThreatClass, color: Color, n: int) -> nat
    decreases n,
{
    if n <= 0 {
        0
    } else {
        attacks_from_below(class, color, n - 1) + attacked_below(class, color, n - 1, 81)
    }
}

/// Turning the board by half a turn and exchanging the sides keeps every attack.
pub proof fn law_attacks_turn_with_the_board(
    class: ThreatClass,
    color: Color,
    from: int,
    to: int,
)
    requires
        0 <= from < 81,
        0 <= to < 81,
    ensures
        attacks(class, color, from, to) == attacks(class, color.opponent(), 80 - from, 80 - to),
{
    assert(shogi::file_of(80 - from) == 8 - shogi::file_of(from));
    assert(shogi::file_of(80 - to) == 8 - shogi::file_of(to));
    assert(shogi::rank_of(80 - from) == 8 - shogi::rank_of(from));
    assert(shogi::rank_of(80 - to) == 8 - shogi::rank_of(to));
    let side = shogi::file_of(to) - shogi::file_of(from);
    let ahead = ranks_ahead(color, from, to);
    assert(attack_shape(class, side, ahead) == attack_shape(class, -side, ahead));
}

/// Whatever a piece that is no king reaches on some board it attacks on the empty board.
pub proof fn law_reached_squares_are_attacked(
    board: &ShogiBoard,
    pt: PieceType,
    color: Color,
    from: int,
    to: int,
    long: bool,
)
    requires
        0 <= from < 81,
        0 <= to < 81,
        ThreatClass::of(pt) is Some,
        movement::reaches(board, pt, color, from, to, long),
    ensures
        attacks(ThreatClass::of(pt)->0, color, from, to),
{
    let i = choose|i: int|
        {
            &&& 0 <= i < movement::directions(pt, color).len()
            &&& (#[trigger] movement::directions(pt, color)[i]).2 == long
            &&& movement::in_direction(from, to, movement::directions(pt, color)[i])
            &&& movement::clear_between(board, from, to, movement::directions(pt, color)[i])
        };
    let dir = movement::directions(pt, color)[i];
}

/// On a board without pieces, a piece that is no king reaches whatever it attacks.
pub proof fn law_attacked_squares_are_reached(
    board: &ShogiBoard,
    pt: PieceType,
    color: Color,
    from: int,
    to: int,
)
    requires
        0 <= from < 81,
        0 <= to < 81,
        ThreatClass::of(pt) is Some,
        forall|sq: int| 0 <= sq < 81 ==> !#[trigger] board.occupied(sq),
        attacks(ThreatClass::of(pt)->0, color, from, to),
    ensures
        exists|long: bool| #[trigger] movement::reaches(board, pt, color, from, to, long),
{
    let dirs = movement::directions(pt, color);
    let i = lemma_attack_direction(pt, color, from, to);
    assert(movement::clear_between(board, from, to, dirs[i]));
    assert(movement::reaches(board, pt, color, from, to, dirs[i].2));
}

/// An attacked square lies in one of the directions of the piece.
#[verifier::spinoff_prover]
#[verifier::rlimit(40)]
proof fn lemma_attack_direction(pt: PieceType, color: Color, from: int, to: int) -> (i: int)
    requires
        0 <= from < 81,
        0 <= to < 81,
        ThreatClass::of(pt) is Some,
        attacks(ThreatClass::of(pt)->0, color, from, to),
    ensures
        0 <= i < movement::directions(pt, color).len(),
        movement::in_direction(from, to, movement::directions(pt, color)[i]),
{
    let dirs = movement::directions(pt, color);
    if movement::in_direction(from, to, dirs[0]) {
        0
    } else if dirs.len() > 1 && movement::in_direction(from, to, dirs[1]) {
        1
    } else if dirs.len() > 2 && movement::in_direction(from, to, dirs[2]) {
        2
    } else if dirs.len() > 3 && movement::in_direction(from, to, dirs[3]) {
        3
    } else if dirs.len() > 4 && movement::in_direction(from, to, dirs[4]) {
        4
    } else if dirs.len() > 5 && movement::in_direction(from, to, dirs[5]) {
        5
    } else if dirs.len() > 6 && movement::in_direction(from, to, dirs[6]) {
        6
    } else {
        7
    }
}

/// The number of attacks of a class on the empty board.
pub open spec fn class_attacks(class: ThreatClass) -> nat {
    match class {
        ThreatClass::Pawn => 72,
        ThreatClass::Lance => 324,
        ThreatClass::Knight => 112,
        ThreatClass::Silver => 328,
        ThreatClass::GoldLike => 416,
        ThreatClass::Bishop => 816,
        ThreatClass::Rook => 1296,
        ThreatClass::Horse => 1104,
        ThreatClass::Dragon => 1552,
    }
}

/// The number of attacks of a class on the empty board.
pub fn class_attack_count(class: ThreatClass) -> (n: usize)
    ensures
        n == class_attacks(class),
{
    match class {
        ThreatClass::Pawn => 72,
        ThreatClass::Lance => 324,
        ThreatClass::Knight => 112,
        ThreatClass::Silver => 328,
        ThreatClass::GoldLike => 416,
        ThreatClass::Bishop => 816,
        ThreatClass::Rook => 1296,
        ThreatClass::Horse => 1104,
        ThreatClass::Dragon => 1552,
    }
}

spec fn one_if(b: bool) -> int {
    if b {
        1
    } else {
        0
    }
}

spec fn least(a: int, b: int) -> int {
    if a <= b {
        a
    } else {
        b
    }
}

/// How many squares of a file `side` files away are attacked, with `room` ranks ahead.
spec fn file_attacks(class: ThreatClass, side: int, room: int) -> int {
    let beside = movement::magnitude(side);
    let back = 8 - room;
    match class {
        ThreatClass::Pawn => one_if(beside == 0 && room >= 1),
        ThreatClass::Lance => if beside == 0 {
            room
        } else {
            0
        },
        ThreatClass::Knight => one_if(beside == 1 && room >= 2),
        ThreatClass::Silver => one_if(beside <= 1 && room >= 1) + one_if(beside == 1 && back >= 1),
        ThreatClass::GoldLike => one_if(beside <= 1 && room >= 1) + one_if(beside == 1) + one_if(
            beside == 0 && back >= 1,
        ),
        ThreatClass::Bishop => if beside == 0 {
            0
        } else {
            one_if(room >= beside) + one_if(back >= beside)
        },
        ThreatClass::Rook => if beside == 0 {
            8
        } else {
            1
        },
        ThreatClass::Horse => if beside == 0 {
            one_if(room >= 1) + one_if(back >= 1)
        } else {
            one_if(room >= beside) + one_if(back >= beside) + one_if(beside == 1)
        },
        ThreatClass::Dragon => if beside == 0 {
            8
        } else if beside == 1 {
            1 + one_if(room >= 1) + one_if(back >= 1)
        } else {
            1
        },
    }
}

/// How many squares are attacked from file `f` with `room` ranks ahead.
spec fn square_attacks(class: ThreatClass, f: int, room: int) -> int {
    let back = 8 - room;
    let sides = one_if(f > 0) + one_if(f < 8);
    let ahead = one_if(room >= 1);
    let behind = one_if(back >= 1);
    let diagonals = least(f, room) + least(8 - f, room) + least(f, back) + least(8 - f, back);
    match class {
        ThreatClass::Pawn => ahead,
        ThreatClass::Lance => room,
        ThreatClass::Knight => if room >= 2 {
            sides
        } else {
            0
        },
        ThreatClass::Silver => (if room >= 1 {
            1 + sides
        } else {
            0
        }) + (if back >= 1 {
            sides
        } else {
            0
        }),
        ThreatClass::GoldLike => (if room >= 1 {
            1 + sides
        } else {
            0
        }) + sides + behind,
        ThreatClass::Bishop => diagonals,
        ThreatClass::Rook => 16,
        ThreatClass::Horse => diagonals + sides + ahead + behind,
        ThreatClass::Dragon => 16 + (if room >= 1 {
            sides
        } else {
            0
        }) + (if back >= 1 {
            sides
        } else {
            0
        }),
    }
}

spec fn room_ahead(color: Color, r: int) -> int {
    match color {
        Color::Black => r,
        Color::White => 8 - r,
    }
}

/// One, if the square `side` files beside and `ahead` ranks ahead is attacked.
#[verifier::opaque]
spec fn one_attacked(class: ThreatClass, side: int, ahead: int) -> int {
    one_if(attack_shape(class, side, ahead))
}

/// How many of the squares at `room`, `room - 1`, .. `room - 8` ranks ahead, `side` files away,
/// are attacked.
spec fn shapes_in_file(class: ThreatClass, side: int, room: int) -> int {
    one_attacked(class, side, room) + one_attacked(class, side, room - 1) + one_attacked(
        class,
        side,
        room - 2,
    ) + one_attacked(class, side, room - 3) + one_attacked(class, side, room - 4) + one_attacked(
        class,
        side,
        room - 5,
    ) + one_attacked(class, side, room - 6) + one_attacked(class, side, room - 7) + one_attacked(
        class,
        side,
        room - 8,
    )
}

#[verifier::spinoff_prover]
#[verifier::rlimit(40)]
proof fn lemma_shapes_in_file(class: ThreatClass, side: int, room: int)
    requires
        -8 <= side <= 8,
        0 <= room <= 8,
    ensures
        shapes_in_file(class, side, room) == file_attacks(class, side, room),
{
    reveal(one_attacked);
    match class {
        ThreatClass::Pawn => {},
        ThreatClass::Lance => {},
        ThreatClass::Knight => {},
        ThreatClass::Silver => {},
        ThreatClass::GoldLike => {},
        ThreatClass::Bishop => {},
        ThreatClass::Rook => {},
        ThreatClass::Horse => {},
        ThreatClass::Dragon => {},
    }
}

proof fn lemma_next_rank(class: ThreatClass, color: Color, f: int, r: int, g: int, k: int)
    requires
        shogi::on_board(f, r),
        shogi::on_board(g, k),
    ensures
        attacked_below(class, color, f * 9 + r, g * 9 + k + 1) == attacked_below(
            class,
            color,
            f * 9 + r,
            g * 9 + k,
        ) + one_attacked(
            class,
            g - f,
            match color {
                Color::Black => r - k,
                Color::White => k - r,
            },
        ),
{
    reveal(one_attacked);
    assert(shogi::file_of(f * 9 + r) == f && shogi::rank_of(f * 9 + r) == r);
    assert(shogi::file_of(g * 9 + k) == g && shogi::rank_of(g * 9 + k) == k);
}

#[verifier::spinoff_prover]
#[verifier::rlimit(40)]
proof fn lemma_file_attacks(class: ThreatClass, color: Color, f: int, r: int, g: int)
    requires
        shogi::on_board(f, r),
        0 <= g < 9,
    ensures
        attacked_below(class, color, f * 9 + r, g * 9 + 9) == attacked_below(
            class,
            color,
            f * 9 + r,
            g * 9,
        ) + file_attacks(class, g - f, room_ahead(color, r)),
{
    lemma_shapes_in_file(class, g - f, room_ahead(color, r));
    lemma_next_rank(class, color, f, r, g, 0);
    lemma_next_rank(class, color, f, r, g, 1);
    lemma_next_rank(class, color, f, r, g, 2);
    lemma_next_rank(class, color, f, r, g, 3);
    lemma_next_rank(class, color, f, r, g, 4);
    lemma_next_rank(class, color, f, r, g, 5);
    lemma_next_rank(class, color, f, r, g, 6);
    lemma_next_rank(class, color, f, r, g, 7);
    lemma_next_rank(class, color, f, r, g, 8);
}

/// The sum of `file_attacks` over all files.
spec fn files_sum(class: ThreatClass, f: int, room: int) -> int {
    file_attacks(class, 0 - f, room) + file_attacks(class, 1 - f, room) + file_attacks(
        class,
        2 - f,
        room,
    ) + file_attacks(class, 3 - f, room) + file_attacks(class, 4 - f, room) + file_attacks(
        class,
        5 - f,
        room,
    ) + file_attacks(class, 6 - f, room) + file_attacks(class, 7 - f, room) + file_attacks(
        class,
        8 - f,
        room,
    )
}

#[verifier::spinoff_prover]
#[verifier::rlimit(40)]
proof fn lemma_files_sum(class: ThreatClass, f: int, room: int)
    requires
        0 <= f < 9,
        0 <= room < 9,
    ensures
        square_attacks(class, f, room) == files_sum(class, f, room),
{
    match class {
        ThreatClass::Pawn => {},
        ThreatClass::Lance => {},
        ThreatClass::Knight => {},
        ThreatClass::Silver => {},
        ThreatClass::GoldLike => {},
        ThreatClass::Bishop => lemma_files_sum_bishop(f, room),
        ThreatClass::Rook => {},
        ThreatClass::Horse => lemma_files_sum_horse(f, room),
        ThreatClass::Dragon => {},
    }
}

#[verifier::spinoff_prover]
#[verifier::rlimit(40)]
proof fn lemma_files_sum_bishop(f: int, room: int)
    requires
        0 <= f < 9,
        0 <= room < 9,
    ensures
        square_attacks(ThreatClass::Bishop, f, room) == files_sum(ThreatClass::Bishop, f, room),
{
}

proof fn lemma_files_sum_horse(f: int, room: int)
    requires
        0 <= f < 9,
        0 <= room < 9,
    ensures
        square_attacks(ThreatClass::Horse, f, room) == files_sum(ThreatClass::Horse, f, room),
{
    lemma_files_sum_bishop(f, room);
    lemma_horse_file(0 - f, room);
    lemma_horse_file(1 - f, room);
    lemma_horse_file(2 - f, room);
    lemma_horse_file(3 - f, room);
    lemma_horse_file(4 - f, room);
    lemma_horse_file(5 - f, room);
    lemma_horse_file(6 - f, room);
    lemma_horse_file(7 - f, room);
    lemma_horse_file(8 - f, room);
}

/// A horse attacks what a bishop attacks, and its neighbours.
proof fn lemma_horse_file(side: int, room: int)
    ensures
        file_attacks(ThreatClass::Horse, side, room) == file_attacks(
            ThreatClass::Bishop,
            side,
            room,
        ) + if side == 0 {
            one_if(room >= 1) + one_if(room <= 7)
        } else {
            one_if(side == 1 || side == -1)
        },
{
}

proof fn lemma_square_attacks(class: ThreatClass, color: Color, f: int, r: int)
    requires
        shogi::on_board(f, r),
    ensures
        attacked_below(class, color, f * 9 + r, 81) == square_attacks(
            class,
            f,
            room_ahead(color, r),
        ),
{
    lemma_files_sum(class, f, room_ahead(color, r));
    lemma_file_attacks(class, color, f, r, 0);
    lemma_file_attacks(class, color, f, r, 1);
    lemma_file_attacks(class, color, f, r, 2);
    lemma_file_attacks(class, color, f, r, 3);
    lemma_file_attacks(class, color, f, r, 4);
    lemma_file_attacks(class, color, f, r, 5);
    lemma_file_attacks(class, color, f, r, 6);
    lemma_file_attacks(class, color, f, r, 7);
    lemma_file_attacks(class, color, f, r, 8);
}

/// The attacks from the squares of one file, one with each number of ranks ahead.
spec fn attacks_from_file(class: ThreatClass, f: int) -> int {
    square_attacks(class, f, 0) + square_attacks(class, f, 1) + square_attacks(class, f, 2)
        + square_attacks(class, f, 3) + square_attacks(class, f, 4) + square_attacks(class, f, 5)
        + square_attacks(class, f, 6) + square_attacks(class, f, 7) + square_attacks(class, f, 8)
}

proof fn lemma_attacks_from_file(class: ThreatClass, color: Color, f: int)
    requires
        0 <= f < 9,
    ensures
        attacks_from_below(class, color, f * 9 + 9) == attacks_from_below(class, color, f * 9)
            + attacks_from_file(class, f),
{
    reveal_with_fuel(attacks_from_below, 10);
    lemma_square_attacks(class, color, f, 0);
    lemma_square_attacks(class, color, f, 1);
    lemma_square_attacks(class, color, f, 2);
    lemma_square_attacks(class, color, f, 3);
    lemma_square_attacks(class, color, f, 4);
    lemma_square_attacks(class, color, f, 5);
    lemma_square_attacks(class, color, f, 6);
    lemma_square_attacks(class, color, f, 7);
    lemma_square_attacks(class, color, f, 8);
}

/// The sum of `attacks_from_file` over all files.
spec fn all_files(class: ThreatClass) -> int {
    attacks_from_file(class, 0) + attacks_from_file(class, 1) + attacks_from_file(class, 2)
        + attacks_from_file(class, 3) + attacks_from_file(class, 4) + attacks_from_file(class, 5)
        + attacks_from_file(class, 6) + attacks_from_file(class, 7) + attacks_from_file(class, 8)
}

proof fn lemma_all_files(class: ThreatClass)
    ensures
        all_files(class) == class_attacks(class),
{
    match class {
        ThreatClass::Pawn => {},
        ThreatClass::Lance => {},
        ThreatClass::Knight => {},
        ThreatClass::Silver => lemma_all_files_silver(),
        ThreatClass::GoldLike => lemma_all_files_gold(),
        ThreatClass::Bishop => lemma_all_files_bishop(),
        ThreatClass::Rook => {},
        ThreatClass::Horse => lemma_all_files_horse(),
        ThreatClass::Dragon => lemma_all_files_dragon(),
    }
}

#[verifier::spinoff_prover]
#[verifier::rlimit(40)]
proof fn lemma_all_files_silver()
    ensures
        all_files(ThreatClass::Silver) == class_attacks(ThreatClass::Silver),
{
}

#[verifier::spinoff_prover]
#[verifier::rlimit(40)]
proof fn lemma_all_files_gold()
    ensures
        all_files(ThreatClass::GoldLike) == class_attacks(ThreatClass::GoldLike),
{
}

#[verifier::spinoff_prover]
#[verifier::rlimit(40)]
proof fn lemma_all_files_bishop()
    ensures
        all_files(ThreatClass::Bishop) == class_attacks(ThreatClass::Bishop),
{
}

proof fn lemma_all_files_horse()
    ensures
        all_files(ThreatClass::Horse) == class_attacks(ThreatClass::Horse),
{
    lemma_all_files_bishop();
    lemma_horse_from_file(0);
    lemma_horse_from_file(1);
    lemma_horse_from_file(2);
    lemma_horse_from_file(3);
    lemma_horse_from_file(4);
    lemma_horse_from_file(5);
    lemma_horse_from_file(6);
    lemma_horse_from_file(7);
    lemma_horse_from_file(8);
}

proof fn lemma_horse_from_file(f: int)
    ensures
        attacks_from_file(ThreatClass::Horse, f) == attacks_from_file(ThreatClass::Bishop, f) + 9
            * (one_if(f > 0) + one_if(f < 8)) + 16,
{
}

#[verifier::spinoff_prover]
#[verifier::rlimit(40)]
proof fn lemma_all_files_dragon()
    ensures
        all_files(ThreatClass::Dragon) == class_attacks(ThreatClass::Dragon),
{
}

/// How many attacks the pieces of each class have on an empty board, from all squares together.
pub proof fn law_class_attacks(class: ThreatClass, color: Color)
    ensures
        attacks_from_below(class, color, 81) == class_attacks(class),
{
    lemma_all_files(class);
    lemma_attacks_from_file(class, color, 0);
    lemma_attacks_from_file(class, color, 1);
    lemma_attacks_from_file(class, color, 2);
    lemma_attacks_from_file(class, color, 3);
    lemma_attacks_from_file(class, color, 4);
    lemma_attacks_from_file(class, color, 5);
    lemma_attacks_from_file(class, color, 6);
    lemma_attacks_from_file(class, color, 7);
    lemma_attacks_from_file(class, color, 8);
}

} // verus!
