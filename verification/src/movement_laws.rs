//! What each kind of piece reaches, square by square.
use vstd::prelude::*;

use crate::movement;
use crate::shogi::Color;
use crate::shogi::PieceType;
use crate::shogi::ShogiBoard;
use crate::shogi::Square;

verus! {

/// By how many files `to` lies beside `from`, either way.
pub open spec fn files_apart(from: int, to: int) -> int {
    if to / 9 >= from / 9 {
        to / 9 - from / 9
    } else {
        from / 9 - to / 9
    }
}

/// By how many ranks `to` lies ahead of `from` or behind it.
pub open spec fn ranks_apart(from: int, to: int) -> int {
    if to % 9 >= from % 9 {
        to % 9 - from % 9
    } else {
        from % 9 - to % 9
    }
}

/// By how many ranks `to` lies ahead of `from` for a side; less than zero where it lies behind.
pub open spec fn ahead(color: Color, from: int, to: int) -> int {
    match color {
        Color::Black => from % 9 - to % 9,
        Color::White => to % 9 - from % 9,
    }
}

/// Whether `x` lies from `a` to `b`, whichever of the two is the lower.
pub open spec fn within(a: int, b: int, x: int) -> bool {
    a <= x <= b || b <= x <= a
}

/// Whether `s` lies between `from` and `to` on the file, the rank or the diagonal that they share.
pub open spec fn between(from: int, to: int, s: int) -> bool {
    &&& s != from
    &&& s != to
    &&& within(from / 9, to / 9, s / 9)
    &&& within(from % 9, to % 9, s % 9)
    &&& files_apart(from, to) == 0 || ranks_apart(from, to) == 0 || files_apart(from, s)
        == ranks_apart(from, s)
}

/// Whether no piece stands between `from` and `to`.
pub open spec fn sees(board: &ShogiBoard, from: int, to: int) -> bool {
    forall|s: int|
        0 <= s < 81 && #[trigger] between(from, to, s) ==> board.board@[s].piece_type
            == PieceType::Empty
}

/// Along a long direction, nothing in the way means that no piece stands between.
proof fn lemma_clear_is_seen(board: &ShogiBoard, from: int, to: int, dir: (int, int, bool))
    requires
        0 <= from < 81,
        0 <= to < 81,
        dir.2,
        -1 <= dir.0 <= 1,
        -1 <= dir.1 <= 1,
        dir.0 != 0 || dir.1 != 0,
        movement::in_direction(from, to, dir),
    ensures
        movement::clear_between(board, from, to, dir) == sees(board, from, to),
{
    assert forall|s: int| 0 <= s < 81 implies #[trigger] between(from, to, s) == (
    movement::in_direction(from, s, dir) && movement::distance(from, s) < movement::distance(
        from,
        to,
    )) by {}
    if movement::clear_between(board, from, to, dir) {
        assert forall|s: int| 0 <= s < 81 && #[trigger] between(
            from,
            to,
            s,
        ) implies board.board@[s].piece_type == PieceType::Empty by {
            assert(!board.occupied(s));
        }
    }
    if sees(board, from, to) {
        assert forall|s: int|
            0 <= s < 81 && movement::in_direction(from, s, dir) && movement::distance(from, s)
                < movement::distance(from, to) implies !#[trigger] board.occupied(s) by {
            assert(between(from, to, s));
        }
    }
}

/// A single step has nothing in its way.
proof fn lemma_step_is_clear(board: &ShogiBoard, from: int, to: int, dir: (int, int, bool))
    requires
        !dir.2,
        movement::in_direction(from, to, dir),
    ensures
        movement::clear_between(board, from, to, dir),
{
}

/// What it takes to reach a square in direction `i`.
proof fn lemma_direction(
    board: &ShogiBoard,
    pt: PieceType,
    color: Color,
    from: int,
    to: int,
    long: bool,
    i: int,
)
    requires
        0 <= from < 81,
        0 <= to < 81,
        0 <= i < movement::directions(pt, color).len(),
    ensures
        ({
            let dir = movement::directions(pt, color)[i];
            (dir.2 == long && movement::in_direction(from, to, dir) && (long ==> sees(
                board,
                from,
                to,
            ))) == (dir.2 == long && movement::in_direction(from, to, dir)
                && movement::clear_between(board, from, to, dir))
        }),
{
    let dir = movement::directions(pt, color)[i];
    if movement::in_direction(from, to, dir) {
        if dir.2 {
            lemma_clear_is_seen(board, from, to, dir);
        } else {
            lemma_step_is_clear(board, from, to, dir);
        }
    }
}

proof fn lemma_reached_along(
    board: &ShogiBoard,
    pt: PieceType,
    color: Color,
    from: int,
    to: int,
    long: bool,
    i: int,
)
    requires
        0 <= from < 81,
        0 <= to < 81,
        0 <= i < movement::directions(pt, color).len(),
        movement::directions(pt, color)[i].2 == long,
        movement::in_direction(from, to, movement::directions(pt, color)[i]),
        long ==> sees(board, from, to),
    ensures
        reached(board, pt, color, from, to, long),
{
    lemma_direction(board, pt, color, from, to, long, i);
    movement::law_effects_are_what_is_reached(board, pt, color, from, to, long);
    assert(movement::reaches(board, pt, color, from, to, long));
}

proof fn lemma_reached_in_a_direction(
    board: &ShogiBoard,
    pt: PieceType,
    color: Color,
    from: int,
    to: int,
    long: bool,
) -> (i: int)
    requires
        0 <= from < 81,
        0 <= to < 81,
        reached(board, pt, color, from, to, long),
    ensures
        0 <= i < movement::directions(pt, color).len(),
        movement::directions(pt, color)[i].2 == long,
        movement::in_direction(from, to, movement::directions(pt, color)[i]),
        long ==> sees(board, from, to),
{
    movement::law_effects_are_what_is_reached(board, pt, color, from, to, long);
    let i = choose|i: int|
        {
            &&& 0 <= i < movement::directions(pt, color).len()
            &&& (#[trigger] movement::directions(pt, color)[i]).2 == long
            &&& movement::in_direction(from, to, movement::directions(pt, color)[i])
            &&& movement::clear_between(board, from, to, movement::directions(pt, color)[i])
        };
    lemma_direction(board, pt, color, from, to, long, i);
    i
}

/// Whether a piece is listed to reach `to`, as a long effect or as a short one.
pub open spec fn reached(
    board: &ShogiBoard,
    pt: PieceType,
    color: Color,
    from: int,
    to: int,
    long: bool,
) -> bool {
    movement::effects(board, pt, color, from).contains((Square(to as u8), long))
}

/// A pawn reaches the square ahead of it, as a short effect.
#[verifier::spinoff_prover]
#[verifier::rlimit(40)]
pub proof fn law_pawn_reaches(
    board: &ShogiBoard,
    color: Color,
    from: int,
    to: int,
    long: bool,
)
    requires
        0 <= from < 81,
        0 <= to < 81,
    ensures
        reached(board, PieceType::Pawn, color, from, to, long) == (!long && files_apart(from, to) == 0 && ahead(color, from, to) == 1),
{
    let dirs = movement::directions(PieceType::Pawn, color);
    if reached(board, PieceType::Pawn, color, from, to, long) {
        let i = lemma_reached_in_a_direction(board, PieceType::Pawn, color, from, to, long);
    } else if !long || sees(board, from, to) {
        if dirs[0].2 == long && movement::in_direction(from, to, dirs[0]) {
            lemma_reached_along(board, PieceType::Pawn, color, from, to, long, 0);
        }
    }
}

/// A lance reaches the squares ahead of it on its file up to the first piece, as long effects.
#[verifier::spinoff_prover]
#[verifier::rlimit(40)]
pub proof fn law_lance_reaches(
    board: &ShogiBoard,
    color: Color,
    from: int,
    to: int,
    long: bool,
)
    requires
        0 <= from < 81,
        0 <= to < 81,
    ensures
        reached(board, PieceType::Lance, color, from, to, long) == (long && files_apart(from, to) == 0 && ahead(color, from, to) >= 1 && sees(board, from, to)),
{
    let dirs = movement::directions(PieceType::Lance, color);
    if reached(board, PieceType::Lance, color, from, to, long) {
        let i = lemma_reached_in_a_direction(board, PieceType::Lance, color, from, to, long);
    } else if !long || sees(board, from, to) {
        if dirs[0].2 == long && movement::in_direction(from, to, dirs[0]) {
            lemma_reached_along(board, PieceType::Lance, color, from, to, long, 0);
        }
    }
}

/// A knight reaches two squares, two ranks ahead and one file to either side, as short effects.
#[verifier::spinoff_prover]
#[verifier::rlimit(40)]
pub proof fn law_knight_reaches(
    board: &ShogiBoard,
    color: Color,
    from: int,
    to: int,
    long: bool,
)
    requires
        0 <= from < 81,
        0 <= to < 81,
    ensures
        reached(board, PieceType::Knight, color, from, to, long) == (!long && files_apart(from, to) == 1 && ahead(color, from, to) == 2),
{
    let dirs = movement::directions(PieceType::Knight, color);
    if reached(board, PieceType::Knight, color, from, to, long) {
        let i = lemma_reached_in_a_direction(board, PieceType::Knight, color, from, to, long);
    } else if !long || sees(board, from, to) {
        if dirs[0].2 == long && movement::in_direction(from, to, dirs[0]) {
            lemma_reached_along(board, PieceType::Knight, color, from, to, long, 0);
        } else if dirs[1].2 == long && movement::in_direction(from, to, dirs[1]) {
            lemma_reached_along(board, PieceType::Knight, color, from, to, long, 1);
        }
    }
}

/// A silver reaches, of its neighbours, those ahead and those diagonally behind, as short effects.
#[verifier::spinoff_prover]
#[verifier::rlimit(40)]
pub proof fn law_silver_reaches(
    board: &ShogiBoard,
    color: Color,
    from: int,
    to: int,
    long: bool,
)
    requires
        0 <= from < 81,
        0 <= to < 81,
    ensures
        reached(board, PieceType::Silver, color, from, to, long) == (!long && ((files_apart(from, to) <= 1 && ahead(color, from, to) == 1) || (files_apart(from, to) == 1 && ahead(color, from, to) == -1))),
{
    let dirs = movement::directions(PieceType::Silver, color);
    if reached(board, PieceType::Silver, color, from, to, long) {
        let i = lemma_reached_in_a_direction(board, PieceType::Silver, color, from, to, long);
    } else if !long || sees(board, from, to) {
        if dirs[0].2 == long && movement::in_direction(from, to, dirs[0]) {
            lemma_reached_along(board, PieceType::Silver, color, from, to, long, 0);
        } else if dirs[1].2 == long && movement::in_direction(from, to, dirs[1]) {
            lemma_reached_along(board, PieceType::Silver, color, from, to, long, 1);
        } else if dirs[2].2 == long && movement::in_direction(from, to, dirs[2]) {
            lemma_reached_along(board, PieceType::Silver, color, from, to, long, 2);
        } else if dirs[3].2 == long && movement::in_direction(from, to, dirs[3]) {
            lemma_reached_along(board, PieceType::Silver, color, from, to, long, 3);
        } else if dirs[4].2 == long && movement::in_direction(from, to, dirs[4]) {
            lemma_reached_along(board, PieceType::Silver, color, from, to, long, 4);
        }
    }
}

/// A gold, and each piece that moves like one, reaches its neighbours but those diagonally behind, as short effects.
#[verifier::spinoff_prover]
#[verifier::rlimit(40)]
pub proof fn law_gold_reaches(
    board: &ShogiBoard,
    pt: PieceType,
    color: Color,
    from: int,
    to: int,
    long: bool,
)
    requires
        0 <= from < 81,
        0 <= to < 81,
        pt == PieceType::Gold || pt == PieceType::ProPawn || pt == PieceType::ProLance || pt == PieceType::ProKnight || pt == PieceType::ProSilver,
    ensures
        reached(board, pt, color, from, to, long) == (!long && ((files_apart(from, to) <= 1 && ahead(color, from, to) == 1) || (files_apart(from, to) == 1 && ahead(color, from, to) == 0) || (files_apart(from, to) == 0 && ahead(color, from, to) == -1))),
{
    let dirs = movement::directions(pt, color);
    if reached(board, pt, color, from, to, long) {
        let i = lemma_reached_in_a_direction(board, pt, color, from, to, long);
    } else if !long || sees(board, from, to) {
        if dirs[0].2 == long && movement::in_direction(from, to, dirs[0]) {
            lemma_reached_along(board, pt, color, from, to, long, 0);
        } else if dirs[1].2 == long && movement::in_direction(from, to, dirs[1]) {
            lemma_reached_along(board, pt, color, from, to, long, 1);
        } else if dirs[2].2 == long && movement::in_direction(from, to, dirs[2]) {
            lemma_reached_along(board, pt, color, from, to, long, 2);
        } else if dirs[3].2 == long && movement::in_direction(from, to, dirs[3]) {
            lemma_reached_along(board, pt, color, from, to, long, 3);
        } else if dirs[4].2 == long && movement::in_direction(from, to, dirs[4]) {
            lemma_reached_along(board, pt, color, from, to, long, 4);
        } else if dirs[5].2 == long && movement::in_direction(from, to, dirs[5]) {
            lemma_reached_along(board, pt, color, from, to, long, 5);
        }
    }
}

/// A king reaches its eight neighbours and nothing else, as short effects, whatever else is on the board.
#[verifier::spinoff_prover]
#[verifier::rlimit(40)]
pub proof fn law_king_reaches(
    board: &ShogiBoard,
    color: Color,
    from: int,
    to: int,
    long: bool,
)
    requires
        0 <= from < 81,
        0 <= to < 81,
    ensures
        reached(board, PieceType::King, color, from, to, long) == (!long && files_apart(from, to) <= 1 && ranks_apart(from, to) <= 1 && from != to),
{
    let dirs = movement::directions(PieceType::King, color);
    if reached(board, PieceType::King, color, from, to, long) {
        let i = lemma_reached_in_a_direction(board, PieceType::King, color, from, to, long);
    } else if !long || sees(board, from, to) {
        if dirs[0].2 == long && movement::in_direction(from, to, dirs[0]) {
            lemma_reached_along(board, PieceType::King, color, from, to, long, 0);
        } else if dirs[1].2 == long && movement::in_direction(from, to, dirs[1]) {
            lemma_reached_along(board, PieceType::King, color, from, to, long, 1);
        } else if dirs[2].2 == long && movement::in_direction(from, to, dirs[2]) {
            lemma_reached_along(board, PieceType::King, color, from, to, long, 2);
        } else if dirs[3].2 == long && movement::in_direction(from, to, dirs[3]) {
            lemma_reached_along(board, PieceType::King, color, from, to, long, 3);
        } else if dirs[4].2 == long && movement::in_direction(from, to, dirs[4]) {
            lemma_reached_along(board, PieceType::King, color, from, to, long, 4);
        } else if dirs[5].2 == long && movement::in_direction(from, to, dirs[5]) {
            lemma_reached_along(board, PieceType::King, color, from, to, long, 5);
        } else if dirs[6].2 == long && movement::in_direction(from, to, dirs[6]) {
            lemma_reached_along(board, PieceType::King, color, from, to, long, 6);
        } else if dirs[7].2 == long && movement::in_direction(from, to, dirs[7]) {
            lemma_reached_along(board, PieceType::King, color, from, to, long, 7);
        }
    }
}

/// A bishop reaches the squares of its diagonals up to the first piece, as long effects.
#[verifier::spinoff_prover]
#[verifier::rlimit(40)]
pub proof fn law_bishop_reaches(
    board: &ShogiBoard,
    color: Color,
    from: int,
    to: int,
    long: bool,
)
    requires
        0 <= from < 81,
        0 <= to < 81,
    ensures
        reached(board, PieceType::Bishop, color, from, to, long) == (long && files_apart(from, to) == ranks_apart(from, to) && from != to && sees(board, from, to)),
{
    let dirs = movement::directions(PieceType::Bishop, color);
    if reached(board, PieceType::Bishop, color, from, to, long) {
        let i = lemma_reached_in_a_direction(board, PieceType::Bishop, color, from, to, long);
    } else if !long || sees(board, from, to) {
        if dirs[0].2 == long && movement::in_direction(from, to, dirs[0]) {
            lemma_reached_along(board, PieceType::Bishop, color, from, to, long, 0);
        } else if dirs[1].2 == long && movement::in_direction(from, to, dirs[1]) {
            lemma_reached_along(board, PieceType::Bishop, color, from, to, long, 1);
        } else if dirs[2].2 == long && movement::in_direction(from, to, dirs[2]) {
            lemma_reached_along(board, PieceType::Bishop, color, from, to, long, 2);
        } else if dirs[3].2 == long && movement::in_direction(from, to, dirs[3]) {
            lemma_reached_along(board, PieceType::Bishop, color, from, to, long, 3);
        }
    }
}

/// A rook reaches the squares of its file and its rank up to the first piece, as long effects.
#[verifier::spinoff_prover]
#[verifier::rlimit(40)]
pub proof fn law_rook_reaches(
    board: &ShogiBoard,
    color: Color,
    from: int,
    to: int,
    long: bool,
)
    requires
        0 <= from < 81,
        0 <= to < 81,
    ensures
        reached(board, PieceType::Rook, color, from, to, long) == (long && (files_apart(from, to) == 0 || ranks_apart(from, to) == 0) && from != to && sees(board, from, to)),
{
    let dirs = movement::directions(PieceType::Rook, color);
    if reached(board, PieceType::Rook, color, from, to, long) {
        let i = lemma_reached_in_a_direction(board, PieceType::Rook, color, from, to, long);
    } else if !long || sees(board, from, to) {
        if dirs[0].2 == long && movement::in_direction(from, to, dirs[0]) {
            lemma_reached_along(board, PieceType::Rook, color, from, to, long, 0);
        } else if dirs[1].2 == long && movement::in_direction(from, to, dirs[1]) {
            lemma_reached_along(board, PieceType::Rook, color, from, to, long, 1);
        } else if dirs[2].2 == long && movement::in_direction(from, to, dirs[2]) {
            lemma_reached_along(board, PieceType::Rook, color, from, to, long, 2);
        } else if dirs[3].2 == long && movement::in_direction(from, to, dirs[3]) {
            lemma_reached_along(board, PieceType::Rook, color, from, to, long, 3);
        }
    }
}

/// A horse reaches the squares of its diagonals up to the first piece as long effects, and its other neighbours as short ones.
#[verifier::spinoff_prover]
#[verifier::rlimit(40)]
pub proof fn law_horse_reaches(
    board: &ShogiBoard,
    color: Color,
    from: int,
    to: int,
    long: bool,
)
    requires
        0 <= from < 81,
        0 <= to < 81,
    ensures
        reached(board, PieceType::Horse, color, from, to, long) == (from != to && if long {
                files_apart(from, to) == ranks_apart(from, to) && sees(board, from, to)
            } else {
                files_apart(from, to) + ranks_apart(from, to) == 1
            }),
{
    let dirs = movement::directions(PieceType::Horse, color);
    if reached(board, PieceType::Horse, color, from, to, long) {
        let i = lemma_reached_in_a_direction(board, PieceType::Horse, color, from, to, long);
    } else if !long || sees(board, from, to) {
        if dirs[0].2 == long && movement::in_direction(from, to, dirs[0]) {
            lemma_reached_along(board, PieceType::Horse, color, from, to, long, 0);
        } else if dirs[1].2 == long && movement::in_direction(from, to, dirs[1]) {
            lemma_reached_along(board, PieceType::Horse, color, from, to, long, 1);
        } else if dirs[2].2 == long && movement::in_direction(from, to, dirs[2]) {
            lemma_reached_along(board, PieceType::Horse, color, from, to, long, 2);
        } else if dirs[3].2 == long && movement::in_direction(from, to, dirs[3]) {
            lemma_reached_along(board, PieceType::Horse, color, from, to, long, 3);
        } else if dirs[4].2 == long && movement::in_direction(from, to, dirs[4]) {
            lemma_reached_along(board, PieceType::Horse, color, from, to, long, 4);
        } else if dirs[5].2 == long && movement::in_direction(from, to, dirs[5]) {
            lemma_reached_along(board, PieceType::Horse, color, from, to, long, 5);
        } else if dirs[6].2 == long && movement::in_direction(from, to, dirs[6]) {
            lemma_reached_along(board, PieceType::Horse, color, from, to, long, 6);
        } else if dirs[7].2 == long && movement::in_direction(from, to, dirs[7]) {
            lemma_reached_along(board, PieceType::Horse, color, from, to, long, 7);
        }
    }
}

/// A dragon reaches the squares of its file and its rank up to the first piece as long effects, and its other neighbours as short ones.
#[verifier::spinoff_prover]
#[verifier::rlimit(40)]
pub proof fn law_dragon_reaches(
    board: &ShogiBoard,
    color: Color,
    from: int,
    to: int,
    long: bool,
)
    requires
        0 <= from < 81,
        0 <= to < 81,
    ensures
        reached(board, PieceType::Dragon, color, from, to, long) == (from != to && if long {
                (files_apart(from, to) == 0 || ranks_apart(from, to) == 0) && sees(board, from, to)
            } else {
                files_apart(from, to) == 1 && ranks_apart(from, to) == 1
            }),
{
    let dirs = movement::directions(PieceType::Dragon, color);
    if reached(board, PieceType::Dragon, color, from, to, long) {
        let i = lemma_reached_in_a_direction(board, PieceType::Dragon, color, from, to, long);
    } else if !long || sees(board, from, to) {
        if dirs[0].2 == long && movement::in_direction(from, to, dirs[0]) {
            lemma_reached_along(board, PieceType::Dragon, color, from, to, long, 0);
        } else if dirs[1].2 == long && movement::in_direction(from, to, dirs[1]) {
            lemma_reached_along(board, PieceType::Dragon, color, from, to, long, 1);
        } else if dirs[2].2 == long && movement::in_direction(from, to, dirs[2]) {
            lemma_reached_along(board, PieceType::Dragon, color, from, to, long, 2);
        } else if dirs[3].2 == long && movement::in_direction(from, to, dirs[3]) {
            lemma_reached_along(board, PieceType::Dragon, color, from, to, long, 3);
        } else if dirs[4].2 == long && movement::in_direction(from, to, dirs[4]) {
            lemma_reached_along(board, PieceType::Dragon, color, from, to, long, 4);
        } else if dirs[5].2 == long && movement::in_direction(from, to, dirs[5]) {
            lemma_reached_along(board, PieceType::Dragon, color, from, to, long, 5);
        } else if dirs[6].2 == long && movement::in_direction(from, to, dirs[6]) {
            lemma_reached_along(board, PieceType::Dragon, color, from, to, long, 6);
        } else if dirs[7].2 == long && movement::in_direction(from, to, dirs[7]) {
            lemma_reached_along(board, PieceType::Dragon, color, from, to, long, 7);
        }
    }
}

/// An empty square exerts no effect.
pub proof fn law_nothing_reaches_nothing(board: &ShogiBoard, color: Color, from: int)
    ensures
        movement::effects(board, PieceType::Empty, color, from).len() == 0,
{
}

/// Minus one, zero or one, as `b` lies below `a`, at it, or above it.
pub open spec fn heading(a: int, b: int) -> int {
    if b < a {
        -1
    } else if b == a {
        0
    } else {
        1
    }
}

/// The turn of a square among those that a piece reaches.  Pieces that know a forward direction go
/// through the ranks from the foremost on; the others go along files before ranks, and on diagonals
/// file by file.  The lower file and the lower rank come first, and short effects behind long ones.
pub open spec fn turn(pt: PieceType, color: Color, from: int, to: int, long: bool) -> int {
    let file = heading(from / 9, to / 9);
    let rank = heading(from % 9, to % 9);
    let diagonal = file * 3 + rank;
    let straight = if rank == 0 {
        file
    } else {
        3 + rank
    };
    match pt {
        PieceType::King | PieceType::Bishop => diagonal,
        PieceType::Rook => straight,
        PieceType::Horse => if long {
            diagonal
        } else {
            10 + straight
        },
        PieceType::Dragon => if long {
            straight
        } else {
            10 + diagonal
        },
        _ => match color {
            Color::Black => rank * 3 + file,
            Color::White => -rank * 3 + file,
        },
    }
}

/// The squares that a piece reaches are listed in turn, and those in one direction from the nearest to
/// the farthest.
#[verifier::spinoff_prover]
#[verifier::rlimit(40)]
pub proof fn law_effects_come_in_turn(
    board: &ShogiBoard,
    pt: PieceType,
    color: Color,
    from: int,
    i: int,
    j: int,
)
    requires
        0 <= from < 81,
        0 <= i < j < movement::effects(board, pt, color, from).len(),
    ensures
        ({
            let (to1, long1) = movement::effects(board, pt, color, from)[i];
            let (to2, long2) = movement::effects(board, pt, color, from)[j];
            let turn1 = turn(pt, color, from, to1.0 as int, long1);
            let turn2 = turn(pt, color, from, to2.0 as int, long2);
            ||| turn1 < turn2
            ||| turn1 == turn2 && files_apart(from, to1.0 as int) + ranks_apart(from, to1.0 as int)
                < files_apart(from, to2.0 as int) + ranks_apart(from, to2.0 as int)
        }),
{
    let dirs = movement::directions(pt, color);
    let list = movement::effects(board, pt, color, from);
    movement::lemma_effects_in_turn(board, pt, color, from, dirs.len() as int, i, j);
    let (a, b) = choose|a: int, b: int|
        {
            &&& 0 <= a <= b < dirs.len()
            &&& #[trigger] movement::walked(from, list[i], dirs[a])
            &&& #[trigger] movement::walked(from, list[j], dirs[b])
            &&& a == b ==> movement::distance(from, list[i].0.0 as int) < movement::distance(
                from,
                list[j].0.0 as int,
            )
        };
    lemma_turn(pt, color, from, list[i], a);
    lemma_turn(pt, color, from, list[j], b);
    lemma_turns_rise(pt, color, a, b);
}

/// The turn of a direction.
spec fn turn_of(pt: PieceType, color: Color, d: int) -> int {
    let dir = movement::directions(pt, color)[d];
    let file = heading(0, dir.0);
    let rank = heading(0, dir.1);
    let diagonal = file * 3 + rank;
    let straight = if rank == 0 {
        file
    } else {
        3 + rank
    };
    match pt {
        PieceType::King | PieceType::Bishop => diagonal,
        PieceType::Rook => straight,
        PieceType::Horse => if dir.2 {
            diagonal
        } else {
            10 + straight
        },
        PieceType::Dragon => if dir.2 {
            straight
        } else {
            10 + diagonal
        },
        _ => match color {
            Color::Black => rank * 3 + file,
            Color::White => -rank * 3 + file,
        },
    }
}

proof fn lemma_turn(pt: PieceType, color: Color, from: int, effect: (Square, bool), d: int)
    requires
        0 <= d < movement::directions(pt, color).len(),
        movement::walked(from, effect, movement::directions(pt, color)[d]),
    ensures
        turn(pt, color, from, effect.0.0 as int, effect.1) == turn_of(pt, color, d),
{
}

#[verifier::spinoff_prover]
#[verifier::rlimit(40)]
proof fn lemma_turns_rise(pt: PieceType, color: Color, a: int, b: int)
    requires
        0 <= a <= b < movement::directions(pt, color).len(),
    ensures
        a < b ==> turn_of(pt, color, a) < turn_of(pt, color, b),
{
}

} // verus!
