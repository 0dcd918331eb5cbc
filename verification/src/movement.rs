//! How pieces move: the squares that a piece exerts effect on, near and far.
use vstd::prelude::*;

use crate::shogi;
use crate::shogi::Color;
use crate::shogi::PieceType;
use crate::shogi::ShogiBoard;
use crate::shogi::Square;

verus! {

/// The change of rank of one step forward.
pub open spec fn forward(color: Color) -> int {
    match color {
        Color::Black => -1,
        Color::White => 1,
    }
}

/// The directions of a piece in the order in which they are walked: the change of file, the
/// change of rank, and whether the piece goes on in that direction until something stops it.
pub open spec fn directions(pt: PieceType, color: Color) -> Seq<(int, int, bool)> {
    let fwd = forward(color);
    match pt {
        PieceType::Empty => seq![],
        PieceType::Pawn => seq![(0, fwd, false)],
        PieceType::Lance => seq![(0, fwd, true)],
        PieceType::Knight => seq![(-1, 2 * fwd, false), (1, 2 * fwd, false)],
        PieceType::Silver => seq![
            (-1, fwd, false),
            (0, fwd, false),
            (1, fwd, false),
            (-1, -fwd, false),
            (1, -fwd, false),
        ],
        PieceType::Gold
        | PieceType::ProPawn
        | PieceType::ProLance
        | PieceType::ProKnight
        | PieceType::ProSilver => seq![
            (-1, fwd, false),
            (0, fwd, false),
            (1, fwd, false),
            (-1, 0, false),
            (1, 0, false),
            (0, -fwd, false),
        ],
        PieceType::King => seq![
            (-1, -1, false),
            (-1, 0, false),
            (-1, 1, false),
            (0, -1, false),
            (0, 1, false),
            (1, -1, false),
            (1, 0, false),
            (1, 1, false),
        ],
        PieceType::Bishop => seq![(-1, -1, true), (-1, 1, true), (1, -1, true), (1, 1, true)],
        PieceType::Rook => seq![(-1, 0, true), (1, 0, true), (0, -1, true), (0, 1, true)],
        PieceType::Horse => seq![
            (-1, -1, true),
            (-1, 1, true),
            (1, -1, true),
            (1, 1, true),
            (-1, 0, false),
            (1, 0, false),
            (0, -1, false),
            (0, 1, false),
        ],
        PieceType::Dragon => seq![
            (-1, 0, true),
            (1, 0, true),
            (0, -1, true),
            (0, 1, true),
            (-1, -1, false),
            (-1, 1, false),
            (1, -1, false),
            (1, 1, false),
        ],
    }
}

/// After how many steps from `(f, r)` in direction `(df, dr)` the board is left, at the latest.
pub open spec fn steps_left(f: int, r: int, df: int, dr: int) -> nat {
    let n = if df > 0 {
        9 - f
    } else if df < 0 {
        f + 1
    } else if dr > 0 {
        9 - r
    } else {
        r + 1
    };
    if n >= 0 {
        n as nat
    } else {
        0
    }
}

/// The squares from `(f, r)` on in direction `(df, dr)`, up to and with the first occupied one.
pub open spec fn ray(board: &ShogiBoard, f: int, r: int, df: int, dr: int) -> Seq<Square>
    decreases steps_left(f, r, df, dr),
{
    if !shogi::on_board(f, r) || (df == 0 && dr == 0) {
        seq![]
    } else if board.occupied(shogi::square_at(f, r).0 as int) {
        seq![shogi::square_at(f, r)]
    } else {
        seq![shogi::square_at(f, r)] + ray(board, f + df, r + dr, df, dr)
    }
}

/// The squares that a piece on `from` exerts effect on in one direction.
pub open spec fn line(board: &ShogiBoard, from: int, dir: (int, int, bool)) -> Seq<Square> {
    let f = shogi::file_of(from) + dir.0;
    let r = shogi::rank_of(from) + dir.1;
    if dir.2 {
        ray(board, f, r, dir.0, dir.1)
    } else if shogi::on_board(f, r) {
        seq![shogi::square_at(f, r)]
    } else {
        seq![]
    }
}

/// What a piece on `from` exerts in the first `n` of the directions `dirs`: each square, and
/// whether the effect on it is a long one.
pub open spec fn effects_along(
    board: &ShogiBoard,
    from: int,
    dirs: Seq<(int, int, bool)>,
    n: int,
) -> Seq<(Square, bool)>
    decreases n,
{
    if n <= 0 {
        seq![]
    } else {
        let dir = dirs[n - 1];
        effects_along(board, from, dirs, n - 1) + line(board, from, dir).map_values(
            |sq: Square| (sq, dir.2),
        )
    }
}

/// The effect of a piece of kind `pt` and side `color` on `from`: each square that it reaches on
/// this board, and whether it reaches it as a long effect.
pub open spec fn effects(board: &ShogiBoard, pt: PieceType, color: Color, from: int) -> Seq<
    (Square, bool),
> {
    let dirs = directions(pt, color);
    effects_along(board, from, dirs, dirs.len() as int)
}

/// Whether a direction is one that some piece walks in: a step to a neighbour, near or far, or a
/// knight's jump.
pub open spec fn is_direction(dir: (int, int, bool)) -> bool {
    &&& -1 <= dir.0 <= 1
    &&& -2 <= dir.1 <= 2
    &&& (dir.0 != 0 || dir.1 != 0)
    &&& dir.2 ==> -1 <= dir.1 <= 1
}

/// Whether `to` lies in direction `dir` from `from`: at any distance if the direction is a long
/// one, else one step away.
pub open spec fn in_direction(from: int, to: int, dir: (int, int, bool)) -> bool {
    let df = shogi::file_of(to) - shogi::file_of(from);
    let dr = shogi::rank_of(to) - shogi::rank_of(from);
    if dir.2 {
        &&& sign(df) == sign(dir.0)
        &&& sign(dr) == sign(dir.1)
        &&& dir.0 != 0 && dir.1 != 0 ==> magnitude(df) == magnitude(dr)
    } else {
        df == dir.0 && dr == dir.1
    }
}

pub open spec fn sign(x: int) -> int {
    if x > 0 {
        1
    } else if x < 0 {
        -1
    } else {
        0
    }
}

pub open spec fn magnitude(x: int) -> int {
    if x >= 0 {
        x
    } else {
        -x
    }
}

/// The number of king's steps between two squares.
pub open spec fn distance(from: int, to: int) -> int {
    let df = magnitude(shogi::file_of(to) - shogi::file_of(from));
    let dr = magnitude(shogi::rank_of(to) - shogi::rank_of(from));
    if df >= dr {
        df
    } else {
        dr
    }
}

/// Whether every square that lies between `from` and `to` in direction `dir` is empty.
pub open spec fn clear_between(
    board: &ShogiBoard,
    from: int,
    to: int,
    dir: (int, int, bool),
) -> bool {
    forall|s: int|
        0 <= s < 81 && in_direction(from, s, dir) && distance(from, s) < distance(from, to)
            ==> !#[trigger] board.occupied(s)
}

/// Whether a piece of kind `pt` and side `color` on `from` exerts a long (or a short) effect on
/// `to`: `to` lies in one of its long (or short) directions, with nothing between.
pub open spec fn reaches(
    board: &ShogiBoard,
    pt: PieceType,
    color: Color,
    from: int,
    to: int,
    long: bool,
) -> bool {
    exists|i: int|
        {
            &&& 0 <= i < directions(pt, color).len()
            &&& (#[trigger] directions(pt, color)[i]).2 == long
            &&& in_direction(from, to, directions(pt, color)[i])
            &&& clear_between(board, from, to, directions(pt, color)[i])
        }
}

/// Whether the squares at `k` to `d - 1` steps from `from` in direction `dir` are empty.
spec fn clear_stretch(
    board: &ShogiBoard,
    from: int,
    dir: (int, int, bool),
    k: int,
    d: int,
) -> bool {
    forall|s: int|
        0 <= s < 81 && in_direction(from, s, dir) && k <= distance(from, s) < d
            ==> !#[trigger] board.occupied(s)
}

/// What a ray that sets out from `from` consists of, followed from its `k`-th step `(f, r)` on.
proof fn lemma_ray(board: &ShogiBoard, from: int, f: int, r: int, df: int, dr: int, k: int)
    requires
        0 <= from < 81,
        -1 <= df <= 1,
        -1 <= dr <= 1,
        df != 0 || dr != 0,
        1 <= k,
        sign(f - shogi::file_of(from)) == df,
        sign(r - shogi::rank_of(from)) == dr,
        df != 0 ==> magnitude(f - shogi::file_of(from)) == k,
        dr != 0 ==> magnitude(r - shogi::rank_of(from)) == k,
    ensures
        ({
            let squares = ray(board, f, r, df, dr);
            let dir = (df, dr, true);
            &&& forall|i: int|
                0 <= i < squares.len() ==> {
                    &&& (#[trigger] squares[i]).is_valid()
                    &&& in_direction(from, squares[i].0 as int, dir)
                    &&& distance(from, squares[i].0 as int) == k + i
                    &&& clear_stretch(board, from, dir, k, k + i)
                }
            &&& forall|to: int|
                0 <= to < 81 && in_direction(from, to, dir) && k <= distance(from, to)
                    && clear_stretch(board, from, dir, k, distance(from, to))
                    ==> #[trigger] squares.contains(Square(to as u8))
        }),
    decreases steps_left(f, r, df, dr),
{
    let squares = ray(board, f, r, df, dr);
    let dir = (df, dr, true);
    if shogi::on_board(f, r) {
        shogi::lemma_square_coordinates(f, r);
        let here = shogi::square_at(f, r);
        assert(squares[0] == here);
        assert(in_direction(from, here.0 as int, dir));
        assert(distance(from, here.0 as int) == k);
        let rest = ray(board, f + df, r + dr, df, dr);
        if !board.occupied(here.0 as int) {
            lemma_ray(board, from, f + df, r + dr, df, dr, k + 1);
            assert forall|i: int| 0 <= i < squares.len() implies {
                &&& (#[trigger] squares[i]).is_valid()
                &&& in_direction(from, squares[i].0 as int, dir)
                &&& distance(from, squares[i].0 as int) == k + i
                &&& clear_stretch(board, from, dir, k, k + i)
            } by {
                if i > 0 {
                    assert(squares[i] == rest[i - 1]);
                    assert(clear_stretch(board, from, dir, k + 1, k + i));
                    assert forall|s: int|
                        0 <= s < 81 && in_direction(from, s, dir) && k <= distance(from, s) < k
                            + i implies !#[trigger] board.occupied(s) by {
                        if distance(from, s) == k {
                            assert(s == here.0);
                        }
                    }
                }
            }
        }
        assert forall|to: int|
            0 <= to < 81 && in_direction(from, to, dir) && k <= distance(from, to)
                && clear_stretch(
                board,
                from,
                dir,
                k,
                distance(from, to),
            ) implies #[trigger] squares.contains(Square(to as u8)) by {
            if distance(from, to) == k {
                assert(to == here.0);
            } else {
                assert(!board.occupied(here.0 as int));
                assert(rest.contains(Square(to as u8)));
                let j = choose|j: int| 0 <= j < rest.len() && rest[j] == Square(to as u8);
                assert(squares[j + 1] == Square(to as u8));
            }
        }
    }
}

/// What the effect of a piece in one direction consists of.
proof fn lemma_line(board: &ShogiBoard, from: int, dir: (int, int, bool))
    requires
        0 <= from < 81,
        is_direction(dir),
    ensures
        forall|i: int|
            0 <= i < line(board, from, dir).len() ==> {
                &&& (#[trigger] line(board, from, dir)[i]).is_valid()
                &&& in_direction(from, line(board, from, dir)[i].0 as int, dir)
                &&& clear_between(board, from, line(board, from, dir)[i].0 as int, dir)
            },
        forall|i: int, j: int|
            0 <= i < j < line(board, from, dir).len() ==> line(board, from, dir)[i] != line(
                board,
                from,
                dir,
            )[j],
        forall|to: int|
            0 <= to < 81 && in_direction(from, to, dir) && clear_between(board, from, to, dir)
                ==> #[trigger] line(board, from, dir).contains(Square(to as u8)),
{
    let f = shogi::file_of(from) + dir.0;
    let r = shogi::rank_of(from) + dir.1;
    let squares = line(board, from, dir);
    if dir.2 {
        lemma_ray(board, from, f, r, dir.0, dir.1, 1);
        assert(dir == (dir.0, dir.1, true));
        assert forall|i: int| 0 <= i < squares.len() implies clear_between(
            board,
            from,
            (#[trigger] squares[i]).0 as int,
            dir,
        ) by {
            assert(squares[i] == ray(board, f, r, dir.0, dir.1)[i]);
            assert(clear_stretch(board, from, dir, 1, 1 + i));
        }
        assert forall|to: int|
            0 <= to < 81 && in_direction(from, to, dir) && clear_between(
                board,
                from,
                to,
                dir,
            ) implies #[trigger] squares.contains(Square(to as u8)) by {
            assert(clear_stretch(board, from, dir, 1, distance(from, to)));
        }
    } else if shogi::on_board(f, r) {
        shogi::lemma_square_coordinates(f, r);
        assert(squares[0] == shogi::square_at(f, r));
    }
}

proof fn lemma_directions(pt: PieceType, color: Color)
    ensures
        directions(pt, color).len() <= 8,
        forall|i: int|
            0 <= i < directions(pt, color).len() ==> is_direction(
                #[trigger] directions(pt, color)[i],
            ),
{
}

/// Whether two directions point different ways.
spec fn differ(a: (int, int, bool), b: (int, int, bool)) -> bool {
    sign(a.0) != sign(b.0) || sign(a.1) != sign(b.1)
}

proof fn lemma_directions_differ(pt: PieceType, color: Color)
    ensures
        forall|i: int, j: int|
            0 <= i < j < directions(pt, color).len() ==> differ(
                #[trigger] directions(pt, color)[i],
                #[trigger] directions(pt, color)[j],
            ),
{
}

/// What the effect of a piece in its first `n` directions consists of.
proof fn lemma_effects_along(board: &ShogiBoard, pt: PieceType, color: Color, from: int, n: int)
    requires
        0 <= from < 81,
        0 <= n <= directions(pt, color).len(),
    ensures
        ({
            let dirs = directions(pt, color);
            let list = effects_along(board, from, dirs, n);
            &&& forall|i: int|
                0 <= i < list.len() ==> (#[trigger] list[i]).0.is_valid() && exists|d: int|
                    {
                        &&& 0 <= d < n
                        &&& (#[trigger] dirs[d]).2 == list[i].1
                        &&& in_direction(from, list[i].0.0 as int, dirs[d])
                        &&& clear_between(board, from, list[i].0.0 as int, dirs[d])
                    }
            &&& forall|i: int, j: int|
                0 <= i < j < list.len() ==> (#[trigger] list[i]).0 != (#[trigger] list[j]).0
            &&& forall|to: int, d: int|
                0 <= to < 81 && 0 <= d < n && #[trigger] in_direction(from, to, dirs[d])
                    && clear_between(board, from, to, dirs[d]) ==> list.contains(
                    (Square(to as u8), dirs[d].2),
                )
        }),
    decreases n,
{
    let dirs = directions(pt, color);
    let list = effects_along(board, from, dirs, n);
    if n > 0 {
        lemma_directions(pt, color);
        lemma_directions_differ(pt, color);
        lemma_effects_along(board, pt, color, from, n - 1);
        let dir = dirs[n - 1];
        lemma_line(board, from, dir);
        let before = effects_along(board, from, dirs, n - 1);
        let squares = line(board, from, dir);
        let m = before.len();
        assert(list.len() == m + squares.len());
        assert(forall|i: int| 0 <= i < m ==> list[i] == before[i]);
        assert(forall|i: int|
            m <= i < list.len() ==> list[i] == (#[trigger] squares[i - m], dir.2));
        assert forall|i: int| 0 <= i < list.len() implies (#[trigger] list[i]).0.is_valid()
            && exists|d: int|
            {
                &&& 0 <= d < n
                &&& (#[trigger] dirs[d]).2 == list[i].1
                &&& in_direction(from, list[i].0.0 as int, dirs[d])
                &&& clear_between(board, from, list[i].0.0 as int, dirs[d])
            } by {
            if i < m {
                assert(list[i] == before[i]);
            } else {
                assert(list[i] == (squares[i - m], dir.2));
                assert(dirs[n - 1].2 == list[i].1);
            }
        }
        assert forall|i: int, j: int| 0 <= i < j < list.len() implies (#[trigger] list[i]).0 != (
        #[trigger] list[j]).0 by {
            if j < m {
                assert(list[i] == before[i] && list[j] == before[j]);
            } else if i >= m {
                assert(squares[i - m] != squares[j - m]);
            } else {
                assert(list[i] == before[i]);
                assert(list[j] == (squares[j - m], dir.2));
                let d = choose|d: int|
                    {
                        &&& 0 <= d < n - 1
                        &&& (#[trigger] dirs[d]).2 == before[i].1
                        &&& in_direction(from, before[i].0.0 as int, dirs[d])
                        &&& clear_between(board, from, before[i].0.0 as int, dirs[d])
                    };
                assert(differ(dirs[d], dirs[n - 1]));
            }
        }
        assert forall|to: int, d: int|
            0 <= to < 81 && 0 <= d < n && #[trigger] in_direction(from, to, dirs[d])
                && clear_between(board, from, to, dirs[d]) implies list.contains(
            (Square(to as u8), dirs[d].2),
        ) by {
            if d < n - 1 {
                let e = (Square(to as u8), dirs[d].2);
                assert(before.contains(e));
                let i = choose|i: int| 0 <= i < before.len() && before[i] == e;
                assert(list[i] == e);
            } else {
                assert(squares.contains(Square(to as u8)));
                let i = choose|i: int| 0 <= i < squares.len() && squares[i] == Square(to as u8);
                assert(list[m + i] == (squares[i], dir.2));
            }
        }
    }
}

/// The effect of a piece, characterised by geometry alone: a square is listed as a long (or a
/// short) effect exactly if the piece reaches it so.
pub proof fn law_effects_are_what_is_reached(
    board: &ShogiBoard,
    pt: PieceType,
    color: Color,
    from: int,
    to: int,
    long: bool,
)
    requires
        0 <= from < 81,
        0 <= to < 81,
    ensures
        effects(board, pt, color, from).contains((Square(to as u8), long)) <==> reaches(
            board,
            pt,
            color,
            from,
            to,
            long,
        ),
{
    let dirs = directions(pt, color);
    let list = effects(board, pt, color, from);
    lemma_effects_along(board, pt, color, from, dirs.len() as int);
    if list.contains((Square(to as u8), long)) {
        let i = choose|i: int| 0 <= i < list.len() && list[i] == (Square(to as u8), long);
        assert(list[i].0.0 as int == to);
    }
    if reaches(board, pt, color, from, to, long) {
        let d = choose|d: int|
            {
                &&& 0 <= d < dirs.len()
                &&& (#[trigger] dirs[d]).2 == long
                &&& in_direction(from, to, dirs[d])
                &&& clear_between(board, from, to, dirs[d])
            };
        assert(in_direction(from, to, dirs[d]));
    }
}

/// Whether an effect is one in direction `dir`.
pub open spec fn walked(from: int, effect: (Square, bool), dir: (int, int, bool)) -> bool {
    effect.1 == dir.2 && in_direction(from, effect.0.0 as int, dir)
}

/// Whether one effect comes before another in the first `n` of the directions `dirs`: in an earlier
/// direction, or nearer in the same.
pub open spec fn in_turn(
    from: int,
    dirs: Seq<(int, int, bool)>,
    n: int,
    first: (Square, bool),
    second: (Square, bool),
) -> bool {
    exists|a: int, b: int|
        {
            &&& 0 <= a <= b < n
            &&& #[trigger] walked(from, first, dirs[a])
            &&& #[trigger] walked(from, second, dirs[b])
            &&& a == b ==> distance(from, first.0.0 as int) < distance(from, second.0.0 as int)
        }
}

/// The squares of a direction are listed from the nearest to the farthest.
proof fn lemma_line_goes_outward(board: &ShogiBoard, from: int, dir: (int, int, bool), i: int, j: int)
    requires
        0 <= from < 81,
        is_direction(dir),
        0 <= i < j < line(board, from, dir).len(),
    ensures
        distance(from, line(board, from, dir)[i].0 as int) < distance(
            from,
            line(board, from, dir)[j].0 as int,
        ),
{
    let f = shogi::file_of(from) + dir.0;
    let r = shogi::rank_of(from) + dir.1;
    if dir.2 {
        lemma_ray(board, from, f, r, dir.0, dir.1, 1);
        let squares = ray(board, f, r, dir.0, dir.1);
        assert(distance(from, squares[i].0 as int) == 1 + i);
        assert(distance(from, squares[j].0 as int) == 1 + j);
    }
}

/// The effects of a piece are listed direction by direction, and outward in each.
pub proof fn lemma_effects_in_turn(
    board: &ShogiBoard,
    pt: PieceType,
    color: Color,
    from: int,
    n: int,
    i: int,
    j: int,
)
    requires
        0 <= from < 81,
        0 <= n <= directions(pt, color).len(),
        0 <= i < j < effects_along(board, from, directions(pt, color), n).len(),
    ensures
        in_turn(
            from,
            directions(pt, color),
            n,
            effects_along(board, from, directions(pt, color), n)[i],
            effects_along(board, from, directions(pt, color), n)[j],
        ),
    decreases n,
{
    let dirs = directions(pt, color);
    let list = effects_along(board, from, dirs, n);
    if n > 0 {
        lemma_directions(pt, color);
        let dir = dirs[n - 1];
        lemma_line(board, from, dir);
        let before = effects_along(board, from, dirs, n - 1);
        let squares = line(board, from, dir);
        let m = before.len();
        if j < m {
            lemma_effects_in_turn(board, pt, color, from, n - 1, i, j);
            assert(list[i] == before[i] && list[j] == before[j]);
            let (a, b) = choose|a: int, b: int|
                {
                    &&& 0 <= a <= b < n - 1
                    &&& #[trigger] walked(from, before[i], dirs[a])
                    &&& #[trigger] walked(from, before[j], dirs[b])
                    &&& a == b ==> distance(from, before[i].0.0 as int) < distance(
                        from,
                        before[j].0.0 as int,
                    )
                };
            assert(walked(from, list[i], dirs[a]) && walked(from, list[j], dirs[b]));
        } else {
            assert(list[j] == (squares[j - m], dir.2));
            assert(walked(from, list[j], dirs[n - 1]));
            if i < m {
                lemma_effects_along(board, pt, color, from, n - 1);
                assert(list[i] == before[i]);
                let d = choose|d: int|
                    {
                        &&& 0 <= d < n - 1
                        &&& (#[trigger] dirs[d]).2 == before[i].1
                        &&& in_direction(from, before[i].0.0 as int, dirs[d])
                        &&& clear_between(board, from, before[i].0.0 as int, dirs[d])
                    };
                assert(walked(from, list[i], dirs[d]));
            } else {
                assert(list[i] == (squares[i - m], dir.2));
                assert(walked(from, list[i], dirs[n - 1]));
                lemma_line_goes_outward(board, from, dir, i - m, j - m);
            }
        }
    }
}

/// A piece reaches only squares of the board, and none of them twice.
pub proof fn law_effects_are_distinct(board: &ShogiBoard, pt: PieceType, color: Color, from: int)
    requires
        0 <= from < 81,
    ensures
        forall|i: int|
            0 <= i < effects(board, pt, color, from).len() ==> (#[trigger] effects(
                board,
                pt,
                color,
                from,
            )[i]).0.is_valid(),
        forall|i: int, j: int|
            0 <= i < j < effects(board, pt, color, from).len() ==> (#[trigger] effects(
                board,
                pt,
                color,
                from,
            )[i]).0 != (#[trigger] effects(board, pt, color, from)[j]).0,
{
    lemma_effects_along(board, pt, color, from, directions(pt, color).len() as int);
}

proof fn lemma_same_ray(
    board1: &ShogiBoard,
    board2: &ShogiBoard,
    f: int,
    r: int,
    df: int,
    dr: int,
)
    requires
        forall|sq: int| 0 <= sq < 81 ==> board1.occupied(sq) == board2.occupied(sq),
    ensures
        ray(board1, f, r, df, dr) == ray(board2, f, r, df, dr),
    decreases steps_left(f, r, df, dr),
{
    if shogi::on_board(f, r) && (df != 0 || dr != 0) {
        shogi::lemma_square_coordinates(f, r);
        assert(board1.occupied(shogi::square_at(f, r).0 as int) == board2.occupied(
            shogi::square_at(f, r).0 as int,
        ));
        lemma_same_ray(board1, board2, f + df, r + dr, df, dr);
    }
}

proof fn lemma_same_effects_along(
    board1: &ShogiBoard,
    board2: &ShogiBoard,
    from: int,
    dirs: Seq<(int, int, bool)>,
    n: int,
)
    requires
        forall|sq: int| 0 <= sq < 81 ==> board1.occupied(sq) == board2.occupied(sq),
    ensures
        effects_along(board1, from, dirs, n) == effects_along(board2, from, dirs, n),
    decreases n,
{
    if n > 0 {
        lemma_same_effects_along(board1, board2, from, dirs, n - 1);
        let dir = dirs[n - 1];
        lemma_same_ray(
            board1,
            board2,
            shogi::file_of(from) + dir.0,
            shogi::rank_of(from) + dir.1,
            dir.0,
            dir.1,
        );
    }
}

/// What a piece reaches depends on nothing but which squares are occupied.
pub proof fn law_effects_depend_on_occupied_squares(
    board1: &ShogiBoard,
    board2: &ShogiBoard,
    pt: PieceType,
    color: Color,
    from: int,
)
    requires
        forall|sq: int| 0 <= sq < 81 ==> board1.occupied(sq) == board2.occupied(sq),
    ensures
        effects(board1, pt, color, from) == effects(board2, pt, color, from),
{
    let dirs = directions(pt, color);
    lemma_same_effects_along(board1, board2, from, dirs, dirs.len() as int);
}

/// The direction that points the other way.
pub open spec fn reversed(dir: (int, int, bool)) -> (int, int, bool) {
    (-dir.0, -dir.1, dir.2)
}

proof fn lemma_reversed_direction(pt: PieceType, color: Color, i: int) -> (j: int)
    requires
        0 <= i < directions(pt, color).len(),
    ensures
        0 <= j < directions(pt, color.opponent()).len(),
        directions(pt, color.opponent())[j] == reversed(directions(pt, color)[i]),
{
    let d = reversed(directions(pt, color)[i]);
    let dirs = directions(pt, color.opponent());
    if dirs[0] == d {
        0
    } else if dirs[1] == d {
        1
    } else if dirs[2] == d {
        2
    } else if dirs[3] == d {
        3
    } else if dirs[4] == d {
        4
    } else if dirs[5] == d {
        5
    } else if dirs[6] == d {
        6
    } else {
        7
    }
}

proof fn lemma_turned_squares(from: int, to: int, dir: (int, int, bool))
    requires
        0 <= from < 81,
        0 <= to < 81,
    ensures
        in_direction(80 - from, 80 - to, reversed(dir)) == in_direction(from, to, dir),
        distance(80 - from, 80 - to) == distance(from, to),
{
    assert(shogi::file_of(80 - from) == 8 - shogi::file_of(from));
    assert(shogi::rank_of(80 - from) == 8 - shogi::rank_of(from));
    assert(shogi::file_of(80 - to) == 8 - shogi::file_of(to));
    assert(shogi::rank_of(80 - to) == 8 - shogi::rank_of(to));
}

proof fn lemma_reach_turns(
    board: &ShogiBoard,
    turned: &ShogiBoard,
    pt: PieceType,
    color: Color,
    from: int,
    to: int,
    long: bool,
)
    requires
        0 <= from < 81,
        0 <= to < 81,
        forall|sq: int| 0 <= sq < 81 ==> #[trigger] turned.occupied(sq) == board.occupied(80 - sq),
        reaches(board, pt, color, from, to, long),
    ensures
        reaches(turned, pt, color.opponent(), 80 - from, 80 - to, long),
{
    let i = choose|i: int|
        {
            &&& 0 <= i < directions(pt, color).len()
            &&& (#[trigger] directions(pt, color)[i]).2 == long
            &&& in_direction(from, to, directions(pt, color)[i])
            &&& clear_between(board, from, to, directions(pt, color)[i])
        };
    let dir = directions(pt, color)[i];
    let j = lemma_reversed_direction(pt, color, i);
    lemma_turned_squares(from, to, dir);
    assert forall|s: int|
        0 <= s < 81 && in_direction(80 - from, s, reversed(dir)) && distance(80 - from, s)
            < distance(80 - from, 80 - to) implies !#[trigger] turned.occupied(s) by {
        lemma_turned_squares(from, 80 - s, dir);
        assert(!board.occupied(80 - s));
    }
    assert(directions(pt, color.opponent())[j].2 == long);
}

/// Turning the board by half a turn and exchanging the sides keeps what every piece reaches.
pub proof fn law_reach_turns_with_the_board(
    board: &ShogiBoard,
    turned: &ShogiBoard,
    pt: PieceType,
    color: Color,
    from: int,
    to: int,
    long: bool,
)
    requires
        0 <= from < 81,
        0 <= to < 81,
        forall|sq: int| 0 <= sq < 81 ==> #[trigger] turned.occupied(sq) == board.occupied(80 - sq),
    ensures
        reaches(board, pt, color, from, to, long) == reaches(
            turned,
            pt,
            color.opponent(),
            80 - from,
            80 - to,
            long,
        ),
{
    if reaches(board, pt, color, from, to, long) {
        lemma_reach_turns(board, turned, pt, color, from, to, long);
    }
    if reaches(turned, pt, color.opponent(), 80 - from, 80 - to, long) {
        assert forall|sq: int| 0 <= sq < 81 implies #[trigger] board.occupied(sq)
            == turned.occupied(80 - sq) by {
            assert(turned.occupied(80 - sq) == board.occupied(80 - (80 - sq)));
        }
        lemma_reach_turns(turned, board, pt, color.opponent(), 80 - from, 80 - to, long);
    }
}

/// The directions of a piece as a list.
fn list_directions(pt: PieceType, color: Color) -> (dirs: Vec<(i8, i8, bool)>)
    ensures
        dirs@.len() == directions(pt, color).len(),
        forall|i: int|
            0 <= i < dirs@.len() ==> {
                &&& (#[trigger] dirs@[i]).0 == directions(pt, color)[i].0
                &&& dirs@[i].1 == directions(pt, color)[i].1
                &&& dirs@[i].2 == directions(pt, color)[i].2
            },
{
    let fwd: i8 = match color {
        Color::Black => -1,
        Color::White => 1,
    };
    let back: i8 = -fwd;
    match pt {
        PieceType::Empty => Vec::new(),
        PieceType::Pawn => vec![(0, fwd, false)],
        PieceType::Lance => vec![(0, fwd, true)],
        PieceType::Knight => vec![(-1, 2 * fwd, false), (1, 2 * fwd, false)],
        PieceType::Silver => vec![
            (-1, fwd, false),
            (0, fwd, false),
            (1, fwd, false),
            (-1, back, false),
            (1, back, false),
        ],
        PieceType::Gold
        | PieceType::ProPawn
        | PieceType::ProLance
        | PieceType::ProKnight
        | PieceType::ProSilver => vec![
            (-1, fwd, false),
            (0, fwd, false),
            (1, fwd, false),
            (-1, 0, false),
            (1, 0, false),
            (0, back, false),
        ],
        PieceType::King => vec![
            (-1, -1, false),
            (-1, 0, false),
            (-1, 1, false),
            (0, -1, false),
            (0, 1, false),
            (1, -1, false),
            (1, 0, false),
            (1, 1, false),
        ],
        PieceType::Bishop => vec![(-1, -1, true), (-1, 1, true), (1, -1, true), (1, 1, true)],
        PieceType::Rook => vec![(-1, 0, true), (1, 0, true), (0, -1, true), (0, 1, true)],
        PieceType::Horse => vec![
            (-1, -1, true),
            (-1, 1, true),
            (1, -1, true),
            (1, 1, true),
            (-1, 0, false),
            (1, 0, false),
            (0, -1, false),
            (0, 1, false),
        ],
        PieceType::Dragon => vec![
            (-1, 0, true),
            (1, 0, true),
            (0, -1, true),
            (0, 1, true),
            (-1, -1, false),
            (-1, 1, false),
            (1, -1, false),
            (1, 1, false),
        ],
    }
}

/// Appends the squares from `(f0, r0)` on in direction `(df, dr)` to `out`, as long effects.
fn push_ray(board: &ShogiBoard, f0: i8, r0: i8, df: i8, dr: i8, out: &mut Vec<(Square, bool)>)
    requires
        -1 <= df <= 1,
        -1 <= dr <= 1,
        df != 0 || dr != 0,
        -1 <= f0 <= 9,
        -1 <= r0 <= 9,
    ensures
        final(out)@ == old(out)@ + ray(board, f0 as int, r0 as int, df as int, dr as int).map_values(
            |sq: Square| (sq, true),
        ),
{
    let mut f: i8 = f0;
    let mut r: i8 = r0;
    let ghost whole = ray(board, f0 as int, r0 as int, df as int, dr as int);
    let ghost mut walked: Seq<Square> = seq![];
    assert(walked + whole == whole);
    assert(out@ == old(out)@ + walked.map_values(|sq: Square| (sq, true)));
    while 0 <= f && f < 9 && 0 <= r && r < 9
        invariant_except_break
            -1 <= df <= 1,
            -1 <= dr <= 1,
            df != 0 || dr != 0,
            -1 <= f <= 9,
            -1 <= r <= 9,
            whole == walked + ray(board, f as int, r as int, df as int, dr as int),
            out@ == old(out)@ + walked.map_values(|sq: Square| (sq, true)),
        ensures
            out@ == old(out)@ + whole.map_values(|sq: Square| (sq, true)),
        decreases steps_left(f as int, r as int, df as int, dr as int),
    {
        let sq = Square::new(f as u8, r as u8);
        proof {
            shogi::lemma_square_coordinates(f as int, r as int);
            assert(sq == shogi::square_at(f as int, r as int));
            assert(walked.push(sq).map_values(|sq: Square| (sq, true)) =~= walked.map_values(
                |sq: Square| (sq, true),
            ).push((sq, true)));
            walked = walked.push(sq);
        }
        out.push((sq, true));
        if !board.piece_on(sq).is_none() {
            assert(whole =~= walked);
            break;
        }
        f = f + df;
        r = r + dr;
        assert(whole =~= walked + ray(board, f as int, r as int, df as int, dr as int));
    }
}

/// Lists the effect of a piece of kind `pt` and side `color` that stands on `from`: each square
/// that it reaches on this board, kings' neighbours too, and whether the effect is a long one.
/// Lances, bishops, rooks, horses (diagonally) and dragons (straight) have long effects, adjacent
/// squares among them; all other effects are single steps.
pub fn for_each_effect(pt: PieceType, color: Color, from: Square, board: &ShogiBoard) -> (out: Vec<
    (Square, bool),
>)
    requires
        from.is_valid(),
    ensures
        out@ == effects(board, pt, color, from.0 as int),
{
    let file: i8 = (from.0 / 9) as i8;
    let rank: i8 = (from.0 % 9) as i8;
    let dirs = list_directions(pt, color);
    let mut out: Vec<(Square, bool)> = Vec::new();
    let mut i: usize = 0;
    while i < dirs.len()
        invariant
            from.is_valid(),
            file == shogi::file_of(from.0 as int),
            rank == shogi::rank_of(from.0 as int),
            i <= dirs@.len() == directions(pt, color).len(),
            forall|i: int|
                0 <= i < dirs@.len() ==> {
                    &&& (#[trigger] dirs@[i]).0 == directions(pt, color)[i].0
                    &&& dirs@[i].1 == directions(pt, color)[i].1
                    &&& dirs@[i].2 == directions(pt, color)[i].2
                },
            out@ == effects_along(board, from.0 as int, directions(pt, color), i as int),
        decreases dirs@.len() - i,
    {
        let (df, dr, long) = dirs[i];
        let ghost dir = directions(pt, color)[i as int];
        let ghost before = out@;
        proof {
            lemma_directions(pt, color);
            assert(dir == (df as int, dr as int, long));
        }
        let f: i8 = file + df;
        let r: i8 = rank + dr;
        if long {
            push_ray(board, f, r, df, dr, &mut out);
            assert(out@ =~= before + line(board, from.0 as int, dir).map_values(
                |sq: Square| (sq, dir.2),
            ));
        } else if 0 <= f && f < 9 && 0 <= r && r < 9 {
            let sq = Square::new(f as u8, r as u8);
            proof {
                shogi::lemma_square_coordinates(f as int, r as int);
            }
            out.push((sq, false));
            assert(out@ =~= before + line(board, from.0 as int, dir).map_values(
                |sq: Square| (sq, dir.2),
            ));
        } else {
            assert(out@ =~= before + line(board, from.0 as int, dir).map_values(
                |sq: Square| (sq, dir.2),
            ));
        }
        i = i + 1;
    }
    out
}

} // verus!
