//! Squares, pieces and boards.
use vstd::prelude::*;

verus! {

/// Number of squares on the board.
pub const NUM_SQUARES: usize = 81;

/// The side that owns a piece or is to move.
#[derive(Clone, Copy, Debug, PartialEq, Eq, Structural)]
pub enum Color {
    Black,
    White,
}

impl Color {
    pub open spec fn opponent_spec(self) -> Color {
        match self {
            Color::Black => Color::White,
            Color::White => Color::Black,
        }
    }

    /// The other side.
    #[verifier::when_used_as_spec(opponent_spec)]
    pub fn opponent(self) -> (other: Color)
        ensures
            other == self.opponent_spec(),
    {
        match self {
            Color::Black => Color::White,
            Color::White => Color::Black,
        }
    }
}

/// The kinds of piece, promoted kinds included; `Empty` is no piece.
#[derive(Clone, Copy, Debug, PartialEq, Eq, Structural)]
pub enum PieceType {
    Empty,
    Pawn,
    Lance,
    Knight,
    Silver,
    Bishop,
    Rook,
    Gold,
    King,
    ProPawn,
    ProLance,
    ProKnight,
    ProSilver,
    Horse,
    Dragon,
}

/// What stands on a square.
#[derive(Clone, Copy, Debug, PartialEq, Eq, Structural)]
pub struct Piece {
    pub color: Color,
    pub piece_type: PieceType,
}

impl Piece {
    pub fn new(color: Color, piece_type: PieceType) -> (piece: Piece)
        ensures
            piece == (Piece { color, piece_type }),
    {
        Piece { color, piece_type }
    }

    pub open spec fn is_none_spec(&self) -> bool {
        self.piece_type == PieceType::Empty
    }

    /// Whether this is the absence of a piece.
    #[verifier::when_used_as_spec(is_none_spec)]
    pub fn is_none(&self) -> (empty: bool)
        ensures
            empty == self.is_none_spec(),
    {
        match self.piece_type {
            PieceType::Empty => true,
            _ => false,
        }
    }
}

/// A square, numbered `9 * file + rank`; any number from 81 on is no square.
#[derive(Clone, Copy, Debug, PartialEq, Eq, Structural)]
pub struct Square(pub u8);

/// The file of the square with number `sq`.
pub open spec fn file_of(sq: int) -> int {
    sq / 9
}

/// The rank of the square with number `sq`.
pub open spec fn rank_of(sq: int) -> int {
    sq % 9
}

/// Whether `(file, rank)` are the coordinates of a square.
pub open spec fn on_board(file: int, rank: int) -> bool {
    0 <= file < 9 && 0 <= rank < 9
}

/// The square with coordinates `(file, rank)`.
pub open spec fn square_at(file: int, rank: int) -> Square {
    Square((file * 9 + rank) as u8)
}

/// The coordinates of a square and its number determine each other.
pub proof fn lemma_square_coordinates(file: int, rank: int)
    requires
        on_board(file, rank),
    ensures
        square_at(file, rank).0 == file * 9 + rank,
        square_at(file, rank).0 < 81,
        file_of(square_at(file, rank).0 as int) == file,
        rank_of(square_at(file, rank).0 as int) == rank,
{
}

impl Square {
    pub fn new(file: u8, rank: u8) -> (sq: Square)
        requires
            file * 9 + rank <= u8::MAX,
        ensures
            sq.0 == file * 9 + rank,
    {
        Square(file * 9 + rank)
    }

    pub fn index(self) -> (i: usize)
        ensures
            i == self.0,
    {
        self.0 as usize
    }

    pub open spec fn is_valid_spec(self) -> bool {
        self.0 < 81
    }

    #[verifier::when_used_as_spec(is_valid_spec)]
    pub fn is_valid(self) -> (valid: bool)
        ensures
            valid == self.is_valid_spec(),
    {
        self.0 < 81
    }
}

/// The square with number `sq` as `perspective` sees it: White turns the board by half a turn.
pub open spec fn normalized(sq: int, perspective: Color) -> int {
    match perspective {
        Color::Black => sq,
        Color::White => 80 - sq,
    }
}

/// The square as `perspective` sees it, without any left-right mirroring.
pub fn normalize_sq(sq: Square, perspective: Color) -> (seen: Square)
    requires
        sq.is_valid(),
    ensures
        seen.is_valid(),
        seen.0 == normalized(sq.0 as int, perspective),
{
    match perspective {
        Color::Black => sq,
        Color::White => Square(80 - sq.0),
    }
}

/// A position on the board. A king square that is no square marks a missing king.
#[derive(Clone, Copy, Debug)]
pub struct ShogiBoard {
    pub board: [Piece; 81],
    pub side_to_move: Color,
    pub black_king_sq: Square,
    pub white_king_sq: Square,
}

impl ShogiBoard {
    /// The piece on the square with number `sq`.
    pub open spec fn at(&self, sq: int) -> Piece {
        self.board@[sq]
    }

    /// Whether a piece stands on the square with number `sq`.
    pub open spec fn occupied(&self, sq: int) -> bool {
        !self.at(sq).is_none()
    }

    pub open spec fn king_square_spec(&self, color: Color) -> Square {
        match color {
            Color::Black => self.black_king_sq,
            Color::White => self.white_king_sq,
        }
    }

    /// Whether both kings are on the board.
    pub open spec fn has_both_kings(&self) -> bool {
        self.black_king_sq.is_valid() && self.white_king_sq.is_valid()
    }

    pub fn piece_on(&self, sq: Square) -> (piece: Piece)
        requires
            sq.is_valid(),
        ensures
            piece == self.at(sq.0 as int),
    {
        self.board[sq.index()]
    }

    #[verifier::when_used_as_spec(king_square_spec)]
    pub fn king_square(&self, color: Color) -> (sq: Square)
        ensures
            sq == self.king_square_spec(color),
    {
        match color {
            Color::Black => self.black_king_sq,
            Color::White => self.white_king_sq,
        }
    }
}

impl Default for ShogiBoard {
    /// The empty board, without kings, Black to move.
    fn default() -> (empty: ShogiBoard)
        ensures
            forall|sq: int| 0 <= sq < 81 ==> !empty.occupied(sq),
            empty.side_to_move == Color::Black,
            !empty.black_king_sq.is_valid(),
            !empty.white_king_sq.is_valid(),
    {
        ShogiBoard {
            board: [Piece { color: Color::Black, piece_type: PieceType::Empty };81],
            side_to_move: Color::Black,
            black_king_sq: Square(81),
            white_king_sq: Square(81),
        }
    }
}

/// The opponent of a side is the other side.
pub proof fn law_opponents(color: Color)
    ensures
        color.opponent() != color,
        color.opponent().opponent() == color,
{
}

/// Black sees the board as it is, and White turned by half a turn: the files and the ranks are
/// counted from the other end, and turning the board twice gives the board.
pub proof fn law_white_sees_the_board_turned(sq: int)
    requires
        0 <= sq < 81,
    ensures
        normalized(sq, Color::Black) == sq,
        0 <= normalized(sq, Color::White) < 81,
        normalized(sq, Color::White) / 9 == 8 - sq / 9,
        normalized(sq, Color::White) % 9 == 8 - sq % 9,
        normalized(normalized(sq, Color::White), Color::White) == sq,
{
}

/// The king of each side stands where the board says.
pub proof fn law_kings(board: &ShogiBoard)
    ensures
        board.king_square(Color::Black) == board.black_king_sq,
        board.king_square(Color::White) == board.white_king_sq,
        board.has_both_kings() <==> board.black_king_sq.0 < 81 && board.white_king_sq.0 < 81,
{
}

} // verus!
