use vstd::prelude::*;

use crate::movegen::ChessMove;
use crate::piece::{Color, Piece, PieceType};

verus! {

/// What stands on one square: a piece or nothing.
pub type Square = Option<Piece>;

/// An 8x8 grid of squares, indexed by (row, column); row 0 is White's back rank.
pub struct Board {
    pub squares: [[Square; 8]; 8],
}

/// The back-rank kind of column `c`: rook, knight, bishop, queen, king, bishop, knight, rook.
pub open spec fn back_rank_kind(c: int) -> PieceType {
    if c == 0 || c == 7 {
        PieceType::Rook
    } else if c == 1 || c == 6 {
        PieceType::Knight
    } else if c == 2 || c == 5 {
        PieceType::Bishop
    } else if c == 3 {
        PieceType::Queen
    } else {
        PieceType::King
    }
}

/// The occupant of (r, c) in the standard starting position.
pub open spec fn standard_cell(r: int, c: int) -> Square {
    if r == 0 {
        Some(Piece { piece_type: back_rank_kind(c), color: Color::White })
    } else if r == 1 {
        Some(Piece { piece_type: PieceType::Pawn, color: Color::White })
    } else if r == 6 {
        Some(Piece { piece_type: PieceType::Pawn, color: Color::Black })
    } else if r == 7 {
        Some(Piece { piece_type: back_rank_kind(c), color: Color::Black })
    } else {
        None
    }
}

/// The occupant of (i, j) after whatever stood on (fr, fc) moved to (tr, tc).
pub open spec fn cell_after_move(b: Board, fr: int, fc: int, tr: int, tc: int, i: int, j: int) -> Square {
    if i == tr && j == tc {
        b.cell(fr, fc)
    } else if i == fr && j == fc {
        None
    } else {
        b.cell(i, j)
    }
}

/// Both coordinates lie in [0, 7].
pub open spec fn on_board(r: int, c: int) -> bool {
    0 <= r < 8 && 0 <= c < 8
}

impl Board {
    /// The occupant of square (r, c).
    pub open spec fn cell(&self, r: int, c: int) -> Square {
        self.squares@[r]@[c]
    }

    /// Every square of `self` holds what the same square of `other` holds.
    pub open spec fn same_occupancy(&self, other: Board) -> bool {
        forall|r: int, c: int| on_board(r, c) ==> #[trigger] self.cell(r, c) == other.cell(r, c)
    }

    /// The board holds exactly the standard starting position.
    pub open spec fn is_standard(&self) -> bool {
        forall|r: int, c: int| on_board(r, c) ==> #[trigger] self.cell(r, c) == standard_cell(r, c)
    }

    /// `self` is `before` after whatever stood on (fr, fc) moved to (tr, tc).
    pub open spec fn is_move_result(&self, before: Board, fr: int, fc: int, tr: int, tc: int) -> bool {
        forall|i: int, j: int|
            on_board(i, j) ==> #[trigger] self.cell(i, j) == cell_after_move(before, fr, fc, tr, tc, i, j)
    }

    /// An empty board.
    pub fn new() -> (b: Self)
        ensures
            forall|r: int, c: int| on_board(r, c) ==> #[trigger] b.cell(r, c) is None,
    {
        Self { squares: [[None; 8]; 8] }
    }

    /// The occupant of square (row, col).
    pub fn get(&self, row: usize, col: usize) -> (s: Square)
        requires
            row < 8,
            col < 8,
        ensures
            s == self.cell(row as int, col as int),
    {
        self.squares[row][col]
    }

    /// Places `s` on (row, col), leaving every other square as it was.
    fn put(&mut self, row: usize, col: usize, s: Square)
        requires
            row < 8,
            col < 8,
        ensures
            forall|r: int, c: int|
                on_board(r, c) ==> #[trigger] final(self).cell(r, c) == if r == row && c == col {
                    s
                } else {
                    old(self).cell(r, c)
                },
    {
        self.squares[row][col] = s;
    }

    /// Clears the board and sets up the standard starting position.
    pub fn setup_standard(&mut self)
        ensures
            final(self).is_standard(),
    {
        let back_rank = [
            PieceType::Rook,
            PieceType::Knight,
            PieceType::Bishop,
            PieceType::Queen,
            PieceType::King,
            PieceType::Bishop,
            PieceType::Knight,
            PieceType::Rook,
        ];
        assert(forall|c: int| 0 <= c < 8 ==> #[trigger] back_rank@[c] == back_rank_kind(c));
        let mut row: usize = 0;
        while row < 8
            invariant
                row <= 8,
                forall|c: int| 0 <= c < 8 ==> #[trigger] back_rank@[c] == back_rank_kind(c),
                forall|r: int, c: int|
                    on_board(r, c) && r < row ==> #[trigger] self.cell(r, c) == standard_cell(r, c),
            decreases 8 - row,
        {
            let mut col: usize = 0;
            while col < 8
                invariant
                    row < 8,
                    col <= 8,
                    forall|c: int| 0 <= c < 8 ==> #[trigger] back_rank@[c] == back_rank_kind(c),
                    forall|r: int, c: int|
                        on_board(r, c) && (r < row || (r == row && c < col)) ==> #[trigger] self.cell(r, c)
                            == standard_cell(r, c),
                decreases 8 - col,
            {
                let s: Square = if row == 0 {
                    Some(Piece { piece_type: back_rank[col], color: Color::White })
                } else if row == 1 {
                    Some(Piece { piece_type: PieceType::Pawn, color: Color::White })
                } else if row == 6 {
                    Some(Piece { piece_type: PieceType::Pawn, color: Color::Black })
                } else if row == 7 {
                    Some(Piece { piece_type: back_rank[col], color: Color::Black })
                } else {
                    None
                };
                self.put(row, col, s);
                col = col + 1;
            }
            row = row + 1;
        }
    }

    /// Moves whatever stands on `mv.from` to `mv.to`, overwriting the occupant of `mv.to`
    /// (a capture) and emptying `mv.from`. Legality is not checked here.
    pub fn apply_move(&mut self, mv: ChessMove)
        requires
            mv.from.0 < 8,
            mv.from.1 < 8,
            mv.to.0 < 8,
            mv.to.1 < 8,
        ensures
            final(self).is_move_result(
                *old(self),
                mv.from.0 as int,
                mv.from.1 as int,
                mv.to.0 as int,
                mv.to.1 as int,
            ),
    {
        let piece = self.get(mv.from.0, mv.from.1);
        self.put(mv.from.0, mv.from.1, None);
        self.put(mv.to.0, mv.to.1, piece);
    }
}

/// The diagram letter of a square's occupant.
pub open spec fn symbol_of(s: Square) -> char {
    match s {
        None => '.',
        Some(p) => match p.piece_type {
            PieceType::King => 'K',
            PieceType::Queen => 'Q',
            PieceType::Rook => 'R',
            PieceType::Bishop => 'B',
            PieceType::Knight => 'N',
            PieceType::Pawn => 'P',
        },
    }
}

/// The letter that shows a square in the board diagram: K, Q, R, B, N or P, '.' when empty.
pub fn square_symbol(s: Square) -> (ch: char)
    ensures
        ch == symbol_of(s),
{
    match s {
        None => '.',
        Some(p) => match p.piece_type {
            PieceType::King => 'K',
            PieceType::Queen => 'Q',
            PieceType::Rook => 'R',
            PieceType::Bishop => 'B',
            PieceType::Knight => 'N',
            PieceType::Pawn => 'P',
        },
    }
}

/// Setting up the standard position twice gives the occupancy of setting it up once: the
/// position that `setup_standard` leaves does not depend on the board it started from.
pub proof fn setup_standard_idempotent(once: Board, twice: Board)
    requires
        once.is_standard(),
        twice.is_standard(),
    ensures
        twice.same_occupancy(once),
{
}

} // verus!
