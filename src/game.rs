use vstd::prelude::*;

use crate::board::Board;
use crate::piece::{opponent, Color};

verus! {

/// A game: one board and the side to move.
pub struct Game {
    pub board: Board,
    pub turn: Color,
}

impl Game {
    /// A game in the standard starting position with White to move.
    pub fn new() -> (g: Self)
        ensures
            g.board.is_standard(),
            g.turn == Color::White,
    {
        let mut board = Board::new();
        board.setup_standard();
        Self { board, turn: Color::White }
    }

    /// Hands the move to the other side; the board is left as it was.
    pub fn switch_turn(&mut self)
        ensures
            final(self).turn == opponent(old(self).turn),
            final(self).board == old(self).board,
    {
        self.turn = match self.turn {
            Color::White => Color::Black,
            Color::Black => Color::White,
        };
    }
}

} // verus!
