use vstd::prelude::*;

use crate::board::{Board, BoardView, SlotState, ROWS};
use crate::input::{column_choice, parse_column, InputError};

verus! {

/// What became of one line of input typed by the player whose turn it is.
#[derive(Clone, Copy, Debug, PartialEq, Eq, Structural)]
pub enum TurnResult {
    /// The text names no column; the same player types again.
    Rejected(InputError),
    /// The chosen column is full; the same player chooses again.
    ColumnFull,
    /// The piece was placed and completed four in a row: the game is over.
    Won,
    /// The piece was placed and filled the board without a winner.
    Draw,
    /// The piece was placed; the other player moves next.
    Played,
}

/// The player who moves after `p`.
pub open spec fn other(p: SlotState) -> SlotState {
    match p {
        SlotState::Red => SlotState::Blue,
        SlotState::Blue => SlotState::Red,
        SlotState::Empty => SlotState::Empty,
    }
}

/// A game in progress: the board and whose turn it is.
pub struct GameView {
    pub board: BoardView,
    pub player: SlotState,
}

impl GameView {
    pub open spec fn wf(self) -> bool {
        self.board.wf() && self.player != SlotState::Empty
    }

    /// The game after the player to move typed the text `s`, and what is
    /// reported for it.
    pub open spec fn after_input(self, s: Seq<char>) -> (GameView, TurnResult) {
        match column_choice(s) {
            Err(e) => (self, TurnResult::Rejected(e)),
            Ok(col) => {
                if self.board.height(col - 1) == ROWS {
                    (self, TurnResult::ColumnFull)
                } else {
                    let b = self.board.after_drop(col - 1, self.player);
                    if b.has_winner() {
                        (GameView { board: b, player: self.player }, TurnResult::Won)
                    } else if b.is_full() {
                        (GameView { board: b, player: self.player }, TurnResult::Draw)
                    } else {
                        (GameView { board: b, player: other(self.player) }, TurnResult::Played)
                    }
                }
            },
        }
    }
}

/// Two players taking turns on one board; red moves first.
pub struct Game {
    board: Board,
    player: SlotState,
}

impl View for Game {
    type V = GameView;

    closed spec fn view(&self) -> GameView {
        GameView { board: self.board@, player: self.player }
    }
}

impl Game {
    /// A new game on an empty board, red to move.
    pub fn new() -> (g: Game)
        ensures
            g@.wf(),
            g@.player == SlotState::Red,
            g@.board.last is None,
            forall|c: int, r: int|
                crate::board::on_board((c, r)) ==> #[trigger] g@.board.mark((c, r)) == SlotState::Empty,
    {
        Game { board: Board::new(), player: SlotState::Red }
    }

    /// The player to move.
    pub fn player(&self) -> (p: SlotState)
        ensures
            p == self@.player,
    {
        self.player
    }

    /// The board as it stands.
    pub fn board(&self) -> (b: &Board)
        ensures
            b@ == self@.board,
    {
        &self.board
    }

    /// Plays one line of input typed by the player to move: reads the
    /// column, drops the player's mark there, and looks for a winner and
    /// for a full board. The turn passes only after a piece was placed and
    /// the game goes on.
    pub fn play(&mut self, input: &str) -> (r: TurnResult)
        requires
            old(self)@.wf(),
        ensures
            final(self)@.wf(),
            (final(self)@, r) == old(self)@.after_input(input@),
    {
        let column = match parse_column(input) {
            Ok(c) => c,
            Err(e) => return TurnResult::Rejected(e),
        };
        proof {
            crate::board::lemma_settled_filled(self@.board.grid[column - 1]);
        }
        if !self.board.drop_into(column, self.player) {
            return TurnResult::ColumnFull;
        }
        if self.board.check_for_winner() {
            return TurnResult::Won;
        }
        if self.board.is_full() {
            return TurnResult::Draw;
        }
        self.player = match self.player {
            SlotState::Red => SlotState::Blue,
            _ => SlotState::Red,
        };
        TurnResult::Played
    }
}

} // verus!
