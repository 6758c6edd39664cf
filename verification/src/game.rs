//! A game in progress, as a driver of self-play sees it: the state, the
//! number of turns played, and what is to happen next.

use vstd::prelude::*;
use crate::legality::lemma_listed_iff_allowed;
use crate::rules::{moves_of, Position};
use crate::state::{moves_for, State};
use crate::types::{Move, Player};

verus! {

/// A game in progress.
#[derive(Clone, Copy, Debug, PartialEq, Eq)]
pub struct Game {
    state: State,
    turns: usize,
}

/// The mathematical model of a game: its position and the turns played.
pub struct GameModel {
    pub position: Position,
    pub turns: usize,
}

/// What a player faces when it is their turn.
#[derive(Debug, PartialEq, Eq)]
pub struct TurnState {
    /// The player to move.
    pub player: Player,
    /// The moves that the rules allow that player, in row-major order of the
    /// moving piece.
    pub possible_moves: Vec<Move>,
}

/// How far a game has come.
#[derive(Clone, Copy, Debug, PartialEq, Eq, Structural)]
pub enum Progress {
    /// The two Cores touch, and this player last moved their own Core.
    Won(Player),
    /// Nobody has won, and the turns that the game was given are used up.
    OutOfTurns,
    /// Nobody has won, and there are turns left.
    Ongoing,
}

impl GameModel {
    /// How far the game has come, where it is given `max_turns` turns.
    pub open spec fn progress(self, max_turns: usize) -> Progress {
        match self.position.winner() {
            Some(w) => Progress::Won(w),
            None => if self.turns >= max_turns {
                Progress::OutOfTurns
            } else {
                Progress::Ongoing
            },
        }
    }

    /// Whether the move `m` can be played: the rules allow it to the player
    /// to move, and the count of turns can still grow.
    pub open spec fn can_play(self, m: Move) -> bool {
        self.position.legal_moves().contains(m) && self.turns < usize::MAX
    }

    /// The game after the move `m`.
    pub open spec fn played(self, m: Move) -> GameModel {
        GameModel { position: self.position.apply(m), turns: (self.turns + 1) as usize }
    }
}

impl View for Game {
    type V = GameModel;

    closed spec fn view(&self) -> GameModel {
        GameModel { position: self.state@, turns: self.turns }
    }
}

impl Game {
    /// A game at its start: the starting position, `A` to move, no turn played.
    pub fn new() -> (g: Game)
        ensures
            g@ == (GameModel { position: Position::initial(), turns: 0 }),
    {
        Game { state: State::new(), turns: 0 }
    }

    /// A game that goes on from `state`, with no turn played yet.
    pub fn from_state(state: State) -> (g: Game)
        ensures
            g@ == (GameModel { position: state@, turns: 0 }),
    {
        Game { state, turns: 0 }
    }

    /// The state of the game.
    pub fn state(&self) -> (s: &State)
        ensures
            s@ == self@.position,
    {
        &self.state
    }

    /// The number of turns played.
    pub fn turns(&self) -> (n: usize)
        ensures
            n == self@.turns,
    {
        self.turns
    }

    /// The moves that the rules allow `plr` on the board as it is, whether
    /// or not it is that player's turn.
    pub fn get_possible_moves(&self, plr: Player) -> (moves: Vec<Move>)
        ensures
            moves@ == moves_of(self@.position.cells, plr),
    {
        moves_for(&self.state.board, plr)
    }

    /// The player to move, with the moves that the rules allow them.
    pub fn turn_state(&self) -> (t: TurnState)
        ensures
            t.player == self@.position.turn,
            t.possible_moves@ == self@.position.legal_moves(),
    {
        TurnState { player: self.state.turn, possible_moves: self.state.legal_moves() }
    }

    /// How far the game has come, where it is given `max_turns` turns.
    pub fn progress(&self, max_turns: usize) -> (p: Progress)
        ensures
            p == self@.progress(max_turns),
    {
        match self.state.is_terminal() {
            Some(w) => Progress::Won(w),
            None => {
                if self.turns >= max_turns {
                    Progress::OutOfTurns
                } else {
                    Progress::Ongoing
                }
            },
        }
    }

    /// Plays the move `m` if it can be played, and says whether it did. A
    /// move that cannot be played leaves the game as it was.
    pub fn play(&mut self, m: &Move) -> (played: bool)
        ensures
            played == old(self)@.can_play(*m),
            final(self)@ == if played {
                old(self)@.played(*m)
            } else {
                old(self)@
            },
    {
        if self.turns == usize::MAX {
            return false;
        }
        let moves = self.state.legal_moves();
        let mut k: usize = 0;
        while k < moves.len()
            invariant
                0 <= k <= moves@.len(),
                *self == *old(self),
                self.turns < usize::MAX,
                moves@ == self.state@.legal_moves(),
                forall|j: int| 0 <= j < k ==> moves@[j] != *m,
            decreases moves@.len() - k,
        {
            if moves[k] == *m {
                proof {
                    self.state.board.lemma_len();
                    lemma_listed_iff_allowed(self.state@.cells, self.state@.turn, *m);
                }
                self.state = self.state.apply_move(m);
                self.turns += 1;
                return true;
            }
            k += 1;
        }
        false
    }
}

} // verus!
