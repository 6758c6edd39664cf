//! Playouts: games played on from a state, move by move, until somebody has
//! won, nobody can move, or a budget of moves is used up.

use rand::rngs::StdRng;
use vstd::prelude::*;
use crate::legality::{lemma_legal_move_never_adds_a_piece, lemma_listed_iff_allowed};
use crate::random::choose_move;
use crate::rules::{chebyshev, Position};
use crate::state::{chebyshev_distance, State};
use crate::types::{locate, Move, Piece, PieceKind, Player};

verus! {

/// What a move counts for when a playout that leans towards the end of the
/// game chooses among the moves of a state.
#[derive(Clone, Copy, Debug, PartialEq, Eq, Structural)]
pub enum Weight {
    /// The move wins the game at once.
    Winning,
    /// After the move the two Cores are this far apart, in Chebyshev distance.
    Apart(usize),
    /// After the move a Core is missing from the board.
    NoCore,
}

/// What the move `m` counts for in the position `p`.
pub open spec fn weight_of(p: Position, m: Move) -> Weight {
    let q = p.apply(m);
    if q.winner() is Some {
        Weight::Winning
    } else {
        match (
            locate(q.cells, Piece { owner: Player::A, kind: PieceKind::Core }),
            locate(q.cells, Piece { owner: Player::B, kind: PieceKind::Core }),
        ) {
            (Some(a), Some(b)) => Weight::Apart(chebyshev(a, b) as usize),
            _ => Weight::NoCore,
        }
    }
}

/// The position after the moves of `line`, played one after the other from `p`.
pub open spec fn after(p: Position, line: Seq<Move>) -> Position
    decreases line.len(),
{
    if line.len() == 0 {
        p
    } else {
        after(p, line.drop_last()).apply(line.last())
    }
}

/// Whether `line` can be played from `p`: each move is legal where it is
/// made, and nobody has won before it.
pub open spec fn playable(p: Position, line: Seq<Move>) -> bool {
    forall|k: int|
        0 <= k < line.len() ==> (#[trigger] after(p, line.take(k))).winner() is None && after(
            p,
            line.take(k),
        ).legal_moves().contains(line[k])
}

/// Whether a playout from `p` with a budget of `budget` moves that plays
/// `line` ends with the result `w`. It ends when the budget is used up, with
/// no winner whatever the last position is; before that, as soon as somebody
/// has won, with that winner; else where the player to move has no move, with
/// no winner.
pub open spec fn playout_ends(
    p: Position,
    line: Seq<Move>,
    budget: int,
    w: Option<Player>,
) -> bool {
    &&& playable(p, line)
    &&& line.len() <= budget
    &&& if line.len() == budget {
        w is None
    } else if after(p, line).winner() is Some {
        w == after(p, line).winner()
    } else {
        w is None && after(p, line).legal_moves().len() == 0
    }
}

proof fn lemma_play_on(p: Position, line: Seq<Move>, m: Move)
    requires
        playable(p, line),
        after(p, line).winner() is None,
        after(p, line).legal_moves().contains(m),
    ensures
        playable(p, line.push(m)),
        after(p, line.push(m)) == after(p, line).apply(m),
{
    let longer = line.push(m);
    assert(longer.drop_last() =~= line);
    assert forall|k: int| 0 <= k < longer.len() implies (#[trigger] after(
        p,
        longer.take(k),
    )).winner() is None && after(p, longer.take(k)).legal_moves().contains(longer[k]) by {
        if k < line.len() {
            assert(longer.take(k) =~= line.take(k));
        } else {
            assert(longer.take(k) =~= line);
        }
    }
}

impl State {
    /// What the move `m` counts for in this state, for a playout that leans
    /// towards the end of the game.
    pub fn move_weight(&self, m: &Move) -> (w: Weight)
        requires
            self@.cells[m.actor@] is Some,
        ensures
            w == weight_of(self@, *m),
    {
        let next = self.apply_move(m);
        if next.is_terminal().is_some() {
            return Weight::Winning;
        }
        let a = next.find_piece(Player::A, PieceKind::Core);
        let b = next.find_piece(Player::B, PieceKind::Core);
        match (a, b) {
            (Some(a), Some(b)) => Weight::Apart(chebyshev_distance(a, b)),
            _ => Weight::NoCore,
        }
    }

    /// What each of `moves` counts for in this state.
    pub fn move_weights(&self, moves: &Vec<Move>) -> (weights: Vec<Weight>)
        requires
            forall|k: int| 0 <= k < moves@.len() ==> self@.cells[(#[trigger] moves@[k]).actor@] is Some,
        ensures
            weights@.len() == moves@.len(),
            forall|k: int| 0 <= k < moves@.len() ==> #[trigger] weights@[k] == weight_of(self@, moves@[k]),
    {
        let mut weights: Vec<Weight> = Vec::new();
        let mut k: usize = 0;
        while k < moves.len()
            invariant
                0 <= k <= moves@.len(),
                weights@.len() == k,
                forall|j: int| 0 <= j < moves@.len() ==> self@.cells[(#[trigger] moves@[j]).actor@] is Some,
                forall|j: int| 0 <= j < k ==> #[trigger] weights@[j] == weight_of(self@, moves@[j]),
            decreases moves@.len() - k,
        {
            weights.push(self.move_weight(&moves[k]));
            k += 1;
        }
        weights
    }
}

/// Plays on from `state`, each move chosen by `rng` among the legal ones
/// with equal chances, and returns the winner. There is no winner where the
/// budget of `max_moves` moves is used up, or where the player to move has
/// no move.
pub fn random_playout(state: State, rng: &mut StdRng, max_moves: usize) -> (w: Option<Player>)
    ensures
        exists|line: Seq<Move>| #[trigger] playout_ends(state@, line, max_moves as int, w),
{
    let mut s = state;
    let mut played: usize = 0;
    let ghost mut line: Seq<Move> = Seq::empty();
    proof {
        state.board.lemma_len();
    }
    while played < max_moves
        invariant
            played <= max_moves,
            line.len() == played,
            playable(state@, line),
            s@ == after(state@, line),
            s@.cells.len() == 77,
        decreases max_moves - played,
    {
        if let Some(winner) = s.is_terminal() {
            proof {
                assert(playout_ends(state@, line, max_moves as int, Some(winner)));
            }
            return Some(winner);
        }
        let moves = s.legal_moves();
        match choose_move(&moves, rng) {
            None => {
                proof {
                    assert(playout_ends(state@, line, max_moves as int, None));
                }
                return None;
            },
            Some(chosen) => {
                proof {
                    lemma_listed_iff_allowed(s@.cells, s@.turn, chosen);
                    lemma_legal_move_never_adds_a_piece(s@, chosen);
                    lemma_play_on(state@, line, chosen);
                    line = line.push(chosen);
                }
                s = s.apply_move(&chosen);
                played += 1;
            },
        }
    }
    proof {
        assert(playout_ends(state@, line, max_moves as int, None));
    }
    None
}

} // verus!
