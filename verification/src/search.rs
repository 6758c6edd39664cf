//! The search, as a machine that is advanced step by step. It does all that
//! whole numbers can decide: it walks down the tree, grows it, plays the
//! playouts and counts their results. Where scores or weights have to be
//! compared it stops with a request, and goes on when it is handed the answer.

use rand::rngs::StdRng;
use vstd::prelude::*;
use crate::legality::lemma_listed_iff_allowed;
use crate::playout::{playout_ends, random_playout, weight_of, Weight};
use crate::random::draw_index;
use crate::rules::Position;
use crate::state::State;
use crate::tree::{
    all_visited, best_child, credited_path, expanded, grown_from, last_unvisited,
    lemma_grown_further, lemma_path_ends_at_root, node_ok, on_path, recommended, well_formed,
    NodeModel, SearchTree, Tally,
};
use crate::types::{Move, Player};

verus! {

/// Where the search stands.
#[derive(Clone, Copy, Debug, PartialEq, Eq, Structural)]
pub enum Phase {
    /// Walking down the tree from the root.
    Select,
    /// Waiting to be told which child of the current node has the best score.
    Rank,
    /// Playing on from the state of the current node.
    Playout,
    /// Waiting to be told which of the weighted moves the playout makes.
    Sample,
    /// All rounds are done.
    Done,
}

/// What the search asks of its driver, or what it has found.
#[derive(Debug, PartialEq, Eq)]
pub enum Request {
    /// Every child of the current node has been visited: the driver is to
    /// compare their scores and to answer with the place of the best child.
    /// The counts of the children stand in the order of the children, with
    /// the visits of the current node for the term that rewards a child
    /// little tried.
    Rank { parent_visits: usize, children: Vec<Tally> },
    /// The playout is to make one of the legal moves of its state, which
    /// count as `weights` says: the driver is to draw one by its weight and
    /// to answer with its place.
    Sample { weights: Vec<Weight> },
    /// The search is over, with this move to recommend.
    Done { best: Option<Move> },
}

/// The mathematical model of a search: what its contracts speak of.
pub struct SearchModel {
    pub tree: Seq<NodeModel>,
    pub rounds: usize,
    pub rounds_left: usize,
    pub biased: bool,
    pub playout_budget: usize,
    pub phase: Phase,
    pub cursor: usize,
    pub playout: Position,
    pub moves_left: usize,
    pub candidates: Seq<Move>,
}

impl SearchModel {
    /// Whether a playout is under way.
    pub open spec fn playing(self) -> bool {
        self.phase is Playout || self.phase is Sample
    }

    /// What must hold in the phase that the search is in.
    pub open spec fn phase_ok(self) -> bool {
        match self.phase {
            Phase::Select => true,
            Phase::Rank => self.rounds_left > 0 && self.tree[self.cursor as int].untried.len() == 0
                && self.tree[self.cursor as int].children.len() > 0 && all_visited(
                self.tree,
                self.cursor as int,
            ),
            Phase::Playout => self.rounds_left > 0,
            Phase::Sample => self.rounds_left > 0 && self.biased && self.moves_left > 0
                && self.playout.winner() is None && self.candidates == self.playout.legal_moves()
                && self.candidates.len() > 0,
            Phase::Done => self.rounds_left == 0,
        }
    }

    /// Whether the search is in order: the tree is well formed; the root has
    /// been visited once for each round that is done; every other node has
    /// been visited, but the one that a playout is running from; and the
    /// root has a child as soon as the first round has grown the tree.
    pub open spec fn wf(self) -> bool {
        &&& well_formed(self.tree)
        &&& self.cursor < self.tree.len()
        &&& self.tree[0].visits + self.rounds_left == self.rounds
        &&& self.tree.len() <= self.tree[0].visits + 1 + if self.playing() {
            1int
        } else {
            0int
        }
        &&& forall|i: int|
            0 < i < self.tree.len() ==> (#[trigger] self.tree[i]).visits > 0 || (self.playing()
                && i == self.cursor)
        &&& (self.tree[0].children.len() > 0 || self.tree[0].position.legal_moves().len() == 0 || (
        self.tree[0].visits == 0 && self.cursor == 0 && (self.phase is Select
            || self.phase is Done)))
        &&& self.phase_ok()
    }

    /// Whether `req` is what the search in this state hands to its driver.
    pub open spec fn asks(self, req: Request) -> bool {
        match req {
            Request::Rank { parent_visits, children } => {
                let kids = self.tree[self.cursor as int].children;
                &&& self.phase is Rank
                &&& parent_visits == self.tree[self.cursor as int].visits
                &&& parent_visits > 0
                &&& children@.len() == kids.len()
                &&& forall|k: int|
                    0 <= k < kids.len() ==> #[trigger] children@[k] == self.tree[kids[k] as int].tally()
                        && children@[k].visits > 0
            },
            Request::Sample { weights } => {
                &&& self.phase is Sample
                &&& weights@.len() == self.candidates.len()
                &&& forall|k: int|
                    0 <= k < weights@.len() ==> #[trigger] weights@[k] == weight_of(
                        self.playout,
                        self.candidates[k],
                    )
            },
            Request::Done { best } => {
                &&& self.phase is Done
                &&& recommended(self.tree, best)
                &&& best is None <==> self.rounds == 0 || self.tree[0].position.legal_moves().len()
                    == 0
                &&& best is Some ==> self.tree[0].position.legal_moves().contains(best->0)
            },
        }
    }

    /// Whether `other` is a state of the same search: for the same root
    /// state, with the same number of rounds and the same kind of playouts.
    pub open spec fn same_search(self, other: SearchModel) -> bool {
        &&& self.rounds == other.rounds
        &&& self.biased == other.biased
        &&& self.playout_budget == other.playout_budget
        &&& self.tree[0].position == other.tree[0].position
    }

    /// Whether the search waits: for an answer, or, being done, for nothing.
    pub open spec fn waiting(self) -> bool {
        self.phase is Rank || self.phase is Sample || self.phase is Done
    }

    /// The part of a round that the search is in: 2 while it walks down the
    /// tree, 1 while it plays on, 0 when all is done.
    pub open spec fn stage(self) -> int {
        match self.phase {
            Phase::Select | Phase::Rank => 2,
            Phase::Playout | Phase::Sample => 1,
            Phase::Done => 0,
        }
    }

    /// How much of its stage the search has before it, at most: the nodes
    /// below the current one while it walks down, the moves that the playout
    /// may still make while it plays on.
    pub open spec fn slack(self) -> int {
        match self.phase {
            Phase::Select | Phase::Rank => self.tree.len() - self.cursor,
            Phase::Playout | Phase::Sample => self.moves_left as int,
            Phase::Done => 0,
        }
    }

    /// Whether this state of the search is nearer to the end than `other`:
    /// it has fewer rounds before it, or as many and a later stage, or the
    /// same stage and less of it.
    pub open spec fn nearer_end(self, other: SearchModel) -> bool {
        self.rounds_left < other.rounds_left || (self.rounds_left == other.rounds_left && (
        self.stage() < other.stage() || (self.stage() == other.stage() && self.slack()
            < other.slack())))
    }

    /// Whether this state of the search is no further from the end than `other`.
    pub open spec fn not_further(self, other: SearchModel) -> bool {
        self.nearer_end(other) || (self.rounds_left == other.rounds_left && self.stage()
            == other.stage() && self.slack() == other.slack())
    }

    /// The search as it starts a playout from the state of the current node.
    pub open spec fn playout_started(self) -> SearchModel {
        SearchModel {
            phase: Phase::Playout,
            playout: self.tree[self.cursor as int].position,
            moves_left: self.playout_budget,
            ..self
        }
    }

    /// The search after the current node got a child by the `pick`-th of
    /// its untried moves: it stands at the child.
    pub open spec fn grown(self, pick: int) -> SearchModel {
        SearchModel {
            tree: expanded(self.tree, self.cursor as int, pick),
            cursor: self.tree.len() as usize,
            ..self
        }
    }

    /// The search after the playout of the round ended with `winner`: the
    /// result is counted from the current node up to the root, one round
    /// less is left, and the search stands at the root again.
    pub open spec fn round_done(self, winner: Option<Player>) -> SearchModel {
        SearchModel {
            tree: credited_path(self.tree, self.cursor as int, winner),
            rounds_left: (self.rounds_left - 1) as usize,
            phase: Phase::Select,
            cursor: 0,
            ..self
        }
    }

    /// Whether one step may lead from this state of the search to `next`.
    ///
    /// A search that waits stays as it is. One that walks down the tree is
    /// done if no round is left. Else, where the current node has untried
    /// moves, one of them makes a child and a playout starts from the child;
    /// where the node has neither untried moves nor children, a playout
    /// starts from the node itself; otherwise the search waits for the
    /// children of the node to be ranked. A playout with equal chances is
    /// played to its end in one step, and the round is done. A weighted
    /// playout ends the round where its budget is used up, somebody has won
    /// or nobody can move; otherwise the search waits for a move to be drawn.
    pub open spec fn steps_to(self, next: SearchModel) -> bool {
        let node = self.tree[self.cursor as int];
        match self.phase {
            Phase::Rank | Phase::Sample | Phase::Done => next == self,
            Phase::Select => {
                if self.rounds_left == 0 {
                    next == (SearchModel { phase: Phase::Done, cursor: 0, ..self })
                } else if node.untried.len() > 0 {
                    exists|pick: int|
                        0 <= pick < node.untried.len() && next == (#[trigger] self.grown(
                            pick,
                        )).playout_started()
                } else if node.children.len() == 0 {
                    next == self.playout_started()
                } else {
                    next == (SearchModel { phase: Phase::Rank, ..self })
                }
            },
            Phase::Playout => {
                if !self.biased {
                    exists|line: Seq<Move>, winner: Option<Player>| #[trigger]
                        playout_ends(self.playout, line, self.moves_left as int, winner) && next
                            == self.round_done(winner)
                } else if self.moves_left == 0 {
                    next == self.round_done(None)
                } else if self.playout.winner() is Some {
                    next == self.round_done(self.playout.winner())
                } else if self.playout.legal_moves().len() == 0 {
                    next == self.round_done(None)
                } else {
                    next == (SearchModel {
                        phase: Phase::Sample,
                        candidates: self.playout.legal_moves(),
                        ..self
                    })
                }
            },
        }
    }

    /// Whether the search passes through the states of `run`, in their
    /// order, step by step, never waiting before the last of them.
    pub open spec fn passes(self, run: Seq<SearchModel>) -> bool {
        &&& run.len() > 0
        &&& run[0] == self
        &&& forall|k: int|
            0 <= k < run.len() - 1 ==> !(#[trigger] run[k]).waiting() && run[k].steps_to(
                run[k + 1],
            )
    }

    /// The search after the answer `place` to its request to rank the
    /// children of the current node: it goes down to that child.
    pub open spec fn ranked(self, place: usize) -> SearchModel {
        SearchModel {
            phase: Phase::Select,
            cursor: self.tree[self.cursor as int].children[place as int],
            ..self
        }
    }

    /// The search after the answer `place` to its request to draw a move:
    /// the playout makes that move.
    pub open spec fn sampled(self, place: usize) -> SearchModel {
        SearchModel {
            phase: Phase::Playout,
            playout: self.playout.apply(self.candidates[place as int]),
            moves_left: (self.moves_left - 1) as usize,
            ..self
        }
    }
}

/// One search for a move: the tree, the rounds that are left, and where the
/// current round stands.
pub struct Search {
    tree: SearchTree,
    rounds: usize,
    rounds_left: usize,
    biased: bool,
    playout_budget: usize,
    phase: Phase,
    cursor: usize,
    playout: State,
    moves_left: usize,
    candidates: Vec<Move>,
}

impl View for Search {
    type V = SearchModel;

    closed spec fn view(&self) -> SearchModel {
        SearchModel {
            tree: self.tree@,
            rounds: self.rounds,
            rounds_left: self.rounds_left,
            biased: self.biased,
            playout_budget: self.playout_budget,
            phase: self.phase,
            cursor: self.cursor,
            playout: self.playout@,
            moves_left: self.moves_left,
            candidates: self.candidates@,
        }
    }
}

impl Search {
    /// Whether the search is in order.
    pub open spec fn wf(&self) -> bool {
        self@.wf()
    }

    /// A search for a move in `root`, of `rounds` rounds. Its playouts make
    /// at most `playout_budget` moves each; they choose among the legal moves
    /// by weight if `biased`, with equal chances if not.
    pub fn new(root: State, rounds: usize, biased: bool, playout_budget: usize) -> (s: Search)
        ensures
            s.wf(),
            s@.tree == seq![NodeModel::fresh(root@, None, None)],
            s@.rounds == rounds,
            s@.rounds_left == rounds,
            s@.biased == biased,
            s@.playout_budget == playout_budget,
            s@.phase is Select,
            s@.cursor == 0,
    {
        let tree = SearchTree::new(root);
        Search {
            tree,
            rounds,
            rounds_left: rounds,
            biased,
            playout_budget,
            phase: Phase::Select,
            cursor: 0,
            playout: root,
            moves_left: 0,
            candidates: Vec::new(),
        }
    }

    /// The tree as the search has grown it.
    pub fn tree(&self) -> (t: &SearchTree)
        ensures
            t@ == self@.tree,
            self.wf() ==> t.wf(),
    {
        &self.tree
    }

    /// Where the search stands.
    pub fn phase(&self) -> (p: Phase)
        ensures
            p == self@.phase,
    {
        self.phase
    }

    /// The node that the search is at.
    pub fn cursor(&self) -> (c: usize)
        ensures
            c == self@.cursor,
    {
        self.cursor
    }

    /// The rounds that are still to do.
    pub fn rounds_left(&self) -> (n: usize)
        ensures
            n == self@.rounds_left,
    {
        self.rounds_left
    }

    /// What the search asks of its driver, where it waits.
    pub fn request(&self) -> (req: Option<Request>)
        requires
            self.wf(),
        ensures
            req is Some <==> self@.waiting(),
            req is Some ==> self@.asks(req->0),
    {
        match self.phase {
            Phase::Rank => {
                proof {
                    let kids = self@.tree[self.cursor as int].children;
                    assert(node_ok(self@.tree, self.cursor as int));
                    assert(node_ok(self@.tree, kids[0] as int));
                    assert(self@.tree[kids[0] as int].visits > 0);
                }
                let children = self.tree.tallies(self.cursor);
                Some(Request::Rank { parent_visits: self.tree.node(self.cursor).visits, children })
            },
            Phase::Sample => {
                proof {
                    self.playout.board.lemma_len();
                    assert forall|k: int| 0 <= k < self.candidates@.len() implies self.playout@.cells[(
                    #[trigger] self.candidates@[k]).actor@] is Some by {
                        lemma_listed_iff_allowed(
                            self.playout@.cells,
                            self.playout@.turn,
                            self.candidates@[k],
                        );
                    }
                }
                Some(Request::Sample { weights: self.playout.move_weights(&self.candidates) })
            },
            Phase::Done => {
                let best = self.tree.best_move();
                proof {
                    let nodes = self@.tree;
                    assert(node_ok(nodes, 0));
                    if nodes[0].children.len() > 0 {
                        let c = nodes[0].children[0];
                        assert(nodes[c as int].visits > 0);
                        assert(node_ok(nodes, c as int));
                    }
                }
                Some(Request::Done { best })
            },
            _ => None,
        }
    }

    /// Ends the round with the result of its playout.
    fn finish_round(&mut self, winner: Option<Player>)
        requires
            old(self).wf(),
            old(self)@.phase is Playout,
        ensures
            final(self).wf(),
            final(self)@ == old(self)@.round_done(winner),
            grown_from(final(self)@.tree, old(self)@.tree),
    {
        proof {
            assert(on_path(old(self)@.tree, old(self)@.cursor as int, old(self)@.cursor as int));
            lemma_path_ends_at_root(old(self)@.tree, old(self)@.cursor as int);
        }
        self.tree.backpropagate(self.cursor, winner);
        self.rounds_left -= 1;
        self.cursor = 0;
        self.phase = Phase::Select;
        proof {
            let before = old(self)@.tree;
            let from = old(self)@.cursor as int;
            assert(node_ok(before, 0));
            assert(self@.tree[0] == before[0].credited(before[0].position.turn, winner));
            assert forall|i: int| 0 < i < self@.tree.len() implies (#[trigger] self@.tree[i]).visits
                > 0 by {
                assert(node_ok(before, i));
                if on_path(before, i, from) {
                    assert(self@.tree[i] == before[i].credited(before[0].position.turn, winner));
                } else {
                    assert(self@.tree[i] == before[i]);
                    assert(before[i].visits > 0);
                }
            }
        }
    }

    /// Starts a playout from the state of the current node.
    fn start_playout(&mut self)
        requires
            old(self)@.phase is Select,
            old(self)@.rounds_left > 0,
            (SearchModel { phase: Phase::Playout, ..old(self)@ }).wf(),
        ensures
            final(self).wf(),
            final(self)@ == old(self)@.playout_started(),
    {
        proof {
            assert(node_ok(self@.tree, self.cursor as int));
        }
        self.playout = self.tree.node(self.cursor).state;
        self.moves_left = self.playout_budget;
        self.phase = Phase::Playout;
    }

    /// One step of the walk down the tree.
    fn step_down(&mut self, rng: &mut StdRng)
        requires
            old(self).wf(),
            old(self)@.phase is Select,
            old(self)@.rounds_left > 0,
        ensures
            final(self).wf(),
            old(self)@.steps_to(final(self)@),
            grown_from(final(self)@.tree, old(self)@.tree),
    {
        proof {
            assert(node_ok(self@.tree, self.cursor as int));
            assert(node_ok(self@.tree, 0));
        }
        let untried = self.tree.node(self.cursor).untried.len();
        if untried > 0 {
            let pick = draw_index(rng, untried);
            let child = self.tree.expand(self.cursor, pick);
            self.cursor = child;
            proof {
                let before = old(self)@.tree;
                let at = old(self)@.cursor as int;
                assert(self@ == old(self)@.grown(pick as int));
                assert forall|i: int| 0 < i < self@.tree.len() implies (#[trigger] self@.tree[i]).visits
                    > 0 || i == self.cursor by {
                    if i < before.len() {
                        assert(before[i].visits > 0);
                    }
                }
                assert(self@.tree[at].children.len() > 0);
            }
            self.start_playout();
        } else if self.tree.node(self.cursor).children.len() == 0 {
            self.start_playout();
        } else {
            proof {
                let kids = self@.tree[self.cursor as int].children;
                assert forall|j: int| 0 <= j < kids.len() implies self@.tree[#[trigger] kids[j] as int].visits
                    > 0 by {
                    assert(self@.tree[kids[j] as int].visits > 0);
                }
            }
            self.phase = Phase::Rank;
        }
    }

    /// One step of the playout.
    fn play_on(&mut self, rng: &mut StdRng)
        requires
            old(self).wf(),
            old(self)@.phase is Playout,
        ensures
            final(self).wf(),
            old(self)@.steps_to(final(self)@),
            grown_from(final(self)@.tree, old(self)@.tree),
    {
        if !self.biased {
            let winner = random_playout(self.playout, rng, self.moves_left);
            proof {
                let line = choose|line: Seq<Move>| #[trigger]
                    playout_ends(self.playout@, line, self.moves_left as int, winner);
                assert(playout_ends(self@.playout, line, self@.moves_left as int, winner));
            }
            self.finish_round(winner);
        } else if self.moves_left == 0 {
            self.finish_round(None);
        } else if let Some(winner) = self.playout.is_terminal() {
            self.finish_round(Some(winner));
        } else {
            let moves = self.playout.legal_moves();
            if moves.len() == 0 {
                self.finish_round(None);
            } else {
                self.candidates = moves;
                self.phase = Phase::Sample;
            }
        }
    }

    /// Makes one step of the search. A search that waits, for an answer or
    /// because it is done, stays as it is.
    pub fn step(&mut self, rng: &mut StdRng)
        requires
            old(self).wf(),
        ensures
            final(self).wf(),
            old(self)@.steps_to(final(self)@),
            old(self)@.same_search(final(self)@),
            grown_from(final(self)@.tree, old(self)@.tree),
            final(self)@.not_further(old(self)@),
            !final(self)@.waiting() ==> final(self)@.nearer_end(old(self)@),
    {
        proof {
            assert(node_ok(self@.tree, 0));
            assert(node_ok(self@.tree, self.cursor as int));
        }
        match self.phase {
            Phase::Select => {
                if self.rounds_left == 0 {
                    self.cursor = 0;
                    self.phase = Phase::Done;
                } else {
                    self.step_down(rng);
                }
            },
            Phase::Playout => {
                self.play_on(rng);
            },
            _ => {},
        }
        proof {
            assert(node_ok(self@.tree, 0));
        }
    }

    /// Takes the answer to a request to rank the children of the current
    /// node: `place` is the place, among those children, of the one with the
    /// best score, and the search goes down to it. Returns whether the answer
    /// was taken: it is not where no such request is open or the node has no
    /// child at that place, and then nothing changes.
    pub fn answer_rank(&mut self, place: usize) -> (taken: bool)
        requires
            old(self).wf(),
        ensures
            final(self).wf(),
            taken == (old(self)@.phase is Rank && place < old(self)@.tree[old(
                self,
            )@.cursor as int].children.len()),
            final(self)@ == if taken {
                old(self)@.ranked(place)
            } else {
                old(self)@
            },
            taken ==> final(self)@.nearer_end(old(self)@),
    {
        if self.phase != Phase::Rank {
            return false;
        }
        if place >= self.tree.node(self.cursor).children.len() {
            return false;
        }
        proof {
            assert(node_ok(self@.tree, self.cursor as int));
        }
        self.cursor = self.tree.select_child(self.cursor, place);
        self.phase = Phase::Select;
        true
    }

    /// Takes the answer to a request to draw a move for the playout: `place`
    /// is the place of the move among the weighted ones, and the playout
    /// makes it. Returns whether the answer was taken: it is not where no
    /// such request is open or there is no move at that place, and then
    /// nothing changes.
    pub fn answer_sample(&mut self, place: usize) -> (taken: bool)
        requires
            old(self).wf(),
        ensures
            final(self).wf(),
            taken == (old(self)@.phase is Sample && place < old(self)@.candidates.len()),
            final(self)@ == if taken {
                old(self)@.sampled(place)
            } else {
                old(self)@
            },
            taken ==> final(self)@.nearer_end(old(self)@),
    {
        if self.phase != Phase::Sample {
            return false;
        }
        if place >= self.candidates.len() {
            return false;
        }
        let m = self.candidates[place];
        proof {
            self.playout.board.lemma_len();
            lemma_listed_iff_allowed(self.playout@.cells, self.playout@.turn, m);
        }
        self.playout = self.playout.apply_move(&m);
        self.moves_left -= 1;
        self.phase = Phase::Playout;
        true
    }

    /// Runs the search up to its next request, and returns the request:
    /// it makes step after step until the search waits. While a request is
    /// open, and when the search is done, nothing changes and the request is
    /// made again. The tree only grows, and the search comes no further from
    /// its end.
    pub fn advance(&mut self, rng: &mut StdRng) -> (req: Request)
        requires
            old(self).wf(),
        ensures
            final(self).wf(),
            final(self)@.asks(req),
            final(self)@.waiting(),
            exists|run: Seq<SearchModel>| #[trigger]
                old(self)@.passes(run) && run.last() == final(self)@,
            old(self)@.same_search(final(self)@),
            old(self)@.waiting() ==> final(self)@ == old(self)@,
            grown_from(final(self)@.tree, old(self)@.tree),
            final(self)@.not_further(old(self)@),
    {
        let ghost mut run: Seq<SearchModel> = seq![self@];
        if let Some(req) = self.request() {
            proof {
                assert(old(self)@.passes(run) && run.last() == self@);
            }
            return req;
        }
        loop
            invariant
                self.wf(),
                !self@.waiting(),
                !old(self)@.waiting(),
                old(self)@.passes(run),
                run.last() == self@,
                old(self)@.same_search(self@),
                grown_from(self@.tree, old(self)@.tree),
                self@.not_further(old(self)@),
            decreases self@.rounds_left, self@.stage(), self@.slack(),
        {
            let ghost before = self@;
            self.step(rng);
            proof {
                lemma_grown_further(self@.tree, before.tree, old(self)@.tree);
                let longer = run.push(self@);
                assert forall|k: int| 0 <= k < longer.len() - 1 implies !(#[trigger] longer[k]).waiting()
                    && longer[k].steps_to(longer[k + 1]) by {
                    if k < run.len() - 1 {
                        assert(!run[k].waiting() && run[k].steps_to(run[k + 1]));
                    }
                }
                run = longer;
            }
            if let Some(req) = self.request() {
                proof {
                    assert(old(self)@.passes(run) && run.last() == self@);
                }
                return req;
            }
        }
    }
}

/// After a search of one round in a state with a legal move, the tree holds
/// the root and one child, and the move of that child is the one recommended.
pub proof fn lemma_single_round(s: SearchModel, best: Option<Move>)
    requires
        s.wf(),
        s.rounds == 1,
        s.tree[0].position.legal_moves().len() > 0,
        s.asks(Request::Done { best }),
    ensures
        s.tree.len() == 2,
        s.tree[0].children == seq![1usize],
        best is Some,
        best == s.tree[1].origin,
{
    assert(node_ok(s.tree, 0));
    let kids = s.tree[0].children;
    assert(kids.len() > 0);
    assert forall|k: int| 0 <= k < kids.len() implies kids[k] == 1 by {
        assert(0 < kids[k] < s.tree.len());
    }
    if kids.len() > 1 {
        assert(kids[0] < kids[1]);
    }
    assert(kids =~= seq![1usize]);
    let k = choose|k: int| #[trigger]
        best_child(s.tree, k) && s.tree[s.tree[0].children[k] as int].origin == Some(best->0);
    assert(kids[k] == 1);
}

} // verus!
