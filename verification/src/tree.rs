//! The search tree: an arena of nodes that refer to each other by index.

use vstd::prelude::*;
use crate::legality::{lemma_legal_move_never_adds_a_piece, lemma_listed_iff_allowed};
use crate::rules::Position;
use crate::state::State;
use crate::types::{Move, Player};

verus! {

/// The mathematical model of a node of the search tree.
pub struct NodeModel {
    pub position: Position,
    pub parent: Option<usize>,
    pub children: Seq<usize>,
    pub visits: usize,
    pub wins: usize,
    pub draws: usize,
    pub untried: Seq<Move>,
    pub origin: Option<Move>,
}

/// A node of the search tree: one state of the game, with what the search
/// has learnt of it.
pub struct SearchNode {
    /// The state that the node stands for.
    pub state: State,
    /// The node from which a move led here; none for the root.
    pub parent: Option<usize>,
    /// The nodes that moves from here led to, in the order of their making.
    pub children: Vec<usize>,
    /// How many playouts ran through this node.
    pub visits: usize,
    /// How many of them the player to move at the root won.
    pub wins: usize,
    /// How many of them ended without a winner.
    pub draws: usize,
    /// The legal moves of the state that have no child yet.
    pub untried: Vec<Move>,
    /// The move that led here from the parent; none for the root.
    pub move_from_parent: Option<Move>,
}

impl View for SearchNode {
    type V = NodeModel;

    open spec fn view(&self) -> NodeModel {
        NodeModel {
            position: self.state@,
            parent: self.parent,
            children: self.children@,
            visits: self.visits,
            wins: self.wins,
            draws: self.draws,
            untried: self.untried@,
            origin: self.move_from_parent,
        }
    }
}

impl NodeModel {
    /// A node that no playout has run through, for the position `p`.
    pub open spec fn fresh(p: Position, origin: Option<Move>, parent: Option<usize>) -> NodeModel {
        NodeModel {
            position: p,
            parent,
            children: Seq::empty(),
            visits: 0,
            wins: 0,
            draws: 0,
            untried: p.legal_moves(),
            origin,
        }
    }

    /// The node after one more playout with the given result, seen by `me`.
    pub open spec fn credited(self, me: Player, winner: Option<Player>) -> NodeModel {
        NodeModel {
            visits: (self.visits + 1) as usize,
            wins: if winner == Some(me) {
                (self.wins + 1) as usize
            } else {
                self.wins
            },
            draws: if winner is None {
                (self.draws + 1) as usize
            } else {
                self.draws
            },
            ..self
        }
    }
}

impl SearchNode {
    /// A node for `state` that no playout has run through; all legal moves
    /// of `state` are still to try.
    pub fn new(state: State, move_from_parent: Option<Move>, parent: Option<usize>) -> (n:
        SearchNode)
        ensures
            n@ == NodeModel::fresh(state@, move_from_parent, parent),
    {
        let untried = state.legal_moves();
        SearchNode {
            state,
            parent,
            children: Vec::new(),
            visits: 0,
            wins: 0,
            draws: 0,
            untried,
            move_from_parent,
        }
    }
}

/// Whether node `i`, which is not the root, hangs on its parent as it should:
/// the parent comes before it and lists it, and the node's position is what
/// its move, a legal one, makes of the parent's.
pub open spec fn linked(nodes: Seq<NodeModel>, i: int) -> bool {
    &&& nodes[i].parent is Some
    &&& nodes[i].parent->0 < i
    &&& nodes[i].origin is Some
    &&& nodes[nodes[i].parent->0 as int].children.contains(i as usize)
    &&& nodes[nodes[i].parent->0 as int].position.legal_moves().contains(nodes[i].origin->0)
    &&& nodes[i].position == nodes[nodes[i].parent->0 as int].position.apply(nodes[i].origin->0)
}

/// Whether node `i` is as a node of the tree must be.
pub open spec fn node_ok(nodes: Seq<NodeModel>, i: int) -> bool {
    let n = nodes[i];
    &&& n.position.cells.len() == 77
    &&& i > 0 ==> linked(nodes, i)
    &&& forall|k: int|
        0 <= k < n.children.len() ==> i < #[trigger] n.children[k] < nodes.len()
            && nodes[n.children[k] as int].parent == Some(i as usize)
    &&& forall|k: int, l: int|
        0 <= k < l < n.children.len() ==> #[trigger] n.children[k] < #[trigger] n.children[l]
    &&& forall|k: int|
        0 <= k < n.untried.len() ==> n.position.legal_moves().contains(#[trigger] n.untried[k])
    &&& n.children.len() + n.untried.len() == n.position.legal_moves().len()
    &&& n.wins + n.draws <= n.visits
    &&& n.visits <= nodes[0].visits
}

/// Whether `nodes` is a search tree: node 0 is the root, and every node is
/// as it must be.
pub open spec fn well_formed(nodes: Seq<NodeModel>) -> bool {
    &&& nodes.len() >= 1
    &&& nodes[0].parent is None
    &&& nodes[0].origin is None
    &&& forall|i: int| 0 <= i < nodes.len() ==> #[trigger] node_ok(nodes, i)
}

/// Whether node `i` lies on the way from node `from` up to the root, both
/// ends included.
pub open spec fn on_path(nodes: Seq<NodeModel>, i: int, from: int) -> bool
    decreases from,
{
    i == from || (0 < from && nodes[from].parent is Some && nodes[from].parent->0 < from
        && on_path(nodes, i, nodes[from].parent->0 as int))
}

/// Whether the `k`-th child of the root is the one to recommend: it has been
/// visited, more often than every child before it and at least as often as
/// every child after it.
pub open spec fn best_child(nodes: Seq<NodeModel>, k: int) -> bool {
    let kids = nodes[0].children;
    &&& 0 <= k < kids.len()
    &&& nodes[kids[k] as int].visits > 0
    &&& forall|j: int| 0 <= j < k ==> nodes[#[trigger] kids[j] as int].visits < nodes[kids[k] as int].visits
    &&& forall|j: int|
        k < j < kids.len() ==> nodes[#[trigger] kids[j] as int].visits <= nodes[kids[k] as int].visits
}

/// Whether `mv` is what the tree recommends: the move of the root's most
/// visited child, the earliest of them where several are visited as often;
/// nothing where no child of the root has been visited.
pub open spec fn recommended(nodes: Seq<NodeModel>, mv: Option<Move>) -> bool {
    match mv {
        Some(m) => exists|k: int| #[trigger]
            best_child(nodes, k) && nodes[nodes[0].children[k] as int].origin == Some(m),
        None => forall|k: int|
            0 <= k < nodes[0].children.len() ==> nodes[#[trigger] nodes[0].children[k] as int].visits
                == 0,
    }
}

/// Whether the node `later` is the node `earlier` after more of the search:
/// it stands for the same position at the same place, has been visited at
/// least as often, and has its earlier children first among its children.
pub open spec fn node_grown_from(later: NodeModel, earlier: NodeModel) -> bool {
    &&& later.position == earlier.position
    &&& later.parent == earlier.parent
    &&& later.origin == earlier.origin
    &&& earlier.visits <= later.visits
    &&& earlier.wins <= later.wins
    &&& earlier.draws <= later.draws
    &&& earlier.children.is_prefix_of(later.children)
    &&& later.untried.len() <= earlier.untried.len()
}

/// Whether the tree `later` is the tree `earlier` after more of the search:
/// no node is lost, and each node has only grown.
pub open spec fn grown_from(later: Seq<NodeModel>, earlier: Seq<NodeModel>) -> bool {
    &&& earlier.len() <= later.len()
    &&& forall|i: int| 0 <= i < earlier.len() ==> node_grown_from(#[trigger] later[i], earlier[i])
}

/// A tree that has grown out of a tree that has grown out of a third has
/// grown out of the third.
pub proof fn lemma_grown_further(c: Seq<NodeModel>, b: Seq<NodeModel>, a: Seq<NodeModel>)
    requires
        grown_from(c, b),
        grown_from(b, a),
    ensures
        grown_from(c, a),
{
    assert forall|i: int| 0 <= i < a.len() implies node_grown_from(#[trigger] c[i], a[i]) by {
        assert(node_grown_from(c[i], b[i]));
        assert(node_grown_from(b[i], a[i]));
        assert(a[i].children =~= c[i].children.subrange(0, a[i].children.len() as int));
    }
}

/// A tree recommends one thing only.
pub proof fn lemma_one_recommendation(nodes: Seq<NodeModel>, a: Option<Move>, b: Option<Move>)
    requires
        recommended(nodes, a),
        recommended(nodes, b),
    ensures
        a == b,
{
    if a is Some {
        let k = choose|k: int| #[trigger]
            best_child(nodes, k) && nodes[nodes[0].children[k] as int].origin == Some(a->0);
        let kid = nodes[0].children[k];
        if b is Some {
            let l = choose|l: int| #[trigger]
                best_child(nodes, l) && nodes[nodes[0].children[l] as int].origin == Some(b->0);
            let other = nodes[0].children[l];
            if k < l {
                assert(nodes[kid as int].visits < nodes[other as int].visits);
                assert(nodes[other as int].visits <= nodes[kid as int].visits);
            }
            if l < k {
                assert(nodes[other as int].visits < nodes[kid as int].visits);
                assert(nodes[kid as int].visits <= nodes[other as int].visits);
            }
        } else {
            assert(nodes[kid as int].visits == 0);
        }
    } else if b is Some {
        let l = choose|l: int| #[trigger]
            best_child(nodes, l) && nodes[nodes[0].children[l] as int].origin == Some(b->0);
        assert(nodes[nodes[0].children[l] as int].visits == 0);
    }
}

/// The search tree. Node 0 is the root; a node's children come after it.
pub struct SearchTree {
    nodes: Vec<SearchNode>,
}

impl View for SearchTree {
    type V = Seq<NodeModel>;

    closed spec fn view(&self) -> Seq<NodeModel> {
        Seq::new(self.nodes@.len(), |i: int| self.nodes@[i]@)
    }
}

impl SearchTree {
    /// Whether the tree is well formed.
    pub open spec fn wf(&self) -> bool {
        well_formed(self@)
    }

    /// The tree that holds only a root, for `root`.
    pub fn new(root: State) -> (t: SearchTree)
        ensures
            t.wf(),
            t@ == seq![NodeModel::fresh(root@, None, None)],
    {
        let mut nodes: Vec<SearchNode> = Vec::new();
        nodes.push(SearchNode::new(root, None, None));
        let t = SearchTree { nodes };
        proof {
            root.board.lemma_len();
            assert(t@ =~= seq![NodeModel::fresh(root@, None, None)]);
            assert(node_ok(t@, 0));
        }
        t
    }

    /// The number of nodes.
    pub fn len(&self) -> (n: usize)
        ensures
            n == self@.len(),
    {
        self.nodes.len()
    }

    /// Node `i`.
    pub fn node(&self, i: usize) -> (n: &SearchNode)
        requires
            i < self@.len(),
        ensures
            n@ == self@[i as int],
    {
        &self.nodes[i]
    }

    /// Makes a child of `node` by the `pick`-th of its untried moves, and
    /// returns the child's index: the move leaves the untried ones, and the
    /// child, a fresh node for the state that the move leads to, is added at
    /// the end of the arena.
    pub fn expand(&mut self, node: usize, pick: usize) -> (child: usize)
        requires
            old(self).wf(),
            node < old(self)@.len(),
            pick < old(self)@[node as int].untried.len(),
        ensures
            final(self).wf(),
            child == old(self)@.len(),
            final(self)@ == expanded(old(self)@, node as int, pick as int),
            grown_from(final(self)@, old(self)@),
    {
        proof {
            assert(node_ok(self@, node as int));
            let mv = self@[node as int].untried[pick as int];
            lemma_listed_iff_allowed(
                self@[node as int].position.cells,
                self@[node as int].position.turn,
                mv,
            );
        }
        let mv = self.nodes[node].untried.remove(pick);
        let state = self.nodes[node].state.apply_move(&mv);
        let child = self.nodes.len();
        self.nodes.push(SearchNode::new(state, Some(mv), Some(node)));
        self.nodes[node].children.push(child);
        let grown = self.nodes.len();
        proof {
            assert(grown == child + 1);
            assert(self@ =~= expanded(old(self)@, node as int, pick as int));
            lemma_expanded(old(self)@, node as int, pick as int);
        }
        child
    }

    /// Records one playout that started at `node` and ended with `winner`:
    /// `node` and every node above it, up to the root, count one visit more,
    /// and a win or a draw as the root's player to move sees the result.
    pub fn backpropagate(&mut self, node: usize, winner: Option<Player>)
        requires
            old(self).wf(),
            node < old(self)@.len(),
            old(self)@[0].visits < usize::MAX,
        ensures
            final(self).wf(),
            final(self)@ == credited_path(old(self)@, node as int, winner),
            grown_from(final(self)@, old(self)@),
    {
        let me = self.nodes[0].state.turn;
        let mut cur = node;
        proof {
            assert forall|i: int| on_path(old(self)@, i, node as int) implies i <= node by {
                lemma_path_goes_down(old(self)@, i, node as int);
            }
        }
        loop
            invariant_except_break
                forall|i: int|
                    0 <= i < self@.len() ==> #[trigger] self@[i] == if on_path(
                        old(self)@,
                        i,
                        node as int,
                    ) && i > cur {
                        old(self)@[i].credited(me, winner)
                    } else {
                        old(self)@[i]
                    },
            invariant
                cur < self.nodes@.len(),
                self@.len() == old(self)@.len(),
                old(self).wf(),
                old(self)@[0].visits < usize::MAX,
                node < old(self)@.len(),
                me == old(self)@[0].position.turn,
                on_path(old(self)@, cur as int, node as int),
            ensures
                self@ == credited_path(old(self)@, node as int, winner),
            decreases cur,
        {
            let ghost before = self@;
            proof {
                assert(node_ok(old(self)@, cur as int));
                assert(self@[cur as int] == old(self)@[cur as int]);
            }
            self.nodes[cur].visits += 1;
            if winner == Some(me) {
                self.nodes[cur].wins += 1;
            } else if winner.is_none() {
                self.nodes[cur].draws += 1;
            }
            proof {
                assert(self@[cur as int] == old(self)@[cur as int].credited(me, winner));
                assert forall|i: int| 0 <= i < self@.len() && i != cur implies #[trigger] self@[i]
                    == before[i] by {}
            }
            match self.nodes[cur].parent {
                Some(p) => {
                    proof {
                        assert forall|i: int| 0 <= i < self@.len() implies #[trigger] self@[i]
                            == if on_path(old(self)@, i, node as int) && i > p {
                            old(self)@[i].credited(me, winner)
                        } else {
                            old(self)@[i]
                        } by {
                            if i != cur {
                                assert(self@[i] == before[i]);
                            }
                            if p < i < cur && on_path(old(self)@, i, node as int) {
                                lemma_path_is_a_line(old(self)@, i, cur as int, node as int);
                                lemma_path_goes_down(old(self)@, i, p as int);
                            }
                        }
                        assert(on_path(old(self)@, p as int, p as int));
                        assert(on_path(old(self)@, p as int, cur as int));
                        lemma_path_joins(old(self)@, p as int, cur as int, node as int);
                    }
                    cur = p;
                },
                None => {
                    proof {
                        assert(cur == 0);
                        assert forall|i: int| 0 <= i < self@.len() implies #[trigger] self@[i]
                            == credited_path(old(self)@, node as int, winner)[i] by {
                            if i != cur {
                                assert(self@[i] == before[i]);
                            }
                        }
                        assert(self@ =~= credited_path(old(self)@, node as int, winner));
                    }
                    break ;
                },
            }
        }
        proof {
            lemma_credited_path(old(self)@, node as int, winner);
        }
    }
}

/// What the search has counted at a node. The score of the node is the
/// number of its wins and half the number of its draws.
#[derive(Clone, Copy, Debug, PartialEq, Eq, Structural)]
pub struct Tally {
    /// How many playouts ran through the node.
    pub visits: usize,
    /// How many of them the player to move at the root won.
    pub wins: usize,
    /// How many of them ended without a winner.
    pub draws: usize,
}

impl NodeModel {
    /// The counts of the node.
    pub open spec fn tally(self) -> Tally {
        Tally { visits: self.visits, wins: self.wins, draws: self.draws }
    }
}

/// Whether the `k`-th child of `node` has not been visited, and every child
/// after it has.
pub open spec fn last_unvisited(nodes: Seq<NodeModel>, node: int, k: int) -> bool {
    let kids = nodes[node].children;
    &&& 0 <= k < kids.len()
    &&& nodes[kids[k] as int].visits == 0
    &&& forall|j: int| k < j < kids.len() ==> nodes[#[trigger] kids[j] as int].visits > 0
}

/// Whether every child of `node` has been visited.
pub open spec fn all_visited(nodes: Seq<NodeModel>, node: int) -> bool {
    forall|j: int|
        0 <= j < nodes[node].children.len() ==> nodes[#[trigger] nodes[node].children[j] as int].visits
            > 0
}

impl SearchTree {
    /// The child of `node` that the search must try before it compares
    /// scores: the last of the children that no playout has run through, if
    /// there is one.
    pub fn unvisited_child(&self, node: usize) -> (c: Option<usize>)
        requires
            self.wf(),
            node < self@.len(),
        ensures
            match c {
                Some(c) => exists|k: int| #[trigger]
                    last_unvisited(self@, node as int, k) && self@[node as int].children[k] == c,
                None => all_visited(self@, node as int),
            },
    {
        proof {
            assert(node_ok(self@, node as int));
        }
        let mut found: Option<usize> = None;
        let ghost mut at: int = -1;
        let mut k: usize = 0;
        while k < self.nodes[node].children.len()
            invariant
                self.wf(),
                node < self@.len(),
                node_ok(self@, node as int),
                0 <= k <= self@[node as int].children.len(),
                match found {
                    Some(c) => 0 <= at < k && self@[node as int].children[at] == c
                        && self@[c as int].visits == 0 && forall|j: int|
                        at < j < k ==> self@[#[trigger] self@[node as int].children[j] as int].visits
                            > 0,
                    None => forall|j: int|
                        0 <= j < k ==> self@[#[trigger] self@[node as int].children[j] as int].visits
                            > 0,
                },
            decreases self@[node as int].children.len() - k,
        {
            let c = self.nodes[node].children[k];
            assert(c == self@[node as int].children[k as int]);
            if self.nodes[c].visits == 0 {
                found = Some(c);
                proof {
                    at = k as int;
                }
            }
            k += 1;
        }
        proof {
            if found is Some {
                assert(last_unvisited(self@, node as int, at));
            }
        }
        found
    }

    /// The child of `node` that the search descends into, where `ranked` is
    /// the place, among the children of `node`, of the one with the best
    /// score. A child that no playout has run through counts for more than
    /// any score: while there is one, the last such child is taken, and
    /// `ranked` decides only where every child has been visited.
    pub fn select_child(&self, node: usize, ranked: usize) -> (c: usize)
        requires
            self.wf(),
            node < self@.len(),
            ranked < self@[node as int].children.len(),
        ensures
            c < self@.len(),
            self@[node as int].children.contains(c),
            !all_visited(self@, node as int) ==> self@[c as int].visits == 0 && exists|k: int| #[trigger]
                last_unvisited(self@, node as int, k) && self@[node as int].children[k] == c,
            all_visited(self@, node as int) ==> c == self@[node as int].children[ranked as int],
    {
        proof {
            assert(node_ok(self@, node as int));
        }
        match self.unvisited_child(node) {
            Some(c) => c,
            None => self.nodes[node].children[ranked],
        }
    }

    /// The counts of the children of `node`, in the order of the children.
    pub fn tallies(&self, node: usize) -> (t: Vec<Tally>)
        requires
            self.wf(),
            node < self@.len(),
        ensures
            t@.len() == self@[node as int].children.len(),
            forall|k: int|
                0 <= k < t@.len() ==> #[trigger] t@[k] == self@[self@[node as int].children[k] as int].tally(),
    {
        proof {
            assert(node_ok(self@, node as int));
        }
        let mut t: Vec<Tally> = Vec::new();
        let mut k: usize = 0;
        while k < self.nodes[node].children.len()
            invariant
                self.wf(),
                node < self@.len(),
                node_ok(self@, node as int),
                0 <= k <= self@[node as int].children.len(),
                t@.len() == k,
                forall|j: int|
                    0 <= j < k ==> #[trigger] t@[j] == self@[self@[node as int].children[j] as int].tally(),
            decreases self@[node as int].children.len() - k,
        {
            let c = self.nodes[node].children[k];
            assert(c == self@[node as int].children[k as int]);
            t.push(
                Tally {
                    visits: self.nodes[c].visits,
                    wins: self.nodes[c].wins,
                    draws: self.nodes[c].draws,
                },
            );
            k += 1;
        }
        t
    }

    /// The move to recommend: that of the root's most visited child, the
    /// earliest of them where several are visited as often. No move where
    /// the root has no child that a playout has run through.
    pub fn best_move(&self) -> (mv: Option<Move>)
        requires
            self.wf(),
        ensures
            recommended(self@, mv),
            mv is Some ==> self@[0].position.legal_moves().contains(mv->0),
    {
        proof {
            assert(node_ok(self@, 0));
        }
        let mut best_visits: usize = 0;
        let mut best: Option<Move> = None;
        let ghost mut at: int = -1;
        let mut k: usize = 0;
        while k < self.nodes[0].children.len()
            invariant
                self.wf(),
                node_ok(self@, 0),
                0 <= k <= self@[0].children.len(),
                best is None ==> best_visits == 0 && forall|j: int|
                    0 <= j < k ==> self@[#[trigger] self@[0].children[j] as int].visits == 0,
                best is Some ==> 0 <= at < k && best_visits > 0 && self@[self@[0].children[at] as int].visits
                    == best_visits && self@[self@[0].children[at] as int].origin == best
                    && (forall|j: int|
                    0 <= j < at ==> self@[#[trigger] self@[0].children[j] as int].visits
                        < best_visits) && (forall|j: int|
                    at < j < k ==> self@[#[trigger] self@[0].children[j] as int].visits
                        <= best_visits),
            decreases self@[0].children.len() - k,
        {
            let c = self.nodes[0].children[k];
            proof {
                assert(c == self@[0].children[k as int]);
                assert(node_ok(self@, c as int));
            }
            if self.nodes[c].visits > best_visits {
                best_visits = self.nodes[c].visits;
                best = self.nodes[c].move_from_parent;
                proof {
                    at = k as int;
                }
            }
            k += 1;
        }
        proof {
            if best is Some {
                assert(best_child(self@, at));
                let c = self@[0].children[at] as int;
                assert(node_ok(self@, c));
            }
        }
        best
    }
}

/// The tree after a playout from node `from` that `winner` won: every node
/// on the way from `from` up to the root is credited.
pub open spec fn credited_path(nodes: Seq<NodeModel>, from: int, winner: Option<Player>) -> Seq<
    NodeModel,
> {
    Seq::new(
        nodes.len(),
        |i: int|
            if on_path(nodes, i, from) {
                nodes[i].credited(nodes[0].position.turn, winner)
            } else {
                nodes[i]
            },
    )
}

/// What lies on the way up from `from` has an index of at most `from`.
proof fn lemma_path_goes_down(nodes: Seq<NodeModel>, i: int, from: int)
    requires
        on_path(nodes, i, from),
    ensures
        i <= from,
    decreases from,
{
    if i != from {
        lemma_path_goes_down(nodes, i, nodes[from].parent->0 as int);
    }
}

/// The way up from `mid` is the end of the way up from `from`, where `mid`
/// lies on it.
proof fn lemma_path_joins(nodes: Seq<NodeModel>, i: int, mid: int, from: int)
    requires
        on_path(nodes, mid, from),
        on_path(nodes, i, mid),
    ensures
        on_path(nodes, i, from),
    decreases from,
{
    if mid != from {
        lemma_path_joins(nodes, i, mid, nodes[from].parent->0 as int);
    }
}

/// Of two nodes on the way up from `from`, the one with the lower index lies
/// on the way up from the other.
proof fn lemma_path_is_a_line(nodes: Seq<NodeModel>, i: int, mid: int, from: int)
    requires
        on_path(nodes, mid, from),
        on_path(nodes, i, from),
        i <= mid,
    ensures
        on_path(nodes, i, mid),
    decreases from,
{
    if mid != from {
        let up = nodes[from].parent->0 as int;
        lemma_path_goes_down(nodes, mid, up);
        lemma_path_is_a_line(nodes, i, mid, up);
    }
}

/// The root lies on every way up.
pub proof fn lemma_path_ends_at_root(nodes: Seq<NodeModel>, from: int)
    requires
        well_formed(nodes),
        0 <= from < nodes.len(),
    ensures
        on_path(nodes, 0, from),
    decreases from,
{
    if from > 0 {
        assert(node_ok(nodes, from));
        lemma_path_ends_at_root(nodes, nodes[from].parent->0 as int);
    }
}

proof fn lemma_credited_path(nodes: Seq<NodeModel>, from: int, winner: Option<Player>)
    requires
        well_formed(nodes),
        0 <= from < nodes.len(),
        nodes[0].visits < usize::MAX,
    ensures
        well_formed(credited_path(nodes, from, winner)),
        grown_from(credited_path(nodes, from, winner), nodes),
{
    let after = credited_path(nodes, from, winner);
    lemma_path_ends_at_root(nodes, from);
    assert(node_ok(nodes, 0));
    assert forall|i: int| 0 <= i < nodes.len() implies node_grown_from(
        #[trigger] after[i],
        nodes[i],
    ) by {
        assert(node_ok(nodes, i));
        assert(nodes[i].children =~= after[i].children.subrange(
            0,
            nodes[i].children.len() as int,
        ));
    }
    assert forall|i: int| 0 <= i < after.len() implies #[trigger] node_ok(after, i) by {
        assert(node_ok(nodes, i));
        assert(after[i].children == nodes[i].children);
        assert(after[i].untried == nodes[i].untried);
        assert(after[i].position == nodes[i].position);
        assert(after[i].parent == nodes[i].parent);
        assert(after[i].origin == nodes[i].origin);
        if i > 0 {
            let p = nodes[i].parent->0 as int;
            assert(after[p].children == nodes[p].children);
            assert(after[p].position == nodes[p].position);
            assert(linked(after, i));
        }
        assert forall|k: int| 0 <= k < after[i].children.len() implies i
            < #[trigger] after[i].children[k] < after.len() && after[after[i].children[k] as int].parent
            == Some(i as usize) by {
            let c = nodes[i].children[k] as int;
            assert(after[c].parent == nodes[c].parent);
        }
        assert(after[i].visits <= after[0].visits);
    }
}

/// The tree after `node` got a child by the `pick`-th of its untried moves.
pub open spec fn expanded(nodes: Seq<NodeModel>, node: int, pick: int) -> Seq<NodeModel> {
    let mv = nodes[node].untried[pick];
    nodes.update(
        node,
        NodeModel {
            children: nodes[node].children.push(nodes.len() as usize),
            untried: nodes[node].untried.remove(pick),
            ..nodes[node]
        },
    ).push(
        NodeModel::fresh(nodes[node].position.apply(mv), Some(mv), Some(node as usize)),
    )
}

proof fn lemma_expanded(nodes: Seq<NodeModel>, node: int, pick: int)
    requires
        well_formed(nodes),
        nodes.len() < usize::MAX,
        0 <= node < nodes.len(),
        0 <= pick < nodes[node].untried.len(),
    ensures
        well_formed(expanded(nodes, node, pick)),
        grown_from(expanded(nodes, node, pick), nodes),
{
    let after = expanded(nodes, node, pick);
    let mv = nodes[node].untried[pick];
    let n = nodes.len() as int;
    assert(node_ok(nodes, node));
    lemma_legal_move_never_adds_a_piece(nodes[node].position, mv);
    assert forall|i: int| 0 <= i < nodes.len() implies node_grown_from(
        #[trigger] after[i],
        nodes[i],
    ) by {
        assert(nodes[i].children =~= after[i].children.subrange(
            0,
            nodes[i].children.len() as int,
        ));
    }
    assert forall|i: int| 0 <= i < after.len() implies #[trigger] node_ok(after, i) by {
        if i == n {
            assert(after[node].children[nodes[node].children.len() as int] == n as usize);
        } else {
            assert(node_ok(nodes, i));
            let kids = after[i].children;
            assert forall|k: int| 0 <= k < kids.len() implies i < #[trigger] kids[k] < after.len()
                && after[kids[k] as int].parent == Some(i as usize) by {
                if k < nodes[i].children.len() {
                    assert(kids[k] == nodes[i].children[k]);
                }
            }
            assert forall|k: int, l: int| 0 <= k < l < kids.len() implies #[trigger] kids[k]
                < #[trigger] kids[l] by {
                assert(kids[k] == nodes[i].children[k]);
                if l < nodes[i].children.len() {
                    assert(kids[l] == nodes[i].children[l]);
                }
            }
            assert forall|k: int| 0 <= k < after[i].untried.len() implies after[i].position.legal_moves().contains(
             #[trigger] after[i].untried[k]) by {
                if i != node || k < pick {
                    assert(after[i].untried[k] == nodes[i].untried[k]);
                } else {
                    assert(after[i].untried[k] == nodes[i].untried[k + 1]);
                }
            }
            if i > 0 {
                let p = nodes[i].parent->0 as int;
                let w = choose|w: int|
                    0 <= w < nodes[p].children.len() && nodes[p].children[w] == i as usize;
                assert(after[p].children[w] == i as usize);
            }
        }
    }
}

} // verus!
