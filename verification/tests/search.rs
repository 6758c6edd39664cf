use core_battle::game::{Game, Progress};
use core_battle::playout::{random_playout, Weight};
use core_battle::search::{Phase, Request, Search};
use core_battle::state::State;
use core_battle::tree::Tally;
use core_battle::types::{Board, Coordinate, Move, MoveKind, Piece, PieceKind, Player};
use rand::rngs::StdRng;
use rand::Rng;
use rand::SeedableRng;

fn at(x: u8, y: u8) -> Coordinate {
    Coordinate::new(x, y)
}

fn go(from: Coordinate, to: Coordinate) -> Move {
    Move { actor: from, kind: MoveKind::Move { to } }
}

fn state_with(pieces: &[(u8, u8, Player, PieceKind)], turn: Player) -> State {
    let mut board = Board::empty();
    for (x, y, owner, kind) in pieces {
        board.set(at(*x, *y), Piece { owner: *owner, kind: *kind });
    }
    State { board, turn, last_core_mover: None }
}

fn uct_score(parent_visits: usize, child: &Tally, c: f64) -> f64 {
    if child.visits == 0 {
        return f64::INFINITY;
    }
    let score = child.wins as f64 + 0.5 * child.draws as f64;
    let visits = child.visits as f64;
    score / visits + c * ((parent_visits as f64).ln() / visits).sqrt()
}

fn rank(parent_visits: usize, children: &[Tally], c: f64) -> usize {
    let mut best = 0;
    let mut best_score = -1f64;
    for (k, child) in children.iter().enumerate() {
        let score = uct_score(parent_visits, child, c);
        if score.is_infinite() || score > best_score {
            best_score = score;
            best = k;
        }
    }
    best
}

fn weight(w: &Weight) -> f64 {
    match w {
        Weight::Winning => 100.0,
        Weight::NoCore => 1.0,
        Weight::Apart(d) => (-0.5 * *d as f64).exp(),
    }
}

fn sample(weights: &[Weight], rng: &mut StdRng) -> usize {
    let sum: f64 = weights.iter().map(weight).sum();
    let mut pick = rng.gen::<f64>() * sum;
    let mut idx = 0;
    while idx + 1 < weights.len() && pick > weight(&weights[idx]) {
        pick -= weight(&weights[idx]);
        idx += 1;
    }
    idx
}

fn run(search: &mut Search, c: f64, rng: &mut StdRng) -> Option<Move> {
    loop {
        match search.advance(rng) {
            Request::Rank { parent_visits, children } => {
                assert!(parent_visits > 0);
                assert!(!children.is_empty());
                assert!(children.iter().all(|t| t.visits > 0 && t.wins + t.draws <= t.visits));
                assert_eq!(search.phase(), Phase::Rank);
                assert!(!search.answer_sample(0));
                assert!(search.answer_rank(rank(parent_visits, &children, c)));
            },
            Request::Sample { weights } => {
                assert!(!weights.is_empty());
                assert_eq!(search.phase(), Phase::Sample);
                assert!(!search.answer_rank(0));
                assert!(search.answer_sample(sample(&weights, rng)));
            },
            Request::Done { best } => {
                assert_eq!(search.phase(), Phase::Done);
                assert!(!search.answer_rank(0));
                assert!(!search.answer_sample(0));
                return best;
            },
        }
    }
}

fn select_move(
    state: &State,
    iterations: usize,
    c: f64,
    biased: bool,
    playout_budget: usize,
    rng: &mut StdRng,
) -> Option<Move> {
    let mut search = Search::new(*state, iterations, biased, playout_budget);
    run(&mut search, c, rng)
}

#[test]
fn one_round_makes_one_child_and_recommends_its_move() {
    for seed in 0..20 {
        let mut rng = StdRng::seed_from_u64(seed);
        let root = State::new();
        let mut search = Search::new(root, 1, false, 100);
        let best = run(&mut search, 1.4, &mut rng);
        let tree = search.tree();
        assert_eq!(tree.len(), 2);
        assert_eq!(tree.node(0).children, vec![1]);
        assert_eq!(tree.node(0).visits, 1);
        assert_eq!(tree.node(1).visits, 1);
        assert_eq!(tree.node(0).untried.len(), 16);
        assert_eq!(best, tree.node(1).move_from_parent);
        assert!(root.legal_moves().contains(&best.unwrap()));
        assert_eq!(tree.node(1).state, root.apply_move(&best.unwrap()));
        assert_eq!(search.rounds_left(), 0);
    }
}

#[test]
fn one_biased_round_makes_one_child_and_recommends_its_move() {
    let mut rng = StdRng::seed_from_u64(11);
    let root = State::new();
    let mut search = Search::new(root, 1, true, 30);
    let best = run(&mut search, 1.4, &mut rng);
    assert_eq!(search.tree().len(), 2);
    assert_eq!(best, search.tree().node(1).move_from_parent);
    assert!(best.is_some());
}

#[test]
fn no_round_recommends_nothing() {
    let mut rng = StdRng::seed_from_u64(1);
    let mut search = Search::new(State::new(), 0, false, 100);
    assert_eq!(search.phase(), Phase::Select);
    assert_eq!(search.advance(&mut rng), Request::Done { best: None });
    assert_eq!(search.tree().len(), 1);
    assert_eq!(search.phase(), Phase::Done);
    // Once done, the search stays done.
    assert_eq!(search.advance(&mut rng), Request::Done { best: None });
}

#[test]
fn a_state_without_moves_recommends_nothing() {
    let root = state_with(&[(5, 3, Player::A, PieceKind::Core)], Player::A);
    let mut rng = StdRng::seed_from_u64(3);
    let mut search = Search::new(root, 25, false, 10);
    assert_eq!(run(&mut search, 1.4, &mut rng), None);
    assert_eq!(search.tree().len(), 1);
    assert_eq!(search.tree().node(0).visits, 25);
    assert_eq!(search.tree().node(0).draws, 25);
}

#[test]
fn search_visits_the_root_once_per_round() {
    let mut rng = StdRng::seed_from_u64(42);
    let root = State::new();
    let mut search = Search::new(root, 200, false, 40);
    let best = run(&mut search, 1.4, &mut rng).unwrap();
    assert!(root.legal_moves().contains(&best));
    let tree = search.tree();
    assert_eq!(tree.node(0).visits, 200);
    assert!(tree.len() <= 201);
    assert_eq!(tree.node(0).children.len(), 17);
    assert!(tree.node(0).untried.is_empty());
    let mut sum = 0;
    let mut most = 0;
    for &c in &tree.node(0).children {
        let child = tree.node(c);
        assert!(child.visits > 0);
        assert_eq!(child.parent, Some(0));
        sum += child.visits;
        most = most.max(child.visits);
    }
    assert_eq!(sum, 200);
    let first_most =
        tree.node(0).children.iter().find(|&&c| tree.node(c).visits == most).unwrap();
    assert_eq!(tree.node(*first_most).move_from_parent, Some(best));
    for i in 1..tree.len() {
        let node = tree.node(i);
        let parent = tree.node(node.parent.unwrap());
        assert!(node.parent.unwrap() < i);
        assert!(parent.children.contains(&i));
        assert_eq!(node.state, parent.state.apply_move(&node.move_from_parent.unwrap()));
        assert!(node.wins + node.draws <= node.visits);
        assert!(node.visits > 0);
    }
}

#[test]
fn same_seed_gives_the_same_move() {
    for biased in [false, true] {
        for seed in [0u64, 7, 42] {
            let state = State::new();
            let mut first = StdRng::seed_from_u64(seed);
            let mut second = StdRng::seed_from_u64(seed);
            let a = select_move(&state, 60, 1.4, biased, 30, &mut first);
            let b = select_move(&state, 60, 1.4, biased, 30, &mut second);
            assert!(a.is_some());
            assert_eq!(a, b);
        }
    }
}

#[test]
fn a_refused_answer_changes_nothing() {
    let mut rng = StdRng::seed_from_u64(5);
    let mut search = Search::new(State::new(), 40, false, 20);
    let request = search.advance(&mut rng);
    let children = match &request {
        Request::Rank { children, .. } => children.len(),
        other => panic!("the root is ranked once all its moves are tried: {:?}", other),
    };
    assert_eq!(children, 17);
    assert_eq!(search.rounds_left(), 23);
    let nodes = search.tree().len();
    assert!(!search.answer_rank(children));
    assert!(!search.answer_rank(usize::MAX));
    let again = search.advance(&mut rng);
    assert_eq!(again, request);
    assert_eq!(search.tree().len(), nodes);
    assert_eq!(search.rounds_left(), 23);
    assert_eq!(search.phase(), Phase::Rank);
    assert_eq!(search.cursor(), 0);
}

#[test]
fn a_ranked_child_is_descended_into() {
    let mut rng = StdRng::seed_from_u64(9);
    let mut search = Search::new(State::new(), 18, false, 20);
    assert!(matches!(search.advance(&mut rng), Request::Rank { .. }));
    assert_eq!(search.rounds_left(), 1);
    // The last round goes through the fourth child of the root.
    let child = search.tree().node(0).children[3];
    let before = search.tree().node(child).visits;
    assert!(search.answer_rank(3));
    assert_eq!(search.phase(), Phase::Select);
    assert_eq!(search.cursor(), child);
    assert_eq!(search.advance(&mut rng), Request::Done { best: search.tree().best_move() });
    assert_eq!(search.tree().node(child).visits, before + 1);
    assert_eq!(search.tree().node(child).children.len(), 1);
    assert_eq!(search.tree().len(), 19);
    assert_eq!(search.tree().node(0).visits, 18);
}

#[test]
fn biased_playout_asks_for_a_weighted_move() {
    let mut rng = StdRng::seed_from_u64(2);
    let root = State::new();
    let mut search = Search::new(root, 1, true, 5);
    let weights = match search.advance(&mut rng) {
        Request::Sample { weights } => weights,
        other => panic!("a biased playout samples its first move: {:?}", other),
    };
    assert_eq!(search.phase(), Phase::Sample);
    let child = search.tree().node(1).state;
    let moves = child.legal_moves();
    assert_eq!(weights.len(), moves.len());
    for (w, m) in weights.iter().zip(&moves) {
        assert_eq!(*w, child.move_weight(m));
    }
    assert_eq!(child.move_weights(&moves), weights);
    // A refused answer changes nothing, and the search asks again.
    assert!(!search.answer_sample(weights.len()));
    assert_eq!(search.advance(&mut rng), Request::Sample { weights });
    assert_eq!(search.tree().len(), 2);
    // With a budget of five moves the playout asks five times at most.
    let mut asked = 1;
    assert!(search.answer_sample(0));
    while let Request::Sample { .. } = search.advance(&mut rng) {
        asked += 1;
        assert!(search.answer_sample(0));
    }
    assert!(asked <= 5);
    assert_eq!(search.phase(), Phase::Done);
    assert_eq!(search.tree().node(0).visits, 1);
}

#[test]
fn move_weight_tells_wins_distances_and_missing_cores() {
    let state = state_with(
        &[
            (5, 3, Player::A, PieceKind::Core),
            (4, 3, Player::A, PieceKind::Monarch),
            (8, 3, Player::B, PieceKind::Core),
        ],
        Player::A,
    );
    // The Core moves next to the other Core: it has moved, so this wins.
    assert_eq!(state.move_weight(&go(at(5, 3), at(7, 3))), Weight::Winning);
    assert_eq!(state.move_weight(&go(at(5, 3), at(6, 3))), Weight::Apart(2));
    assert_eq!(state.move_weight(&go(at(5, 3), at(5, 5))), Weight::Apart(3));
    // A move of the Monarch leaves the Cores three apart.
    assert_eq!(state.move_weight(&go(at(4, 3), at(4, 2))), Weight::Apart(3));
    let touching = state_with(
        &[
            (5, 3, Player::A, PieceKind::Core),
            (4, 3, Player::A, PieceKind::Monarch),
            (6, 3, Player::B, PieceKind::Core),
        ],
        Player::A,
    );
    // The Cores touch, but no Core has moved: distance one, no win.
    assert_eq!(touching.move_weight(&go(at(4, 3), at(4, 2))), Weight::Apart(1));
    // Taking the other Core leaves one Core on the board.
    assert_eq!(touching.move_weight(&go(at(5, 3), at(6, 3))), Weight::NoCore);
}

#[test]
fn playout_without_budget_has_no_winner() {
    let mut rng = StdRng::seed_from_u64(1);
    let mut won = state_with(
        &[(5, 3, Player::A, PieceKind::Core), (6, 3, Player::B, PieceKind::Core)],
        Player::A,
    );
    won.last_core_mover = Some(Player::B);
    assert_eq!(random_playout(won, &mut rng, 0), None);
    assert_eq!(random_playout(won, &mut rng, 1), Some(Player::B));
    assert_eq!(random_playout(won, &mut rng, 100), Some(Player::B));
}

#[test]
fn playout_ends_where_nobody_can_move() {
    let mut rng = StdRng::seed_from_u64(1);
    let stuck = state_with(&[(5, 3, Player::A, PieceKind::Core)], Player::A);
    assert_eq!(random_playout(stuck, &mut rng, 50), None);
    // One move is made, then the other player has none.
    let lone = state_with(&[(5, 3, Player::A, PieceKind::Tank)], Player::A);
    assert_eq!(random_playout(lone, &mut rng, 50), None);
}

#[test]
fn playout_finds_the_only_way_to_win() {
    // A's Core can only move next to B's Core, and nothing else can move.
    let state = state_with(
        &[
            (0, 0, Player::A, PieceKind::Core),
            (1, 0, Player::A, PieceKind::Monarch),
            (0, 1, Player::A, PieceKind::BruteLeft),
            (1, 1, Player::A, PieceKind::BruteRight),
            (2, 0, Player::A, PieceKind::Tank),
            (0, 2, Player::A, PieceKind::Tank),
            (2, 1, Player::A, PieceKind::Tank),
            (1, 2, Player::A, PieceKind::Tank),
            (3, 0, Player::A, PieceKind::BruteLeft),
            (0, 3, Player::A, PieceKind::BruteLeft),
            (3, 1, Player::A, PieceKind::BruteLeft),
            (1, 3, Player::A, PieceKind::BruteLeft),
            (3, 2, Player::A, PieceKind::BruteLeft),
            (2, 3, Player::A, PieceKind::BruteLeft),
            (3, 3, Player::B, PieceKind::Core),
        ],
        Player::A,
    );
    let moves = state.legal_moves();
    let core: Vec<&Move> = moves.iter().filter(|m| m.actor == at(0, 0)).collect();
    assert_eq!(core, vec![&go(at(0, 0), at(2, 2))]);
    for seed in 0..5 {
        let mut rng = StdRng::seed_from_u64(seed);
        let winner = random_playout(state, &mut rng, 200);
        assert!(winner == None || winner == Some(Player::A));
    }
}

#[test]
fn playouts_with_one_seed_agree() {
    for seed in 0..10 {
        let mut first = StdRng::seed_from_u64(seed);
        let mut second = StdRng::seed_from_u64(seed);
        assert_eq!(
            random_playout(State::new(), &mut first, 60),
            random_playout(State::new(), &mut second, 60)
        );
    }
}

#[test]
fn self_play_ends_with_a_winner_or_out_of_turns() {
    let mut rng = StdRng::seed_from_u64(42);
    let mut game = Game::new();
    let max_turns = 12;
    let result = loop {
        match game.progress(max_turns) {
            Progress::Won(w) => break Some(w),
            Progress::OutOfTurns => break None,
            Progress::Ongoing => {
                match select_move(game.state(), 30, 1.4, true, 20, &mut rng) {
                    Some(m) => assert!(game.play(&m)),
                    None => break None,
                }
            },
        }
    };
    assert!(game.turns() <= max_turns);
    match result {
        Some(w) => assert_eq!(game.state().is_terminal(), Some(w)),
        None => assert_eq!(game.state().is_terminal(), None),
    }
}

#[test]
fn steps_of_one_round_with_equal_chances() {
    let mut rng = StdRng::seed_from_u64(4);
    let root = State::new();
    let mut search = Search::new(root, 1, false, 50);
    assert_eq!(search.phase(), Phase::Select);
    assert_eq!(search.request(), None);
    // The root has untried moves: one of them makes a child.
    search.step(&mut rng);
    assert_eq!(search.phase(), Phase::Playout);
    assert_eq!(search.cursor(), 1);
    assert_eq!(search.tree().len(), 2);
    assert_eq!(search.tree().node(1).visits, 0);
    assert_eq!(search.rounds_left(), 1);
    assert_eq!(search.request(), None);
    // The playout is played to its end and counted.
    search.step(&mut rng);
    assert_eq!(search.phase(), Phase::Select);
    assert_eq!(search.cursor(), 0);
    assert_eq!(search.rounds_left(), 0);
    assert_eq!(search.tree().node(0).visits, 1);
    assert_eq!(search.tree().node(1).visits, 1);
    assert_eq!(search.request(), None);
    // No round is left.
    search.step(&mut rng);
    assert_eq!(search.phase(), Phase::Done);
    let best = search.tree().node(1).move_from_parent;
    assert_eq!(search.request(), Some(Request::Done { best }));
    // A search that is done stays as it is.
    search.step(&mut rng);
    assert_eq!(search.phase(), Phase::Done);
    assert_eq!(search.tree().len(), 2);
    assert_eq!(search.advance(&mut rng), Request::Done { best });
}

#[test]
fn steps_of_a_weighted_playout() {
    let mut rng = StdRng::seed_from_u64(4);
    let mut search = Search::new(State::new(), 1, true, 2);
    search.step(&mut rng);
    assert_eq!(search.phase(), Phase::Playout);
    search.step(&mut rng);
    assert_eq!(search.phase(), Phase::Sample);
    let weights = match search.request() {
        Some(Request::Sample { weights }) => weights,
        other => panic!("a move is to be drawn: {:?}", other),
    };
    // While it waits, a step changes nothing.
    search.step(&mut rng);
    assert_eq!(search.phase(), Phase::Sample);
    assert_eq!(search.request(), Some(Request::Sample { weights }));
    assert!(search.answer_sample(0));
    assert_eq!(search.phase(), Phase::Playout);
    search.step(&mut rng);
    assert_eq!(search.phase(), Phase::Sample);
    assert!(search.answer_sample(1));
    // The budget of two moves is used up: the round ends without a winner.
    search.step(&mut rng);
    assert_eq!(search.phase(), Phase::Select);
    assert_eq!(search.rounds_left(), 0);
    assert_eq!(search.tree().node(1).visits, 1);
    assert_eq!(search.tree().node(1).draws, 1);
    assert_eq!(search.tree().node(0).draws, 1);
}

#[test]
fn a_leaf_without_moves_is_played_from_again() {
    // The player to move has no piece, so no move.
    let root = state_with(&[(5, 3, Player::A, PieceKind::Core)], Player::B);
    let mut rng = StdRng::seed_from_u64(8);
    let mut search = Search::new(root, 3, false, 10);
    search.step(&mut rng);
    assert_eq!(search.phase(), Phase::Playout);
    assert_eq!(search.cursor(), 0);
    assert_eq!(search.tree().len(), 1);
    assert_eq!(search.advance(&mut rng), Request::Done { best: None });
    assert_eq!(search.tree().node(0).visits, 3);
}

