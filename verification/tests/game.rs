use core_battle::game::{Game, Progress, TurnState};
use core_battle::state::State;
use core_battle::types::{Board, Coordinate, Move, MoveKind, Piece, PieceKind, Player};

fn at(x: u8, y: u8) -> Coordinate {
    Coordinate::new(x, y)
}

fn go(from: Coordinate, to: Coordinate) -> Move {
    Move { actor: from, kind: MoveKind::Move { to } }
}

fn touching_cores(last_core_mover: Option<Player>) -> State {
    let mut board = Board::empty();
    board.set(at(5, 3), Piece { owner: Player::A, kind: PieceKind::Core });
    board.set(at(6, 3), Piece { owner: Player::B, kind: PieceKind::Core });
    State { board, turn: Player::A, last_core_mover }
}

#[test]
fn new_game_starts_at_the_starting_position() {
    let game = Game::new();
    assert_eq!(*game.state(), State::new());
    assert_eq!(game.turns(), 0);
    assert_eq!(game, Game::from_state(State::new()));
    assert_eq!(game.progress(1000), Progress::Ongoing);
}

#[test]
fn turn_state_names_the_player_and_the_moves() {
    let game = Game::new();
    let turn = game.turn_state();
    assert_eq!(turn.player, Player::A);
    assert_eq!(turn.possible_moves, State::new().legal_moves());
    assert_eq!(
        turn,
        TurnState { player: Player::A, possible_moves: game.get_possible_moves(Player::A) }
    );
}

#[test]
fn possible_moves_are_listed_for_either_player() {
    let game = Game::new();
    let a = game.get_possible_moves(Player::A);
    let b = game.get_possible_moves(Player::B);
    assert_eq!(a.len(), 17);
    assert_eq!(b.len(), 17);
    assert_eq!(a[0], go(at(0, 0), at(0, 1)));
    assert_eq!(b[0], go(at(0, 6), at(0, 5)));
    for m in &b {
        assert_eq!(m.actor.y(), 6);
    }
}

#[test]
fn play_applies_a_legal_move_and_counts_the_turn() {
    let mut game = Game::new();
    let m = go(at(5, 0), at(5, 2));
    assert!(game.play(&m));
    assert_eq!(game.turns(), 1);
    assert_eq!(*game.state(), State::new().apply_move(&m));
    assert_eq!(game.state().last_core_mover, Some(Player::A));
    let reply = go(at(4, 6), at(4, 5));
    assert!(game.play(&reply));
    assert_eq!(game.turns(), 2);
    assert_eq!(game.state().turn, Player::A);
}

#[test]
fn play_refuses_what_the_rules_do_not_allow() {
    let mut game = Game::new();
    let before = game;
    // Not that player's turn.
    assert!(!game.play(&go(at(0, 6), at(0, 5))));
    // A Monarch does not move along its row.
    assert!(!game.play(&go(at(4, 0), at(3, 0))));
    // Nothing stands there.
    assert!(!game.play(&go(at(3, 3), at(3, 4))));
    // A Brute captures only what stands ahead of it.
    assert!(!game.play(&Move { actor: at(0, 0), kind: MoveKind::Capture { target: at(0, 1) } }));
    assert_eq!(game, before);
    assert_eq!(game.turns(), 0);
}

#[test]
fn progress_tells_winner_turn_limit_and_play() {
    let won = Game::from_state(touching_cores(Some(Player::B)));
    assert_eq!(won.progress(10), Progress::Won(Player::B));
    // A winner counts even where no turn is left.
    assert_eq!(won.progress(0), Progress::Won(Player::B));
    let open = Game::from_state(touching_cores(None));
    assert_eq!(open.progress(10), Progress::Ongoing);
    assert_eq!(open.progress(0), Progress::OutOfTurns);
    let mut game = Game::new();
    assert_eq!(game.progress(0), Progress::OutOfTurns);
    assert_eq!(game.progress(1), Progress::Ongoing);
    assert!(game.play(&go(at(0, 0), at(0, 1))));
    assert_eq!(game.progress(1), Progress::OutOfTurns);
    assert_eq!(game.progress(2), Progress::Ongoing);
}
