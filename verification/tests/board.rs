use core_battle::state::{add, add_coord, chebyshev_distance, State};
use core_battle::types::{
    home_piece, Board, BruteSide, Coordinate, Piece, PieceKind, Player, BOARD_SIZE, COLS, ROWS,
};

fn at(x: u8, y: u8) -> Coordinate {
    Coordinate::new(x, y)
}

fn piece(owner: Player, kind: PieceKind) -> Piece {
    Piece { owner, kind }
}

#[test]
fn it_works() {
    let board = Board::new();
    println!("{:?}", board);
}

#[test]
fn grid_has_seven_rows_of_eleven() {
    assert_eq!(ROWS, 7);
    assert_eq!(COLS, 11);
    assert_eq!(BOARD_SIZE, 77);
}

#[test]
fn coordinate_is_row_major() {
    let c = at(3, 2);
    assert_eq!(c.index(), 25);
    assert_eq!(c.x(), 3);
    assert_eq!(c.y(), 2);
    assert_eq!(c.xy(), (3, 2));
    assert_eq!(Coordinate::idx(3, 2), 25);
    assert_eq!(Coordinate::idx(0, 0), 0);
    assert_eq!(Coordinate::idx(10, 6), 76);
}

#[test]
fn coordinate_from_index_checks_the_grid() {
    assert_eq!(Coordinate::from_index(0), Some(at(0, 0)));
    assert_eq!(Coordinate::from_index(76), Some(at(10, 6)));
    assert_eq!(Coordinate::from_index(77), None);
    assert_eq!(Coordinate::from_index(usize::MAX), None);
    for i in 0..BOARD_SIZE {
        let c = Coordinate::from_index(i).unwrap();
        assert_eq!(c.index(), i);
        assert_eq!(at(c.x(), c.y()), c);
    }
}

#[test]
fn brute_kinds_know_their_side() {
    assert_eq!(PieceKind::brute(BruteSide::Left), PieceKind::BruteLeft);
    assert_eq!(PieceKind::brute(BruteSide::Right), PieceKind::BruteRight);
    assert_eq!(PieceKind::BruteLeft.brute_side(), Some(BruteSide::Left));
    assert_eq!(PieceKind::BruteRight.brute_side(), Some(BruteSide::Right));
    assert_eq!(PieceKind::Core.brute_side(), None);
    assert_eq!(PieceKind::Monarch.brute_side(), None);
    assert_eq!(PieceKind::Tank.brute_side(), None);
}

#[test]
fn players_face_each_other() {
    assert_eq!(Player::A.opponent(), Player::B);
    assert_eq!(Player::B.opponent(), Player::A);
    assert_eq!(Player::A.forward(), 1);
    assert_eq!(Player::B.forward(), -1);
}

#[test]
fn initial_board_has_ten_pieces_on_the_edge_rows() {
    let board = Board::new();
    assert_eq!(board.count_pieces(), 10);
    let columns = [
        (0u8, PieceKind::BruteLeft),
        (4, PieceKind::Monarch),
        (5, PieceKind::Core),
        (6, PieceKind::Tank),
        (10, PieceKind::BruteRight),
    ];
    for (x, kind) in columns {
        assert_eq!(board.get_piece(at(x, 0)), Some(&piece(Player::A, kind)));
        assert_eq!(board.get_piece(at(x, 6)), Some(&piece(Player::B, kind)));
    }
    for y in 0..7u8 {
        for x in 0..11u8 {
            let home = (y == 0 || y == 6) && columns.iter().any(|(c, _)| *c == x);
            assert_eq!(board.get_piece(at(x, y)).is_some(), home);
        }
    }
}

#[test]
fn home_piece_names_the_starting_placement() {
    assert_eq!(home_piece(0), Some(piece(Player::A, PieceKind::BruteLeft)));
    assert_eq!(home_piece(5), Some(piece(Player::A, PieceKind::Core)));
    assert_eq!(home_piece(1), None);
    assert_eq!(home_piece(11), None);
    assert_eq!(home_piece(66), Some(piece(Player::B, PieceKind::BruteLeft)));
    assert_eq!(home_piece(70), Some(piece(Player::B, PieceKind::Monarch)));
    assert_eq!(home_piece(72), Some(piece(Player::B, PieceKind::Tank)));
    assert_eq!(home_piece(76), Some(piece(Player::B, PieceKind::BruteRight)));
    assert_eq!(home_piece(77), None);
    assert_eq!(home_piece(81), None);
}

#[test]
fn empty_board_holds_nothing() {
    let board = Board::empty();
    assert_eq!(board.count_pieces(), 0);
    for i in 0..BOARD_SIZE {
        assert_eq!(board.get_piece(Coordinate::from_index(i).unwrap()), None);
    }
    assert_ne!(board, Board::new());
}

#[test]
fn set_and_clear_change_one_cell() {
    let mut board = Board::empty();
    let tank = piece(Player::B, PieceKind::Tank);
    board.set(at(3, 3), tank);
    assert_eq!(board.get_piece(at(3, 3)), Some(&tank));
    assert_eq!(board.count_pieces(), 1);
    let monarch = piece(Player::A, PieceKind::Monarch);
    board.set(at(3, 3), monarch);
    assert_eq!(board.get_piece(at(3, 3)), Some(&monarch));
    assert_eq!(board.count_pieces(), 1);
    board.clear(at(3, 3));
    assert_eq!(board, Board::empty());
    board.clear(at(3, 3));
    assert_eq!(board, Board::empty());
}

#[test]
fn get_coord_finds_the_first_cell_in_row_major_order() {
    let board = Board::new();
    assert_eq!(board.get_coord(piece(Player::A, PieceKind::Core)), Some(at(5, 0)));
    assert_eq!(board.get_coord(piece(Player::B, PieceKind::Core)), Some(at(5, 6)));
    assert_eq!(board.get_coord(piece(Player::B, PieceKind::BruteRight)), Some(at(10, 6)));
    let mut twice = Board::empty();
    let tank = piece(Player::A, PieceKind::Tank);
    twice.set(at(9, 4), tank);
    twice.set(at(2, 5), tank);
    twice.set(at(7, 1), tank);
    assert_eq!(twice.get_coord(tank), Some(at(7, 1)));
    assert_eq!(twice.get_coord(piece(Player::B, PieceKind::Tank)), None);
    assert_eq!(Board::empty().get_coord(tank), None);
}

#[test]
fn find_piece_reads_the_board_of_the_state() {
    let state = State::new();
    assert_eq!(state.find_piece(Player::A, PieceKind::Monarch), Some(at(4, 0)));
    assert_eq!(state.find_piece(Player::B, PieceKind::Tank), Some(at(6, 6)));
    let bare = State { board: Board::empty(), turn: Player::A, last_core_mover: None };
    assert_eq!(bare.find_piece(Player::A, PieceKind::Monarch), None);
}

#[test]
fn add_stays_within_a_byte() {
    assert_eq!(add(3, 2), Some(5));
    assert_eq!(add(3, -3), Some(0));
    assert_eq!(add(3, -4), None);
    assert_eq!(add(0, -128), None);
    assert_eq!(add(200, 55), Some(255));
    assert_eq!(add(200, 56), None);
    assert_eq!(add(128, -128), Some(0));
    assert_eq!(add(255, 0), Some(255));
}

#[test]
fn add_coord_stays_on_the_grid() {
    assert_eq!(add_coord(at(5, 3), (1, 0)), Some(at(6, 3)));
    assert_eq!(add_coord(at(5, 3), (-2, 2)), Some(at(3, 5)));
    assert_eq!(add_coord(at(5, 3), (0, 0)), Some(at(5, 3)));
    assert_eq!(add_coord(at(0, 0), (-1, 0)), None);
    assert_eq!(add_coord(at(0, 0), (0, -1)), None);
    assert_eq!(add_coord(at(10, 6), (1, 0)), None);
    assert_eq!(add_coord(at(10, 6), (0, 1)), None);
    assert_eq!(add_coord(at(10, 2), (1, 0)), None);
    assert_eq!(add_coord(at(0, 2), (-1, 0)), None);
    assert_eq!(add_coord(at(9, 5), (1, 1)), Some(at(10, 6)));
    assert_eq!(add_coord(at(5, 3), (127, 0)), None);
    assert_eq!(add_coord(at(5, 3), (0, -128)), None);
}

#[test]
fn on_board_pos_knows_the_edges() {
    assert!(State::on_board_pos(0, 0));
    assert!(State::on_board_pos(6, 10));
    assert!(!State::on_board_pos(7, 0));
    assert!(!State::on_board_pos(0, 11));
    assert!(!State::on_board_pos(-1, 0));
    assert!(!State::on_board_pos(0, -1));
}

#[test]
fn chebyshev_distance_is_the_larger_gap() {
    assert_eq!(chebyshev_distance(at(5, 0), at(5, 6)), 6);
    assert_eq!(chebyshev_distance(at(0, 0), at(10, 6)), 10);
    assert_eq!(chebyshev_distance(at(10, 6), at(0, 0)), 10);
    assert_eq!(chebyshev_distance(at(3, 3), at(3, 3)), 0);
    assert_eq!(chebyshev_distance(at(3, 3), at(4, 4)), 1);
    assert_eq!(chebyshev_distance(at(3, 3), at(5, 4)), 2);
    assert_eq!(chebyshev_distance(at(10, 2), at(0, 3)), 10);
}

#[test]
fn adjacent_cells_touch_by_side_or_corner() {
    assert!(State::are_adjacent_pos(at(3, 3), at(4, 4)));
    assert!(State::are_adjacent_pos(at(3, 3), at(3, 2)));
    assert!(State::are_adjacent_pos(at(3, 3), at(2, 3)));
    assert!(!State::are_adjacent_pos(at(3, 3), at(3, 3)));
    assert!(!State::are_adjacent_pos(at(3, 3), at(5, 3)));
    // The last cell of a row and the first of the next are neighbours by
    // index only.
    assert!(!State::are_adjacent_pos(at(10, 2), at(0, 3)));
}

#[test]
fn coordinate_turns_into_its_index() {
    assert_eq!(usize::from(at(3, 2)), 25);
    let i: usize = at(10, 6).into();
    assert_eq!(i, 76);
}

#[test]
fn default_state_is_the_starting_state() {
    assert_eq!(State::default(), State::new());
    assert_eq!(State::default().turn, Player::A);
    assert_eq!(State::default().last_core_mover, None);
}

