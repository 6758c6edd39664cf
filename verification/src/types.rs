//! The grid, the players, the pieces and the moves.

use vstd::prelude::*;
use crate::rules::{piece_count, pieces_below};

verus! {

/// Number of rows of the grid.
pub const ROWS: usize = 7;

/// Number of columns of the grid.
pub const COLS: usize = 11;

/// Number of cells of the grid.
pub const BOARD_SIZE: usize = 77;

/// Row of the cell with row-major index `i`.
pub open spec fn row_of(i: int) -> int {
    i / 11
}

/// Column of the cell with row-major index `i`.
pub open spec fn col_of(i: int) -> int {
    i % 11
}

/// Whether row `y` and column `x` name a cell of the grid.
pub open spec fn on_board(x: int, y: int) -> bool {
    0 <= x < 11 && 0 <= y < 7
}

/// Row-major index of the cell in column `x` of row `y`.
pub open spec fn cell_index(x: int, y: int) -> int {
    y * 11 + x
}

/// One of the two players.
#[derive(Clone, Copy, Debug, PartialEq, Eq, Structural)]
pub enum Player {
    A,
    B,
}

impl Player {
    /// The player who is not `self`.
    pub open spec fn other(self) -> Player {
        match self {
            Player::A => Player::B,
            Player::B => Player::A,
        }
    }

    /// Row step of this player's forward direction: `A` plays towards higher
    /// rows, `B` towards lower ones.
    pub open spec fn forward_dy(self) -> int {
        match self {
            Player::A => 1,
            Player::B => -1,
        }
    }

    /// The player who is not `self`.
    pub fn opponent(self) -> (p: Player)
        ensures
            p == self.other(),
    {
        match self {
            Player::A => Player::B,
            Player::B => Player::A,
        }
    }

    /// Row step of this player's forward direction.
    pub fn forward(self) -> (dy: i8)
        ensures
            dy == self.forward_dy(),
    {
        match self {
            Player::A => 1,
            Player::B => -1,
        }
    }
}

/// A cell of the grid, held as its row-major index.
#[derive(Clone, Copy, Debug, PartialEq, Eq, Structural)]
pub struct Coordinate(pub(crate) usize);

impl View for Coordinate {
    type V = int;

    /// The row-major index of the cell.
    open(crate) spec fn view(&self) -> int {
        self.0 as int
    }
}

impl Coordinate {
    #[verifier::type_invariant]
    pub open spec fn in_grid(self) -> bool {
        0 <= self@ < 77
    }

    /// The cell in column `x` of row `y`.
    pub fn new(x: u8, y: u8) -> (c: Coordinate)
        requires
            on_board(x as int, y as int),
        ensures
            c@ == cell_index(x as int, y as int),
            c.in_grid(),
    {
        Coordinate(Self::idx(x, y))
    }

    /// The cell's column.
    pub fn x(&self) -> (x: u8)
        ensures
            x == col_of(self@),
            x < 11,
    {
        proof {
            use_type_invariant(self);
        }
        (self.0 % COLS) as u8
    }

    /// The cell's row.
    pub fn y(&self) -> (y: u8)
        ensures
            y == row_of(self@),
            y < 7,
    {
        proof {
            use_type_invariant(self);
        }
        (self.0 / COLS) as u8
    }

    /// The cell's column and row.
    pub fn xy(&self) -> (xy: (u8, u8))
        ensures
            xy.0 == col_of(self@),
            xy.1 == row_of(self@),
            on_board(xy.0 as int, xy.1 as int),
    {
        (self.x(), self.y())
    }

    /// Row-major index of column `x` in row `y`; no bound is asked of either.
    pub fn idx(x: u8, y: u8) -> (i: usize)
        ensures
            i == cell_index(x as int, y as int),
    {
        (y as usize) * COLS + (x as usize)
    }

    /// The cell's row-major index.
    pub fn index(&self) -> (i: usize)
        ensures
            i == self@,
            i < 77,
    {
        proof {
            use_type_invariant(self);
        }
        self.0
    }

    /// The cell with row-major index `i`, where the grid has one.
    pub fn from_index(i: usize) -> (c: Option<Coordinate>)
        ensures
            c is Some <==> i < 77,
            c is Some ==> c->0@ == i,
    {
        if i < BOARD_SIZE {
            Some(Coordinate(i))
        } else {
            None
        }
    }

    /// The cell with row-major index `i`, for use in contracts.
    pub open(crate) spec fn at(i: int) -> Coordinate {
        Coordinate(i as usize)
    }

    /// A cell is known by its index.
    pub proof fn lemma_at(i: int)
        requires
            0 <= i < 77,
        ensures
            Coordinate::at(i)@ == i,
            Coordinate::at(i).in_grid(),
    {
    }

    /// Two cells with one index are one cell.
    pub proof fn lemma_same_index(a: Coordinate, b: Coordinate)
        ensures
            a@ == b@ <==> a == b,
    {
    }
}

impl From<Coordinate> for usize {
    /// The cell's row-major index.
    fn from(c: Coordinate) -> (i: usize) {
        c.index()
    }
}

impl vstd::std_specs::convert::FromSpecImpl<Coordinate> for usize {
    open spec fn obeys_from_spec() -> bool {
        true
    }

    open spec fn from_spec(c: Coordinate) -> usize {
        c@ as usize
    }
}

/// Which of a player's two Brutes a piece is.
#[derive(Clone, Copy, Debug, PartialEq, Eq, Structural)]
pub enum BruteSide {
    Left,
    Right,
}

/// The five kinds of pieces. The two Brutes of a player are kinds of their
/// own: they start in different columns and move alike.
#[derive(Clone, Copy, Debug, PartialEq, Eq, Structural)]
pub enum PieceKind {
    Core,
    Monarch,
    BruteLeft,
    BruteRight,
    Tank,
}

impl PieceKind {
    /// The side of a Brute; no side for the other kinds.
    pub open spec fn side(self) -> Option<BruteSide> {
        match self {
            PieceKind::BruteLeft => Some(BruteSide::Left),
            PieceKind::BruteRight => Some(BruteSide::Right),
            _ => None,
        }
    }

    /// The Brute of the given side.
    pub fn brute(side: BruteSide) -> (kind: PieceKind)
        ensures
            kind.side() == Some(side),
    {
        match side {
            BruteSide::Left => PieceKind::BruteLeft,
            BruteSide::Right => PieceKind::BruteRight,
        }
    }

    /// The side of a Brute; no side for the other kinds.
    pub fn brute_side(self) -> (side: Option<BruteSide>)
        ensures
            side == self.side(),
    {
        match self {
            PieceKind::BruteLeft => Some(BruteSide::Left),
            PieceKind::BruteRight => Some(BruteSide::Right),
            _ => None,
        }
    }
}

/// A piece: whose it is and of what kind.
#[derive(Clone, Copy, Debug, PartialEq, Eq, Structural)]
pub struct Piece {
    pub owner: Player,
    pub kind: PieceKind,
}

/// What a move does.
#[derive(Clone, Copy, Debug, PartialEq, Eq, Structural)]
pub enum MoveKind {
    /// The actor goes to `to`; a piece that stands there leaves the board.
    Move { to: Coordinate },
    /// The piece on `target` leaves the board; the actor stays.
    Capture { target: Coordinate },
    /// The piece on `target` leaves the board and the actor goes to `to`.
    MoveAndCapture { to: Coordinate, target: Coordinate },
}

/// A move: the cell of the piece that makes it, and what it does. A move
/// is a value; it changes nothing by itself.
#[derive(Clone, Copy, Debug, PartialEq, Eq, Structural)]
pub struct Move {
    pub actor: Coordinate,
    pub kind: MoveKind,
}

/// The kind that starts in column `x` of a player's home row.
pub open spec fn home_kind(x: int) -> Option<PieceKind> {
    if x == 0 {
        Some(PieceKind::BruteLeft)
    } else if x == 4 {
        Some(PieceKind::Monarch)
    } else if x == 5 {
        Some(PieceKind::Core)
    } else if x == 6 {
        Some(PieceKind::Tank)
    } else if x == 10 {
        Some(PieceKind::BruteRight)
    } else {
        None
    }
}

/// The player whose home row is row `y`: the first row is `A`'s, the last `B`'s.
pub open spec fn home_owner(y: int) -> Option<Player> {
    if y == 0 {
        Some(Player::A)
    } else if y == 6 {
        Some(Player::B)
    } else {
        None
    }
}

/// What stands on the cell with index `i` when a game starts.
pub open spec fn home_piece_at(i: int) -> Option<Piece> {
    match (home_owner(row_of(i)), home_kind(col_of(i))) {
        (Some(owner), Some(kind)) => Some(Piece { owner, kind }),
        _ => None,
    }
}

/// The cells of the starting position.
pub open spec fn initial_cells() -> Seq<Option<Piece>> {
    Seq::new(77, |i: int| home_piece_at(i))
}

/// The cells of a board on which nothing stands.
pub open spec fn vacant_cells() -> Seq<Option<Piece>> {
    Seq::new(77, |i: int| None)
}

/// What stands on the cell with index `i` when a game starts.
pub fn home_piece(i: usize) -> (p: Option<Piece>)
    ensures
        p == home_piece_at(i as int),
{
    let y: usize = i / COLS;
    let x: usize = i % COLS;
    let owner = if y == 0 {
        Player::A
    } else if y == ROWS - 1 {
        Player::B
    } else {
        return None;
    };
    let kind = if x == 0 {
        PieceKind::BruteLeft
    } else if x == 4 {
        PieceKind::Monarch
    } else if x == 5 {
        PieceKind::Core
    } else if x == 6 {
        PieceKind::Tank
    } else if x == 10 {
        PieceKind::BruteRight
    } else {
        return None;
    };
    Some(Piece { owner, kind })
}

/// `array_init::array_init` with `home_piece` as the initializer: the array
/// whose element at each index is what `home_piece` returns for that index.
#[verifier::external_body]
fn home_cells() -> (cells: [Option<Piece>; BOARD_SIZE])
    ensures
        forall|i: int| 0 <= i < 77 ==> cells@[i] == home_piece_at(i),
{
    array_init::array_init(|i| home_piece(i))
}

/// The grid with what stands on it: each cell holds one piece or none.
#[derive(Clone, Copy, Debug, PartialEq, Eq)]
pub struct Board {
    cells: [Option<Piece>; BOARD_SIZE],
}

impl View for Board {
    type V = Seq<Option<Piece>>;

    /// The 77 cells in row-major order.
    closed spec fn view(&self) -> Seq<Option<Piece>> {
        self.cells@
    }
}

/// The least index below `n` at which `cells` holds `piece`, or `n`.
pub open spec fn first_index_of(cells: Seq<Option<Piece>>, piece: Piece, n: int) -> int
    decreases n,
{
    if n <= 0 {
        0
    } else {
        let before = first_index_of(cells, piece, n - 1);
        if before < n - 1 {
            before
        } else if cells[n - 1] == Some(piece) {
            n - 1
        } else {
            n
        }
    }
}

/// Where `piece` stands: the first cell in row-major order that holds it.
pub open spec fn locate(cells: Seq<Option<Piece>>, piece: Piece) -> Option<int> {
    let i = first_index_of(cells, piece, 77);
    if i < 77 {
        Some(i)
    } else {
        None
    }
}

/// `locate` finds the first cell that holds the piece, and fails only where
/// no cell holds it.
pub proof fn lemma_locate(cells: Seq<Option<Piece>>, piece: Piece)
    requires
        cells.len() == 77,
    ensures
        match locate(cells, piece) {
            Some(i) => 0 <= i < 77 && cells[i] == Some(piece) && forall|j: int|
                0 <= j < i ==> cells[j] != Some(piece),
            None => forall|j: int| 0 <= j < 77 ==> cells[j] != Some(piece),
        },
{
    lemma_first_index_of(cells, piece, 77);
}

proof fn lemma_first_index_of(cells: Seq<Option<Piece>>, piece: Piece, n: int)
    requires
        0 <= n <= cells.len(),
    ensures
        0 <= first_index_of(cells, piece, n) <= n,
        first_index_of(cells, piece, n) < n ==> cells[first_index_of(cells, piece, n)] == Some(
            piece,
        ),
        forall|j: int| 0 <= j < first_index_of(cells, piece, n) ==> cells[j] != Some(piece),
    decreases n,
{
    if n > 0 {
        lemma_first_index_of(cells, piece, n - 1);
    }
}

impl Board {
    /// Every board has 77 cells.
    pub proof fn lemma_len(self)
        ensures
            self@.len() == 77,
    {
    }

    /// A board is known by its cells: two boards with the same cells are
    /// the same board.
    pub proof fn lemma_same_cells(self, other: Board)
        requires
            self@ == other@,
        ensures
            self == other,
    {
        assert(self.cells =~= other.cells);
    }

    /// The starting position: five pieces of each player on that player's home row.
    pub fn new() -> (b: Board)
        ensures
            b@ == initial_cells(),
    {
        let b = Board { cells: home_cells() };
        assert(b@ =~= initial_cells());
        b
    }

    /// The board on which nothing stands.
    pub fn empty() -> (b: Board)
        ensures
            b@ == vacant_cells(),
    {
        let b = Board { cells: [None;BOARD_SIZE] };
        assert(b@ =~= vacant_cells());
        b
    }

    /// What stands on `c`.
    pub fn get_piece(&self, c: Coordinate) -> (p: Option<&Piece>)
        ensures
            match p {
                Some(piece) => self@[c@] == Some(*piece),
                None => self@[c@] is None,
            },
    {
        proof {
            use_type_invariant(c);
        }
        self.cells[c.0].as_ref()
    }

    /// Where `piece` stands: the first cell in row-major order that holds it.
    pub fn get_coord(&self, piece: Piece) -> (c: Option<Coordinate>)
        ensures
            match c {
                Some(c) => locate(self@, piece) == Some(c@),
                None => locate(self@, piece) is None,
            },
    {
        let mut i: usize = 0;
        while i < BOARD_SIZE
            invariant
                0 <= i <= 77,
                first_index_of(self@, piece, i as int) == i,
            decreases BOARD_SIZE - i,
        {
            let hit = match self.cells[i] {
                Some(p) => p == piece,
                None => false,
            };
            if hit {
                proof {
                    lemma_first_index_stays(self@, piece, i as int + 1, 77);
                }
                return Some(Coordinate(i));
            }
            i += 1;
        }
        None
    }

    /// How many pieces stand on the board.
    pub fn count_pieces(&self) -> (n: usize)
        ensures
            n == piece_count(self@),
            n <= 77,
    {
        let mut n: usize = 0;
        let mut i: usize = 0;
        while i < BOARD_SIZE
            invariant
                0 <= i <= 77,
                n <= i,
                n == pieces_below(self@, i as int),
            decreases BOARD_SIZE - i,
        {
            if self.cells[i].is_some() {
                n += 1;
            }
            i += 1;
        }
        n
    }

    /// Puts `piece` on `c`, in place of what stood there.
    pub fn set(&mut self, c: Coordinate, piece: Piece)
        ensures
            final(self)@ == old(self)@.update(c@, Some(piece)),
    {
        proof {
            use_type_invariant(c);
        }
        self.cells[c.0] = Some(piece);
        assert(self@ =~= old(self)@.update(c@, Some(piece)));
    }

    /// Takes off the board what stands on `c`.
    pub fn clear(&mut self, c: Coordinate)
        ensures
            final(self)@ == old(self)@.update(c@, None),
    {
        proof {
            use_type_invariant(c);
        }
        self.cells[c.0] = None;
        assert(self@ =~= old(self)@.update(c@, None));
    }
}

proof fn lemma_first_index_stays(cells: Seq<Option<Piece>>, piece: Piece, n: int, m: int)
    requires
        0 < n <= m,
        first_index_of(cells, piece, n) < n,
    ensures
        first_index_of(cells, piece, m) == first_index_of(cells, piece, n),
    decreases m - n,
{
    if n < m {
        lemma_first_index_stays(cells, piece, n, m - 1);
    }
}

} // verus!
