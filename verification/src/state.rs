//! The game state and its engine: the moves a player has, what a move makes
//! of a state, and who has won.

use vstd::prelude::*;
use crate::rules::{
    adjacent, chebyshev, core_moves, core_ray, dash, dashes, forward_capture, landing,
    monarch_moves, moves_below, moves_from, moves_of, moves_of_piece, on_grid, orthogonal_steps,
    shifted, step, Position,
};
use crate::legality::lemma_listed_moves_on_grid;
use crate::types::{
    lemma_locate, locate, on_board, Board, Coordinate, Move, MoveKind, Piece, PieceKind, Player,
    BOARD_SIZE, COLS, ROWS,
};

verus! {

/// A state of the game: the board, whose turn it is, and which player last
/// moved their own Core.
#[derive(Clone, Copy, Debug, PartialEq, Eq)]
pub struct State {
    pub board: Board,
    pub turn: Player,
    pub last_core_mover: Option<Player>,
}

impl View for State {
    type V = Position;

    open spec fn view(&self) -> Position {
        Position {
            cells: self.board@,
            turn: self.turn,
            last_core_mover: self.last_core_mover,
        }
    }
}

impl Default for State {
    /// The state in which a game starts.
    fn default() -> (s: State)
        ensures
            s@ == Position::initial(),
    {
        State::new()
    }
}

/// A state is known by its position: two states with the same position are
/// the same state.
pub proof fn lemma_same_position(s: State, t: State)
    requires
        s@ == t@,
    ensures
        s == t,
{
    s.board.lemma_same_cells(t.board);
}

/// A move makes one thing of a state: whatever two applications of `m` to
/// `s` return, each being what `apply_move` promises, is one and the same
/// state.
pub proof fn lemma_apply_is_pure(s: State, m: Move, first: State, second: State)
    requires
        first@ == s@.apply(m),
        second@ == s@.apply(m),
    ensures
        first == second,
{
    lemma_same_position(first, second);
}

/// `lhs + rhs`, where that is a `u8`.
pub fn add(lhs: u8, rhs: i8) -> (sum: Option<u8>)
    ensures
        match sum {
            Some(v) => v == lhs + rhs,
            None => lhs + rhs < 0 || lhs + rhs > 255,
        },
{
    if rhs >= 0 {
        lhs.checked_add(rhs as u8)
    } else {
        let back: i16 = -(rhs as i16);
        lhs.checked_sub(back as u8)
    }
}

/// The cell `delta.0` columns and `delta.1` rows from `coord`, where the grid
/// has one.
pub fn add_coord(coord: Coordinate, delta: (i8, i8)) -> (c: Option<Coordinate>)
    ensures
        match c {
            Some(t) => shifted(coord@, delta.0 as int, delta.1 as int) == Some(t@),
            None => shifted(coord@, delta.0 as int, delta.1 as int) is None,
        },
{
    match (self::add(coord.x(), delta.0), self::add(coord.y(), delta.1)) {
        (Some(x), Some(y)) => {
            if State::on_board_pos(y as isize, x as isize) {
                Some(Coordinate::new(x, y))
            } else {
                None
            }
        },
        _ => None,
    }
}

/// Chebyshev distance of two cells.
pub fn chebyshev_distance(a: Coordinate, b: Coordinate) -> (d: usize)
    ensures
        d == chebyshev(a@, b@),
{
    let (ax, ay) = a.xy();
    let (bx, by) = b.xy();
    let dy: u8 = if by < ay {
        ay - by
    } else {
        by - ay
    };
    let dx: u8 = if bx < ax {
        ax - bx
    } else {
        bx - ax
    };
    if dy >= dx {
        dy as usize
    } else {
        dx as usize
    }
}

/// Adds to `moves` the displacing move of `owner`'s piece on `from` by
/// `delta`, where the rules allow it.
fn push_landing(
    board: &Board,
    owner: Player,
    from: Coordinate,
    delta: (i8, i8),
    moves: &mut Vec<Move>,
)
    ensures
        final(moves)@ == old(moves)@ + landing(
            board@,
            owner,
            from@,
            delta.0 as int,
            delta.1 as int,
        ),
{
    if let Some(to) = add_coord(from, delta) {
        let free = match board.get_piece(to) {
            Some(p) => p.owner != owner,
            None => true,
        };
        if free {
            moves.push(Move { actor: from, kind: MoveKind::Move { to } });
        }
    }
}

/// Adds to `moves` the plain step from `from` by `delta`, where the target is
/// an empty cell.
fn push_step(board: &Board, from: Coordinate, delta: (i8, i8), moves: &mut Vec<Move>)
    ensures
        final(moves)@ == old(moves)@ + step(board@, from@, delta.0 as int, delta.1 as int),
{
    if let Some(to) = add_coord(from, delta) {
        if board.get_piece(to).is_none() {
            moves.push(Move { actor: from, kind: MoveKind::Move { to } });
        }
    }
}

/// Adds to `moves` the plain steps from `from` in the four orthogonal directions.
fn push_orthogonal_steps(board: &Board, from: Coordinate, moves: &mut Vec<Move>)
    ensures
        final(moves)@ == old(moves)@ + orthogonal_steps(board@, from@),
{
    push_step(board, from, (0, -1), moves);
    push_step(board, from, (0, 1), moves);
    push_step(board, from, (-1, 0), moves);
    push_step(board, from, (1, 0), moves);
    proof {
        lemma_four_parts(
            old(moves)@,
            step(board@, from@, 0, -1),
            step(board@, from@, 0, 1),
            step(board@, from@, -1, 0),
            step(board@, from@, 1, 0),
        );
    }
}

/// Adds to `moves` the capture that a Brute of `owner` on `from` has, if any.
fn push_forward_capture(board: &Board, owner: Player, from: Coordinate, moves: &mut Vec<Move>)
    ensures
        final(moves)@ == old(moves)@ + forward_capture(board@, owner, from@),
{
    if let Some(target) = add_coord(from, (0, owner.forward())) {
        let enemy = match board.get_piece(target) {
            Some(p) => p.owner != owner,
            None => false,
        };
        if enemy {
            moves.push(Move { actor: from, kind: MoveKind::Capture { target } });
        }
    }
}

/// Adds to `moves` the dash of a Tank on `from` in direction `delta`, where
/// the rules allow it.
fn push_dash(board: &Board, from: Coordinate, delta: (i8, i8), moves: &mut Vec<Move>)
    requires
        -1 <= delta.0 <= 1,
        -1 <= delta.1 <= 1,
    ensures
        final(moves)@ == old(moves)@ + dash(board@, from@, delta.0 as int, delta.1 as int),
{
    if let Some(target) = add_coord(from, delta) {
        if let Some(to) = add_coord(from, (2 * delta.0, 2 * delta.1)) {
            let over = match board.get_piece(target) {
                Some(p) => p.kind != PieceKind::Core,
                None => false,
            };
            if over && board.get_piece(to).is_none() {
                moves.push(Move { actor: from, kind: MoveKind::MoveAndCapture { to, target } });
            }
        }
    }
}

/// Adds to `moves` the dashes of a Tank on `from`.
fn push_dashes(board: &Board, from: Coordinate, moves: &mut Vec<Move>)
    ensures
        final(moves)@ == old(moves)@ + dashes(board@, from@),
{
    push_dash(board, from, (0, -1), moves);
    push_dash(board, from, (0, 1), moves);
    push_dash(board, from, (-1, 0), moves);
    push_dash(board, from, (1, 0), moves);
    proof {
        lemma_four_parts(
            old(moves)@,
            dash(board@, from@, 0, -1),
            dash(board@, from@, 0, 1),
            dash(board@, from@, -1, 0),
            dash(board@, from@, 1, 0),
        );
    }
}

/// Adds to `moves` the moves of a Monarch of `owner` on `from`.
fn push_monarch_moves(board: &Board, owner: Player, from: Coordinate, moves: &mut Vec<Move>)
    ensures
        final(moves)@ == old(moves)@ + monarch_moves(board@, owner, from@),
{
    push_landing(board, owner, from, (0, -1), moves);
    push_landing(board, owner, from, (0, 1), moves);
    push_landing(board, owner, from, (-1, -1), moves);
    push_landing(board, owner, from, (-1, 1), moves);
    push_landing(board, owner, from, (1, -1), moves);
    push_landing(board, owner, from, (1, 1), moves);
    proof {
        lemma_six_parts(
            old(moves)@,
            landing(board@, owner, from@, 0, -1),
            landing(board@, owner, from@, 0, 1),
            landing(board@, owner, from@, -1, -1),
            landing(board@, owner, from@, -1, 1),
            landing(board@, owner, from@, 1, -1),
            landing(board@, owner, from@, 1, 1),
        );
    }
}

/// Adds to `moves` the moves of a Core of `owner` on `from` in direction `delta`.
fn push_core_ray(
    board: &Board,
    owner: Player,
    from: Coordinate,
    delta: (i8, i8),
    moves: &mut Vec<Move>,
)
    requires
        -1 <= delta.0 <= 1,
        -1 <= delta.1 <= 1,
    ensures
        final(moves)@ == old(moves)@ + core_ray(
            board@,
            owner,
            from@,
            delta.0 as int,
            delta.1 as int,
        ),
{
    push_landing(board, owner, from, delta, moves);
    push_landing(board, owner, from, (2 * delta.0, 2 * delta.1), moves);
    proof {
        lemma_two_parts(
            old(moves)@,
            landing(board@, owner, from@, delta.0 as int, delta.1 as int),
            landing(board@, owner, from@, 2 * delta.0, 2 * delta.1),
        );
    }
}

/// Adds to `moves` the moves of a Core of `owner` on `from`.
fn push_core_moves(board: &Board, owner: Player, from: Coordinate, moves: &mut Vec<Move>)
    ensures
        final(moves)@ == old(moves)@ + core_moves(board@, owner, from@),
{
    let near = match board.get_coord(Piece { owner, kind: PieceKind::Monarch }) {
        Some(monarch) => State::are_adjacent_pos(from, monarch),
        None => false,
    };
    if near {
        push_core_ray(board, owner, from, (-1, -1), moves);
        push_core_ray(board, owner, from, (0, -1), moves);
        push_core_ray(board, owner, from, (1, -1), moves);
        push_core_ray(board, owner, from, (-1, 0), moves);
        push_core_ray(board, owner, from, (1, 0), moves);
        push_core_ray(board, owner, from, (-1, 1), moves);
        push_core_ray(board, owner, from, (0, 1), moves);
        push_core_ray(board, owner, from, (1, 1), moves);
        proof {
            lemma_eight_parts(
                old(moves)@,
                core_ray(board@, owner, from@, -1, -1),
                core_ray(board@, owner, from@, 0, -1),
                core_ray(board@, owner, from@, 1, -1),
                core_ray(board@, owner, from@, -1, 0),
                core_ray(board@, owner, from@, 1, 0),
                core_ray(board@, owner, from@, -1, 1),
                core_ray(board@, owner, from@, 0, 1),
                core_ray(board@, owner, from@, 1, 1),
            );
        }
    } else {
        assert(moves@ =~= old(moves)@ + core_moves(board@, owner, from@));
    }
}

/// Two parts added one by one make what their concatenation adds at once.
proof fn lemma_two_parts(m: Seq<Move>, a: Seq<Move>, b: Seq<Move>)
    ensures
        m + a + b == m + (a + b),
{
    assert(m + a + b =~= m + (a + b));
}

/// Four parts added one by one make what their concatenation adds at once.
proof fn lemma_four_parts(m: Seq<Move>, a: Seq<Move>, b: Seq<Move>, c: Seq<Move>, d: Seq<Move>)
    ensures
        m + a + b + c + d == m + (a + b + c + d),
{
    assert(m + a + b + c + d =~= m + (a + b + c + d));
}

/// Six parts added one by one make what their concatenation adds at once.
proof fn lemma_six_parts(
    m: Seq<Move>,
    a: Seq<Move>,
    b: Seq<Move>,
    c: Seq<Move>,
    d: Seq<Move>,
    e: Seq<Move>,
    f: Seq<Move>,
)
    ensures
        m + a + b + c + d + e + f == m + (a + b + c + d + e + f),
{
    assert(m + a + b + c + d + e + f =~= m + (a + b + c + d + e + f));
}

/// Eight parts added one by one make what their concatenation adds at once.
proof fn lemma_eight_parts(
    m: Seq<Move>,
    a: Seq<Move>,
    b: Seq<Move>,
    c: Seq<Move>,
    d: Seq<Move>,
    e: Seq<Move>,
    f: Seq<Move>,
    g: Seq<Move>,
    h: Seq<Move>,
)
    ensures
        m + a + b + c + d + e + f + g + h == m + (a + b + c + d + e + f + g + h),
{
    assert(m + a + b + c + d + e + f + g + h =~= m + (a + b + c + d + e + f + g + h));
}

/// Adds to `moves` the moves of `piece` standing on `from`.
fn push_piece_moves(board: &Board, piece: Piece, from: Coordinate, moves: &mut Vec<Move>)
    ensures
        final(moves)@ == old(moves)@ + moves_of_piece(board@, piece, from@),
{
    match piece.kind {
        PieceKind::Monarch => push_monarch_moves(board, piece.owner, from, moves),
        PieceKind::Core => push_core_moves(board, piece.owner, from, moves),
        PieceKind::BruteLeft | PieceKind::BruteRight => {
            push_orthogonal_steps(board, from, moves);
            push_forward_capture(board, piece.owner, from, moves);
            proof {
                lemma_two_parts(
                    old(moves)@,
                    orthogonal_steps(board@, from@),
                    forward_capture(board@, piece.owner, from@),
                );
            }
        },
        PieceKind::Tank => {
            push_orthogonal_steps(board, from, moves);
            push_dashes(board, from, moves);
            proof {
                lemma_two_parts(
                    old(moves)@,
                    orthogonal_steps(board@, from@),
                    dashes(board@, from@),
                );
            }
        },
    }
}

/// All moves that `player` has on `board`, in row-major order of the moving
/// piece.
pub fn moves_for(board: &Board, player: Player) -> (moves: Vec<Move>)
    ensures
        moves@ == moves_of(board@, player),
        forall|k: int| 0 <= k < moves@.len() ==> on_grid(#[trigger] moves@[k]),
{
    let mut moves: Vec<Move> = Vec::new();
    let mut i: usize = 0;
    while i < BOARD_SIZE
        invariant
            0 <= i <= 77,
            moves@ == moves_below(board@, player, i as int),
        decreases BOARD_SIZE - i,
    {
        let from = Coordinate(i);
        let ghost before = moves@;
        match board.get_piece(from) {
            Some(piece) => {
                if piece.owner == player {
                    push_piece_moves(board, *piece, from, &mut moves);
                }
            },
            None => {},
        }
        assert(moves@ =~= before + moves_from(board@, player, i as int));
        i += 1;
    }
    proof {
        board.lemma_len();
        assert forall|k: int| 0 <= k < moves@.len() implies on_grid(#[trigger] moves@[k]) by {
            lemma_listed_moves_on_grid(board@, player, moves@[k]);
        }
    }
    moves
}

impl State {
    /// The state in which a game starts: the starting placement, `A` to
    /// move, no Core moved yet.
    pub fn new() -> (s: State)
        ensures
            s@ == Position::initial(),
    {
        State { board: Board::new(), turn: Player::A, last_core_mover: None }
    }

    /// Whether row `r` and column `c` name a cell of the grid.
    pub fn on_board_pos(r: isize, c: isize) -> (b: bool)
        ensures
            b == on_board(c as int, r as int),
    {
        r >= 0 && r < ROWS as isize && c >= 0 && c < COLS as isize
    }

    /// Whether `a` and `b` are different cells that touch, by a side or a corner.
    pub fn are_adjacent_pos(a: Coordinate, b: Coordinate) -> (r: bool)
        ensures
            r == adjacent(a@, b@),
    {
        chebyshev_distance(a, b) == 1
    }

    /// Where the piece of `owner` and `kind` stands: the first cell in
    /// row-major order that holds such a piece.
    pub fn find_piece(&self, owner: Player, kind: PieceKind) -> (c: Option<Coordinate>)
        ensures
            match c {
                Some(c) => locate(self@.cells, Piece { owner, kind }) == Some(c@),
                None => locate(self@.cells, Piece { owner, kind }) is None,
            },
    {
        self.board.get_coord(Piece { owner, kind })
    }

    /// The moves of the player to move.
    pub fn legal_moves(&self) -> (moves: Vec<Move>)
        ensures
            moves@ == self@.legal_moves(),
            forall|k: int| 0 <= k < moves@.len() ==> on_grid(#[trigger] moves@[k]),
    {
        moves_for(&self.board, self.turn)
    }

    /// The state that `m` leads to. The move is not held against the rules:
    /// it is for moves that `legal_moves` gave for this state.
    pub fn apply_move(&self, m: &Move) -> (next: State)
        requires
            self@.cells[m.actor@] is Some,
        ensures
            next@ == self@.apply(*m),
    {
        let mut next = *self;
        let mover: Piece = *self.board.get_piece(m.actor).unwrap();
        match m.kind {
            MoveKind::Move { to } => {
                next.board.clear(m.actor);
                next.board.set(to, mover);
                if mover.kind == PieceKind::Core {
                    next.last_core_mover = Some(mover.owner);
                }
            },
            MoveKind::Capture { target } => {
                next.board.clear(target);
            },
            MoveKind::MoveAndCapture { to, target } => {
                next.board.clear(target);
                next.board.clear(m.actor);
                next.board.set(to, mover);
            },
        }
        next.turn = self.turn.opponent();
        next
    }

    /// The winner, if the game is over: where the two Cores touch, the
    /// player who last moved their own Core. Where they touch and no Core
    /// has moved yet, nobody has won.
    pub fn is_terminal(&self) -> (w: Option<Player>)
        ensures
            w == self@.winner(),
    {
        let a = self.find_piece(Player::A, PieceKind::Core);
        let b = self.find_piece(Player::B, PieceKind::Core);
        match (a, b) {
            (Some(a), Some(b)) => {
                proof {
                    self.board.lemma_len();
                    lemma_locate(self@.cells, Piece { owner: Player::A, kind: PieceKind::Core });
                    lemma_locate(self@.cells, Piece { owner: Player::B, kind: PieceKind::Core });
                }
                if State::are_adjacent_pos(a, b) {
                    self.last_core_mover
                } else {
                    None
                }
            },
            _ => None,
        }
    }
}

} // verus!
