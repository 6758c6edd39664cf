//! The rules of the game, stated over the mathematical model of a position:
//! which moves it allows, what a move makes of it, and when the game is won.

use vstd::prelude::*;
use crate::types::{
    cell_index, col_of, on_board, row_of, Coordinate, Move, MoveKind, Piece, PieceKind, Player,
};

verus! {

/// The distance between `a` and `b` on one axis.
pub open spec fn gap(a: int, b: int) -> int {
    if a >= b {
        a - b
    } else {
        b - a
    }
}

/// Chebyshev distance of the cells with indices `a` and `b`: the larger of
/// their distances in rows and in columns.
pub open spec fn chebyshev(a: int, b: int) -> int {
    let dy = gap(row_of(a), row_of(b));
    let dx = gap(col_of(a), col_of(b));
    if dy >= dx {
        dy
    } else {
        dx
    }
}

/// Two cells are adjacent when a king's step leads from one to the other.
pub open spec fn adjacent(a: int, b: int) -> bool {
    chebyshev(a, b) == 1
}

/// The cell `dx` columns and `dy` rows from the cell with index `i`, where
/// the grid has one.
pub open spec fn shifted(i: int, dx: int, dy: int) -> Option<int> {
    if on_board(col_of(i) + dx, row_of(i) + dy) {
        Some(cell_index(col_of(i) + dx, row_of(i) + dy))
    } else {
        None
    }
}

/// The move that takes the piece on cell `i` to cell `t`.
pub open spec fn relocation(i: int, t: int) -> Move {
    Move { actor: Coordinate::at(i), kind: MoveKind::Move { to: Coordinate::at(t) } }
}

/// The move by which the piece on cell `i` captures on cell `t` and stays.
pub open spec fn strike(i: int, t: int) -> Move {
    Move { actor: Coordinate::at(i), kind: MoveKind::Capture { target: Coordinate::at(t) } }
}

/// The move by which the piece on cell `i` jumps to `far` and captures on `mid`.
pub open spec fn jump(i: int, far: int, mid: int) -> Move {
    Move {
        actor: Coordinate::at(i),
        kind: MoveKind::MoveAndCapture { to: Coordinate::at(far), target: Coordinate::at(mid) },
    }
}

/// Whether a piece of `owner` may land on cell `t`: the cell is empty or
/// holds a piece of the other player, which the landing displaces.
pub open spec fn open_to(cells: Seq<Option<Piece>>, owner: Player, t: int) -> bool {
    cells[t] is None || cells[t]->0.owner != owner
}

/// Whether cell `t` holds a piece of the player who is not `owner`.
pub open spec fn enemy_on(cells: Seq<Option<Piece>>, owner: Player, t: int) -> bool {
    cells[t] is Some && cells[t]->0.owner != owner
}

/// A displacing move of `owner`'s piece from cell `i` by `(dx, dy)`: legal
/// where the target is on the grid and open to `owner`.
pub open spec fn landing(
    cells: Seq<Option<Piece>>,
    owner: Player,
    i: int,
    dx: int,
    dy: int,
) -> Seq<Move> {
    match shifted(i, dx, dy) {
        Some(t) => if open_to(cells, owner, t) {
            seq![relocation(i, t)]
        } else {
            Seq::empty()
        },
        None => Seq::empty(),
    }
}

/// A plain step from cell `i` by `(dx, dy)`: legal where the target is on the
/// grid and empty.
pub open spec fn step(cells: Seq<Option<Piece>>, i: int, dx: int, dy: int) -> Seq<Move> {
    match shifted(i, dx, dy) {
        Some(t) => if cells[t] is None {
            seq![relocation(i, t)]
        } else {
            Seq::empty()
        },
        None => Seq::empty(),
    }
}

/// The plain steps from cell `i` in the four orthogonal directions: towards
/// the first row, the last row, the first column, the last column.
pub open spec fn orthogonal_steps(cells: Seq<Option<Piece>>, i: int) -> Seq<Move> {
    step(cells, i, 0, -1) + step(cells, i, 0, 1) + step(cells, i, -1, 0) + step(cells, i, 1, 0)
}

/// A Brute's capture: it removes a piece of the other player that stands one
/// cell ahead of it, and stays where it is.
pub open spec fn forward_capture(cells: Seq<Option<Piece>>, owner: Player, i: int) -> Seq<Move> {
    match shifted(i, 0, owner.forward_dy()) {
        Some(t) => if enemy_on(cells, owner, t) {
            seq![strike(i, t)]
        } else {
            Seq::empty()
        },
        None => Seq::empty(),
    }
}

/// A Tank's dash from cell `i` in direction `(dx, dy)`: over a neighbour that
/// is no Core, whoever owns it, to the empty cell behind it.
pub open spec fn dash(cells: Seq<Option<Piece>>, i: int, dx: int, dy: int) -> Seq<Move> {
    match (shifted(i, dx, dy), shifted(i, 2 * dx, 2 * dy)) {
        (Some(mid), Some(far)) => if cells[mid] is Some && cells[mid]->0.kind != PieceKind::Core
            && cells[far] is None {
            seq![jump(i, far, mid)]
        } else {
            Seq::empty()
        },
        _ => Seq::empty(),
    }
}

/// The dashes from cell `i`, in the order of `orthogonal_steps`.
pub open spec fn dashes(cells: Seq<Option<Piece>>, i: int) -> Seq<Move> {
    dash(cells, i, 0, -1) + dash(cells, i, 0, 1) + dash(cells, i, -1, 0) + dash(cells, i, 1, 0)
}

/// A Monarch's moves: one cell along its column or along a diagonal, never
/// along its row.
pub open spec fn monarch_moves(cells: Seq<Option<Piece>>, owner: Player, i: int) -> Seq<Move> {
    landing(cells, owner, i, 0, -1) + landing(cells, owner, i, 0, 1) + landing(
        cells,
        owner,
        i,
        -1,
        -1,
    ) + landing(cells, owner, i, -1, 1) + landing(cells, owner, i, 1, -1) + landing(
        cells,
        owner,
        i,
        1,
        1,
    )
}

/// A Core's moves in one direction: one cell, then two; the cell between may
/// hold anything.
pub open spec fn core_ray(
    cells: Seq<Option<Piece>>,
    owner: Player,
    i: int,
    dx: int,
    dy: int,
) -> Seq<Move> {
    landing(cells, owner, i, dx, dy) + landing(cells, owner, i, 2 * dx, 2 * dy)
}

/// Whether `owner`'s Monarch stands next to cell `i`.
pub open spec fn guarded(cells: Seq<Option<Piece>>, owner: Player, i: int) -> bool {
    match crate::types::locate(cells, Piece { owner, kind: PieceKind::Monarch }) {
        Some(m) => adjacent(i, m),
        None => false,
    }
}

/// A Core's moves: none unless its Monarch stands next to it, else one or two
/// cells in each of the eight directions, row by row.
pub open spec fn core_moves(cells: Seq<Option<Piece>>, owner: Player, i: int) -> Seq<Move> {
    if guarded(cells, owner, i) {
        core_ray(cells, owner, i, -1, -1) + core_ray(cells, owner, i, 0, -1) + core_ray(
            cells,
            owner,
            i,
            1,
            -1,
        ) + core_ray(cells, owner, i, -1, 0) + core_ray(cells, owner, i, 1, 0) + core_ray(
            cells,
            owner,
            i,
            -1,
            1,
        ) + core_ray(cells, owner, i, 0, 1) + core_ray(cells, owner, i, 1, 1)
    } else {
        Seq::empty()
    }
}

/// The moves of `piece` standing on cell `i`.
pub open spec fn moves_of_piece(cells: Seq<Option<Piece>>, piece: Piece, i: int) -> Seq<Move> {
    match piece.kind {
        PieceKind::Monarch => monarch_moves(cells, piece.owner, i),
        PieceKind::Core => core_moves(cells, piece.owner, i),
        PieceKind::BruteLeft | PieceKind::BruteRight => orthogonal_steps(cells, i)
            + forward_capture(cells, piece.owner, i),
        PieceKind::Tank => orthogonal_steps(cells, i) + dashes(cells, i),
    }
}

/// The moves that `player` has with what stands on cell `i`.
pub open spec fn moves_from(cells: Seq<Option<Piece>>, player: Player, i: int) -> Seq<Move> {
    match cells[i] {
        Some(piece) => if piece.owner == player {
            moves_of_piece(cells, piece, i)
        } else {
            Seq::empty()
        },
        None => Seq::empty(),
    }
}

/// The moves that `player` has from the cells with an index below `n`, cell by cell.
pub open spec fn moves_below(cells: Seq<Option<Piece>>, player: Player, n: int) -> Seq<Move>
    decreases n,
{
    if n <= 0 {
        Seq::empty()
    } else {
        moves_below(cells, player, n - 1) + moves_from(cells, player, n - 1)
    }
}

/// All moves that `player` has on the board, in row-major order of the
/// moving piece.
pub open spec fn moves_of(cells: Seq<Option<Piece>>, player: Player) -> Seq<Move> {
    moves_below(cells, player, 77)
}

/// Whether a Monarch on cell `i` reaches cell `t`: one row away, at most one
/// column away. It never moves along its own row.
pub open spec fn monarch_reach(i: int, t: int) -> bool {
    gap(row_of(t), row_of(i)) == 1 && gap(col_of(t), col_of(i)) <= 1
}

/// Whether a Core on cell `i` reaches cell `t`: one or two cells away along
/// a row, a column or a diagonal.
pub open spec fn core_reach(i: int, t: int) -> bool {
    let v = gap(row_of(t), row_of(i));
    let h = gap(col_of(t), col_of(i));
    1 <= chebyshev(i, t) <= 2 && (v == 0 || h == 0 || v == h)
}

/// Whether cells `i` and `t` share a side.
pub open spec fn side_by_side(i: int, t: int) -> bool {
    gap(row_of(t), row_of(i)) + gap(col_of(t), col_of(i)) == 1
}

/// Whether cell `t` is the cell one row ahead of cell `i`, as `owner` plays.
pub open spec fn ahead(owner: Player, i: int, t: int) -> bool {
    col_of(t) == col_of(i) && row_of(t) == row_of(i) + owner.forward_dy()
}

/// Whether cell `far` lies behind cell `mid` as seen from cell `i`: as far
/// from `mid` as `mid` is from `i`, in the same direction.
pub open spec fn behind(i: int, mid: int, far: int) -> bool {
    col_of(far) - col_of(mid) == col_of(mid) - col_of(i) && row_of(far) - row_of(mid) == row_of(
        mid,
    ) - row_of(i)
}

/// Whether the rules allow `player` the move `m` on the board `cells`: the
/// actor is a piece of `player`, and the move is one that its kind has.
pub open spec fn allowed(cells: Seq<Option<Piece>>, player: Player, m: Move) -> bool {
    let i = m.actor@;
    &&& 0 <= i < 77
    &&& cells[i] is Some
    &&& cells[i]->0.owner == player
    &&& match (cells[i]->0.kind, m.kind) {
        (PieceKind::Monarch, MoveKind::Move { to }) => to.in_grid() && monarch_reach(i, to@)
            && open_to(cells, player, to@),
        (PieceKind::Core, MoveKind::Move { to }) => to.in_grid() && guarded(cells, player, i)
            && core_reach(i, to@) && open_to(cells, player, to@),
        (PieceKind::BruteLeft, MoveKind::Move { to }) => to.in_grid() && side_by_side(i, to@)
            && cells[to@] is None,
        (PieceKind::BruteRight, MoveKind::Move { to }) => to.in_grid() && side_by_side(i, to@)
            && cells[to@] is None,
        (PieceKind::Tank, MoveKind::Move { to }) => to.in_grid() && side_by_side(i, to@)
            && cells[to@] is None,
        (PieceKind::BruteLeft, MoveKind::Capture { target }) => target.in_grid() && ahead(
            player,
            i,
            target@,
        ) && enemy_on(cells, player, target@),
        (PieceKind::BruteRight, MoveKind::Capture { target }) => target.in_grid() && ahead(
            player,
            i,
            target@,
        ) && enemy_on(cells, player, target@),
        (PieceKind::Tank, MoveKind::MoveAndCapture { to, target }) => to.in_grid()
            && target.in_grid() && side_by_side(i, target@) && behind(i, target@, to@)
            && cells[target@] is Some && cells[target@]->0.kind != PieceKind::Core
            && cells[to@] is None,
        _ => false,
    }
}

/// How many of the cells with an index below `n` hold a piece.
pub open spec fn pieces_below(cells: Seq<Option<Piece>>, n: int) -> int
    decreases n,
{
    if n <= 0 {
        0
    } else {
        pieces_below(cells, n - 1) + if cells[n - 1] is Some {
            1int
        } else {
            0int
        }
    }
}

/// How many pieces stand on the board.
pub open spec fn piece_count(cells: Seq<Option<Piece>>) -> int {
    pieces_below(cells, cells.len() as int)
}

/// Whether the move `m` takes a piece off the board `cells`: a plain move
/// does where it lands on a piece, the other moves always do.
pub open spec fn takes(cells: Seq<Option<Piece>>, m: Move) -> bool {
    match m.kind {
        MoveKind::Move { to } => cells[to@] is Some,
        MoveKind::Capture { target } => true,
        MoveKind::MoveAndCapture { to, target } => true,
    }
}

/// Whether every coordinate that `m` holds is a cell of the grid.
pub open spec fn on_grid(m: Move) -> bool {
    &&& m.actor.in_grid()
    &&& match m.kind {
        MoveKind::Move { to } => to.in_grid(),
        MoveKind::Capture { target } => target.in_grid(),
        MoveKind::MoveAndCapture { to, target } => to.in_grid() && target.in_grid(),
    }
}

/// Whether both Cores stand on the board, next to each other.
pub open spec fn cores_touch(cells: Seq<Option<Piece>>) -> bool {
    match (
        crate::types::locate(cells, Piece { owner: Player::A, kind: PieceKind::Core }),
        crate::types::locate(cells, Piece { owner: Player::B, kind: PieceKind::Core }),
    ) {
        (Some(a), Some(b)) => chebyshev(a, b) <= 1,
        _ => false,
    }
}

/// A position of the game: the board, the player to move, and the player who
/// last moved their own Core.
pub struct Position {
    pub cells: Seq<Option<Piece>>,
    pub turn: Player,
    pub last_core_mover: Option<Player>,
}

impl Position {
    /// The position in which a game starts.
    pub open spec fn initial() -> Position {
        Position { cells: crate::types::initial_cells(), turn: Player::A, last_core_mover: None }
    }

    /// The moves of the player to move.
    pub open spec fn legal_moves(self) -> Seq<Move> {
        moves_of(self.cells, self.turn)
    }

    /// The cells after `m`, which is not asked to be legal: the actor's cell
    /// is read as it is, and whatever stands on a destination is replaced.
    pub open spec fn cells_after(self, m: Move) -> Seq<Option<Piece>> {
        let mover = self.cells[m.actor@];
        match m.kind {
            MoveKind::Move { to } => self.cells.update(m.actor@, None).update(to@, mover),
            MoveKind::Capture { target } => self.cells.update(target@, None),
            MoveKind::MoveAndCapture { to, target } => self.cells.update(target@, None).update(
                m.actor@,
                None,
            ).update(to@, mover),
        }
    }

    /// Who last moved their own Core, after `m`: the mover where a Core
    /// relocates by a plain move, else as before.
    pub open spec fn core_mover_after(self, m: Move) -> Option<Player> {
        match (m.kind, self.cells[m.actor@]) {
            (MoveKind::Move { to }, Some(mover)) => if mover.kind == PieceKind::Core {
                Some(mover.owner)
            } else {
                self.last_core_mover
            },
            _ => self.last_core_mover,
        }
    }

    /// The position that `m` leads to; the turn passes to the other player.
    pub open spec fn apply(self, m: Move) -> Position {
        Position {
            cells: self.cells_after(m),
            turn: self.turn.other(),
            last_core_mover: self.core_mover_after(m),
        }
    }

    /// The winner: where the two Cores touch, the player who last moved
    /// their own Core, if any did; otherwise nobody.
    pub open spec fn winner(self) -> Option<Player> {
        if cores_touch(self.cells) {
            self.last_core_mover
        } else {
            None
        }
    }
}

} // verus!
