//! Proofs about the rules: the listed moves are exactly the moves that the
//! rules allow, and what follows from that.

use vstd::prelude::*;
use crate::rules::{
    ahead, allowed, behind, chebyshev, core_moves, core_ray, core_reach, dash, dashes, enemy_on,
    forward_capture, gap, guarded, jump, landing, monarch_moves, monarch_reach, moves_below,
    moves_from, moves_of, on_grid, open_to, orthogonal_steps, piece_count, pieces_below, relocation,
    shifted, side_by_side, step, strike, takes, Position,
};
use crate::types::{
    cell_index, col_of, home_piece_at, initial_cells, lemma_locate, locate, on_board, row_of,
    Coordinate, Move, MoveKind, Piece, PieceKind, Player,
};

verus! {

proof fn lemma_concat_contains(a: Seq<Move>, b: Seq<Move>, m: Move)
    ensures
        (a + b).contains(m) <==> a.contains(m) || b.contains(m),
{
    if a.contains(m) {
        let k = choose|k: int| 0 <= k < a.len() && a[k] == m;
        assert((a + b)[k] == m);
    }
    if b.contains(m) {
        let k = choose|k: int| 0 <= k < b.len() && b[k] == m;
        assert((a + b)[a.len() + k] == m);
    }
    if (a + b).contains(m) {
        let k = choose|k: int| 0 <= k < (a + b).len() && (a + b)[k] == m;
        if k < a.len() {
            assert(a[k] == m);
        } else {
            assert(b[k - a.len()] == m);
        }
    }
}

proof fn lemma_one_contains(x: Move, m: Move)
    ensures
        seq![x].contains(m) <==> x == m,
        !Seq::<Move>::empty().contains(m),
{
    assert(seq![x][0] == x);
}

/// The cell that a shift leads to lies on the grid, in the row and column
/// that the shift names.
pub proof fn lemma_shifted(i: int, dx: int, dy: int)
    requires
        0 <= i < 77,
    ensures
        match shifted(i, dx, dy) {
            Some(t) => 0 <= t < 77 && row_of(t) == row_of(i) + dy && col_of(t) == col_of(i) + dx,
            None => true,
        },
{
}

proof fn lemma_landing_contains(
    cells: Seq<Option<Piece>>,
    owner: Player,
    i: int,
    dx: int,
    dy: int,
    m: Move,
)
    ensures
        landing(cells, owner, i, dx, dy).contains(m) <==> (shifted(i, dx, dy) is Some && open_to(
            cells,
            owner,
            shifted(i, dx, dy)->0,
        ) && m == relocation(i, shifted(i, dx, dy)->0)),
{
    match shifted(i, dx, dy) {
        Some(t) => {
            lemma_one_contains(relocation(i, t), m);
        },
        None => {
            lemma_one_contains(m, m);
        },
    }
}

proof fn lemma_step_contains(cells: Seq<Option<Piece>>, i: int, dx: int, dy: int, m: Move)
    ensures
        step(cells, i, dx, dy).contains(m) <==> (shifted(i, dx, dy) is Some && cells[shifted(
            i,
            dx,
            dy,
        )->0] is None && m == relocation(i, shifted(i, dx, dy)->0)),
{
    match shifted(i, dx, dy) {
        Some(t) => {
            lemma_one_contains(relocation(i, t), m);
        },
        None => {
            lemma_one_contains(m, m);
        },
    }
}

proof fn lemma_dash_contains(cells: Seq<Option<Piece>>, i: int, dx: int, dy: int, m: Move)
    ensures
        dash(cells, i, dx, dy).contains(m) <==> (shifted(i, dx, dy) is Some && shifted(
            i,
            2 * dx,
            2 * dy,
        ) is Some && cells[shifted(i, dx, dy)->0] is Some && cells[shifted(i, dx, dy)->0]->0.kind
            != PieceKind::Core && cells[shifted(i, 2 * dx, 2 * dy)->0] is None && m == jump(
            i,
            shifted(i, 2 * dx, 2 * dy)->0,
            shifted(i, dx, dy)->0,
        )),
{
    match (shifted(i, dx, dy), shifted(i, 2 * dx, 2 * dy)) {
        (Some(mid), Some(far)) => {
            lemma_one_contains(jump(i, far, mid), m);
        },
        _ => {
            lemma_one_contains(m, m);
        },
    }
}

proof fn lemma_forward_capture_contains(cells: Seq<Option<Piece>>, owner: Player, i: int, m: Move)
    ensures
        forward_capture(cells, owner, i).contains(m) <==> (shifted(i, 0, owner.forward_dy())
            is Some && enemy_on(cells, owner, shifted(i, 0, owner.forward_dy())->0) && m == strike(
            i,
            shifted(i, 0, owner.forward_dy())->0,
        )),
{
    match shifted(i, 0, owner.forward_dy()) {
        Some(t) => {
            lemma_one_contains(strike(i, t), m);
        },
        None => {
            lemma_one_contains(m, m);
        },
    }
}

proof fn lemma_orthogonal_steps_contains(cells: Seq<Option<Piece>>, i: int, m: Move)
    requires
        0 <= i < 77,
        cells.len() == 77,
    ensures
        orthogonal_steps(cells, i).contains(m) <==> (m.actor@ == i && m.kind is Move
            && m.kind->Move_to.in_grid() && side_by_side(i, m.kind->Move_to@)
            && cells[m.kind->Move_to@] is None),
{
    let a = step(cells, i, 0, -1);
    let b = step(cells, i, 0, 1);
    let c = step(cells, i, -1, 0);
    let d = step(cells, i, 1, 0);
    lemma_concat_contains(a + b + c, d, m);
    lemma_concat_contains(a + b, c, m);
    lemma_concat_contains(a, b, m);
    lemma_step_contains(cells, i, 0, -1, m);
    lemma_step_contains(cells, i, 0, 1, m);
    lemma_step_contains(cells, i, -1, 0, m);
    lemma_step_contains(cells, i, 1, 0, m);
    lemma_shift_facts(i, 0, -1);
    lemma_shift_facts(i, 0, 1);
    lemma_shift_facts(i, -1, 0);
    lemma_shift_facts(i, 1, 0);
    lemma_coordinate_facts(m.actor);
    if m.kind is Move {
        lemma_coordinate_facts(m.kind->Move_to);
    }
}

/// What a move to a shifted cell is, told by the coordinates it holds.
proof fn lemma_shift_facts(i: int, dx: int, dy: int)
    requires
        0 <= i < 77,
    ensures
        Coordinate::at(i)@ == i,
        shifted(i, dx, dy) is Some ==> {
            let t = shifted(i, dx, dy)->0;
            &&& 0 <= t < 77
            &&& row_of(t) == row_of(i) + dy
            &&& col_of(t) == col_of(i) + dx
            &&& Coordinate::at(t)@ == t
            &&& Coordinate::at(t).in_grid()
        },
{
    lemma_shifted(i, dx, dy);
    Coordinate::lemma_at(i);
    if shifted(i, dx, dy) is Some {
        Coordinate::lemma_at(shifted(i, dx, dy)->0);
    }
}

proof fn lemma_coordinate_facts(c: Coordinate)
    ensures
        Coordinate::at(c@) == c,
        c.in_grid() ==> c@ == cell_index(col_of(c@), row_of(c@)) && on_board(
            col_of(c@),
            row_of(c@),
        ),
{
}

proof fn lemma_monarch_contains(cells: Seq<Option<Piece>>, owner: Player, i: int, m: Move)
    requires
        0 <= i < 77,
        cells.len() == 77,
    ensures
        monarch_moves(cells, owner, i).contains(m) <==> (m.actor@ == i && m.kind is Move
            && m.kind->Move_to.in_grid() && monarch_reach(i, m.kind->Move_to@) && open_to(
            cells,
            owner,
            m.kind->Move_to@,
        )),
{
    let a = landing(cells, owner, i, 0, -1);
    let b = landing(cells, owner, i, 0, 1);
    let c = landing(cells, owner, i, -1, -1);
    let d = landing(cells, owner, i, -1, 1);
    let e = landing(cells, owner, i, 1, -1);
    let f = landing(cells, owner, i, 1, 1);
    lemma_concat_contains(a + b + c + d + e, f, m);
    lemma_concat_contains(a + b + c + d, e, m);
    lemma_concat_contains(a + b + c, d, m);
    lemma_concat_contains(a + b, c, m);
    lemma_concat_contains(a, b, m);
    lemma_landing_contains(cells, owner, i, 0, -1, m);
    lemma_landing_contains(cells, owner, i, 0, 1, m);
    lemma_landing_contains(cells, owner, i, -1, -1, m);
    lemma_landing_contains(cells, owner, i, -1, 1, m);
    lemma_landing_contains(cells, owner, i, 1, -1, m);
    lemma_landing_contains(cells, owner, i, 1, 1, m);
    lemma_shift_facts(i, 0, -1);
    lemma_shift_facts(i, 0, 1);
    lemma_shift_facts(i, -1, -1);
    lemma_shift_facts(i, -1, 1);
    lemma_shift_facts(i, 1, -1);
    lemma_shift_facts(i, 1, 1);
    lemma_coordinate_facts(m.actor);
    if m.kind is Move {
        lemma_coordinate_facts(m.kind->Move_to);
    }
}

/// Whether `m` is the displacing move from cell `i` by `(dx, dy)` or by
/// twice that, and the rules allow it to `owner`.
spec fn on_ray(
    cells: Seq<Option<Piece>>,
    owner: Player,
    i: int,
    dx: int,
    dy: int,
    m: Move,
) -> bool {
    &&& m.actor@ == i
    &&& m.kind is Move
    &&& m.kind->Move_to.in_grid()
    &&& open_to(cells, owner, m.kind->Move_to@)
    &&& exists|k: int|
        1 <= k <= 2 && #[trigger] (k * dx) == col_of(m.kind->Move_to@) - col_of(i) && k * dy
            == row_of(m.kind->Move_to@) - row_of(i)
}

proof fn lemma_core_ray_contains(
    cells: Seq<Option<Piece>>,
    owner: Player,
    i: int,
    dx: int,
    dy: int,
    m: Move,
)
    requires
        0 <= i < 77,
        cells.len() == 77,
    ensures
        core_ray(cells, owner, i, dx, dy).contains(m) <==> on_ray(cells, owner, i, dx, dy, m),
{
    lemma_concat_contains(
        landing(cells, owner, i, dx, dy),
        landing(cells, owner, i, 2 * dx, 2 * dy),
        m,
    );
    lemma_landing_contains(cells, owner, i, dx, dy, m);
    lemma_landing_contains(cells, owner, i, 2 * dx, 2 * dy, m);
    lemma_shift_facts(i, dx, dy);
    lemma_shift_facts(i, 2 * dx, 2 * dy);
    lemma_coordinate_facts(m.actor);
    if m.kind is Move {
        let to = m.kind->Move_to;
        lemma_coordinate_facts(to);
        if core_ray(cells, owner, i, dx, dy).contains(m) {
            if landing(cells, owner, i, dx, dy).contains(m) {
                assert(1 * dx == col_of(to@) - col_of(i) && 1 * dy == row_of(to@) - row_of(i));
            } else {
                assert(2 * dx == col_of(to@) - col_of(i) && 2 * dy == row_of(to@) - row_of(i));
            }
        }
        if on_ray(cells, owner, i, dx, dy, m) {
            let k = choose|k: int|
                1 <= k <= 2 && #[trigger] (k * dx) == col_of(to@) - col_of(i) && k * dy == row_of(
                    to@,
                ) - row_of(i);
            if k == 1 {
                assert(shifted(i, dx, dy) == Some(to@));
            } else {
                assert(shifted(i, 2 * dx, 2 * dy) == Some(to@));
            }
        }
    }
}

proof fn lemma_core_contains(cells: Seq<Option<Piece>>, owner: Player, i: int, m: Move)
    requires
        0 <= i < 77,
        cells.len() == 77,
    ensures
        core_moves(cells, owner, i).contains(m) <==> (m.actor@ == i && m.kind is Move
            && m.kind->Move_to.in_grid()
            && guarded(cells, owner, i) && core_reach(i, m.kind->Move_to@) && open_to(
            cells,
            owner,
            m.kind->Move_to@,
        )),
{
    if guarded(cells, owner, i) {
        let a = core_ray(cells, owner, i, -1, -1);
        let b = core_ray(cells, owner, i, 0, -1);
        let c = core_ray(cells, owner, i, 1, -1);
        let d = core_ray(cells, owner, i, -1, 0);
        let e = core_ray(cells, owner, i, 1, 0);
        let f = core_ray(cells, owner, i, -1, 1);
        let g = core_ray(cells, owner, i, 0, 1);
        let h = core_ray(cells, owner, i, 1, 1);
        lemma_concat_contains(a + b + c + d + e + f + g, h, m);
        lemma_concat_contains(a + b + c + d + e + f, g, m);
        lemma_concat_contains(a + b + c + d + e, f, m);
        lemma_concat_contains(a + b + c + d, e, m);
        lemma_concat_contains(a + b + c, d, m);
        lemma_concat_contains(a + b, c, m);
        lemma_concat_contains(a, b, m);
        lemma_core_ray_contains(cells, owner, i, -1, -1, m);
        lemma_core_ray_contains(cells, owner, i, 0, -1, m);
        lemma_core_ray_contains(cells, owner, i, 1, -1, m);
        lemma_core_ray_contains(cells, owner, i, -1, 0, m);
        lemma_core_ray_contains(cells, owner, i, 1, 0, m);
        lemma_core_ray_contains(cells, owner, i, -1, 1, m);
        lemma_core_ray_contains(cells, owner, i, 0, 1, m);
        lemma_core_ray_contains(cells, owner, i, 1, 1, m);
        if m.actor@ == i && m.kind is Move && m.kind->Move_to.in_grid() && open_to(
            cells,
            owner,
            m.kind->Move_to@,
        ) {
            let to = m.kind->Move_to@;
            let h = col_of(to) - col_of(i);
            let v = row_of(to) - row_of(i);
            if core_reach(i, to) {
                let k = chebyshev(i, to);
                let dx: int = if h > 0 {
                    1
                } else if h < 0 {
                    -1
                } else {
                    0
                };
                let dy: int = if v > 0 {
                    1
                } else if v < 0 {
                    -1
                } else {
                    0
                };
                if k == 1 {
                    assert(1 * dx == h && 1 * dy == v);
                } else {
                    assert(2 * dx == h && 2 * dy == v);
                }
                assert(on_ray(cells, owner, i, dx, dy, m));
            }
        }
    } else {
        lemma_one_contains(m, m);
    }
}

proof fn lemma_forward_capture_allowed(cells: Seq<Option<Piece>>, owner: Player, i: int, m: Move)
    requires
        0 <= i < 77,
        cells.len() == 77,
    ensures
        forward_capture(cells, owner, i).contains(m) <==> (m.actor@ == i && m.kind is Capture
            && m.kind->Capture_target.in_grid() && ahead(owner, i, m.kind->Capture_target@)
            && enemy_on(cells, owner, m.kind->Capture_target@)),
{
    lemma_forward_capture_contains(cells, owner, i, m);
    lemma_shift_facts(i, 0, owner.forward_dy());
    lemma_coordinate_facts(m.actor);
    if m.kind is Capture {
        lemma_coordinate_facts(m.kind->Capture_target);
    }
}

proof fn lemma_dashes_contains(cells: Seq<Option<Piece>>, i: int, m: Move)
    requires
        0 <= i < 77,
        cells.len() == 77,
    ensures
        dashes(cells, i).contains(m) <==> (m.actor@ == i && m.kind is MoveAndCapture
            && m.kind->MoveAndCapture_to.in_grid() && m.kind->MoveAndCapture_target.in_grid()
            && side_by_side(i, m.kind->MoveAndCapture_target@) && behind(
            i,
            m.kind->MoveAndCapture_target@,
            m.kind->MoveAndCapture_to@,
        ) && cells[m.kind->MoveAndCapture_target@] is Some
            && cells[m.kind->MoveAndCapture_target@]->0.kind != PieceKind::Core
            && cells[m.kind->MoveAndCapture_to@] is None),
{
    let a = dash(cells, i, 0, -1);
    let b = dash(cells, i, 0, 1);
    let c = dash(cells, i, -1, 0);
    let d = dash(cells, i, 1, 0);
    lemma_concat_contains(a + b + c, d, m);
    lemma_concat_contains(a + b, c, m);
    lemma_concat_contains(a, b, m);
    lemma_dash_contains(cells, i, 0, -1, m);
    lemma_dash_contains(cells, i, 0, 1, m);
    lemma_dash_contains(cells, i, -1, 0, m);
    lemma_dash_contains(cells, i, 1, 0, m);
    lemma_shift_facts(i, 0, -1);
    lemma_shift_facts(i, 0, 1);
    lemma_shift_facts(i, -1, 0);
    lemma_shift_facts(i, 1, 0);
    lemma_shift_facts(i, 0, -2);
    lemma_shift_facts(i, 0, 2);
    lemma_shift_facts(i, -2, 0);
    lemma_shift_facts(i, 2, 0);
    lemma_coordinate_facts(m.actor);
    if m.kind is MoveAndCapture {
        lemma_coordinate_facts(m.kind->MoveAndCapture_to);
        lemma_coordinate_facts(m.kind->MoveAndCapture_target);
    }
}

proof fn lemma_piece_contains(cells: Seq<Option<Piece>>, player: Player, i: int, m: Move)
    requires
        0 <= i < 77,
        cells.len() == 77,
    ensures
        moves_from(cells, player, i).contains(m) <==> (m.actor@ == i && allowed(cells, player, m)),
{
    match cells[i] {
        Some(piece) => {
            if piece.owner == player {
                match piece.kind {
                    PieceKind::Monarch => {
                        lemma_monarch_contains(cells, player, i, m);
                    },
                    PieceKind::Core => {
                        lemma_core_contains(cells, player, i, m);
                    },
                    PieceKind::BruteLeft | PieceKind::BruteRight => {
                        lemma_concat_contains(
                            orthogonal_steps(cells, i),
                            forward_capture(cells, player, i),
                            m,
                        );
                        lemma_orthogonal_steps_contains(cells, i, m);
                        lemma_forward_capture_allowed(cells, player, i, m);
                    },
                    PieceKind::Tank => {
                        lemma_concat_contains(orthogonal_steps(cells, i), dashes(cells, i), m);
                        lemma_orthogonal_steps_contains(cells, i, m);
                        lemma_dashes_contains(cells, i, m);
                    },
                }
            } else {
                lemma_one_contains(m, m);
            }
        },
        None => {
            lemma_one_contains(m, m);
        },
    }
}

proof fn lemma_below_contains(cells: Seq<Option<Piece>>, player: Player, n: int, m: Move)
    requires
        0 <= n <= 77,
        cells.len() == 77,
    ensures
        moves_below(cells, player, n).contains(m) <==> (m.actor@ < n && allowed(cells, player, m)),
    decreases n,
{
    if n > 0 {
        lemma_below_contains(cells, player, n - 1, m);
        lemma_piece_contains(cells, player, n - 1, m);
        lemma_concat_contains(
            moves_below(cells, player, n - 1),
            moves_from(cells, player, n - 1),
            m,
        );
    } else {
        lemma_one_contains(m, m);
    }
}

/// The moves listed for a player are exactly the moves that the rules allow
/// that player.
pub proof fn lemma_listed_iff_allowed(cells: Seq<Option<Piece>>, player: Player, m: Move)
    requires
        cells.len() == 77,
    ensures
        moves_of(cells, player).contains(m) <==> allowed(cells, player, m),
{
    lemma_below_contains(cells, player, 77, m);
}

/// No listed move names a cell off the grid, as actor, as destination or as
/// the cell of a capture.
pub proof fn lemma_listed_moves_on_grid(cells: Seq<Option<Piece>>, player: Player, m: Move)
    requires
        cells.len() == 77,
        moves_of(cells, player).contains(m),
    ensures
        on_grid(m),
{
    lemma_listed_iff_allowed(cells, player, m);
}

/// The actor of a listed move is a piece of the player whose moves are listed.
pub proof fn lemma_listed_actor(cells: Seq<Option<Piece>>, player: Player, m: Move)
    requires
        cells.len() == 77,
        moves_of(cells, player).contains(m),
    ensures
        0 <= m.actor@ < 77,
        cells[m.actor@] is Some,
        cells[m.actor@]->0.owner == player,
{
    lemma_listed_iff_allowed(cells, player, m);
}

/// A Monarch never moves along its row: each of its listed moves ends one
/// row from where it starts, so never on the cell directly left or right of it.
pub proof fn lemma_monarch_leaves_its_row(cells: Seq<Option<Piece>>, player: Player, m: Move)
    requires
        cells.len() == 77,
        moves_of(cells, player).contains(m),
        cells[m.actor@] is Some,
        cells[m.actor@]->0.kind == PieceKind::Monarch,
    ensures
        m.kind is Move,
        gap(row_of(m.kind->Move_to@), row_of(m.actor@)) == 1,
        m.kind->Move_to@ != m.actor@ - 1,
        m.kind->Move_to@ != m.actor@ + 1,
{
    lemma_listed_iff_allowed(cells, player, m);
}

/// A Core whose Monarch is gone from the board, or does not stand next to
/// it, has no move.
pub proof fn lemma_unguarded_core_is_stuck(cells: Seq<Option<Piece>>, player: Player, m: Move)
    requires
        cells.len() == 77,
        0 <= m.actor@ < 77,
        cells[m.actor@] == Some(Piece { owner: player, kind: PieceKind::Core }),
        !guarded(cells, player, m.actor@),
    ensures
        !moves_of(cells, player).contains(m),
        moves_from(cells, player, m.actor@) == Seq::<Move>::empty(),
{
    lemma_listed_iff_allowed(cells, player, m);
}

proof fn lemma_pieces_below_update(cells: Seq<Option<Piece>>, j: int, v: Option<Piece>, n: int)
    requires
        0 <= j < cells.len(),
        0 <= n <= cells.len(),
    ensures
        pieces_below(cells.update(j, v), n) == pieces_below(cells, n) + if j < n {
            (if v is Some {
                1int
            } else {
                0int
            }) - (if cells[j] is Some {
                1int
            } else {
                0int
            })
        } else {
            0int
        },
    decreases n,
{
    if n > 0 {
        lemma_pieces_below_update(cells, j, v, n - 1);
    }
}

/// Putting `v` on cell `j` changes the number of pieces by what `v` adds and
/// what stood there takes away.
pub proof fn lemma_piece_count_update(cells: Seq<Option<Piece>>, j: int, v: Option<Piece>)
    requires
        0 <= j < cells.len(),
    ensures
        piece_count(cells.update(j, v)) == piece_count(cells) + (if v is Some {
            1int
        } else {
            0int
        }) - (if cells[j] is Some {
            1int
        } else {
            0int
        }),
{
    lemma_pieces_below_update(cells, j, v, cells.len() as int);
}

/// A move whose actor stands on the board never adds a piece: after it the
/// board holds as many pieces as before, or fewer.
pub proof fn lemma_apply_never_adds_a_piece(p: Position, m: Move)
    requires
        p.cells.len() == 77,
        on_grid(m),
        p.cells[m.actor@] is Some,
    ensures
        p.apply(m).cells.len() == 77,
        piece_count(p.apply(m).cells) <= piece_count(p.cells),
{
    let mover = p.cells[m.actor@];
    match m.kind {
        MoveKind::Move { to } => {
            lemma_piece_count_update(p.cells, m.actor@, None);
            lemma_piece_count_update(p.cells.update(m.actor@, None), to@, mover);
        },
        MoveKind::Capture { target } => {
            lemma_piece_count_update(p.cells, target@, None);
        },
        MoveKind::MoveAndCapture { to, target } => {
            lemma_piece_count_update(p.cells, target@, None);
            lemma_piece_count_update(p.cells.update(target@, None), m.actor@, None);
            lemma_piece_count_update(
                p.cells.update(target@, None).update(m.actor@, None),
                to@,
                mover,
            );
        },
    }
}

/// A legal move keeps the board a board of 77 cells, each with one piece or
/// none, and never adds a piece: it takes one piece off the board, or none.
pub proof fn lemma_legal_move_never_adds_a_piece(p: Position, m: Move)
    requires
        p.cells.len() == 77,
        p.legal_moves().contains(m),
    ensures
        p.apply(m).cells.len() == 77,
        piece_count(p.apply(m).cells) <= piece_count(p.cells),
        piece_count(p.apply(m).cells) == piece_count(p.cells) - if takes(p.cells, m) {
            1int
        } else {
            0int
        },
{
    lemma_listed_iff_allowed(p.cells, p.turn, m);
    lemma_apply_never_adds_a_piece(p, m);
    let mover = p.cells[m.actor@];
    match m.kind {
        MoveKind::Move { to } => {
            lemma_piece_count_update(p.cells, m.actor@, None);
            lemma_piece_count_update(p.cells.update(m.actor@, None), to@, mover);
        },
        MoveKind::Capture { target } => {
            lemma_piece_count_update(p.cells, target@, None);
        },
        MoveKind::MoveAndCapture { to, target } => {
            lemma_piece_count_update(p.cells, target@, None);
            lemma_piece_count_update(p.cells.update(target@, None), m.actor@, None);
            lemma_piece_count_update(
                p.cells.update(target@, None).update(m.actor@, None),
                to@,
                mover,
            );
        },
    }
}

/// How many cells with an index below `n` hold a piece when a game starts.
spec fn homes_below(n: int) -> int {
    let first = (if n > 0 {
        1int
    } else {
        0int
    }) + (if n > 4 {
        1int
    } else {
        0int
    }) + (if n > 5 {
        1int
    } else {
        0int
    }) + (if n > 6 {
        1int
    } else {
        0int
    }) + (if n > 10 {
        1int
    } else {
        0int
    });
    let last = (if n > 66 {
        1int
    } else {
        0int
    }) + (if n > 70 {
        1int
    } else {
        0int
    }) + (if n > 71 {
        1int
    } else {
        0int
    }) + (if n > 72 {
        1int
    } else {
        0int
    }) + (if n > 76 {
        1int
    } else {
        0int
    });
    first + last
}

proof fn lemma_homes_below(n: int)
    requires
        0 <= n <= 77,
    ensures
        pieces_below(initial_cells(), n) == homes_below(n),
    decreases n,
{
    if n > 0 {
        lemma_homes_below(n - 1);
        assert(initial_cells()[n - 1] == home_piece_at(n - 1));
    }
}

/// The starting position holds ten pieces, five of each player; each Core
/// stands in the middle of its player's home row with its Monarch beside it;
/// the Cores are six rows apart, so nobody has won.
pub proof fn lemma_initial_position()
    ensures
        initial_cells().len() == 77,
        piece_count(initial_cells()) == 10,
        locate(initial_cells(), Piece { owner: Player::A, kind: PieceKind::Core }) == Some(5int),
        locate(initial_cells(), Piece { owner: Player::A, kind: PieceKind::Monarch }) == Some(
            4int,
        ),
        locate(initial_cells(), Piece { owner: Player::B, kind: PieceKind::Core }) == Some(71int),
        locate(initial_cells(), Piece { owner: Player::B, kind: PieceKind::Monarch }) == Some(
            70int,
        ),
        chebyshev(5, 71) == 6,
        Position::initial().winner() is None,
{
    let cells = initial_cells();
    lemma_homes_below(77);
    lemma_home(Player::A, PieceKind::Core, 5);
    lemma_home(Player::A, PieceKind::Monarch, 4);
    lemma_home(Player::B, PieceKind::Core, 71);
    lemma_home(Player::B, PieceKind::Monarch, 70);
}

/// Where a piece starts, it is found.
proof fn lemma_home(owner: Player, kind: PieceKind, i: int)
    requires
        0 <= i < 77,
        home_piece_at(i) == Some(Piece { owner, kind }),
    ensures
        locate(initial_cells(), Piece { owner, kind }) == Some(i),
{
    let cells = initial_cells();
    let piece = Piece { owner, kind };
    lemma_locate(cells, piece);
    assert(cells[i] == home_piece_at(i));
    match locate(cells, piece) {
        Some(j) => {
            assert(cells[j] == home_piece_at(j));
        },
        None => {},
    }
}

} // verus!
