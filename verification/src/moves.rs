//! The move generator: per-piece-type computation of the pseudo-legal
//! destination tiles from a position, given the occupancy of a board.
//!
//! Every generator is built from one shared probe-and-record primitive
//! ([`add_move`]): a probed cell that holds a piece is recorded as a
//! capture and stops a ray; an empty cell is recorded as a plain move and
//! lets the ray continue.  The occupant's colour is never consulted: any
//! occupant, friend or foe, counts as a capture target.

use vstd::prelude::*;

use crate::board::Board;
use crate::board::in_bounds;
use crate::piece::Piece;
use crate::piece::PieceColor;
use crate::piece::PieceType;

verus! {

/// Whether a move enters an empty cell or captures an occupant.
#[derive(Debug, Clone, Copy, PartialEq, Eq, Structural)]
pub enum MoveType {
    Move,
    Capture,
}

/// A computed destination: the target cell and whether reaching it is a
/// plain move or a capture.  Moves are ephemeral values, recomputed on
/// every selection and never stored across turns.
#[derive(Debug, Clone, Copy, PartialEq, Eq, Structural)]
pub struct Move {
    pub x: usize,
    pub y: usize,
    pub move_type: MoveType,
}

impl Move {
    /// A move value with the given coordinates and kind.
    pub fn new(x: usize, y: usize, move_type: MoveType) -> (m: Move)
        ensures
            m == (Move { x, y, move_type }),
    {
        Move { x, y, move_type }
    }
}

/// What probing the cell `(x, y)` records: a capture when the cell is
/// occupied, a plain move when it is empty.
pub open spec fn probe(b: Board, x: int, y: int) -> Seq<Move> {
    if b.occupied(x, y) {
        seq![Move { x: x as usize, y: y as usize, move_type: MoveType::Capture }]
    } else {
        seq![Move { x: x as usize, y: y as usize, move_type: MoveType::Move }]
    }
}

/// A probe of `(x, y)` that records nothing when the cell is off the
/// board.
pub open spec fn probe_in_bounds(b: Board, x: int, y: int) -> Seq<Move> {
    if in_bounds(x, y) {
        probe(b, x, y)
    } else {
        Seq::<Move>::empty()
    }
}

/// The moves of a ray scan from `(x, y)` in direction `(dx, dy)`: one
/// cell at a time, stopping at the board edge, or at the first occupied
/// cell, which is recorded as a capture and included.  `fuel` bounds the
/// recursion; with `fuel == 8` a ray always reaches the edge or an
/// occupant first.
pub open spec fn ray_from(b: Board, x: int, y: int, dx: int, dy: int, fuel: nat) -> Seq<Move>
    decreases fuel,
{
    if fuel == 0 {
        Seq::<Move>::empty()
    } else {
        let nx = x + dx;
        let ny = y + dy;
        if !in_bounds(nx, ny) {
            Seq::<Move>::empty()
        } else if b.occupied(nx, ny) {
            probe(b, nx, ny)
        } else {
            probe(b, nx, ny) + ray_from(b, nx, ny, dx, dy, (fuel - 1) as nat)
        }
    }
}

/// A full ray scan from `(x, y)` in direction `(dx, dy)`.
pub open spec fn ray(b: Board, x: int, y: int, dx: int, dy: int) -> Seq<Move> {
    ray_from(b, x, y, dx, dy, 8)
}

/// How many steps a ray may take along one axis from coordinate `c` with
/// per-step delta `d` before leaving the board; an axis the ray does not
/// move along never limits it.
pub open spec fn axis_room(c: int, d: int) -> int {
    if d > 0 {
        7 - c
    } else if d < 0 {
        c
    } else {
        8
    }
}

/// How many steps a ray from `(x, y)` in direction `(dx, dy)` may take
/// before leaving the board.
pub open spec fn room(x: int, y: int, dx: int, dy: int) -> int {
    if axis_room(x, dx) <= axis_room(y, dy) {
        axis_room(x, dx)
    } else {
        axis_room(y, dy)
    }
}

/// Any fuel of at least `room + 1` gives the same ray: the scan reaches
/// the board edge or an occupant before the fuel runs out.
pub proof fn lemma_ray_fuel(b: Board, x: int, y: int, dx: int, dy: int, fuel: nat)
    requires
        in_bounds(x, y),
        -1 <= dx <= 1,
        -1 <= dy <= 1,
        !(dx == 0 && dy == 0),
        fuel >= room(x, y, dx, dy) + 1,
    ensures
        ray_from(b, x, y, dx, dy, fuel) == ray(b, x, y, dx, dy),
    decreases room(x, y, dx, dy),
{
    let nx = x + dx;
    let ny = y + dy;
    if in_bounds(nx, ny) && !b.occupied(nx, ny) {
        lemma_ray_fuel(b, nx, ny, dx, dy, (fuel - 1) as nat);
        lemma_ray_fuel(b, nx, ny, dx, dy, 7);
        assert(ray_from(b, x, y, dx, dy, 8) == probe(b, nx, ny) + ray_from(b, nx, ny, dx, dy, 7));
    }
}

/// Rook moves: the four orthogonal rays, in the order increasing column,
/// decreasing column, increasing row, decreasing row.
pub open spec fn rook_spec(b: Board, x: int, y: int) -> Seq<Move> {
    ray(b, x, y, 0, 1) + ray(b, x, y, 0, -1) + ray(b, x, y, 1, 0) + ray(b, x, y, -1, 0)
}

/// Bishop moves: the four diagonal rays.
pub open spec fn bishop_spec(b: Board, x: int, y: int) -> Seq<Move> {
    ray(b, x, y, 1, 1) + ray(b, x, y, -1, 1) + ray(b, x, y, 1, -1) + ray(b, x, y, -1, -1)
}

/// Queen moves: the rook moves followed by the bishop moves.
pub open spec fn queen_spec(b: Board, x: int, y: int) -> Seq<Move> {
    rook_spec(b, x, y) + bishop_spec(b, x, y)
}

/// Knight moves: the eight L-shaped offsets, each a single probe, each
/// considered only when it stays on the board.
pub open spec fn knight_spec(b: Board, x: int, y: int) -> Seq<Move> {
    probe_in_bounds(b, x + 1, y + 2) + probe_in_bounds(b, x - 1, y + 2)
        + probe_in_bounds(b, x + 1, y - 2) + probe_in_bounds(b, x - 1, y - 2)
        + probe_in_bounds(b, x + 2, y + 1) + probe_in_bounds(b, x + 2, y - 1)
        + probe_in_bounds(b, x - 2, y + 1) + probe_in_bounds(b, x - 2, y - 1)
}

/// King moves: the eight unit offsets, each a single probe, each
/// considered only when it stays on the board.
pub open spec fn king_spec(b: Board, x: int, y: int) -> Seq<Move> {
    probe_in_bounds(b, x + 1, y) + probe_in_bounds(b, x - 1, y)
        + probe_in_bounds(b, x, y + 1) + probe_in_bounds(b, x, y - 1)
        + probe_in_bounds(b, x + 1, y + 1) + probe_in_bounds(b, x - 1, y + 1)
        + probe_in_bounds(b, x + 1, y - 1) + probe_in_bounds(b, x - 1, y - 1)
}

/// The row a pawn of the given colour moves towards: `+1` for White,
/// `-1` for Black.
pub open spec fn pawn_dir(color: PieceColor) -> int {
    match color {
        PieceColor::White => 1,
        PieceColor::Black => -1,
    }
}

/// True when a pawn of the given colour stands on its starting row:
/// row 1 for White, row 6 for Black.
pub open spec fn pawn_on_start_row(color: PieceColor, x: int) -> bool {
    match color {
        PieceColor::White => x == 1,
        PieceColor::Black => x == 6,
    }
}

/// Pawn moves.  One probe of the forward cell; when that cell is empty
/// and the pawn stands on its starting row, a probe of the cell two rows
/// forward; then the two forward-diagonal cells, each recorded as a
/// capture exactly when it is on the board and occupied.
pub open spec fn pawn_spec(b: Board, color: PieceColor, x: int, y: int) -> Seq<Move> {
    let dir = pawn_dir(color);
    let fx = x + dir;
    let forward = probe_in_bounds(b, fx, y);
    let two_step = if in_bounds(fx, y) && !b.occupied(fx, y) && pawn_on_start_row(color, x) {
        probe_in_bounds(b, x + 2 * dir, y)
    } else {
        Seq::<Move>::empty()
    };
    let diag_right = if in_bounds(fx, y + 1) && b.occupied(fx, y + 1) {
        probe(b, fx, y + 1)
    } else {
        Seq::<Move>::empty()
    };
    let diag_left = if in_bounds(fx, y - 1) && b.occupied(fx, y - 1) {
        probe(b, fx, y - 1)
    } else {
        Seq::<Move>::empty()
    };
    forward + two_step + diag_right + diag_left
}

/// The moves of a piece of kind `pt` and colour `color` standing at
/// `(x, y)` on board `b`.
pub open spec fn piece_moves_spec(
    pt: PieceType,
    color: PieceColor,
    b: Board,
    x: int,
    y: int,
) -> Seq<Move> {
    match pt {
        PieceType::Pawn => pawn_spec(b, color, x, y),
        PieceType::Rook => rook_spec(b, x, y),
        PieceType::Knight => knight_spec(b, x, y),
        PieceType::Bishop => bishop_spec(b, x, y),
        PieceType::Queen => queen_spec(b, x, y),
        PieceType::King => king_spec(b, x, y),
    }
}

/// The first entry of `moves` whose destination is `(x, y)`, if any.
pub open spec fn find_move(moves: Seq<Move>, x: int, y: int) -> Option<Move>
    decreases moves.len(),
{
    if moves.len() == 0 {
        None
    } else if moves[0].x == x && moves[0].y == y {
        Some(moves[0])
    } else {
        find_move(moves.drop_first(), x, y)
    }
}

/// A found move is an entry of the list and has the destination that was
/// searched for; when nothing is found, no entry has that destination.
pub proof fn lemma_find_move(moves: Seq<Move>, x: int, y: int)
    ensures
        match find_move(moves, x, y) {
            Some(m) => m.x == x && m.y == y && exists|i: int|
                0 <= i < moves.len() && moves[i] == m,
            None => forall|i: int|
                0 <= i < moves.len() ==> !((#[trigger] moves[i]).x == x && moves[i].y == y),
        },
    decreases moves.len(),
{
    if moves.len() == 0 {
    } else if moves[0].x == x && moves[0].y == y {
        assert(moves[0] == find_move(moves, x, y).unwrap());
    } else {
        lemma_find_move(moves.drop_first(), x, y);
        match find_move(moves.drop_first(), x, y) {
            Some(m) => {
                let i = choose|i: int|
                    0 <= i < moves.drop_first().len() && moves.drop_first()[i] == m;
                assert(moves[i + 1] == m);
            },
            None => {
                assert forall|i: int|
                    0 <= i < moves.len() implies !((#[trigger] moves[i]).x == x && moves[i].y
                    == y) by {
                    if i > 0 {
                        assert(moves.drop_first()[i - 1] == moves[i]);
                    }
                }
            },
        }
    }
}

/// Cells visited by a ray: all on the board, all strictly beyond the
/// origin along each axis the ray moves on, and pairwise distinct.
proof fn lemma_ray_cells(b: Board, x: int, y: int, dx: int, dy: int, fuel: nat)
    requires
        -1 <= dx <= 1,
        -1 <= dy <= 1,
        !(dx == 0 && dy == 0),
    ensures
        forall|i: int| 0 <= i < ray_from(b, x, y, dx, dy, fuel).len() ==> {
            let m = #[trigger] ray_from(b, x, y, dx, dy, fuel)[i];
            &&& in_bounds(m.x as int, m.y as int)
            &&& (dx == 1 ==> m.x > x)
            &&& (dx == -1 ==> m.x < x)
            &&& (dx == 0 ==> m.x == x)
            &&& (dy == 1 ==> m.y > y)
            &&& (dy == -1 ==> m.y < y)
            &&& (dy == 0 ==> m.y == y)
        },
        forall|i: int, j: int|
            #![trigger ray_from(b, x, y, dx, dy, fuel)[i], ray_from(b, x, y, dx, dy, fuel)[j]]
            0 <= i < j < ray_from(b, x, y, dx, dy, fuel).len()
                ==> !(ray_from(b, x, y, dx, dy, fuel)[i].x == ray_from(b, x, y, dx, dy, fuel)[j].x
                && ray_from(b, x, y, dx, dy, fuel)[i].y == ray_from(b, x, y, dx, dy, fuel)[j].y),
    decreases fuel,
{
    let r = ray_from(b, x, y, dx, dy, fuel);
    if fuel == 0 {
    } else {
        let nx = x + dx;
        let ny = y + dy;
        if !in_bounds(nx, ny) {
        } else if b.occupied(nx, ny) {
            assert(r.len() == 1);
        } else {
            lemma_ray_cells(b, nx, ny, dx, dy, (fuel - 1) as nat);
            let tail = ray_from(b, nx, ny, dx, dy, (fuel - 1) as nat);
            assert(r == probe(b, nx, ny) + tail);
            assert forall|i: int| 0 <= i < r.len() implies {
                let m = #[trigger] r[i];
                &&& in_bounds(m.x as int, m.y as int)
                &&& (dx == 1 ==> m.x > x)
                &&& (dx == -1 ==> m.x < x)
                &&& (dx == 0 ==> m.x == x)
                &&& (dy == 1 ==> m.y > y)
                &&& (dy == -1 ==> m.y < y)
                &&& (dy == 0 ==> m.y == y)
            } by {
                if i > 0 {
                    assert(r[i] == tail[i - 1]);
                }
            }
            assert forall|i: int, j: int| #![trigger r[i], r[j]] 0 <= i < j < r.len() implies !(
            r[i].x == r[j].x && r[i].y == r[j].y) by {
                assert(r[j] == tail[j - 1]);
                if i > 0 {
                    assert(r[i] == tail[i - 1]);
                }
            }
        }
    }
}

/// Occupancy along a ray: every element but the last sits on an empty
/// cell and is a plain move; an element on an occupied cell is a capture.
proof fn lemma_ray_occupancy(b: Board, x: int, y: int, dx: int, dy: int, fuel: nat)
    ensures
        forall|i: int| 0 <= i < ray_from(b, x, y, dx, dy, fuel).len() ==> {
            let m = #[trigger] ray_from(b, x, y, dx, dy, fuel)[i];
            m.move_type == MoveType::Capture <==> b.occupied(m.x as int, m.y as int)
        },
        forall|i: int| 0 <= i < ray_from(b, x, y, dx, dy, fuel).len() - 1 ==> {
            let m = #[trigger] ray_from(b, x, y, dx, dy, fuel)[i];
            !b.occupied(m.x as int, m.y as int)
        },
    decreases fuel,
{
    let r = ray_from(b, x, y, dx, dy, fuel);
    if fuel == 0 {
    } else {
        let nx = x + dx;
        let ny = y + dy;
        if !in_bounds(nx, ny) {
        } else if b.occupied(nx, ny) {
        } else {
            lemma_ray_occupancy(b, nx, ny, dx, dy, (fuel - 1) as nat);
            let tail = ray_from(b, nx, ny, dx, dy, (fuel - 1) as nat);
            assert forall|i: int| 0 <= i < r.len() implies {
                let m = #[trigger] r[i];
                m.move_type == MoveType::Capture <==> b.occupied(m.x as int, m.y as int)
            } by {
                if i > 0 {
                    assert(r[i] == tail[i - 1]);
                }
            }
            assert forall|i: int| 0 <= i < r.len() - 1 implies {
                let m = #[trigger] r[i];
                !b.occupied(m.x as int, m.y as int)
            } by {
                if i > 0 {
                    assert(r[i] == tail[i - 1]);
                }
            }
        }
    }
}

/// A directional ray scan returns each destination at most once: the
/// cells of one ray are pairwise distinct, and none of them is the
/// origin of the scan.
pub proof fn lemma_ray_destinations_distinct(b: Board, x: int, y: int, dx: int, dy: int)
    requires
        -1 <= dx <= 1,
        -1 <= dy <= 1,
        !(dx == 0 && dy == 0),
    ensures
        forall|i: int, j: int|
            #![trigger ray(b, x, y, dx, dy)[i], ray(b, x, y, dx, dy)[j]]
            0 <= i < j < ray(b, x, y, dx, dy).len()
                ==> !(ray(b, x, y, dx, dy)[i].x == ray(b, x, y, dx, dy)[j].x
                && ray(b, x, y, dx, dy)[i].y == ray(b, x, y, dx, dy)[j].y),
        forall|i: int| 0 <= i < ray(b, x, y, dx, dy).len() ==> !((#[trigger] ray(
            b,
            x,
            y,
            dx,
            dy,
        )[i]).x == x && ray(b, x, y, dx, dy)[i].y == y),
{
    lemma_ray_cells(b, x, y, dx, dy, 8);
}

/// A ray scan never skips past the first occupied cell in its direction:
/// every element of the ray but the last sits on an empty cell and is
/// recorded as a plain move; an element on an occupied cell is recorded
/// as a capture, and it can only be the last one.
pub proof fn lemma_ray_stops_at_first_occupied(b: Board, x: int, y: int, dx: int, dy: int)
    ensures
        forall|i: int| 0 <= i < ray(b, x, y, dx, dy).len() ==> {
            let m = #[trigger] ray(b, x, y, dx, dy)[i];
            m.move_type == MoveType::Capture <==> b.occupied(m.x as int, m.y as int)
        },
        forall|i: int| 0 <= i < ray(b, x, y, dx, dy).len() - 1 ==> {
            let m = #[trigger] ray(b, x, y, dx, dy)[i];
            !b.occupied(m.x as int, m.y as int) && m.move_type == MoveType::Move
        },
{
    lemma_ray_occupancy(b, x, y, dx, dy, 8);
}

/// Soundness of one recorded move with respect to board `b` and the
/// mover's cell `(ox, oy)`: the destination lies on the board, it is not
/// the mover's own cell, and the move is a capture exactly when the
/// destination is occupied (a plain move exactly when it is empty).
pub open spec fn move_sound(b: Board, ox: int, oy: int, m: Move) -> bool {
    &&& in_bounds(m.x as int, m.y as int)
    &&& !(m.x == ox && m.y == oy)
    &&& (m.move_type == MoveType::Capture <==> b.occupied(m.x as int, m.y as int))
}

/// A property of every element of two move lists holds of every element
/// of their concatenation.
proof fn lemma_all_concat(a: Seq<Move>, c: Seq<Move>, p: spec_fn(Move) -> bool)
    requires
        forall|i: int| 0 <= i < a.len() ==> p(#[trigger] a[i]),
        forall|i: int| 0 <= i < c.len() ==> p(#[trigger] c[i]),
    ensures
        forall|i: int| 0 <= i < (a + c).len() ==> p(#[trigger] (a + c)[i]),
{
    assert forall|i: int| 0 <= i < (a + c).len() implies p((a + c)[i]) by {
        if i < a.len() {
            assert((a + c)[i] == a[i]);
        } else {
            assert((a + c)[i] == c[i - a.len()]);
        }
    }
}

/// Every element of a single guarded probe of `(x, y)` is sound for a
/// mover standing at `(ox, oy) != (x, y)`.
proof fn lemma_probe_sound(b: Board, x: int, y: int, ox: int, oy: int)
    requires
        !(x == ox && y == oy),
    ensures
        forall|i: int| 0 <= i < probe_in_bounds(b, x, y).len()
            ==> move_sound(b, ox, oy, #[trigger] probe_in_bounds(b, x, y)[i]),
{
    if in_bounds(x, y) {
        assert(probe_in_bounds(b, x, y)[0] == probe(b, x, y)[0]);
    }
}

/// Every element of a full ray from `(x, y)` is sound for the mover at
/// `(x, y)`.
proof fn lemma_ray_sound(b: Board, x: int, y: int, dx: int, dy: int)
    requires
        -1 <= dx <= 1,
        -1 <= dy <= 1,
        !(dx == 0 && dy == 0),
    ensures
        forall|i: int| 0 <= i < ray(b, x, y, dx, dy).len()
            ==> move_sound(b, x, y, #[trigger] ray(b, x, y, dx, dy)[i]),
{
    lemma_ray_cells(b, x, y, dx, dy, 8);
    lemma_ray_occupancy(b, x, y, dx, dy, 8);
}

/// Every element of the rook move list is sound for the mover at
/// `(x, y)`.
proof fn lemma_rook_sound(b: Board, x: int, y: int)
    ensures
        forall|i: int| 0 <= i < rook_spec(b, x, y).len()
            ==> move_sound(b, x, y, #[trigger] rook_spec(b, x, y)[i]),
{
    let p = (|m: Move| move_sound(b, x, y, m));
    lemma_ray_sound(b, x, y, 0, 1);
    lemma_ray_sound(b, x, y, 0, -1);
    lemma_ray_sound(b, x, y, 1, 0);
    lemma_ray_sound(b, x, y, -1, 0);
    let r1 = ray(b, x, y, 0, 1);
    let r2 = ray(b, x, y, 0, -1);
    let r3 = ray(b, x, y, 1, 0);
    let r4 = ray(b, x, y, -1, 0);
    lemma_all_concat(r1, r2, p);
    lemma_all_concat(r1 + r2, r3, p);
    lemma_all_concat(r1 + r2 + r3, r4, p);
}

/// Every element of the bishop move list is sound for the mover at
/// `(x, y)`.
proof fn lemma_bishop_sound(b: Board, x: int, y: int)
    ensures
        forall|i: int| 0 <= i < bishop_spec(b, x, y).len()
            ==> move_sound(b, x, y, #[trigger] bishop_spec(b, x, y)[i]),
{
    let p = (|m: Move| move_sound(b, x, y, m));
    lemma_ray_sound(b, x, y, 1, 1);
    lemma_ray_sound(b, x, y, -1, 1);
    lemma_ray_sound(b, x, y, 1, -1);
    lemma_ray_sound(b, x, y, -1, -1);
    let r1 = ray(b, x, y, 1, 1);
    let r2 = ray(b, x, y, -1, 1);
    let r3 = ray(b, x, y, 1, -1);
    let r4 = ray(b, x, y, -1, -1);
    lemma_all_concat(r1, r2, p);
    lemma_all_concat(r1 + r2, r3, p);
    lemma_all_concat(r1 + r2 + r3, r4, p);
}

/// Every element of the knight move list is sound for the mover at
/// `(x, y)`.
proof fn lemma_knight_sound(b: Board, x: int, y: int)
    ensures
        forall|i: int| 0 <= i < knight_spec(b, x, y).len()
            ==> move_sound(b, x, y, #[trigger] knight_spec(b, x, y)[i]),
{
    let p = (|m: Move| move_sound(b, x, y, m));
    let s1 = probe_in_bounds(b, x + 1, y + 2);
    let s2 = probe_in_bounds(b, x - 1, y + 2);
    let s3 = probe_in_bounds(b, x + 1, y - 2);
    let s4 = probe_in_bounds(b, x - 1, y - 2);
    let s5 = probe_in_bounds(b, x + 2, y + 1);
    let s6 = probe_in_bounds(b, x + 2, y - 1);
    let s7 = probe_in_bounds(b, x - 2, y + 1);
    let s8 = probe_in_bounds(b, x - 2, y - 1);
    lemma_probe_sound(b, x + 1, y + 2, x, y);
    lemma_probe_sound(b, x - 1, y + 2, x, y);
    lemma_probe_sound(b, x + 1, y - 2, x, y);
    lemma_probe_sound(b, x - 1, y - 2, x, y);
    lemma_probe_sound(b, x + 2, y + 1, x, y);
    lemma_probe_sound(b, x + 2, y - 1, x, y);
    lemma_probe_sound(b, x - 2, y + 1, x, y);
    lemma_probe_sound(b, x - 2, y - 1, x, y);
    lemma_all_concat(s1, s2, p);
    lemma_all_concat(s1 + s2, s3, p);
    lemma_all_concat(s1 + s2 + s3, s4, p);
    lemma_all_concat(s1 + s2 + s3 + s4, s5, p);
    lemma_all_concat(s1 + s2 + s3 + s4 + s5, s6, p);
    lemma_all_concat(s1 + s2 + s3 + s4 + s5 + s6, s7, p);
    lemma_all_concat(s1 + s2 + s3 + s4 + s5 + s6 + s7, s8, p);
}

/// Every element of the king move list is sound for the mover at
/// `(x, y)`.
proof fn lemma_king_sound(b: Board, x: int, y: int)
    ensures
        forall|i: int| 0 <= i < king_spec(b, x, y).len()
            ==> move_sound(b, x, y, #[trigger] king_spec(b, x, y)[i]),
{
    let p = (|m: Move| move_sound(b, x, y, m));
    let s1 = probe_in_bounds(b, x + 1, y);
    let s2 = probe_in_bounds(b, x - 1, y);
    let s3 = probe_in_bounds(b, x, y + 1);
    let s4 = probe_in_bounds(b, x, y - 1);
    let s5 = probe_in_bounds(b, x + 1, y + 1);
    let s6 = probe_in_bounds(b, x - 1, y + 1);
    let s7 = probe_in_bounds(b, x + 1, y - 1);
    let s8 = probe_in_bounds(b, x - 1, y - 1);
    lemma_probe_sound(b, x + 1, y, x, y);
    lemma_probe_sound(b, x - 1, y, x, y);
    lemma_probe_sound(b, x, y + 1, x, y);
    lemma_probe_sound(b, x, y - 1, x, y);
    lemma_probe_sound(b, x + 1, y + 1, x, y);
    lemma_probe_sound(b, x - 1, y + 1, x, y);
    lemma_probe_sound(b, x + 1, y - 1, x, y);
    lemma_probe_sound(b, x - 1, y - 1, x, y);
    lemma_all_concat(s1, s2, p);
    lemma_all_concat(s1 + s2, s3, p);
    lemma_all_concat(s1 + s2 + s3, s4, p);
    lemma_all_concat(s1 + s2 + s3 + s4, s5, p);
    lemma_all_concat(s1 + s2 + s3 + s4 + s5, s6, p);
    lemma_all_concat(s1 + s2 + s3 + s4 + s5 + s6, s7, p);
    lemma_all_concat(s1 + s2 + s3 + s4 + s5 + s6 + s7, s8, p);
}

/// Every element of the pawn move list is sound for the mover at
/// `(x, y)`.
proof fn lemma_pawn_sound(b: Board, color: PieceColor, x: int, y: int)
    ensures
        forall|i: int| 0 <= i < pawn_spec(b, color, x, y).len()
            ==> move_sound(b, x, y, #[trigger] pawn_spec(b, color, x, y)[i]),
{
    let p = (|m: Move| move_sound(b, x, y, m));
    let dir = pawn_dir(color);
    let fx = x + dir;
    let forward = probe_in_bounds(b, fx, y);
    let two_step = if in_bounds(fx, y) && !b.occupied(fx, y) && pawn_on_start_row(color, x) {
        probe_in_bounds(b, x + 2 * dir, y)
    } else {
        Seq::<Move>::empty()
    };
    let diag_right = if in_bounds(fx, y + 1) && b.occupied(fx, y + 1) {
        probe(b, fx, y + 1)
    } else {
        Seq::<Move>::empty()
    };
    let diag_left = if in_bounds(fx, y - 1) && b.occupied(fx, y - 1) {
        probe(b, fx, y - 1)
    } else {
        Seq::<Move>::empty()
    };
    lemma_probe_sound(b, fx, y, x, y);
    lemma_probe_sound(b, x + 2 * dir, y, x, y);
    if in_bounds(fx, y + 1) && b.occupied(fx, y + 1) {
        assert(diag_right[0] == probe(b, fx, y + 1)[0]);
    }
    if in_bounds(fx, y - 1) && b.occupied(fx, y - 1) {
        assert(diag_left[0] == probe(b, fx, y - 1)[0]);
    }
    lemma_all_concat(forward, two_step, p);
    lemma_all_concat(forward + two_step, diag_right, p);
    lemma_all_concat(forward + two_step + diag_right, diag_left, p);
    assert(pawn_spec(b, color, x, y) == forward + two_step + diag_right + diag_left);
}

/// Every move a piece can make is sound: its destination lies on the
/// board, it is never the piece's own current cell, and it is a capture
/// exactly when the destination is occupied (a plain move exactly when
/// it is empty).  In particular the knight and king move sets contain
/// only cells within the board.
pub proof fn lemma_moves_sound(pt: PieceType, color: PieceColor, b: Board, x: int, y: int)
    requires
        in_bounds(x, y),
    ensures
        forall|i: int| 0 <= i < piece_moves_spec(pt, color, b, x, y).len()
            ==> move_sound(b, x, y, #[trigger] piece_moves_spec(pt, color, b, x, y)[i]),
{
    match pt {
        PieceType::Pawn => {
            lemma_pawn_sound(b, color, x, y);
        },
        PieceType::Rook => {
            lemma_rook_sound(b, x, y);
        },
        PieceType::Knight => {
            lemma_knight_sound(b, x, y);
        },
        PieceType::Bishop => {
            lemma_bishop_sound(b, x, y);
        },
        PieceType::Queen => {
            lemma_rook_sound(b, x, y);
            lemma_bishop_sound(b, x, y);
            lemma_all_concat(
                rook_spec(b, x, y),
                bishop_spec(b, x, y),
                (|m: Move| move_sound(b, x, y, m)),
            );
        },
        PieceType::King => {
            lemma_king_sound(b, x, y);
        },
    }
}

/// Probe-and-record: if the cell `(x, y)` holds a piece, record a
/// capture for that cell and return `true` ("stop the ray"); if it is
/// empty, record a plain move and return `false`.  The occupant's colour
/// is not compared with the mover's: any occupant is capturable.
pub fn add_move(board: &Board, x: usize, y: usize, moves: &mut Vec<Move>) -> (stop: bool)
    requires
        board.wf(),
        x < 8,
        y < 8,
    ensures
        final(moves)@ == old(moves)@ + probe(*board, x as int, y as int),
        stop == board.occupied(x as int, y as int),
{
    if board.get(x, y).is_some() {
        moves.push(Move { x, y, move_type: MoveType::Capture });
        true
    } else {
        moves.push(Move { x, y, move_type: MoveType::Move });
        false
    }
}

/// One executable ray scan: probe cell after cell from `(x, y)` in
/// direction `(dx, dy)`, appending to `moves`, until the board edge or
/// the first occupied cell.
fn ray_scan(board: &Board, x: usize, y: usize, dx: isize, dy: isize, moves: &mut Vec<Move>)
    requires
        board.wf(),
        x < 8,
        y < 8,
        -1 <= dx <= 1,
        -1 <= dy <= 1,
        !(dx == 0 && dy == 0),
    ensures
        final(moves)@ == old(moves)@ + ray(*board, x as int, y as int, dx as int, dy as int),
{
    let mut cx: isize = x as isize;
    let mut cy: isize = y as isize;
    proof {
        lemma_ray_fuel(
            *board,
            x as int,
            y as int,
            dx as int,
            dy as int,
            (room(x as int, y as int, dx as int, dy as int) + 1) as nat,
        );
    }
    loop
        invariant
            board.wf(),
            -1 <= dx <= 1,
            -1 <= dy <= 1,
            !(dx == 0 && dy == 0),
            0 <= cx < 8,
            0 <= cy < 8,
            old(moves)@ + ray(*board, x as int, y as int, dx as int, dy as int) == moves@
                + ray_from(
                *board,
                cx as int,
                cy as int,
                dx as int,
                dy as int,
                (room(cx as int, cy as int, dx as int, dy as int) + 1) as nat,
            ),
        decreases room(cx as int, cy as int, dx as int, dy as int),
    {
        let nx = cx + dx;
        let ny = cy + dy;
        if !(0 <= nx && nx < 8 && 0 <= ny && ny < 8) {
            proof {
                assert(moves@ + Seq::<Move>::empty() =~= moves@);
            }
            return;
        }
        let stop = add_move(board, nx as usize, ny as usize, moves);
        if stop {
            return;
        }
        proof {
            assert(room(nx as int, ny as int, dx as int, dy as int)
                == room(cx as int, cy as int, dx as int, dy as int) - 1);
            assert(moves@ + (probe(*board, nx as int, ny as int) + ray_from(
                *board,
                nx as int,
                ny as int,
                dx as int,
                dy as int,
                (room(nx as int, ny as int, dx as int, dy as int) + 1) as nat,
            )) =~= (moves@ + probe(*board, nx as int, ny as int)) + ray_from(
                *board,
                nx as int,
                ny as int,
                dx as int,
                dy as int,
                (room(nx as int, ny as int, dx as int, dy as int) + 1) as nat,
            ));
        }
        cx = nx;
        cy = ny;
    }
}

impl PieceType {
    /// Return the list of tiles to which a piece of this kind and the
    /// given colour, standing at `(x, y)`, can move on `board`.
    pub fn possible_moves(
        &self,
        color: PieceColor,
        x: usize,
        y: usize,
        board: &Board,
    ) -> (moves: Vec<Move>)
        requires
            board.wf(),
            x < 8,
            y < 8,
        ensures
            moves@ == piece_moves_spec(*self, color, *board, x as int, y as int),
    {
        match self {
            PieceType::Pawn => Self::pawn_moves(color, x, y, board),
            PieceType::Rook => Self::rook_moves(x, y, board),
            PieceType::Knight => Self::knight_moves(x, y, board),
            PieceType::Bishop => Self::bishop_moves(x, y, board),
            PieceType::Queen => Self::queen_moves(x, y, board),
            PieceType::King => Self::king_moves(x, y, board),
        }
    }

    /// Pawn moves; see [`pawn_spec`].
    fn pawn_moves(color: PieceColor, x: usize, y: usize, board: &Board) -> (moves: Vec<Move>)
        requires
            board.wf(),
            x < 8,
            y < 8,
        ensures
            moves@ == pawn_spec(*board, color, x as int, y as int),
    {
        let mut moves: Vec<Move> = Vec::new();

        let forward: Option<usize> = match color {
            PieceColor::White => if x + 1 < 8 {
                Some(x + 1)
            } else {
                None
            },
            PieceColor::Black => if x >= 1 {
                Some(x - 1)
            } else {
                None
            },
        };

        if let Some(fx) = forward {
            // One step forward; when that cell is empty, a pawn still on
            // its starting row may also try two steps forward.
            let stop = add_move(board, fx, y, &mut moves);
            if !stop {
                let on_start = match color {
                    PieceColor::White => x == 1,
                    PieceColor::Black => x == 6,
                };
                if on_start {
                    let tx = match color {
                        PieceColor::White => x + 2,
                        PieceColor::Black => x - 2,
                    };
                    add_move(board, tx, y, &mut moves);
                }
            }

            // The two forward-diagonal cells: a capture wherever an
            // occupant is present (its colour is not consulted).
            if y + 1 < 8 && board.get(fx, y + 1).is_some() {
                moves.push(Move { x: fx, y: y + 1, move_type: MoveType::Capture });
            }
            if y >= 1 && board.get(fx, y - 1).is_some() {
                moves.push(Move { x: fx, y: y - 1, move_type: MoveType::Capture });
            }
        }

        proof {
            assert(moves@ =~= pawn_spec(*board, color, x as int, y as int));
        }
        moves
    }

    /// Rook moves; see [`rook_spec`].
    fn rook_moves(x: usize, y: usize, board: &Board) -> (moves: Vec<Move>)
        requires
            board.wf(),
            x < 8,
            y < 8,
        ensures
            moves@ == rook_spec(*board, x as int, y as int),
    {
        let mut moves: Vec<Move> = Vec::new();
        ray_scan(board, x, y, 0, 1, &mut moves);
        ray_scan(board, x, y, 0, -1, &mut moves);
        ray_scan(board, x, y, 1, 0, &mut moves);
        ray_scan(board, x, y, -1, 0, &mut moves);
        proof {
            assert(moves@ =~= rook_spec(*board, x as int, y as int));
        }
        moves
    }

    /// Bishop moves; see [`bishop_spec`].
    fn bishop_moves(x: usize, y: usize, board: &Board) -> (moves: Vec<Move>)
        requires
            board.wf(),
            x < 8,
            y < 8,
        ensures
            moves@ == bishop_spec(*board, x as int, y as int),
    {
        let mut moves: Vec<Move> = Vec::new();
        ray_scan(board, x, y, 1, 1, &mut moves);
        ray_scan(board, x, y, -1, 1, &mut moves);
        ray_scan(board, x, y, 1, -1, &mut moves);
        ray_scan(board, x, y, -1, -1, &mut moves);
        proof {
            assert(moves@ =~= bishop_spec(*board, x as int, y as int));
        }
        moves
    }

    /// Knight moves; see [`knight_spec`].
    fn knight_moves(x: usize, y: usize, board: &Board) -> (moves: Vec<Move>)
        requires
            board.wf(),
            x < 8,
            y < 8,
        ensures
            moves@ == knight_spec(*board, x as int, y as int),
    {
        let mut moves: Vec<Move> = Vec::new();

        if x + 1 < 8 && y + 2 < 8 {
            add_move(board, x + 1, y + 2, &mut moves);
        }
        if x >= 1 && y + 2 < 8 {
            add_move(board, x - 1, y + 2, &mut moves);
        }
        if x + 1 < 8 && y >= 2 {
            add_move(board, x + 1, y - 2, &mut moves);
        }
        if x >= 1 && y >= 2 {
            add_move(board, x - 1, y - 2, &mut moves);
        }
        if x + 2 < 8 && y + 1 < 8 {
            add_move(board, x + 2, y + 1, &mut moves);
        }
        if x + 2 < 8 && y >= 1 {
            add_move(board, x + 2, y - 1, &mut moves);
        }
        if x >= 2 && y + 1 < 8 {
            add_move(board, x - 2, y + 1, &mut moves);
        }
        if x >= 2 && y >= 1 {
            add_move(board, x - 2, y - 1, &mut moves);
        }

        proof {
            assert(moves@ =~= knight_spec(*board, x as int, y as int));
        }
        moves
    }

    /// Queen moves: the rook moves followed by the bishop moves from the
    /// same origin; see [`queen_spec`].
    fn queen_moves(x: usize, y: usize, board: &Board) -> (moves: Vec<Move>)
        requires
            board.wf(),
            x < 8,
            y < 8,
        ensures
            moves@ == queen_spec(*board, x as int, y as int),
    {
        let mut moves = Self::rook_moves(x, y, board);
        let mut diagonal = Self::bishop_moves(x, y, board);
        moves.append(&mut diagonal);
        moves
    }

    /// King moves; see [`king_spec`].
    fn king_moves(x: usize, y: usize, board: &Board) -> (moves: Vec<Move>)
        requires
            board.wf(),
            x < 8,
            y < 8,
        ensures
            moves@ == king_spec(*board, x as int, y as int),
    {
        let mut moves: Vec<Move> = Vec::new();

        if x + 1 < 8 {
            add_move(board, x + 1, y, &mut moves);
        }
        if x >= 1 {
            add_move(board, x - 1, y, &mut moves);
        }
        if y + 1 < 8 {
            add_move(board, x, y + 1, &mut moves);
        }
        if y >= 1 {
            add_move(board, x, y - 1, &mut moves);
        }
        if x + 1 < 8 && y + 1 < 8 {
            add_move(board, x + 1, y + 1, &mut moves);
        }
        if x >= 1 && y + 1 < 8 {
            add_move(board, x - 1, y + 1, &mut moves);
        }
        if x + 1 < 8 && y >= 1 {
            add_move(board, x + 1, y - 1, &mut moves);
        }
        if x >= 1 && y >= 1 {
            add_move(board, x - 1, y - 1, &mut moves);
        }

        proof {
            assert(moves@ =~= king_spec(*board, x as int, y as int));
        }
        moves
    }
}

impl Piece {
    /// Return the list of tiles to which this piece can move on `board`.
    pub fn possible_moves(&self, board: &Board) -> (moves: Vec<Move>)
        requires
            board.wf(),
            self.x < 8,
            self.y < 8,
        ensures
            moves@ == piece_moves_spec(
                self.piece_type,
                self.piece_color,
                *board,
                self.x as int,
                self.y as int,
            ),
    {
        self.piece_type.possible_moves(self.piece_color, self.x, self.y, board)
    }
}

/// Search `moves` front to back for the first entry whose destination is
/// `(x, y)`.
pub(crate) fn find_move_at(moves: &Vec<Move>, x: usize, y: usize) -> (r: Option<Move>)
    ensures
        r == find_move(moves@, x as int, y as int),
{
    let mut i: usize = 0;
    proof {
        assert(moves@.skip(0) =~= moves@);
    }
    while i < moves.len()
        invariant
            i <= moves@.len(),
            find_move(moves@, x as int, y as int) == find_move(
                moves@.skip(i as int),
                x as int,
                y as int,
            ),
        decreases moves@.len() - i,
    {
        let m = moves[i];
        proof {
            assert(moves@.skip(i as int)[0] == moves@[i as int]);
        }
        if m.x == x && m.y == y {
            return Some(m);
        }
        proof {
            assert(moves@.skip(i as int).drop_first() =~= moves@.skip(i as int + 1));
        }
        i = i + 1;
    }
    proof {
        assert(moves@.skip(i as int) =~= Seq::<Move>::empty());
    }
    None
}

} // verus!
