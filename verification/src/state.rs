//! The game state: the board, the arena of pieces, and the click-driven
//! selection and move-application state machine.
//!
//! Board cells hold indices into an arena of piece slots, so a captured
//! piece can be removed from the world without dangling references: its
//! slot becomes empty and no cell points at it again.

use vstd::prelude::*;

use crate::board::Board;
use crate::board::in_bounds;
use crate::moves::Move;
use crate::moves::MoveType;
use crate::moves::find_move;
use crate::moves::find_move_at;
use crate::moves::lemma_find_move;
use crate::moves::lemma_moves_sound;
use crate::moves::move_sound;
use crate::moves::piece_moves_spec;
use crate::piece::Piece;
use crate::piece::PieceColor;
use crate::piece::PieceType;

verus! {

/// The whole engine state: the grid, the arena of piece slots, and the
/// transient selection state (cleared or replaced on every click).
pub struct GameState {
    grid: Board,
    pieces: Vec<Option<Piece>>,
    selected_tile: Option<(usize, usize)>,
    selected_piece: Option<(Vec<Move>, usize)>,
}

impl GameState {
    /// The board.
    pub closed spec fn board(self) -> Board {
        self.grid
    }

    /// The board cell at `(x, y)`.
    pub open spec fn cell(self, x: int, y: int) -> Option<usize> {
        self.board().at(x, y)
    }

    /// The arena of piece slots; a captured piece's slot is empty.
    pub closed spec fn pieces_seq(self) -> Seq<Option<Piece>> {
        self.pieces@
    }

    /// How many piece slots have ever been allocated.
    pub open spec fn num_slots(self) -> int {
        self.pieces_seq().len() as int
    }

    /// The live piece in slot `id`, if any.
    pub open spec fn piece(self, id: int) -> Option<Piece> {
        if 0 <= id < self.num_slots() {
            self.pieces_seq()[id]
        } else {
            None
        }
    }

    /// The piece standing on cell `(x, y)`, if any.
    pub open spec fn piece_at(self, x: int, y: int) -> Option<Piece> {
        match self.cell(x, y) {
            Some(id) => self.piece(id as int),
            None => None,
        }
    }

    /// The currently selected (highlighted) tile.
    pub closed spec fn sel_tile(self) -> Option<(usize, usize)> {
        self.selected_tile
    }

    /// The cached selection: the move list of the selected piece
    /// together with its slot id.
    pub closed spec fn cached(self) -> Option<(Seq<Move>, usize)> {
        match self.selected_piece {
            Some((mv, id)) => Some((mv@, id)),
            None => None,
        }
    }

    /// Board-arena consistency: the grid is well formed, every occupied
    /// cell points at a live piece whose coordinates are exactly that
    /// cell, and every live piece stands on the board at its own
    /// coordinates.  In particular each cell holds at most one piece and
    /// each live piece stands on exactly one cell.
    pub closed spec fn wf_world(self) -> bool {
        &&& self.grid.wf()
        &&& forall|x: int, y: int|
            in_bounds(x, y) ==> match #[trigger] self.grid.at(x, y) {
                Some(id) => 0 <= id < self.pieces@.len() && match self.pieces@[id as int] {
                    Some(p) => p.x == x && p.y == y,
                    None => false,
                },
                None => true,
            }
        &&& forall|id: int|
            0 <= id < self.pieces@.len() ==> match #[trigger] self.pieces@[id] {
                Some(p) => in_bounds(p.x as int, p.y as int) && self.grid.at(
                    p.x as int,
                    p.y as int,
                ) == Some(id as usize),
                None => true,
            }
    }

    /// The cached selection, when present, names a live piece and holds
    /// exactly that piece's move list as computed on the current board
    /// from the piece's current position.
    pub closed spec fn cache_fresh(self) -> bool {
        match self.selected_piece {
            Some((mv, id)) => 0 <= id < self.pieces@.len() && match self.pieces@[id as int] {
                Some(p) => mv@ == piece_moves_spec(
                    p.piece_type,
                    p.piece_color,
                    self.grid,
                    p.x as int,
                    p.y as int,
                ),
                None => false,
            },
            None => true,
        }
    }

    /// A well-formed game state.
    pub closed spec fn wf(self) -> bool {
        self.wf_world() && self.cache_fresh()
    }

    /// An empty game: an empty board, no piece slots, nothing selected.
    pub fn new() -> (s: GameState)
        ensures
            s.wf(),
            forall|x: int, y: int| in_bounds(x, y) ==> #[trigger] s.cell(x, y) is None,
            s.num_slots() == 0,
            s.sel_tile() is None,
            s.cached() is None,
    {
        GameState {
            grid: Board::new(),
            pieces: Vec::new(),
            selected_tile: None,
            selected_piece: None,
        }
    }

    /// Put a new piece into the world: allocate a slot for it and point
    /// its board cell at that slot.  The target cell must be empty, and
    /// no piece may be selected: pieces enter the world during setup,
    /// not in the middle of a click exchange.
    pub fn spawn_piece(&mut self, piece: Piece) -> (id: usize)
        requires
            old(self).wf(),
            piece.x < 8,
            piece.y < 8,
            old(self).cell(piece.x as int, piece.y as int) is None,
            old(self).cached() is None,
        ensures
            final(self).wf(),
            id as int == old(self).num_slots(),
            final(self).num_slots() == old(self).num_slots() + 1,
            final(self).piece(id as int) == Some(piece),
            final(self).cell(piece.x as int, piece.y as int) == Some(id),
            forall|x: int, y: int|
                in_bounds(x, y) && !(x == piece.x && y == piece.y)
                    ==> #[trigger] final(self).cell(x, y) == old(self).cell(x, y),
            forall|j: int|
                0 <= j < old(self).num_slots() ==> #[trigger] final(self).piece(j) == old(
                    self,
                ).piece(j),
            final(self).sel_tile() == old(self).sel_tile(),
            final(self).cached() is None,
    {
        let id = self.pieces.len();
        self.pieces.push(Some(piece));
        self.grid.set(piece.x, piece.y, Some(id));
        id
    }

    /// The move applier.  Search `moves` for an entry whose destination
    /// is `(x, y)`; when none is found the call is a no-op.  When one is
    /// found: on a capture, the occupant of the destination leaves the
    /// world (its slot becomes empty); then the mover's old cell is
    /// cleared, the destination cell is pointed at the mover, and the
    /// mover's coordinates become `(x, y)`.  This is the only operation
    /// that changes board occupancy or piece coordinates after setup.
    pub fn move_piece(&mut self, moves: &Vec<Move>, x: usize, y: usize, piece_id: usize) -> (applied:
        bool)
        requires
            old(self).wf_world(),
            x < 8,
            y < 8,
            old(self).piece(piece_id as int) is Some,
            match find_move(moves@, x as int, y as int) {
                Some(m) => {
                    &&& (m.move_type == MoveType::Capture ==> match old(self).cell(
                        x as int,
                        y as int,
                    ) {
                        Some(oid) => oid != piece_id,
                        None => false,
                    })
                    &&& (m.move_type == MoveType::Move ==> old(self).cell(x as int, y as int)
                        is None)
                },
                None => true,
            },
        ensures
            final(self).wf_world(),
            applied == (find_move(moves@, x as int, y as int) is Some),
            final(self).sel_tile() == old(self).sel_tile(),
            final(self).cached() == old(self).cached(),
            !applied ==> *final(self) == *old(self),
            applied ==> {
                let m = find_move(moves@, x as int, y as int).unwrap();
                let p = old(self).piece(piece_id as int).unwrap();
                &&& final(self).piece(piece_id as int) == Some(
                    Piece { x, y, piece_type: p.piece_type, piece_color: p.piece_color },
                )
                &&& final(self).cell(x as int, y as int) == Some(piece_id)
                &&& final(self).cell(p.x as int, p.y as int) is None
                &&& forall|a: int, c: int|
                    in_bounds(a, c) && !(a == x && c == y) && !(a == p.x && c == p.y)
                        ==> #[trigger] final(self).cell(a, c) == old(self).cell(a, c)
                &&& final(self).num_slots() == old(self).num_slots()
                &&& (m.move_type == MoveType::Move ==> forall|j: int|
                    0 <= j < old(self).num_slots() && j != piece_id
                        ==> #[trigger] final(self).piece(j) == old(self).piece(j))
                &&& (m.move_type == MoveType::Capture ==> {
                    let oid = old(self).cell(x as int, y as int).unwrap();
                    &&& final(self).piece(oid as int) is None
                    &&& forall|a: int, c: int|
                        in_bounds(a, c) ==> #[trigger] final(self).cell(a, c) != Some(oid)
                    &&& forall|j: int|
                        0 <= j < old(self).num_slots() && j != piece_id && j != oid
                            ==> #[trigger] final(self).piece(j) == old(self).piece(j)
                })
            },
    {
        let found = find_move_at(moves, x, y);
        let n_slots = self.pieces.len();
        match found {
            None => false,
            Some(m) => {
                let p = self.pieces[piece_id].unwrap();
                proof {
                    // The mover stands on its own cell, so the
                    // destination differs from the mover's cell.
                    assert(old(self).grid.at(p.x as int, p.y as int) == Some(piece_id));
                    assert(!(p.x == x && p.y == y));
                }
                if m.move_type == MoveType::Capture {
                    let captured = self.grid.get(x, y).unwrap();
                    self.pieces.set(captured, None);
                }
                self.grid.set(p.x, p.y, None);
                self.grid.set(x, y, Some(piece_id));
                self.pieces.set(
                    piece_id,
                    Some(Piece { x, y, piece_type: p.piece_type, piece_color: p.piece_color }),
                );
                proof {
                    let o = *old(self);
                    assert forall|a: int, c: int| in_bounds(a, c) implies match #[trigger] self.grid.at(a, c) {
                        Some(id) => 0 <= id < self.pieces@.len() && match self.pieces@[id as int] {
                            Some(q) => q.x == a && q.y == c,
                            None => false,
                        },
                        None => true,
                    } by {
                        if !(a == x && c == y) && !(a == p.x && c == p.y) {
                            assert(self.grid.at(a, c) == o.grid.at(a, c));
                            match o.grid.at(a, c) {
                                Some(id2) => {
                                    assert(o.pieces@[id2 as int] is Some);
                                },
                                None => {},
                            }
                        }
                    }
                    assert forall|id: int| 0 <= id < self.pieces@.len() implies match #[trigger] self.pieces@[id] {
                        Some(q) => in_bounds(q.x as int, q.y as int) && self.grid.at(
                            q.x as int,
                            q.y as int,
                        ) == Some(id as usize),
                        None => true,
                    } by {
                        if id != piece_id {
                            if m.move_type == MoveType::Capture && Some(id as usize) == o.grid.at(
                                x as int,
                                y as int,
                            ) {
                                assert(self.pieces@[id] is None);
                            } else {
                                assert(self.pieces@[id] == o.pieces@[id]);
                                match o.pieces@[id] {
                                    Some(q) => {
                                        assert(o.grid.at(q.x as int, q.y as int) == Some(
                                            id as usize,
                                        ));
                                        assert(!(q.x == x && q.y == y));
                                        assert(!(q.x == p.x && q.y == p.y));
                                    },
                                    None => {},
                                }
                            }
                        }
                    }
                }
                true
            },
        }
    }

    /// Place one side's sixteen starting pieces: the back rank (rook,
    /// bishop, knight, queen, king, knight, bishop, rook) on its back
    /// row and eight pawns on the row in front of it.
    #[verifier::rlimit(80)]
    fn init_side(&mut self, color: PieceColor)
        requires
            old(self).wf(),
            old(self).cached() is None,
            forall|y: int| 0 <= y < 8 ==> #[trigger] old(self).cell(back_row(color), y) is None,
            forall|y: int| 0 <= y < 8 ==> #[trigger] old(self).cell(pawn_row(color), y) is None,
        ensures
            final(self).wf(),
            final(self).cached() is None,
            final(self).sel_tile() == old(self).sel_tile(),
            forall|y: int|
                0 <= y < 8 ==> #[trigger] final(self).piece_at(back_row(color), y)
                    == starting_piece_at(back_row(color), y),
            forall|y: int|
                0 <= y < 8 ==> #[trigger] final(self).piece_at(pawn_row(color), y)
                    == starting_piece_at(pawn_row(color), y),
            forall|a: int, c: int|
                in_bounds(a, c) && a != back_row(color) && a != pawn_row(color)
                    ==> #[trigger] final(self).cell(a, c) == old(self).cell(a, c),
            forall|j: int|
                0 <= j < old(self).num_slots() ==> #[trigger] final(self).piece(j) == old(
                    self,
                ).piece(j),
    {
        let (row, pawns_row): (usize, usize) = match color {
            PieceColor::White => (0, 1),
            PieceColor::Black => (7, 6),
        };

        self.spawn_piece(Piece::rook(color, row, 0));
        self.spawn_piece(Piece::bishop(color, row, 1));
        self.spawn_piece(Piece::knight(color, row, 2));
        self.spawn_piece(Piece::queen(color, row, 3));
        self.spawn_piece(Piece::king(color, row, 4));
        self.spawn_piece(Piece::knight(color, row, 5));
        self.spawn_piece(Piece::bishop(color, row, 6));
        self.spawn_piece(Piece::rook(color, row, 7));

        self.spawn_piece(Piece::pawn(color, pawns_row, 0));
        self.spawn_piece(Piece::pawn(color, pawns_row, 1));
        self.spawn_piece(Piece::pawn(color, pawns_row, 2));
        self.spawn_piece(Piece::pawn(color, pawns_row, 3));
        self.spawn_piece(Piece::pawn(color, pawns_row, 4));
        self.spawn_piece(Piece::pawn(color, pawns_row, 5));
        self.spawn_piece(Piece::pawn(color, pawns_row, 6));
        self.spawn_piece(Piece::pawn(color, pawns_row, 7));
    }

    /// Populate the standard starting arrangement on an empty world:
    /// White on rows 0 (back rank) and 1 (pawns), Black on rows 7 and
    /// 6; rows 2 to 5 stay empty.
    pub fn init_positions(&mut self)
        requires
            old(self).wf(),
            old(self).cached() is None,
            forall|a: int, c: int| in_bounds(a, c) ==> #[trigger] old(self).cell(a, c) is None,
        ensures
            final(self).wf(),
            final(self).cached() is None,
            final(self).sel_tile() == old(self).sel_tile(),
            forall|a: int, c: int|
                in_bounds(a, c) ==> #[trigger] final(self).piece_at(a, c) == starting_piece_at(
                    a,
                    c,
                ),
            forall|a: int, c: int|
                in_bounds(a, c) && starting_piece_at(a, c) is None ==> #[trigger] final(self).cell(
                    a,
                    c,
                ) is None,
    {
        self.init_side(PieceColor::White);
        let ghost mid = *self;
        self.init_side(PieceColor::Black);
        proof {
            assert forall|a: int, c: int| in_bounds(a, c) implies #[trigger] self.piece_at(a, c)
                == starting_piece_at(a, c) by {
                if a == 0 || a == 1 {
                    assert(mid.piece_at(a, c) == starting_piece_at(a, c));
                    assert(self.cell(a, c) == mid.cell(a, c));
                    match mid.cell(a, c) {
                        Some(id) => {
                            assert(mid.grid.at(a, c) == Some(id));
                            assert(0 <= id < mid.pieces@.len());
                            assert(self.piece(id as int) == mid.piece(id as int));
                        },
                        None => {},
                    }
                } else if a == 6 || a == 7 {
                    assert(self.piece_at(a, c) == starting_piece_at(a, c));
                } else {
                    assert(mid.cell(a, c) == old(self).cell(a, c));
                    assert(self.cell(a, c) == mid.cell(a, c));
                }
            }
        }
    }

    /// Read the board cell at `(x, y)`: the slot id of the piece
    /// standing there, if any.
    pub fn get_cell(&self, x: usize, y: usize) -> (r: Option<usize>)
        requires
            self.wf(),
            x < 8,
            y < 8,
        ensures
            r == self.cell(x as int, y as int),
    {
        self.grid.get(x, y)
    }

    /// Read piece slot `id`.
    pub fn get_piece(&self, id: usize) -> (r: Option<Piece>)
        ensures
            r == self.piece(id as int),
    {
        if id < self.pieces.len() {
            self.pieces[id]
        } else {
            None
        }
    }

    /// The currently selected tile, if any.
    pub fn get_selected_tile(&self) -> (r: Option<(usize, usize)>)
        ensures
            r == self.sel_tile(),
    {
        self.selected_tile
    }

    /// The slot id of the currently selected piece, if any.
    pub fn selected_piece_id(&self) -> (r: Option<usize>)
        ensures
            r == match self.cached() {
                Some((mv, id)) => Some(id),
                None => None::<usize>,
            },
    {
        match &self.selected_piece {
            Some((_, id)) => Some(*id),
            None => None,
        }
    }

    /// A copy of the cached move list of the selected piece; empty when
    /// no piece is selected.
    pub fn selected_moves(&self) -> (r: Vec<Move>)
        ensures
            r@ == match self.cached() {
                Some((mv, id)) => mv,
                None => Seq::<Move>::empty(),
            },
    {
        match &self.selected_piece {
            Some((mv, _)) => {
                let mut out: Vec<Move> = Vec::new();
                let mut i: usize = 0;
                while i < mv.len()
                    invariant
                        i <= mv@.len(),
                        out@ == mv@.take(i as int),
                    decreases mv@.len() - i,
                {
                    out.push(mv[i]);
                    proof {
                        assert(out@ =~= mv@.take(i as int + 1));
                    }
                    i = i + 1;
                }
                proof {
                    assert(mv@.take(i as int) =~= mv@);
                }
                out
            },
            None => Vec::new(),
        }
    }

    /// Handle a click on tile `(x, y)`: the selection controller.
    ///
    /// The clicked tile always becomes the selected tile.  When a piece
    /// stands on it, that piece is (re)selected and its move list is
    /// computed and cached; a click on an occupied tile never attempts
    /// a move, even when another piece was already selected.  When the
    /// tile is empty and a piece was selected on an earlier click, the
    /// cached piece is moved to the tile if the tile is in its cached
    /// move list (a no-op otherwise), and the piece selection is
    /// dropped either way.
    pub fn select_tile(&mut self, x: usize, y: usize)
        requires
            old(self).wf(),
            x < 8,
            y < 8,
        ensures
            final(self).wf(),
            click_post(*old(self), *final(self), x, y),
    {
        // The previous tile highlight and move-highlight overlay are
        // presentation state: the renderer recomputes them from the
        // state exposed here, so clearing them involves no engine work.
        self.selected_tile = Some((x, y));

        match self.grid.get(x, y) {
            Some(piece_id) => {
                // A piece stands on the tile: (re)select it and cache
                // its possible moves; return without attempting a move.
                let p = self.pieces[piece_id].unwrap();
                let moves = p.possible_moves(&self.grid);
                self.selected_piece = Some((moves, piece_id));
            },
            None => {
                // Empty tile: when a piece was selected earlier, try to
                // move it here with its cached move list.
                let cached = self.selected_piece.take();
                if let Some((moves, piece_id)) = cached {
                    let p = self.pieces[piece_id].unwrap();
                    proof {
                        lemma_find_move(moves@, x as int, y as int);
                        lemma_moves_sound(
                            p.piece_type,
                            p.piece_color,
                            self.grid,
                            p.x as int,
                            p.y as int,
                        );
                        match find_move(moves@, x as int, y as int) {
                            Some(m) => {
                                let i = choose|i: int|
                                    0 <= i < moves@.len() && moves@[i] == m;
                                assert(move_sound(self.grid, p.x as int, p.y as int, moves@[i]));
                            },
                            None => {},
                        }
                    }
                    self.move_piece(&moves, x, y, piece_id);
                }
            },
        }
    }
}

/// The starting back rank, from column 0 to column 7: rook, bishop,
/// knight, queen, king, knight, bishop, rook.
pub open spec fn back_rank(y: int) -> PieceType {
    if y == 0 {
        PieceType::Rook
    } else if y == 1 {
        PieceType::Bishop
    } else if y == 2 {
        PieceType::Knight
    } else if y == 3 {
        PieceType::Queen
    } else if y == 4 {
        PieceType::King
    } else if y == 5 {
        PieceType::Knight
    } else if y == 6 {
        PieceType::Bishop
    } else {
        PieceType::Rook
    }
}

/// The back-rank row of a colour: row 0 for White, row 7 for Black.
pub open spec fn back_row(color: PieceColor) -> int {
    match color {
        PieceColor::White => 0,
        PieceColor::Black => 7,
    }
}

/// The pawn row of a colour: row 1 for White, row 6 for Black.
pub open spec fn pawn_row(color: PieceColor) -> int {
    match color {
        PieceColor::White => 1,
        PieceColor::Black => 6,
    }
}

/// The piece of the standard starting arrangement standing on `(x, y)`,
/// if any.
pub open spec fn starting_piece_at(x: int, y: int) -> Option<Piece> {
    if x == 0 {
        Some(
            Piece {
                piece_type: back_rank(y),
                piece_color: PieceColor::White,
                x: x as usize,
                y: y as usize,
            },
        )
    } else if x == 1 {
        Some(
            Piece {
                piece_type: PieceType::Pawn,
                piece_color: PieceColor::White,
                x: x as usize,
                y: y as usize,
            },
        )
    } else if x == 6 {
        Some(
            Piece {
                piece_type: PieceType::Pawn,
                piece_color: PieceColor::Black,
                x: x as usize,
                y: y as usize,
            },
        )
    } else if x == 7 {
        Some(
            Piece {
                piece_type: back_rank(y),
                piece_color: PieceColor::Black,
                x: x as usize,
                y: y as usize,
            },
        )
    } else {
        None
    }
}

/// What one click on tile `(x, y)` does to the engine state, relating
/// the state before (`pre`) and after (`post`) the click.
///
/// The clicked tile becomes the selected tile.  An occupied tile
/// (re)selects its piece and caches that piece's move list, leaving the
/// world untouched.  An empty tile drops the piece selection; when a
/// piece was selected and the tile is in its cached move list, that
/// piece moves here (a click can only move a piece to an empty tile, so
/// such a move never captures); otherwise the world is untouched.
pub open spec fn click_post(pre: GameState, post: GameState, x: usize, y: usize) -> bool {
    &&& post.sel_tile() == Some((x, y))
    &&& match pre.cell(x as int, y as int) {
        Some(id) => {
            &&& post.board() == pre.board()
            &&& post.pieces_seq() == pre.pieces_seq()
            &&& match pre.piece(id as int) {
                Some(p) => post.cached() == Some(
                    (
                        piece_moves_spec(
                            p.piece_type,
                            p.piece_color,
                            pre.board(),
                            p.x as int,
                            p.y as int,
                        ),
                        id,
                    ),
                ),
                None => false,
            }
        },
        None => {
            &&& post.cached() is None
            &&& match pre.cached() {
                Some((mv, id)) => match find_move(mv, x as int, y as int) {
                    Some(m) => {
                        &&& m.move_type == MoveType::Move
                        &&& match pre.piece(id as int) {
                            Some(p) => {
                                &&& post.piece(id as int) == Some(
                                    Piece {
                                        x,
                                        y,
                                        piece_type: p.piece_type,
                                        piece_color: p.piece_color,
                                    },
                                )
                                &&& post.cell(x as int, y as int) == Some(id)
                                &&& post.cell(p.x as int, p.y as int) is None
                                &&& forall|a: int, c: int|
                                    in_bounds(a, c) && !(a == x && c == y) && !(a == p.x && c
                                        == p.y) ==> #[trigger] post.cell(a, c) == pre.cell(a, c)
                                &&& post.num_slots() == pre.num_slots()
                                &&& forall|j: int|
                                    0 <= j < pre.num_slots() && j != id
                                        ==> #[trigger] post.piece(j) == pre.piece(j)
                            },
                            None => false,
                        }
                    },
                    None => post.board() == pre.board() && post.pieces_seq() == pre.pieces_seq(),
                },
                None => post.board() == pre.board() && post.pieces_seq() == pre.pieces_seq(),
            }
        },
    }
}

/// Re-selecting the same tile twice in a row, without an intervening
/// move, caches the same move set both times: when the tile holds a
/// piece, both clicks cache that piece's moves on the unchanged board;
/// when it is empty and the first click moved nothing, neither click
/// caches anything.
pub proof fn lemma_reselect_idempotent(s0: GameState, s1: GameState, s2: GameState, x: usize, y: usize)
    requires
        click_post(s0, s1, x, y),
        click_post(s1, s2, x, y),
        s0.cell(x as int, y as int) is None ==> match s0.cached() {
            Some((mv, id)) => find_move(mv, x as int, y as int) is None,
            None => true,
        },
    ensures
        s2.cached() == s1.cached(),
{
    match s0.cell(x as int, y as int) {
        Some(id) => {
            assert(s1.cell(x as int, y as int) == s0.cell(x as int, y as int));
            assert(s1.piece(id as int) == s0.piece(id as int));
        },
        None => {
            assert(s1.cell(x as int, y as int) == s0.cell(x as int, y as int));
        },
    }
}

} // verus!
