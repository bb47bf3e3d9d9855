//! Pieces: an identity (type and colour) plus the piece's current grid
//! coordinates.  Coordinates are mutated only by the move applier.

use vstd::prelude::*;

verus! {

/// The colour of a piece.
#[derive(Debug, Clone, Copy, PartialEq, Eq, Structural)]
pub enum PieceColor {
    White,
    Black,
}

/// The kind of a piece, which decides its movement pattern.
#[derive(Debug, Clone, Copy, PartialEq, Eq, Structural)]
pub enum PieceType {
    Pawn,
    Rook,
    Knight,
    Bishop,
    Queen,
    King,
}

/// A piece: its kind, its colour and its current position on the board,
/// with `0 <= x < 8` (row) and `0 <= y < 8` (column).
#[derive(Debug, Clone, Copy, PartialEq, Eq, Structural)]
pub struct Piece {
    pub piece_type: PieceType,
    pub piece_color: PieceColor,
    pub x: usize,
    pub y: usize,
}

impl Piece {
    /// A rook of the given colour at `(x, y)`.
    pub fn rook(color: PieceColor, x: usize, y: usize) -> (p: Piece)
        ensures
            p == (Piece { piece_type: PieceType::Rook, piece_color: color, x, y }),
    {
        Piece { piece_type: PieceType::Rook, piece_color: color, x, y }
    }

    /// A knight of the given colour at `(x, y)`.
    pub fn knight(color: PieceColor, x: usize, y: usize) -> (p: Piece)
        ensures
            p == (Piece { piece_type: PieceType::Knight, piece_color: color, x, y }),
    {
        Piece { piece_type: PieceType::Knight, piece_color: color, x, y }
    }

    /// A bishop of the given colour at `(x, y)`.
    pub fn bishop(color: PieceColor, x: usize, y: usize) -> (p: Piece)
        ensures
            p == (Piece { piece_type: PieceType::Bishop, piece_color: color, x, y }),
    {
        Piece { piece_type: PieceType::Bishop, piece_color: color, x, y }
    }

    /// A queen of the given colour at `(x, y)`.
    pub fn queen(color: PieceColor, x: usize, y: usize) -> (p: Piece)
        ensures
            p == (Piece { piece_type: PieceType::Queen, piece_color: color, x, y }),
    {
        Piece { piece_type: PieceType::Queen, piece_color: color, x, y }
    }

    /// A king of the given colour at `(x, y)`.
    pub fn king(color: PieceColor, x: usize, y: usize) -> (p: Piece)
        ensures
            p == (Piece { piece_type: PieceType::King, piece_color: color, x, y }),
    {
        Piece { piece_type: PieceType::King, piece_color: color, x, y }
    }

    /// A pawn of the given colour at `(x, y)`.
    pub fn pawn(color: PieceColor, x: usize, y: usize) -> (p: Piece)
        ensures
            p == (Piece { piece_type: PieceType::Pawn, piece_color: color, x, y }),
    {
        Piece { piece_type: PieceType::Pawn, piece_color: color, x, y }
    }
}

} // verus!
