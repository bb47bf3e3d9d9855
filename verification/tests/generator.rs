//! Tests of the per-piece move generator.

use chess_core::board::Board;
use chess_core::moves::{Move, MoveType};
use chess_core::piece::{Piece, PieceColor, PieceType};

fn mv(x: usize, y: usize) -> Move {
    Move::new(x, y, MoveType::Move)
}

fn cap(x: usize, y: usize) -> Move {
    Move::new(x, y, MoveType::Capture)
}

/// A board whose listed cells are occupied (by arbitrary distinct ids).
fn board_with(occupied: &[(usize, usize)]) -> Board {
    let mut b = Board::new();
    for (i, &(x, y)) in occupied.iter().enumerate() {
        b.set(x, y, Some(i));
    }
    b
}

#[test]
fn rook_on_open_board_reaches_row_and_column() {
    let b = board_with(&[(3, 3)]);
    let rook = Piece::rook(PieceColor::White, 3, 3);
    let moves = rook.possible_moves(&b);
    let expected = vec![
        // increasing column
        mv(3, 4),
        mv(3, 5),
        mv(3, 6),
        mv(3, 7),
        // decreasing column
        mv(3, 2),
        mv(3, 1),
        mv(3, 0),
        // increasing row
        mv(4, 3),
        mv(5, 3),
        mv(6, 3),
        mv(7, 3),
        // decreasing row
        mv(2, 3),
        mv(1, 3),
        mv(0, 3),
    ];
    assert_eq!(moves, expected);
    assert_eq!(moves.len(), 14);
}

#[test]
fn rook_ray_stops_at_first_occupant() {
    let b = board_with(&[(3, 3), (3, 6)]);
    let rook = Piece::rook(PieceColor::White, 3, 3);
    let moves = rook.possible_moves(&b);
    // The rightward ray yields plain moves up to the occupant, a capture
    // on it, and nothing beyond.
    assert_eq!(moves[0], mv(3, 4));
    assert_eq!(moves[1], mv(3, 5));
    assert_eq!(moves[2], cap(3, 6));
    assert!(!moves.iter().any(|m| m.x == 3 && m.y == 7));
    assert_eq!(moves.len(), 13);
}

#[test]
fn rook_destinations_are_unique() {
    let b = board_with(&[(3, 3)]);
    let rook = Piece::rook(PieceColor::White, 3, 3);
    let moves = rook.possible_moves(&b);
    for i in 0..moves.len() {
        assert!(!(moves[i].x == 3 && moves[i].y == 3));
        for j in 0..i {
            assert!(!(moves[i].x == moves[j].x && moves[i].y == moves[j].y));
        }
    }
}

#[test]
fn bishop_runs_all_four_diagonals() {
    let b = board_with(&[(3, 3)]);
    let bishop = Piece::bishop(PieceColor::Black, 3, 3);
    let moves = bishop.possible_moves(&b);
    let expected = vec![
        mv(4, 4),
        mv(5, 5),
        mv(6, 6),
        mv(7, 7),
        mv(2, 4),
        mv(1, 5),
        mv(0, 6),
        mv(4, 2),
        mv(5, 1),
        mv(6, 0),
        mv(2, 2),
        mv(1, 1),
        mv(0, 0),
    ];
    assert_eq!(moves, expected);
}

#[test]
fn bishop_ray_is_bounded_by_both_axes() {
    let b = board_with(&[(6, 1)]);
    let bishop = Piece::bishop(PieceColor::White, 6, 1);
    let moves = bishop.possible_moves(&b);
    let expected = vec![mv(7, 2), mv(5, 2), mv(4, 3), mv(3, 4), mv(2, 5), mv(1, 6), mv(0, 7), mv(7, 0), mv(5, 0)];
    assert_eq!(moves, expected);
}

#[test]
fn queen_is_rook_then_bishop() {
    let b = board_with(&[(3, 3), (3, 6), (5, 5)]);
    let rook_moves = Piece::rook(PieceColor::White, 3, 3).possible_moves(&b);
    let bishop_moves = Piece::bishop(PieceColor::White, 3, 3).possible_moves(&b);
    let queen_moves = Piece::queen(PieceColor::White, 3, 3).possible_moves(&b);
    let mut expected = rook_moves.clone();
    expected.extend(bishop_moves.iter().cloned());
    assert_eq!(queen_moves, expected);
}

#[test]
fn knight_in_corner_has_two_moves() {
    let b = board_with(&[(0, 0)]);
    let knight = Piece::knight(PieceColor::White, 0, 0);
    let moves = knight.possible_moves(&b);
    assert_eq!(moves, vec![mv(1, 2), mv(2, 1)]);
}

#[test]
fn knight_in_centre_has_eight_moves_on_board() {
    let b = board_with(&[(3, 3)]);
    let knight = Piece::knight(PieceColor::Black, 3, 3);
    let moves = knight.possible_moves(&b);
    let expected = vec![
        mv(4, 5),
        mv(2, 5),
        mv(4, 1),
        mv(2, 1),
        mv(5, 4),
        mv(5, 2),
        mv(1, 4),
        mv(1, 2),
    ];
    assert_eq!(moves, expected);
    for m in &moves {
        assert!(m.x < 8 && m.y < 8);
    }
}

#[test]
fn king_in_corner_has_three_moves() {
    let b = board_with(&[(0, 0)]);
    let king = Piece::king(PieceColor::White, 0, 0);
    let moves = king.possible_moves(&b);
    assert_eq!(moves, vec![mv(1, 0), mv(0, 1), mv(1, 1)]);
}

#[test]
fn king_in_centre_has_eight_moves_on_board() {
    let b = board_with(&[(4, 4)]);
    let king = Piece::king(PieceColor::Black, 4, 4);
    let moves = king.possible_moves(&b);
    let expected = vec![
        mv(5, 4),
        mv(3, 4),
        mv(4, 5),
        mv(4, 3),
        mv(5, 5),
        mv(3, 5),
        mv(5, 3),
        mv(3, 3),
    ];
    assert_eq!(moves, expected);
    for m in &moves {
        assert!(m.x < 8 && m.y < 8);
    }
}

#[test]
fn king_captures_any_neighbouring_occupant() {
    // The capture primitive does not consult the occupant's colour: a
    // same-coloured neighbour is still offered as a capture target.
    let b = board_with(&[(4, 4), (5, 4)]);
    let king = Piece::king(PieceColor::White, 4, 4);
    let moves = king.possible_moves(&b);
    assert_eq!(moves[0], cap(5, 4));
}

#[test]
fn pawn_on_start_row_may_step_twice() {
    let b = board_with(&[(1, 4)]);
    let pawn = Piece::pawn(PieceColor::White, 1, 4);
    let moves = pawn.possible_moves(&b);
    assert_eq!(moves, vec![mv(2, 4), mv(3, 4)]);
}

#[test]
fn pawn_off_start_row_steps_once() {
    let b = board_with(&[(3, 4)]);
    let pawn = Piece::pawn(PieceColor::White, 3, 4);
    let moves = pawn.possible_moves(&b);
    assert_eq!(moves, vec![mv(4, 4)]);
}

#[test]
fn black_pawn_moves_down_the_board() {
    let b = board_with(&[(6, 0)]);
    let pawn = Piece::pawn(PieceColor::Black, 6, 0);
    let moves = pawn.possible_moves(&b);
    assert_eq!(moves, vec![mv(5, 0), mv(4, 0)]);
}

#[test]
fn pawn_captures_on_both_forward_diagonals() {
    let b = board_with(&[(1, 4), (2, 5), (2, 3)]);
    let pawn = Piece::pawn(PieceColor::White, 1, 4);
    let moves = pawn.possible_moves(&b);
    assert_eq!(moves, vec![mv(2, 4), mv(3, 4), cap(2, 5), cap(2, 3)]);
}

#[test]
fn blocked_pawn_records_forward_capture_and_no_two_step() {
    // The forward probe goes through the shared probe-and-record
    // primitive, so an occupant straight ahead is recorded as a capture
    // target and suppresses the two-step move.
    let b = board_with(&[(1, 4), (2, 4)]);
    let pawn = Piece::pawn(PieceColor::White, 1, 4);
    let moves = pawn.possible_moves(&b);
    assert_eq!(moves, vec![cap(2, 4)]);
}

#[test]
fn pawn_two_step_probe_records_an_occupant_as_capture() {
    // The two-step probe also goes through probe-and-record: a piece
    // two rows ahead of a start-row pawn is offered as a capture.
    let b = board_with(&[(1, 4), (3, 4)]);
    let pawn = Piece::pawn(PieceColor::White, 1, 4);
    let moves = pawn.possible_moves(&b);
    assert_eq!(moves, vec![mv(2, 4), cap(3, 4)]);
}

#[test]
fn pawn_at_far_edge_has_no_moves() {
    let b = board_with(&[(7, 0), (0, 3)]);
    let white = Piece::pawn(PieceColor::White, 7, 0);
    assert_eq!(white.possible_moves(&b), vec![]);
    let black = Piece::pawn(PieceColor::Black, 0, 3);
    assert_eq!(black.possible_moves(&b), vec![]);
}

#[test]
fn pawn_diagonal_probe_is_bounds_checked_at_the_edge() {
    let b = board_with(&[(1, 7), (2, 6)]);
    let pawn = Piece::pawn(PieceColor::White, 1, 7);
    let moves = pawn.possible_moves(&b);
    assert_eq!(moves, vec![mv(2, 7), mv(3, 7), cap(2, 6)]);
}

#[test]
fn dispatch_matches_piece_type() {
    let b = board_with(&[(3, 3)]);
    let direct = PieceType::Knight.possible_moves(PieceColor::White, 3, 3, &b);
    let via_piece = Piece::knight(PieceColor::White, 3, 3).possible_moves(&b);
    assert_eq!(direct, via_piece);
}

#[test]
fn move_new_builds_the_value() {
    let m = Move::new(2, 5, MoveType::Capture);
    assert_eq!(m.x, 2);
    assert_eq!(m.y, 5);
    assert_eq!(m.move_type, MoveType::Capture);
}
