//! Tests of the game state: setup, selection clicks and move application.

use chess_core::moves::{Move, MoveType};
use chess_core::piece::{Piece, PieceColor, PieceType};
use chess_core::state::GameState;

fn mv(x: usize, y: usize) -> Move {
    Move::new(x, y, MoveType::Move)
}

#[test]
fn new_game_is_empty() {
    let s = GameState::new();
    for x in 0..8 {
        for y in 0..8 {
            assert_eq!(s.get_cell(x, y), None);
        }
    }
    assert_eq!(s.get_selected_tile(), None);
    assert_eq!(s.selected_piece_id(), None);
    assert_eq!(s.selected_moves(), vec![]);
}

#[test]
fn initial_positions_follow_the_standard_arrangement() {
    let mut s = GameState::new();
    s.init_positions();
    let back = [
        PieceType::Rook,
        PieceType::Bishop,
        PieceType::Knight,
        PieceType::Queen,
        PieceType::King,
        PieceType::Knight,
        PieceType::Bishop,
        PieceType::Rook,
    ];
    for y in 0..8 {
        for (x, color) in [(0, PieceColor::White), (7, PieceColor::Black)] {
            let p = s.get_piece(s.get_cell(x, y).expect("back rank occupied")).unwrap();
            assert_eq!(p.piece_type, back[y]);
            assert_eq!(p.piece_color, color);
            assert_eq!((p.x, p.y), (x, y));
        }
        for (x, color) in [(1, PieceColor::White), (6, PieceColor::Black)] {
            let p = s.get_piece(s.get_cell(x, y).expect("pawn row occupied")).unwrap();
            assert_eq!(p.piece_type, PieceType::Pawn);
            assert_eq!(p.piece_color, color);
            assert_eq!((p.x, p.y), (x, y));
        }
        for x in 2..6 {
            assert_eq!(s.get_cell(x, y), None);
        }
    }
}

#[test]
fn clicking_a_piece_selects_it_and_caches_its_moves() {
    let mut s = GameState::new();
    let id = s.spawn_piece(Piece::rook(PieceColor::White, 3, 3));
    s.select_tile(3, 3);
    assert_eq!(s.get_selected_tile(), Some((3, 3)));
    assert_eq!(s.selected_piece_id(), Some(id));
    let moves = s.selected_moves();
    assert_eq!(moves.len(), 14);
    // Selecting never moves anything.
    assert_eq!(s.get_cell(3, 3), Some(id));
}

#[test]
fn reselecting_the_same_tile_caches_the_same_moves() {
    let mut s = GameState::new();
    s.spawn_piece(Piece::queen(PieceColor::Black, 4, 2));
    s.spawn_piece(Piece::pawn(PieceColor::White, 4, 5));
    s.select_tile(4, 2);
    let first = s.selected_moves();
    s.select_tile(4, 2);
    let second = s.selected_moves();
    assert_eq!(first, second);
}

#[test]
fn king_moves_to_an_empty_clicked_tile() {
    let mut s = GameState::new();
    let id = s.spawn_piece(Piece::king(PieceColor::White, 0, 4));
    s.select_tile(0, 4);
    s.select_tile(1, 5);
    assert_eq!(s.get_cell(0, 4), None);
    assert_eq!(s.get_cell(1, 5), Some(id));
    let p = s.get_piece(id).unwrap();
    assert_eq!((p.x, p.y), (1, 5));
    // The piece selection is dropped after the move; the tile stays
    // selected.
    assert_eq!(s.selected_piece_id(), None);
    assert_eq!(s.get_selected_tile(), Some((1, 5)));
}

#[test]
fn clicking_an_empty_tile_with_nothing_selected_only_highlights() {
    let mut s = GameState::new();
    s.init_positions();
    s.select_tile(4, 4);
    assert_eq!(s.get_selected_tile(), Some((4, 4)));
    assert_eq!(s.selected_piece_id(), None);
    for x in 0..8 {
        for y in 0..8 {
            let expected_occupied = x <= 1 || x >= 6;
            assert_eq!(s.get_cell(x, y).is_some(), expected_occupied);
        }
    }
}

#[test]
fn clicking_an_unreachable_tile_moves_nothing() {
    let mut s = GameState::new();
    let id = s.spawn_piece(Piece::king(PieceColor::White, 0, 4));
    s.select_tile(0, 4);
    s.select_tile(5, 5);
    assert_eq!(s.get_cell(0, 4), Some(id));
    let p = s.get_piece(id).unwrap();
    assert_eq!((p.x, p.y), (0, 4));
    assert_eq!(s.get_selected_tile(), Some((5, 5)));
    assert_eq!(s.selected_piece_id(), None);
}

#[test]
fn clicking_an_occupied_tile_reselects_instead_of_capturing() {
    let mut s = GameState::new();
    let rook = s.spawn_piece(Piece::rook(PieceColor::White, 3, 3));
    let pawn = s.spawn_piece(Piece::pawn(PieceColor::Black, 3, 6));
    s.select_tile(3, 3);
    s.select_tile(3, 6);
    // Both pieces still stand; the click selected the pawn.
    assert_eq!(s.get_cell(3, 3), Some(rook));
    assert_eq!(s.get_cell(3, 6), Some(pawn));
    assert_eq!(s.selected_piece_id(), Some(pawn));
}

#[test]
fn applying_a_capture_removes_the_occupant_from_the_world() {
    let mut s = GameState::new();
    let rook = s.spawn_piece(Piece::rook(PieceColor::White, 3, 3));
    let pawn = s.spawn_piece(Piece::pawn(PieceColor::Black, 3, 6));
    s.select_tile(3, 3);
    let moves = s.selected_moves();
    assert!(moves.contains(&Move::new(3, 6, MoveType::Capture)));
    let applied = s.move_piece(&moves, 3, 6, rook);
    assert!(applied);
    // The captured pawn is gone: its slot is empty and no cell points
    // at it.
    assert_eq!(s.get_piece(pawn), None);
    for x in 0..8 {
        for y in 0..8 {
            assert_ne!(s.get_cell(x, y), Some(pawn));
        }
    }
    // The rook stands on the destination, with its coordinates updated.
    assert_eq!(s.get_cell(3, 6), Some(rook));
    assert_eq!(s.get_cell(3, 3), None);
    let p = s.get_piece(rook).unwrap();
    assert_eq!((p.x, p.y), (3, 6));
}

#[test]
fn applying_an_absent_destination_is_a_no_op() {
    let mut s = GameState::new();
    let rook = s.spawn_piece(Piece::rook(PieceColor::White, 3, 3));
    let knight = s.spawn_piece(Piece::knight(PieceColor::Black, 5, 5));
    s.select_tile(3, 3);
    let moves = s.selected_moves();
    assert!(!moves.iter().any(|m| m.x == 4 && m.y == 4));
    let applied = s.move_piece(&moves, 4, 4, rook);
    assert!(!applied);
    assert_eq!(s.get_cell(3, 3), Some(rook));
    assert_eq!(s.get_cell(4, 4), None);
    assert_eq!(s.get_cell(5, 5), Some(knight));
    let p = s.get_piece(rook).unwrap();
    assert_eq!((p.x, p.y), (3, 3));
}

#[test]
fn applying_a_plain_move_keeps_every_other_piece() {
    let mut s = GameState::new();
    let rook = s.spawn_piece(Piece::rook(PieceColor::White, 3, 3));
    let knight = s.spawn_piece(Piece::knight(PieceColor::Black, 5, 5));
    s.select_tile(3, 3);
    let moves = s.selected_moves();
    let applied = s.move_piece(&moves, 3, 0, rook);
    assert!(applied);
    assert_eq!(s.get_cell(3, 0), Some(rook));
    assert_eq!(s.get_cell(3, 3), None);
    assert_eq!(s.get_cell(5, 5), Some(knight));
    assert_eq!(s.get_piece(knight).unwrap().piece_type, PieceType::Knight);
}

#[test]
fn pawn_click_sequence_from_the_start_row() {
    let mut s = GameState::new();
    s.init_positions();
    let id = s.get_cell(1, 4).unwrap();
    s.select_tile(1, 4);
    let moves = s.selected_moves();
    assert!(moves.contains(&mv(2, 4)));
    assert!(moves.contains(&mv(3, 4)));
    s.select_tile(3, 4);
    assert_eq!(s.get_cell(3, 4), Some(id));
    assert_eq!(s.get_cell(1, 4), None);
}
