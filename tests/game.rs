use chess::board::{create_board, Board, SelectedPiece, SelectedSquare, Square};
use chess::movement::{Game, LivePiece, PickingEvent, PlayerTurn, ResetSelectedEvent};
use chess::pieces::{Piece, PieceColor, PieceType};
use chess::ui::{next_move_text, win_text};

fn piece(x: u8, y: u8, color: PieceColor, piece_type: PieceType) -> Piece {
    Piece { x, y, color, piece_type }
}

fn square_entity(x: u8, y: u8) -> u64 {
    8 * x as u64 + y as u64
}

fn click(g: &mut Game, x: u8, y: u8, legal: bool) {
    g.pass(PickingEvent::Clicked(square_entity(x, y)), legal);
}

#[test]
fn valid_move_scenario() {
    let pawn = piece(1, 1, PieceColor::White, PieceType::Pawn);
    let mut g = Game::new(vec![pawn]);
    click(&mut g, 1, 1, false);
    assert_eq!(g.selected_piece.entity, Some(64));
    assert_eq!(g.selected_square.entity, Some(square_entity(1, 1)));
    let ev = PickingEvent::Clicked(square_entity(1, 2));
    assert_eq!(g.move_request(ev), Some((pawn, Square { x: 1, y: 2 })));
    g.pass(ev, true);
    assert_eq!(g.pieces.len(), 1);
    assert_eq!((g.pieces[0].piece.x, g.pieces[0].piece.y), (1, 2));
    assert_eq!(g.turn.0, PieceColor::Black);
    assert_eq!(g.selected_square.entity, None);
    assert_eq!(g.selected_piece.entity, None);
}

#[test]
fn capture_scenario() {
    let white = piece(3, 3, PieceColor::White, PieceType::Rook);
    let black = piece(3, 4, PieceColor::Black, PieceType::Pawn);
    let mut g = Game::new(vec![white, black]);
    click(&mut g, 3, 3, false);
    assert_eq!(g.selected_piece.entity, Some(64));
    click(&mut g, 3, 4, true);
    assert_eq!(g.pieces.len(), 1);
    assert_eq!(g.pieces[0].entity, 64);
    assert_eq!(g.pieces[0].piece, piece(3, 4, PieceColor::White, PieceType::Rook));
    assert!(!g.pieces[0].taken);
    assert_eq!(g.winner, None);
    assert_eq!(g.turn.0, PieceColor::Black);
}

#[test]
fn illegal_move_scenario() {
    let rook = piece(0, 0, PieceColor::White, PieceType::Rook);
    let mut g = Game::new(vec![rook]);
    click(&mut g, 0, 0, false);
    assert_eq!(g.selected_piece.entity, Some(64));
    let before = g.pieces.clone();
    let ev = PickingEvent::Clicked(square_entity(7, 7));
    assert_eq!(g.move_request(ev), Some((rook, Square { x: 7, y: 7 })));
    g.pass(ev, false);
    assert_eq!(g.pieces, before);
    assert_eq!(g.pieces[0].piece, rook);
    assert_eq!(g.turn.0, PieceColor::White);
    assert_eq!(g.selected_square.entity, None);
    assert_eq!(g.selected_piece.entity, None);
}

#[test]
fn king_capture_scenario() {
    let queen = piece(3, 3, PieceColor::White, PieceType::Queen);
    let king = piece(3, 4, PieceColor::Black, PieceType::King);
    let mut g = Game::new(vec![queen, king]);
    click(&mut g, 3, 3, false);
    click(&mut g, 3, 4, true);
    assert_eq!(g.winner, Some(PieceColor::White));
    assert_eq!(g.pieces.len(), 1);
    assert!(g.pieces.iter().all(|p| p.entity != 65));
    assert_eq!(win_text(g.winner.unwrap()), "White won! Thanks for playing!");
}

#[test]
fn black_wins_by_king_capture() {
    let king = piece(0, 0, PieceColor::White, PieceType::King);
    let rook = piece(5, 5, PieceColor::White, PieceType::Rook);
    let knight = piece(1, 2, PieceColor::Black, PieceType::Knight);
    let mut g = Game::new(vec![king, rook, knight]);
    click(&mut g, 5, 5, false);
    click(&mut g, 5, 6, true);
    assert_eq!(g.turn.0, PieceColor::Black);
    click(&mut g, 1, 2, false);
    assert_eq!(g.selected_piece.entity, Some(66));
    click(&mut g, 0, 0, true);
    assert_eq!(g.winner, Some(PieceColor::Black));
    assert_eq!(g.pieces.len(), 2);
    assert_eq!(win_text(PieceColor::Black), "Black won! Thanks for playing!");
}

#[test]
fn click_outside_board_scenario() {
    let pawn = piece(1, 1, PieceColor::White, PieceType::Pawn);
    let mut g = Game::new(vec![pawn]);
    click(&mut g, 1, 1, false);
    assert_eq!(g.selected_piece.entity, Some(64));
    g.pass(PickingEvent::Clicked(1000), true);
    assert_eq!(g.selected_square.entity, None);
    assert_eq!(g.selected_piece.entity, None);
    assert_eq!(g.turn.0, PieceColor::White);
    assert_eq!(g.pieces[0].piece, pawn);
}

#[test]
fn turn_alternates_with_committed_moves() {
    let white = piece(0, 0, PieceColor::White, PieceType::Rook);
    let black = piece(7, 7, PieceColor::Black, PieceType::Rook);
    let mut g = Game::new(vec![white, black]);
    assert_eq!(g.turn.0, PieceColor::White);
    click(&mut g, 0, 0, false);
    click(&mut g, 0, 5, true);
    assert_eq!(g.turn.0, PieceColor::Black);
    click(&mut g, 7, 7, false);
    click(&mut g, 7, 2, false);
    assert_eq!(g.turn.0, PieceColor::Black);
    click(&mut g, 7, 7, false);
    click(&mut g, 7, 2, true);
    assert_eq!(g.turn.0, PieceColor::White);
    click(&mut g, 0, 5, false);
    click(&mut g, 0, 6, true);
    assert_eq!(g.turn.0, PieceColor::Black);
}

#[test]
fn wrong_side_cannot_be_picked_up() {
    let black = piece(2, 2, PieceColor::Black, PieceType::Bishop);
    let mut g = Game::new(vec![black]);
    click(&mut g, 2, 2, true);
    assert_eq!(g.selected_square.entity, Some(square_entity(2, 2)));
    assert_eq!(g.selected_piece.entity, None);
    click(&mut g, 4, 4, true);
    assert_eq!(g.pieces[0].piece, black);
    assert_eq!(g.turn.0, PieceColor::White);
}

#[test]
fn single_occupancy_after_capture() {
    let white = piece(3, 3, PieceColor::White, PieceType::Rook);
    let black = piece(3, 4, PieceColor::Black, PieceType::Pawn);
    let other = piece(6, 6, PieceColor::Black, PieceType::Pawn);
    let mut g = Game::new(vec![white, black, other]);
    click(&mut g, 3, 3, false);
    click(&mut g, 3, 4, true);
    let on_target = g.pieces.iter().filter(|p| p.piece.x == 3 && p.piece.y == 4).count();
    assert_eq!(on_target, 1);
    assert_eq!(g.pieces.len(), 2);
}

#[test]
fn illegal_verdict_keeps_all_pieces() {
    let white = piece(3, 3, PieceColor::White, PieceType::Rook);
    let black = piece(3, 4, PieceColor::Black, PieceType::Pawn);
    let mut g = Game::new(vec![white, black]);
    click(&mut g, 3, 3, false);
    let before = g.pieces.clone();
    click(&mut g, 3, 4, false);
    assert_eq!(g.pieces, before);
    assert_eq!(g.winner, None);
    assert_eq!(g.turn.0, PieceColor::White);
}

#[test]
fn selections_reset_after_each_attempt() {
    let white = piece(4, 4, PieceColor::White, PieceType::Queen);
    let mut g = Game::new(vec![white]);
    click(&mut g, 4, 4, false);
    click(&mut g, 4, 6, false);
    assert_eq!((g.selected_square.entity, g.selected_piece.entity), (None, None));
    click(&mut g, 4, 4, false);
    click(&mut g, 4, 6, true);
    assert_eq!((g.selected_square.entity, g.selected_piece.entity), (None, None));
    assert!(g.reset_events.is_empty());
}

#[test]
fn capture_spares_own_side() {
    let mover = piece(2, 2, PieceColor::White, PieceType::Rook);
    let friend = piece(2, 5, PieceColor::White, PieceType::Pawn);
    let enemy = piece(5, 5, PieceColor::Black, PieceType::Pawn);
    let mut g = Game::new(vec![mover, friend, enemy]);
    click(&mut g, 2, 2, false);
    click(&mut g, 2, 5, true);
    assert_eq!(g.pieces.len(), 3);
    assert!(g.pieces.iter().all(|p| !p.taken));
    assert_eq!(g.pieces[1].piece, friend);
    assert_eq!(g.pieces[2].piece, enemy);
}

#[test]
fn hover_and_selection_events_are_ignored() {
    let pawn = piece(1, 1, PieceColor::White, PieceType::Pawn);
    let mut g = Game::new(vec![pawn]);
    click(&mut g, 1, 1, false);
    g.pass(PickingEvent::Hover(square_entity(1, 2)), true);
    g.pass(PickingEvent::Selection(square_entity(1, 2)), true);
    assert_eq!(g.selected_piece.entity, Some(64));
    assert_eq!(g.selected_square.entity, Some(square_entity(1, 1)));
    assert_eq!(g.pieces[0].piece, pawn);
    assert_eq!(g.move_request(PickingEvent::Hover(square_entity(1, 2))), None);
}

#[test]
fn move_request_needs_a_held_piece() {
    let pawn = piece(1, 1, PieceColor::White, PieceType::Pawn);
    let g = Game::new(vec![pawn]);
    assert_eq!(g.move_request(PickingEvent::Clicked(square_entity(1, 1))), None);
}

#[test]
fn new_game_numbers_pieces_after_squares() {
    let a = piece(0, 1, PieceColor::White, PieceType::Pawn);
    let b = piece(7, 6, PieceColor::Black, PieceType::Pawn);
    let g = Game::new(vec![a, b]);
    assert_eq!(g.pieces[0], LivePiece { entity: 64, piece: a, taken: false });
    assert_eq!(g.pieces[1], LivePiece { entity: 65, piece: b, taken: false });
    assert_eq!(g.piece_values(), vec![a, b]);
    assert_eq!(g.board.squares.len(), 64);
    assert_eq!(g.winner, None);
    assert!(g.reset_events.is_empty());
}

#[test]
fn board_layout() {
    let squares = create_board();
    assert_eq!(squares.len(), 64);
    assert_eq!(squares[0], Square { x: 0, y: 0 });
    assert_eq!(squares[9], Square { x: 1, y: 1 });
    assert_eq!(squares[63], Square { x: 7, y: 7 });
    let board = Board::new();
    assert_eq!(board.get(12), Some(Square { x: 1, y: 4 }));
    assert_eq!(board.get(64), None);
    assert!(Square { x: 0, y: 1 }.is_light());
    assert!(!Square { x: 0, y: 0 }.is_light());
}

#[test]
fn player_turn_changes_back_and_forth() {
    let mut t = PlayerTurn::default();
    assert_eq!(t.0, PieceColor::White);
    t.change();
    assert_eq!(t.0, PieceColor::Black);
    t.change();
    assert_eq!(t.0, PieceColor::White);
    assert_eq!(PieceColor::White.opposite(), PieceColor::Black);
    assert_eq!(ResetSelectedEvent, ResetSelectedEvent);
}

#[test]
fn selections_start_empty() {
    assert_eq!(SelectedSquare::default().entity, None);
    assert_eq!(SelectedPiece::default().entity, None);
}

#[test]
fn display_texts() {
    assert_eq!(next_move_text(PlayerTurn(PieceColor::White)), "Next move: White");
    assert_eq!(next_move_text(PlayerTurn(PieceColor::Black)), "Next move: Black");
}

#[test]
fn own_side_blocks_destination() {
    let mover = piece(2, 2, PieceColor::White, PieceType::Rook);
    let friend = piece(2, 5, PieceColor::White, PieceType::Pawn);
    let enemy = piece(5, 2, PieceColor::Black, PieceType::Pawn);
    let mut g = Game::new(vec![mover, friend, enemy]);
    assert!(!g.blocked_by_own_side(PickingEvent::Clicked(square_entity(2, 5))));
    click(&mut g, 2, 2, false);
    assert!(g.blocked_by_own_side(PickingEvent::Clicked(square_entity(2, 5))));
    assert!(!g.blocked_by_own_side(PickingEvent::Clicked(square_entity(5, 2))));
    assert!(!g.blocked_by_own_side(PickingEvent::Clicked(square_entity(2, 2))));
    assert!(!g.blocked_by_own_side(PickingEvent::Clicked(500)));
}
