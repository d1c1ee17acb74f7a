use chess_box::board::{Board, Square};
use chess_box::moves::Move;
use chess_box::pieces::{ChessPiece, PieceType::Pawn};

#[test]
fn move_from_empty() {
    // Try moving FROM a square thats empty
    let board = Board::board_from_strings([
    "rnbqkbnr",
    "pppppppp",
    "........",
    "........",
    "........",
    "........",
    "PPPPPPPP",
    "RNBKQBNR",
    ]);
    let start = Square::new_square_from_notation_str("c3").unwrap();
    let stop= Square::new_square_from_notation_str("c4").unwrap();
    // Must be true or cargo test will fail
    assert!(!Move::check_move(&Move::new_move(), &board, &start, &stop));
}

#[test]
fn pawn_valid_forward_one() {
    // Try a valid pawn move on empty board
    let board = Board::board_from_strings([
    "........",
    "........",
    "........",
    "........",
    "........",
    "........",
    "....P...",
    "........",
    ]);
    let start = Square::new_square_from_notation_str("e2").unwrap();
    let stop= Square::new_square_from_notation_str("e3").unwrap();
    assert!(Move::check_move(&Move::new_move(), &board, &start, &stop));
}

#[test]
fn pawn_forward_one_blocked() {
    // Try moving pawn forward into an occupied square, not even a capture
    let board = Board::board_from_strings([
    "........",
    "........",
    "........",
    "........",
    "........",
    "....p...",
    "....P...",
    "........",
    ]);
    let start = Square::new_square_from_notation_str("e2").unwrap();
    let stop= Square::new_square_from_notation_str("e3").unwrap();
    assert!(!Move::check_move(&Move::new_move(), &board, &start, &stop));
}

#[test]
fn pawn_valid_forward_two() {
    // Try a valid double step on the first move
    let board = Board::board_from_strings([
    "........",
    "........",
    "........",
    "........",
    "........",
    "........",
    "....P...",
    "........",
    ]);
    let start = Square::new_square_from_notation_str("e2").unwrap();
    let stop= Square::new_square_from_notation_str("e4").unwrap();
    assert!(Move::check_move(&Move::new_move(), &board, &start, &stop));
}

#[test]
fn pawn_forward_two_has_moved() {
    // Try double step after the pawn has already moved once
    let mut board = Board::board_from_strings([
    "........",
    "........",
    "........",
    "........",
    "........",
    "........",
    "....P...",
    "........",
    ]);
    let start = Square::new_square_from_notation_str("e2").unwrap();

    // Sets the pawn "has_moved" to true
    board.set_piece_square(&start, ChessPiece::new(Pawn, true, true));

    let stop= Square::new_square_from_notation_str("e4").unwrap();
    assert!(!Move::check_move(&Move::new_move(), &board, &start, &stop));
}

#[test]
fn pawn_forward_two_blocked() {
    // Try double step when piece in between
    let board = Board::board_from_strings([
    "........",
    "........",
    "........",
    "........",
    "........",
    "....p...",
    "....P...",
    "........",
    ]);
    let start = Square::new_square_from_notation_str("e2").unwrap();
    let stop= Square::new_square_from_notation_str("e4").unwrap();
    assert!(!Move::check_move(&Move::new_move(), &board, &start, &stop));
}

#[test]
fn pawn_enemy_capture() {
    // Try valid white on black pawn capture
    let board = Board::board_from_strings([
    "........",
    "........",
    "........",
    "....p...",
    "...P....",
    "........",
    "........",
    "........",
    ]);
    let start = Square::new_square_from_notation_str("d4").unwrap();
    let stop= Square::new_square_from_notation_str("e5").unwrap();
    assert!(Move::check_move(&Move::new_move(), &board, &start, &stop));
}

#[test]
fn pawn_diagonal_into_empty_invalid() {
    // Try moving pawn diagonally with nothing to capture (no en passant)
    let board = Board::board_from_strings([
    "........",
    "........",
    "........",
    "........",
    "...P....",
    "........",
    "........",
    "........",
    ]);
    let start = Square::new_square_from_notation_str("d4").unwrap();
    let stop= Square::new_square_from_notation_str("e5").unwrap();
    assert!(!Move::check_move(&Move::new_move(), &board, &start, &stop));
}

#[test]
fn pawn_team_capture() {
    // Try white on white pawn capture
    let board = Board::board_from_strings([
    "........",
    "........",
    "........",
    "....P...",
    "...P....",
    "........",
    "........",
    "........",
    ]);
    let start = Square::new_square_from_notation_str("d4").unwrap();
    let stop= Square::new_square_from_notation_str("e5").unwrap();
    assert!(!Move::check_move(&Move::new_move(), &board, &start, &stop));
}

#[test]
fn pawn_black_direction() {
    // Try a black pawn single, going down the board instead of up
    let board = Board::board_from_strings([
    "........",
    "....p...",
    "........",
    "........",
    "........",
    "........",
    "........",
    "........",
    ]);
    let start = Square::new_square_from_notation_str("e7").unwrap();
    let stop= Square::new_square_from_notation_str("e6").unwrap();
    assert!(Move::check_move(&Move::new_move(), &board, &start, &stop));
}

#[test]
fn pawn_white_single() {
    // Try a black pawn single, going down the board instead of up
    let board = Board::board_from_strings([
    "........",
    "........",
    "........",
    "........",
    "........",
    "P.......",
    "........",
    "........",
    ]);
    let start = Square::new_square_from_notation_str("a3").unwrap();
    let stop= Square::new_square_from_notation_str("a4").unwrap();
    assert!(Move::check_move(&Move::new_move(), &board, &start, &stop));
}

#[test]
fn pawn_black_enemy_capture() {
    // Try a black pawn double step, going down the board instead of up
    let board = Board::board_from_strings([
    "........",
    "....p...",
    ".....P..",
    "........",
    "........",
    "........",
    "........",
    "........",
    ]);
    let start = Square::new_square_from_notation_str("e7").unwrap();
    let stop= Square::new_square_from_notation_str("f6").unwrap();
    assert!(Move::check_move(&Move::new_move(), &board, &start, &stop));
}

#[test]
fn knight_valid_move() {
    // Try a valid knight move on empty board
    let board = Board::board_from_strings([
    "........",
    "........",
    "........",
    "........",
    "...N....",
    "........",
    "........",
    "........",
    ]);
    let start = Square::new_square_from_notation_str("d4").unwrap();
    let stop= Square::new_square_from_notation_str("e6").unwrap();
    assert!(Move::check_move(&Move::new_move(), &board, &start, &stop));
}

#[test]
fn knight_enemy_capture() {
    // Try valid white on black knight capture 
    let board = Board::board_from_strings([
    "........",
    "........",
    "....p...",
    "........",
    "...N....",
    "........",
    "........",
    "........",
    ]);
    let start = Square::new_square_from_notation_str("d4").unwrap();
    let stop= Square::new_square_from_notation_str("e6").unwrap();
    assert!(Move::check_move(&Move::new_move(), &board, &start, &stop));
}

#[test]
fn knight_invalid_move() {
    // Try moving knight in invalid way
    let board = Board::board_from_strings([
    "........",
    "........",
    "........",
    "........",
    "...N....",
    "........",
    "........",
    "........",
    ]);
    let start = Square::new_square_from_notation_str("d4").unwrap();
    let stop= Square::new_square_from_notation_str("f4").unwrap();
    assert!(!Move::check_move(&Move::new_move(), &board, &start, &stop));
}

#[test]
fn knight_team_capture() {
    // Try white on white knight capture
    let board = Board::board_from_strings([
    "........",
    "........",
    "....P...",
    "........",
    "...N....",
    "........",
    "........",
    "........",
    ]);
    let start = Square::new_square_from_notation_str("d4").unwrap();
    let stop= Square::new_square_from_notation_str("e6").unwrap();
    assert!(!Move::check_move(&Move::new_move(), &board, &start, &stop));
}

#[test]
fn bishop_valid_move() {
    // Try a valid bishop move on empty board
    let board = Board::board_from_strings([
    "........",
    "........",
    "........",
    "........",
    "...B....",
    "........",
    "........",
    "........",
    ]);
    let start = Square::new_square_from_notation_str("d4").unwrap();
    let stop= Square::new_square_from_notation_str("h8").unwrap();
    assert!(Move::check_move(&Move::new_move(), &board, &start, &stop));
}

#[test]
fn bishop_enemy_capture() {
    // Try valid white on black bishop capture 
    let board = Board::board_from_strings([
    "........",
    "........",
    "........",
    "........",
    "...B....",
    "........",
    ".p......",
    "........",
    ]);
    let start = Square::new_square_from_notation_str("d4").unwrap();
    let stop= Square::new_square_from_notation_str("b2").unwrap();
    assert!(Move::check_move(&Move::new_move(), &board, &start, &stop));
}

#[test]
fn bishop_invalid_move() {
    // Try moving bishop in invalid way
    let board = Board::board_from_strings([
    "........",
    "........",
    "........",
    "........",
    "...B....",
    "........",
    "........",
    "........",
    ]);
    let start = Square::new_square_from_notation_str("d4").unwrap();
    let stop= Square::new_square_from_notation_str("e6").unwrap();
    assert!(!Move::check_move(&Move::new_move(), &board, &start, &stop));
}

#[test]
fn bishop_team_capture() {
    // Try white on white bishop capture
    let board = Board::board_from_strings([
    "........",
    "........",
    "........",
    "..P.....",
    "...B....",
    "........",
    "........",
    "........",
    ]);
    let start = Square::new_square_from_notation_str("d4").unwrap();
    let stop= Square::new_square_from_notation_str("c5").unwrap();
    assert!(!Move::check_move(&Move::new_move(), &board, &start, &stop));
}

#[test]
fn rook_valid_move() {
    // Try a valid rook move on empty board
    let board = Board::board_from_strings([
    "........",
    "........",
    "........",
    "........",
    "...R....",
    "........",
    "........",
    "........",
    ]);
    let start = Square::new_square_from_notation_str("d4").unwrap();
    let stop= Square::new_square_from_notation_str("d8").unwrap();
    assert!(Move::check_move(&Move::new_move(), &board, &start, &stop));
}

#[test]
fn rook_enemy_capture() {
    // Try valid black on white rook capture 
    let board = Board::board_from_strings([
    "r.....P.",
    "........",
    "........",
    "........",
    "........",
    "........",
    "........",
    "........",
    ]);
    let start = Square::new_square_from_notation_str("a8").unwrap();
    let stop= Square::new_square_from_notation_str("g8").unwrap();
    assert!(Move::check_move(&Move::new_move(), &board, &start, &stop));
}

#[test]
fn rook_invalid_move() {
    // Try moving rook in invalid way
    let board = Board::board_from_strings([
    "........",
    "........",
    "........",
    "........",
    "........",
    "......R.",
    "........",
    "........",
    ]);
    let start = Square::new_square_from_notation_str("g3").unwrap();
    let stop= Square::new_square_from_notation_str("f4").unwrap();
    assert!(!Move::check_move(&Move::new_move(), &board, &start, &stop));
}

#[test]
fn rook_team_capture() {
    // Try black on black rook capture
    let board = Board::board_from_strings([
    "........",
    "........",
    "........",
    "........",
    "...R....",
    "........",
    "...P....",
    "........",
    ]);
    let start = Square::new_square_from_notation_str("d4").unwrap();
    let stop= Square::new_square_from_notation_str("d2").unwrap();
    assert!(!Move::check_move(&Move::new_move(), &board, &start, &stop));
}

#[test]
fn queen_valid_move() {
    // Try a valid queen move on empty board
    let board = Board::board_from_strings([
    "........",
    "........",
    "........",
    "........",
    "...q....",
    "........",
    "........",
    "........",
    ]);
    let start = Square::new_square_from_notation_str("d4").unwrap();
    let stop= Square::new_square_from_notation_str("d6").unwrap();
    assert!(Move::check_move(&Move::new_move(), &board, &start, &stop));
}

#[test]
fn queen_enemy_capture() {
    // Try valid black on white queen capture 
    let board = Board::board_from_strings([
    "........",
    ".q......",
    "........",
    "...P....",
    "........",
    "........",
    "........",
    "........",
    ]);
    let start = Square::new_square_from_notation_str("b7").unwrap();
    let stop= Square::new_square_from_notation_str("d5").unwrap();
    assert!(Move::check_move(&Move::new_move(), &board, &start, &stop));
}

#[test]
fn queen_invalid_move() {
    // Try moving queen in invalid way
    let board = Board::board_from_strings([
    "........",
    "........",
    "........",
    "........",
    "...Q....",
    "........",
    "........",
    "........",
    ]);
    let start = Square::new_square_from_notation_str("d4").unwrap();
    let stop= Square::new_square_from_notation_str("e6").unwrap();
    assert!(!Move::check_move(&Move::new_move(), &board, &start, &stop));
}

#[test]
fn queen_team_capture() {
    // Try white on white queen capture
    let board = Board::board_from_strings([
    "........",
    "........",
    "........",
    "........",
    "...Q....",
    "........",
    "...P....",
    "........",
    ]);
    let start = Square::new_square_from_notation_str("d4").unwrap();
    let stop= Square::new_square_from_notation_str("d2").unwrap();
    assert!(!Move::check_move(&Move::new_move(), &board, &start, &stop));
}

#[test]
fn king_valid_move() {
    // Try a valid king move on empty board
    let board = Board::board_from_strings([
    "........",
    "........",
    "........",
    "........",
    "...K....",
    "........",
    "........",
    "........",
    ]);
    let start = Square::new_square_from_notation_str("d4").unwrap();
    let stop= Square::new_square_from_notation_str("d5").unwrap();
    assert!(Move::check_move(&Move::new_move(), &board, &start, &stop));
}

#[test]
fn king_enemy_capture() {
    // Try valid white on black king capture 
    let board = Board::board_from_strings([
    "........",
    "........",
    "........",
    "...Kp...",
    "........",
    "........",
    "........",
    "........",
    ]);
    let start = Square::new_square_from_notation_str("d5").unwrap();
    let stop= Square::new_square_from_notation_str("e5").unwrap();
    assert!(Move::check_move(&Move::new_move(), &board, &start, &stop));
}

#[test]
fn king_invalid_move() {
    // Try moving queen in invalid way
    let board = Board::board_from_strings([
    "........",
    "........",
    "........",
    "........",
    "...k....",
    "........",
    "........",
    "........",
    ]);
    let start = Square::new_square_from_notation_str("d4").unwrap();
    let stop= Square::new_square_from_notation_str("e6").unwrap();
    assert!(!Move::check_move(&Move::new_move(), &board, &start, &stop));
}

#[test]
fn king_team_capture() {
    // Try white on white king capture
    let board = Board::board_from_strings([
    "........",
    "........",
    "........",
    "........",
    "...K....",
    "...P....",
    "........",
    "........",
    ]);
    let start = Square::new_square_from_notation_str("d4").unwrap();
    let stop= Square::new_square_from_notation_str("d3").unwrap();
    assert!(!Move::check_move(&Move::new_move(), &board, &start, &stop));
}
