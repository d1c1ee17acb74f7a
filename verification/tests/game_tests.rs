use chess_box::board::{Board, Square};
use chess_box::game::ChessGame;
use chess_box::pieces::PieceType;

#[test]
fn pinned_pieces() {
    // Try to see if we can move a pinned piece
    let board = Board::board_from_strings([
    "....r...",
    "........",
    "........",
    "........",
    "........",
    "........",
    "....B...",
    "....K...",
    ]);

    let mut game = ChessGame::new_game(board, true);
    assert!(!game.make_move_notation("e2", "d3").is_ok());
}

#[test]
fn checkmate_detection() {
    // Try to see if checkmate is detected
    let board = Board::board_from_strings([
    "........",
    "........",
    "........",
    "........",
    "........",
    "........",
    ".....PPP",
    "r......K",
    ]);
    let test_game = ChessGame::new_game(board, true);
    assert!(test_game.is_checkmate(&board, true));
    assert!(!test_game.is_stalemate(&board, true));
}

#[test]
fn stalemate_detection() {
    // Try to see if stalemate is detected
    let board = Board::board_from_strings([
    "k.......",
    "..Q.....",
    "........",
    "........",
    "..K.....",
    "........",
    "........",
    "........",
    ]);
    let test_game = ChessGame::new_game(board, true);
    assert!(test_game.is_stalemate(&board, false));
    assert!(!test_game.is_checkmate(&board, false));
}

#[test]
fn en_passant() {
    // Try to see if en_passant capture works
    let board = Board::board_from_strings([
    "........",
    "........",
    "........",
    "........",
    "...p....",
    "........",
    "....P...",
    "........",
    ]);
    let mut game = ChessGame::new_game(board, true);
    assert!(game.make_move_notation("e2", "e4").is_ok());
    assert!(game.make_move_notation("d4", "e3").is_ok());
    assert!(game.board().get_piece_square(&Square::new_square_from_notation_str("e3").unwrap()).is_some());
    assert!(game.board().get_piece_square(&Square::new_square_from_notation_str("e4").unwrap()).is_none());
    assert!(game.board().get_piece_square(&Square::new_square_from_notation_str("d4").unwrap()).is_none());
}

#[test]
fn fifty_move_rule_tie() {
    // Moves knight back and forth 50 times to see if counts as tie
    let board = Board::board_from_strings([
    ".n......",
    "........",
    "........",
    "........",
    "........",
    "........",
    "........",
    ".N......",
    ]);
    let mut game = ChessGame::new_game(board, true);
    assert!(!game.in_tie());

    // Makes 49 moves aka 98 turns
    let mut forward_turn = true;
    for _ in 0..49 {
        let (white_from, white_to) = if forward_turn { ("b1", "c3") } else { ("c3", "b1") };
        let (black_from, black_to) = if forward_turn { ("b8", "c6") } else { ("c6", "b8") };

        assert!(game.make_move_notation(white_from, white_to).is_ok());
        assert!(game.make_move_notation(black_from, black_to).is_ok());

        forward_turn = !forward_turn;
    }
    // Checks that game is not in tie after 49 moves
    assert!(!game.in_tie());

    // Makes 50th move
    let (white_from, white_to) = if forward_turn { ("b1", "c3") } else { ("c3", "b1") };
    let (black_from, black_to) = if forward_turn { ("b8", "c6") } else { ("c6", "b8") };

    assert!(game.make_move_notation(white_from, white_to).is_ok());
    assert!(game.make_move_notation(black_from, black_to).is_ok());

    // Checks that game IS tie after 50 moves
    assert!(game.in_tie());
}

#[test]
fn castle_kingside() {
    // Try to see if kingside castling works
    let board = Board::board_from_strings([
    "....k..r",
    "........",
    "......R.",
    "........",
    "........",
    "........",
    "........",
    "....K..R",
    ]);
    let mut game = ChessGame::new_game(board, true);
    // Moves are valid
    assert!(game.make_move_notation("e1", "g1").is_ok());
    assert!(!game.make_move_notation("e8", "g8").is_ok());
    
    // Makes castling move
    let _ = game.make_move_notation("e1", "g1");
    let _ = game.make_move_notation("e8", "g8");

    // White
    assert!(game.board().get_piece_square(&Square::new_square_from_notation_str("g1").unwrap()).is_some()); // King 
    assert!(game.board().get_piece_square(&Square::new_square_from_notation_str("f1").unwrap()).is_some()); // Rook
    assert!(game.board().get_piece_square(&Square::new_square_from_notation_str("e1").unwrap()).is_none()); // Empty
    assert!(game.board().get_piece_square(&Square::new_square_from_notation_str("h1").unwrap()).is_none()); // Empty
    // Black
    assert!(!game.board().get_piece_square(&Square::new_square_from_notation_str("g8").unwrap()).is_some()); // King 
    assert!(!game.board().get_piece_square(&Square::new_square_from_notation_str("f8").unwrap()).is_some()); // Rook
    assert!(!game.board().get_piece_square(&Square::new_square_from_notation_str("e8").unwrap()).is_none()); // Empty
    assert!(!game.board().get_piece_square(&Square::new_square_from_notation_str("h8").unwrap()).is_none()); // Empty
}

#[test]
fn castle_queenside() {
    // Try to see if queenside castling works
    let board = Board::board_from_strings([
    "r...k...",
    "........",
    "........",
    "........",
    "........",
    "..r.....",
    "........",
    "R...K...",
    ]);
    let mut game = ChessGame::new_game(board, false);
    // Moves are valid
    assert!(game.make_move_notation("e8", "c8").is_ok());
    assert!(!game.make_move_notation("e1", "c1").is_ok());

    // Makes castling move
    let _ = game.make_move_notation("e8", "c8");
    let _ = game.make_move_notation("e1", "c1");

    // Black
    assert!(game.board().get_piece_square(&Square::new_square_from_notation_str("c8").unwrap()).is_some()); // King
    assert!(game.board().get_piece_square(&Square::new_square_from_notation_str("d8").unwrap()).is_some()); // Rook
    assert!(game.board().get_piece_square(&Square::new_square_from_notation_str("e8").unwrap()).is_none()); // Empty
    assert!(game.board().get_piece_square(&Square::new_square_from_notation_str("a8").unwrap()).is_none()); // Empty
    // White
    assert!(!game.board().get_piece_square(&Square::new_square_from_notation_str("c1").unwrap()).is_some()); // King
    assert!(!game.board().get_piece_square(&Square::new_square_from_notation_str("d1").unwrap()).is_some()); // Rook
    assert!(!game.board().get_piece_square(&Square::new_square_from_notation_str("e1").unwrap()).is_none()); // Empty
    assert!(!game.board().get_piece_square(&Square::new_square_from_notation_str("a1").unwrap()).is_none()); // Empty
}

#[test]
fn white_queen_promotion() {
    // Try to see if pawn promotion works
    let board = Board::board_from_strings([
    "........",
    "....P...",
    "........",
    "........",
    "........",
    "........",
    "........",
    "........",
    ]);
    let mut game = ChessGame::new_game(board, true);
    // Can't make promotion move if promotion piece is not given
    assert!(!game.make_move_notation("e7", "e8").is_ok());
    // Works if promotion given
    assert!(game.make_promotion_notation("e7", "e8", PieceType::Queen).is_ok());

    assert!(game.board().get_piece_square(&Square::new_square_from_notation_str("e7").unwrap()).is_none()); // Empty
    assert_eq!(game.board().get_piece_file_rank(4, 7).unwrap().piece_type(), PieceType::Queen); // Queen
    assert!(game.board().get_piece_file_rank(4, 7).unwrap().is_white()); // Same color
}

#[test]
fn black_knight_promotion() {
    // Try to see if pawn promotion works
    let board = Board::board_from_strings([
    "........",
    "........",
    "........",
    "........",
    "........",
    "........",
    "....p...",
    "........",
    ]);
    let mut game = ChessGame::new_game(board, false);
    // Can't make promotion move if promotion piece is not given
    assert!(!game.make_move_notation("e2", "e1").is_ok());
    // Works if promotion given
    assert!(game.make_promotion_notation("e2", "e1", PieceType::Knight).is_ok());

    assert!(game.board().get_piece_file_rank(4, 1).is_none()); // Empty
    assert_eq!(game.board().get_piece_file_rank(4, 0).unwrap().piece_type(), PieceType::Knight); // Knight
    assert!(!game.board().get_piece_file_rank(4, 0).unwrap().is_white()); // Same color
}
