use chess_box::board::{Board, Square};
use chess_box::game::{ChessGame, MoveError};
use chess_box::moves::Move;
use chess_box::pieces::{ChessPiece, PieceType};

fn sq(name: &str) -> Square {
    Square::new_square_from_notation_str(name).unwrap()
}

fn empty_rows() -> [&'static str; 8] {
    ["........"; 8]
}

#[test]
fn index_bounds() {
    assert!(Square::new_square_from_index(0, 0).is_some());
    assert!(Square::new_square_from_index(7, 7).is_some());
    assert!(Square::new_square_from_index(8, 0).is_none());
    assert!(Square::new_square_from_index(0, 8).is_none());
    assert!(Square::new_square_from_index(-1, 3).is_none());
    let s = Square::new_square_from_index(4, 2).unwrap();
    assert_eq!(s.file(), 4);
    assert_eq!(s.rank(), 2);
}

#[test]
fn notation_reading() {
    let e4 = sq("e4");
    assert_eq!((e4.file(), e4.rank()), (4, 3));
    let h8 = sq("h8");
    assert_eq!((h8.file(), h8.rank()), (7, 7));
    assert!(Square::new_square_from_notation_str("").is_none());
    assert!(Square::new_square_from_notation_str("e44").is_none());
    assert!(Square::new_square_from_notation_str("i1").is_none());
    assert!(Square::new_square_from_notation_str("a0").is_none());
    assert!(Square::new_square_from_notation_str("a9").is_none());
    assert!(Square::new_square_from_notation_str("E4").is_none());
}

#[test]
fn square_names() {
    let s: String = sq("h8").into();
    assert_eq!(s, "H8");
    let s: String = sq("c5").into();
    assert_eq!(s, "C5");
    assert_eq!(Square::try_from("H8").unwrap(), sq("h8"));
    assert!(Square::try_from("h8").is_err());
    assert!(Square::try_from("A9").is_err());
    assert!(Square::try_from("I1").is_err());
    assert!(Square::try_from("A10").is_err());
    assert!(Square::try_from("A").is_err());
    assert!(Square::try_from("").is_err());
}

#[test]
fn square_name_round_trip_all() {
    for f in 0..8 {
        for r in 0..8 {
            let s = Square::new_square_from_index(f, r).unwrap();
            let name: String = s.into();
            assert_eq!(Square::try_from(name.as_str()).unwrap(), s);
        }
    }
}

#[test]
fn piece_letters() {
    let k = ChessPiece::piece_from_letter('K', false).unwrap();
    assert_eq!(k.piece_type(), PieceType::King);
    assert!(k.is_white());
    assert!(!k.has_moved());
    let n = ChessPiece::piece_from_letter('n', true).unwrap();
    assert_eq!(n.piece_type(), PieceType::Knight);
    assert!(!n.is_white());
    assert!(n.has_moved());
    assert!(ChessPiece::piece_from_letter('x', false).is_none());
    assert!(ChessPiece::piece_from_letter('.', false).is_none());
    assert_eq!(ChessPiece::letter_from_piece(None), '.');
    assert_eq!(ChessPiece::letter_from_piece(Some(k)), 'K');
    assert_eq!(ChessPiece::letter_from_piece(Some(n)), 'n');
    for c in ['p', 'n', 'b', 'r', 'q', 'k', 'P', 'N', 'B', 'R', 'Q', 'K'] {
        let p = ChessPiece::piece_from_letter(c, false);
        assert_eq!(ChessPiece::letter_from_piece(p), c);
    }
}

#[test]
fn moved_flag() {
    let mut p = ChessPiece::new(PieceType::Rook, false, false).unwrap();
    p.has_moved_true();
    assert!(p.has_moved());
    assert_eq!(p.piece_type(), PieceType::Rook);
    assert!(!p.is_white());
}

#[test]
fn starting_layout() {
    let board = Board::new_starting_board();
    let expected = ["RNBQKBNR", "PPPPPPPP", "........", "........", "........", "........", "pppppppp", "rnbqkbnr"];
    for r in 0..8 {
        for f in 0..8 {
            let letter = ChessPiece::letter_from_piece(board.get_piece_file_rank(f, r));
            assert_eq!(letter, expected[r as usize].as_bytes()[f as usize] as char);
        }
    }
}

#[test]
fn empty_board_is_empty() {
    let board = Board::new_empty_board();
    for f in 0..8 {
        for r in 0..8 {
            assert!(board.get_piece_file_rank(f, r).is_none());
        }
    }
}

#[test]
fn set_then_get() {
    let mut board = Board::new_empty_board();
    let q = ChessPiece::new(PieceType::Queen, true, false);
    board.set_piece_square(&sq("d4"), q);
    assert_eq!(board.get_piece_square(&sq("d4")).unwrap().piece_type(), PieceType::Queen);
    assert!(board.get_piece_square(&sq("d5")).is_none());
    board.set_piece_square(&sq("d4"), None);
    assert!(board.get_piece_square(&sq("d4")).is_none());
}

#[test]
fn carry_piece() {
    let mut board = Board::new_starting_board();
    board.move_piece_square(&sq("e2"), &sq("e7"));
    assert!(board.get_piece_square(&sq("e2")).is_none());
    let p = board.get_piece_square(&sq("e7")).unwrap();
    assert!(p.is_white());
    assert_eq!(p.piece_type(), PieceType::Pawn);
    board.move_piece_square(&sq("a1"), &sq("a1"));
    assert_eq!(board.get_piece_square(&sq("a1")).unwrap().piece_type(), PieceType::Rook);
}

#[test]
fn colours_and_captures() {
    let board = Board::new_starting_board();
    assert!(board.is_same_color(&sq("a1"), &sq("h2")));
    assert!(!board.is_same_color(&sq("a1"), &sq("a8")));
    assert!(!board.is_same_color(&sq("a1"), &sq("a4")));
    assert!(board.would_be_capture(&sq("a1"), &sq("a8")));
    assert!(!board.would_be_capture(&sq("a1"), &sq("a2")));
    assert!(!board.would_be_capture(&sq("a1"), &sq("a4")));
    assert!(board.would_be_capture(&sq("a4"), &sq("a8")));
}

#[test]
fn fifty_counter_steps() {
    let board = Board::new_starting_board();
    let mut m = Move::new_move();
    assert_eq!(m.get_fifty_increment(), 0);
    m.fifty_handler(&board, &sq("b1"), &sq("c3"));
    m.fifty_handler(&board, &sq("g1"), &sq("f3"));
    assert_eq!(m.get_fifty_increment(), 2);
    m.fifty_handler(&board, &sq("e2"), &sq("e4"));
    assert_eq!(m.get_fifty_increment(), 0);
    m.fifty_handler(&board, &sq("b1"), &sq("c3"));
    m.fifty_handler(&board, &sq("a1"), &sq("a8"));
    assert_eq!(m.get_fifty_increment(), 0);
}

#[test]
fn en_passant_queries() {
    let mut rows = empty_rows();
    rows[3] = "...pP...";
    let board = Board::board_from_strings(rows);
    let mut m = Move::new_move();
    assert!(!m.is_valid_en_passant_capture(&board, &sq("e5"), &sq("d6")));
    m.set_en_passant_square(Some(sq("d6")));
    assert!(m.is_valid_en_passant_capture(&board, &sq("e5"), &sq("d6")));
    assert!(m.check_move(&board, &sq("e5"), &sq("d6")));
    assert!(!m.is_valid_en_passant_capture(&board, &sq("e5"), &sq("f6")));
    let start = Board::new_starting_board();
    assert!(m.is_valid_en_passant_setup(&start, &sq("e2"), &sq("e4")));
    assert!(!m.is_valid_en_passant_setup(&start, &sq("e2"), &sq("e3")));
    assert!(m.is_valid_en_passant_setup(&start, &sq("d7"), &sq("d5")));
    assert!(!m.is_valid_en_passant_setup(&start, &sq("b1"), &sq("b3")));
}

#[test]
fn promotion_query() {
    let mut rows = empty_rows();
    rows[1] = "P.......";
    let board = Board::board_from_strings(rows);
    let m = Move::new_move();
    assert!(m.is_valid_promotion(&board, &sq("a7"), &sq("a8")));
    assert!(!m.is_valid_promotion(&board, &sq("a7"), &sq("b8")));
    assert!(!m.is_valid_promotion(&board, &sq("b7"), &sq("b8")));
}

#[test]
fn castling_queries() {
    let board = Board::board_from_strings(["r...k..r", "........", "........", "........", "........", "........", "........", "R...K..R"]);
    let m = Move::new_move();
    assert!(m.is_valid_castle(&board, &sq("e1"), &sq("g1")));
    assert!(m.is_valid_castle(&board, &sq("e1"), &sq("c1")));
    assert!(m.is_valid_castle(&board, &sq("e8"), &sq("g8")));
    assert!(!m.is_valid_castle(&board, &sq("e1"), &sq("f1")));
    assert!(!m.is_valid_castle(&board, &sq("a1"), &sq("c1")));
    let blocked = Board::board_from_strings(["....k...", "........", "........", "........", "........", "........", "........", "RN..K.NR"]);
    assert!(!m.is_valid_castle(&blocked, &sq("e1"), &sq("g1")));
    assert!(!m.is_valid_castle(&blocked, &sq("e1"), &sq("c1")));
}

#[test]
fn kings_facing_on_one_rank() {
    // Two unmoved kings two files apart "attack" each other by castling;
    // the search stays bounded and finds no check.
    let mut rows = empty_rows();
    rows[7] = "K.k.....";
    let board = Board::board_from_strings(rows);
    let game = ChessGame::new_game(board, true);
    assert!(!game.in_check());
    let game = ChessGame::new_game(board, false);
    assert!(!game.in_check());
}

#[test]
fn turn_texts() {
    let mut game = ChessGame::new_standard_game();
    assert!(game.is_white_turn());
    assert_eq!(game.turn_text(), "White's turn");
    assert!(game.make_move_notation("e2", "e4").is_ok());
    assert!(!game.is_white_turn());
    assert_eq!(game.turn_text(), "Black's turn");
}

#[test]
fn standard_game_start() {
    let game = ChessGame::new_standard_game();
    let king = game.board().get_piece_square(&Square::new_square_from_index(4, 0).unwrap()).unwrap();
    assert!(king.is_white());
    assert_eq!(king.piece_type(), PieceType::King);
    assert!(!game.in_check());
    assert!(!game.in_checkmate());
    assert!(!game.in_stalemate());
    assert!(!game.in_tie());
}

#[test]
fn every_refusal() {
    let mut game = ChessGame::new_standard_game();
    assert_eq!(game.make_move_notation("z9", "e4"), Err(MoveError::InvalidNotation));
    assert_eq!(game.make_move_notation("e2", "e"), Err(MoveError::InvalidNotation));
    assert_eq!(game.make_move(None, Some(sq("e4"))), Err(MoveError::InvalidNotation));
    assert_eq!(game.make_move_notation("e4", "e5"), Err(MoveError::EmptySquare));
    assert_eq!(game.make_move_notation("e7", "e5"), Err(MoveError::NotYourPiece));
    assert_eq!(game.make_move_notation("a1", "a2"), Err(MoveError::CantSelfHarm));
    assert_eq!(game.make_move_notation("e2", "e5"), Err(MoveError::IllegalMove));
    assert!(game.is_white_turn());
    assert!(game.board().get_piece_square(&sq("e2")).is_some());
    let pinned = Board::board_from_strings(["....r...", "........", "........", "........", "........", "........", "....B...", "....K..."]);
    let mut game = ChessGame::new_game(pinned, true);
    assert_eq!(game.make_move_notation("e2", "d3"), Err(MoveError::HangsKing));
    assert!(game.board().get_piece_square(&sq("e2")).is_some());
    let mut rows = empty_rows();
    rows[1] = "P.......";
    let mut game = ChessGame::new_game(Board::board_from_strings(rows), true);
    assert_eq!(game.make_move_notation("a7", "a8"), Err(MoveError::InvalidPromotion));
    assert_eq!(game.make_promotion_notation("a7", "a8", PieceType::King), Err(MoveError::InvalidPromotion));
    assert_eq!(game.make_promotion_notation("a7", "a8", PieceType::Pawn), Err(MoveError::InvalidPromotion));
    assert!(game.board().get_piece_square(&sq("a7")).is_some());
    assert!(game.is_white_turn());
    assert!(game.make_promotion_move(Some(sq("a7")), Some(sq("a8")), PieceType::Rook).is_ok());
    let rook = game.board().get_piece_square(&sq("a8")).unwrap();
    assert_eq!(rook.piece_type(), PieceType::Rook);
    assert!(rook.has_moved());
}

#[test]
fn accepted_move_effects() {
    let mut game = ChessGame::new_standard_game();
    assert!(game.make_move(Some(sq("g1")), Some(sq("f3"))).is_ok());
    assert!(game.board().get_piece_square(&sq("g1")).is_none());
    let knight = game.board().get_piece_square(&sq("f3")).unwrap();
    assert_eq!(knight.piece_type(), PieceType::Knight);
    assert!(knight.is_white());
    assert!(knight.has_moved());
    assert!(!game.is_white_turn());
}

#[test]
fn castling_moves_rook() {
    let board = Board::board_from_strings(["....k...", "........", "........", "........", "........", "........", "........", "R...K..."]);
    let mut game = ChessGame::new_game(board, true);
    assert!(game.make_move_notation("e1", "c1").is_ok());
    assert_eq!(game.board().get_piece_square(&sq("c1")).unwrap().piece_type(), PieceType::King);
    assert_eq!(game.board().get_piece_square(&sq("d1")).unwrap().piece_type(), PieceType::Rook);
    assert!(game.board().get_piece_square(&sq("a1")).is_none());
    assert!(game.board().get_piece_square(&sq("e1")).is_none());
}

#[test]
fn fools_mate() {
    let mut game = ChessGame::new_standard_game();
    assert!(game.make_move_notation("f2", "f3").is_ok());
    assert!(game.make_move_notation("e7", "e5").is_ok());
    assert!(game.make_move_notation("g2", "g4").is_ok());
    assert!(game.make_move_notation("d8", "h4").is_ok());
    assert!(game.in_check());
    assert!(game.in_checkmate());
    assert!(!game.in_stalemate());
}

#[test]
fn en_passant_exposing_king_is_refused() {
    // Taking e5 en passant would open rank 5 from the rook on h5 to the king on a5.
    let e = "........";
    let board = Board::board_from_strings([e, "....p...", e, "K..P...r", e, e, e, e]);
    let mut game = ChessGame::new_game(board, false);
    assert!(game.make_move_notation("e7", "e5").is_ok());
    assert_eq!(game.make_move_notation("d5", "e6"), Err(MoveError::HangsKing));
    assert!(game.is_white_turn());
    assert_eq!(game.board().get_piece_square(&sq("d5")).unwrap().piece_type(), PieceType::Pawn);
    assert_eq!(game.board().get_piece_square(&sq("e5")).unwrap().piece_type(), PieceType::Pawn);
    assert!(game.board().get_piece_square(&sq("e6")).is_none());
    assert!(!game.in_check());
}

#[test]
fn castling_next_to_the_corner() {
    let e = "........";
    let m = Move::new_move();
    // King on f1, rook on h1: only g1 lies between them and is tested.
    let board = Board::board_from_strings(["r......k", e, e, e, e, e, e, ".....K.R"]);
    assert!(m.is_valid_castle(&board, &sq("f1"), &sq("h1")));
    assert!(m.check_move(&board, &sq("f1"), &sq("h1")));
    // A rook on h8 attacks h1, the rook's own corner, which is not tested.
    let board = Board::board_from_strings(["k......r", e, e, e, e, e, e, ".....K.R"]);
    assert!(m.is_valid_castle(&board, &sq("f1"), &sq("h1")));
    // A rook on g8 attacks g1, which the king passes over.
    let board = Board::board_from_strings(["k.....r.", e, e, e, e, e, e, ".....K.R"]);
    assert!(!m.is_valid_castle(&board, &sq("f1"), &sq("h1")));
    // King on c1, rook on a1: b1 is tested.
    let board = Board::board_from_strings([e, e, e, e, e, e, e, "R.K....k"]);
    assert!(m.is_valid_castle(&board, &sq("c1"), &sq("a1")));
    let board = Board::board_from_strings([".r.....k", e, e, e, e, e, e, "R.K....."]);
    assert!(!m.is_valid_castle(&board, &sq("c1"), &sq("a1")));
    // In a game the move lands on the mover's own rook and is refused.
    let board = Board::board_from_strings([e, e, e, e, e, e, e, "R.K....k"]);
    let mut game = ChessGame::new_game(board, true);
    assert_eq!(game.make_move_notation("c1", "a1"), Err(MoveError::CantSelfHarm));
    assert!(game.is_white_turn());
    assert_eq!(game.board().get_piece_square(&sq("c1")).unwrap().piece_type(), PieceType::King);
    assert_eq!(game.board().get_piece_square(&sq("a1")).unwrap().piece_type(), PieceType::Rook);
}

#[test]
fn refused_promotion_keeps_the_move_counter() {
    let e = "........";
    let board = Board::board_from_strings([".n......", "P.......", e, e, e, e, e, ".N......"]);
    let mut game = ChessGame::new_game(board, true);
    let mut forward_turn = true;
    for _ in 0..49 {
        let (white_from, white_to) = if forward_turn { ("b1", "c3") } else { ("c3", "b1") };
        let (black_from, black_to) = if forward_turn { ("b8", "c6") } else { ("c6", "b8") };
        assert!(game.make_move_notation(white_from, white_to).is_ok());
        assert!(game.make_move_notation(black_from, black_to).is_ok());
        forward_turn = !forward_turn;
    }
    assert!(!game.in_tie());
    // The pawn move would reset the counter, but it is refused and not made.
    assert_eq!(game.make_move_notation("a7", "a8"), Err(MoveError::InvalidPromotion));
    assert!(game.is_white_turn());
    assert!(game.make_move_notation("c3", "b1").is_ok());
    assert!(game.make_move_notation("c6", "b8").is_ok());
    assert!(game.in_tie());
}

#[test]
fn unreadable_notation_is_refused() {
    assert!(Square::new_square_from_notation_str("ex").is_none());
    assert!(Square::new_square_from_notation_str("é").is_none());
    let mut game = ChessGame::new_standard_game();
    assert_eq!(game.make_move_notation("e2", "ex"), Err(MoveError::InvalidNotation));
    assert_eq!(game.make_move_notation("e2", "e9"), Err(MoveError::InvalidNotation));
    assert!(game.is_white_turn());
    assert!(game.board().get_piece_square(&sq("e2")).is_some());
}
