use chess_box::board::{Board, Square};
use chess_box::pieces::PieceType;

#[test]
fn first_square() {
    let sq = Square::new_square_from_index(0, 0).unwrap();
    let rook = Board::new_starting_board().get_piece_square(&sq).unwrap();
    assert!(rook.is_white());
    assert!(rook.piece_type() == PieceType::Rook);
    let s: String = sq.into();
    assert_eq!(s, "A1");
}

#[test]
fn pawn_square() {
    let sq = Square::new_square_from_index(3, 6).unwrap();
    let rook = Board::new_starting_board().get_piece_square(&sq).unwrap();
    assert!(!rook.is_white());
    assert!(rook.piece_type() == PieceType::Pawn);
    let s: String = sq.into();
    assert_eq!(s, "D7");
}

#[test]
fn back_and_forwth() {
    for n in 0..7 {
        for m in 0..7 {
            let sq = Square::new_square_from_index(n, m).unwrap();
            let c: String = sq.into();
            let sq2 = Square::try_from(c.as_str()).unwrap();
            assert_eq!(sq, sq2);
        }
    }
}
