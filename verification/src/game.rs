use vstd::prelude::*;

use crate::board::{
    Board, Cells, Square, carry, cell, lemma_carry, lemma_put_then_read, on_board, parse_notation, put, same_color,
    starting_cell,
};
use crate::moves::{
    CASTLE_SEARCH_DEPTH, Move, attacked, attacked_from, castle_ok, lemma_attacked_iff_some_attacker, lemma_castling_conditions, lemma_fifty_counter, lemma_pawn_moves, lemma_landing_on_own_piece, en_passant_capture,
    en_passant_setup, fifty_after, legal_move, pawn_dir, promotion_ok, rook_file,
};
use crate::pieces::{ChessPiece, PieceType};

verus! {

/// Why a move was refused.
#[derive(Debug, PartialEq, Eq, Structural, Clone, Copy)]
pub enum MoveError {
    /// A square was not given (or its notation named no square).
    InvalidNotation,
    /// The start square is empty.
    EmptySquare,
    /// The piece on the start square belongs to the player not to move.
    NotYourPiece,
    /// The stop square holds a piece of the mover's own colour.
    CantSelfHarm,
    /// The piece may not move that way.
    IllegalMove,
    /// The move would leave the mover's king attacked.
    HangsKing,
    /// A pawn reaching the last rank needs a queen, rook, bishop or knight
    /// to turn into.
    InvalidPromotion,
}

/// What the rules look at in a game: the board, the player to move, the
/// square open to capture en passant and the fifty-move counter.
#[verifier::ext_equal]
pub struct GameState {
    pub cells: Cells,
    pub white_turn: bool,
    pub en_passant: Option<(int, int)>,
    pub fifty: int,
}

/// The fuel with which the game's checks are made (see `CASTLE_SEARCH_DEPTH`).
pub open spec fn depth() -> nat {
    CASTLE_SEARCH_DEPTH as nat
}

/// The first king of colour `white` in file-major order, searched from
/// (`f`, `r`) on, as (file, rank).
pub open spec fn king_from(b: Cells, white: bool, f: int, r: int) -> Option<(int, int)>
    decreases 64 - f * 8 - r,
{
    if !on_board(f, r) {
        None
    } else if cell(b, f, r) is Some && cell(b, f, r)->0.piece_type() == PieceType::King
        && cell(b, f, r)->0.is_white() == white {
        Some((f, r))
    } else if r < 7 {
        king_from(b, white, f, r + 1)
    } else {
        king_from(b, white, f + 1, 0)
    }
}

/// The square of the king of colour `white` that the game watches: the
/// first one in file-major order (`a1`, `a2`, ..., `h8`).
pub open spec fn king_square(b: Cells, white: bool) -> Option<(int, int)> {
    king_from(b, white, 0, 0)
}

/// The player `white` is in check: their king (see `king_square`) is
/// attacked. A side without a king is never in check.
pub open spec fn in_check_on(b: Cells, ep: Option<(int, int)>, white: bool) -> bool {
    match king_square(b, white) {
        Some((kf, kr)) => attacked(b, ep, kf, kr, white, depth()),
        None => false,
    }
}

/// The piece, marked as moved, carried from the start to the stop square.
pub open spec fn place(b: Cells, piece: ChessPiece, sf: int, sr: int, tf: int, tr: int) -> Cells {
    carry(put(b, sf, sr, Some(ChessPiece::spec_new(piece.piece_type(), piece.is_white(), true))), sf, sr, tf, tr)
}

/// A piece that a pawn may turn into.
pub open spec fn is_promotion_choice(choice: Option<PieceType>) -> bool {
    choice == Some(PieceType::Queen) || choice == Some(PieceType::Rook) || choice == Some(PieceType::Bishop)
        || choice == Some(PieceType::Knight)
}

/// The move is a pawn's step onto the last rank (and neither castling nor
/// a double step nor a capture en passant).
pub open spec fn is_promotion_move(b: Cells, ep: Option<(int, int)>, sf: int, sr: int, tf: int, tr: int) -> bool {
    &&& !castle_ok(b, ep, sf, sr, tf, tr, depth())
    &&& !en_passant_setup(b, sf, sr, tf, tr)
    &&& !en_passant_capture(b, ep, sf, sr, tf, tr)
    &&& promotion_ok(b, ep, sf, sr, tf, tr)
}

/// The board and the en passant square once the move from (`sf`, `sr`) to
/// (`tf`, `tr`) is made: a castling king takes its rook over to the square
/// it passes; a double step opens the skipped square to capture en passant;
/// a capture en passant removes the pawn beside the start square; a pawn
/// reaching the last rank turns into `promotion_choice` when that is a valid
/// choice. The moved piece is marked as moved.
pub open spec fn board_after(
    b: Cells,
    ep: Option<(int, int)>,
    sf: int,
    sr: int,
    tf: int,
    tr: int,
    promotion_choice: Option<PieceType>,
) -> (Cells, Option<(int, int)>) {
    let piece = cell(b, sf, sr)->0;
    if castle_ok(b, ep, sf, sr, tf, tr, depth()) {
        let step = if tf > sf { 1int } else { -1int };
        let rf = rook_file(step);
        let rook = cell(b, rf, sr)->0;
        let moved_rook = put(b, rf, sr, Some(ChessPiece::spec_new(rook.piece_type(), rook.is_white(), true)));
        (place(carry(moved_rook, rf, sr, tf - step, sr), piece, sf, sr, tf, tr), None)
    } else if en_passant_setup(b, sf, sr, tf, tr) {
        (place(b, piece, sf, sr, tf, tr), Some((sf, sr + pawn_dir(piece))))
    } else if en_passant_capture(b, ep, sf, sr, tf, tr) {
        (place(put(b, tf, sr, None), piece, sf, sr, tf, tr), None)
    } else if promotion_ok(b, ep, sf, sr, tf, tr) && is_promotion_choice(promotion_choice) {
        (place(b, ChessPiece::spec_new(promotion_choice->0, piece.is_white(), false), sf, sr, tf, tr), None)
    } else {
        (place(b, piece, sf, sr, tf, tr), None)
    }
}

/// Making the move (with `promotion_choice` for a pawn reaching the last
/// rank) would leave the player `white` in check.
pub open spec fn hangs(
    b: Cells,
    ep: Option<(int, int)>,
    sf: int,
    sr: int,
    tf: int,
    tr: int,
    white: bool,
    promotion_choice: Option<PieceType>,
) -> bool {
    let (after, after_ep) = board_after(b, ep, sf, sr, tf, tr, promotion_choice);
    in_check_on(after, after_ep, white)
}

/// A move of a piece of the player `white` that its movement rules allow and
/// that does not leave that player in check (a pawn reaching the last rank
/// turning into a queen).
pub open spec fn safe_move(b: Cells, ep: Option<(int, int)>, white: bool, sf: int, sr: int, tf: int, tr: int) -> bool {
    &&& on_board(sf, sr)
    &&& on_board(tf, tr)
    &&& cell(b, sf, sr) is Some
    &&& cell(b, sf, sr)->0.is_white() == white
    &&& legal_move(b, ep, sf, sr, tf, tr, depth())
    &&& !hangs(b, ep, sf, sr, tf, tr, white, Some(PieceType::Queen))
}

/// The player `white` has a move (see `safe_move`).
pub open spec fn has_safe_move(b: Cells, ep: Option<(int, int)>, white: bool) -> bool {
    exists|sf: int, sr: int, tf: int, tr: int| #[trigger] safe_move(b, ep, white, sf, sr, tf, tr)
}

/// In check and without a move.
pub open spec fn checkmate_on(b: Cells, ep: Option<(int, int)>, white: bool) -> bool {
    in_check_on(b, ep, white) && !has_safe_move(b, ep, white)
}

/// Not in check and without a move.
pub open spec fn stalemate_on(b: Cells, ep: Option<(int, int)>, white: bool) -> bool {
    !in_check_on(b, ep, white) && !has_safe_move(b, ep, white)
}

/// The squares of an optional square, as (file, rank).
pub open spec fn coords(square: Option<Square>) -> Option<(int, int)> {
    match square {
        Some(sq) => Some((sq.file() as int, sq.rank() as int)),
        None => None,
    }
}

/// The first check that refuses a move from (`sf`, `sr`) to (`tf`, `tr`),
/// if any: the order is empty start square, wrong colour, own piece on the
/// stop square, movement rules, own king left attacked.
pub open spec fn refusal(
    g: GameState,
    sf: int,
    sr: int,
    tf: int,
    tr: int,
    promotion_choice: Option<PieceType>,
) -> Option<MoveError> {
    if cell(g.cells, sf, sr) is None {
        Some(MoveError::EmptySquare)
    } else if cell(g.cells, sf, sr)->0.is_white() != g.white_turn {
        Some(MoveError::NotYourPiece)
    } else if same_color(g.cells, sf, sr, tf, tr) {
        Some(MoveError::CantSelfHarm)
    } else if !legal_move(g.cells, g.en_passant, sf, sr, tf, tr, depth()) {
        Some(MoveError::IllegalMove)
    } else if hangs(g.cells, g.en_passant, sf, sr, tf, tr, g.white_turn, promotion_choice) {
        Some(MoveError::HangsKing)
    } else {
        None
    }
}

/// The outcome of a move that the checks of `refusal` let through: a pawn
/// reaching the last rank without a valid promotion choice is refused and
/// the state stays as it was; any other move is made (see `board_after`),
/// the fifty-move counter is updated and the other player is to move.
pub open spec fn accepted_move(
    g: GameState,
    sf: int,
    sr: int,
    tf: int,
    tr: int,
    promotion_choice: Option<PieceType>,
) -> (Result<(), MoveError>, GameState) {
    if is_promotion_move(g.cells, g.en_passant, sf, sr, tf, tr) && !is_promotion_choice(promotion_choice) {
        (Err(MoveError::InvalidPromotion), g)
    } else {
        let fifty = fifty_after(g.cells, sf, sr, tf, tr, g.fifty);
        let (after, after_ep) = board_after(g.cells, g.en_passant, sf, sr, tf, tr, promotion_choice);
        (Ok(()), GameState { cells: after, white_turn: !g.white_turn, en_passant: after_ep, fifty })
    }
}

/// The outcome of asking for the move from `start` to `stop`: the result,
/// and the state afterwards. A refused move leaves the state as it was.
pub open spec fn move_outcome(
    g: GameState,
    start: Option<(int, int)>,
    stop: Option<(int, int)>,
    promotion_choice: Option<PieceType>,
) -> (Result<(), MoveError>, GameState) {
    match (start, stop) {
        (Some((sf, sr)), Some((tf, tr))) => match refusal(g, sf, sr, tf, tr, promotion_choice) {
            Some(e) => (Err(e), g),
            None => accepted_move(g, sf, sr, tf, tr, promotion_choice),
        },
        _ => (Err(MoveError::InvalidNotation), g),
    }
}

/// The move counter does not overflow: an accepted move that counts up
/// starts from a counter below 255.
pub open spec fn counter_fits(
    g: GameState,
    start: Option<(int, int)>,
    stop: Option<(int, int)>,
    promotion_choice: Option<PieceType>,
) -> bool {
    match (start, stop) {
        (Some((sf, sr)), Some((tf, tr))) => refusal(g, sf, sr, tf, tr, promotion_choice) is Some
            || fifty_after(g.cells, sf, sr, tf, tr, g.fifty) <= 255,
        _ => true,
    }
}

/// A game: the board, whose turn it is, and the movement rules' state.
#[derive(Clone, Copy, Debug)]
pub struct ChessGame {
    pub(crate) board_state: Board,
    pub(crate) is_white_turn: bool,
    pub(crate) movement_logic: Move,
}

impl ChessGame {
    /// The game's state as the rules see it.
    pub open(crate) spec fn state(&self) -> GameState {
        GameState {
            cells: self.board_state.cells(),
            white_turn: self.is_white_turn,
            en_passant: self.movement_logic.en_passant(),
            fifty: self.movement_logic.get_fifty_increment() as int,
        }
    }

    pub open(crate) spec fn spec_is_white_turn(&self) -> bool {
        self.is_white_turn
    }

    /// A game from the given board with the given player to move; no en
    /// passant square, the move counter at 0.
    pub fn new_game(board_state: Board, is_white_turn: bool) -> (res: Self)
        ensures
            res.state() == (GameState {
                cells: board_state.cells(),
                white_turn: is_white_turn,
                en_passant: None,
                fifty: 0,
            }),
    {
        Self { board_state, is_white_turn, movement_logic: Move::new_move() }
    }

    /// A game from the standard starting position, white to move.
    pub fn new_standard_game() -> (res: Self)
        ensures
            forall|file: int, rank: int|
                on_board(file, rank) ==> #[trigger] cell(res.state().cells, file, rank) == starting_cell(
                    file,
                    rank,
                ),
            res.state().white_turn,
            res.state().en_passant is None,
            res.state().fifty == 0,
    {
        Self { board_state: Board::new_starting_board(), is_white_turn: true, movement_logic: Move::new_move() }
    }

    /// The current board.
    pub fn board(&self) -> (res: &Board)
        ensures
            res.cells() == self.state().cells,
    {
        &self.board_state
    }

    /// Whether white is to move.
    #[verifier::when_used_as_spec(spec_is_white_turn)]
    pub fn is_white_turn(&self) -> (res: bool)
        ensures
            res == self.spec_is_white_turn(),
            res == self.state().white_turn,
    {
        self.is_white_turn
    }

    /// A line naming the player to move.
    pub fn turn_text(&self) -> (res: &str)
        ensures
            res@ == (if self.state().white_turn { "White's turn"@ } else { "Black's turn"@ }),
    {
        if self.is_white_turn() {
            return "White's turn";
        } else {
            return "Black's turn";
        }
    }

    /// A draw by the fifty-move rule: a hundred moves in a row without a
    /// capture or a pawn move.
    pub fn in_tie(&self) -> (res: bool)
        ensures
            res == (self.state().fifty >= 100),
    {
        return self.movement_logic.get_fifty_increment() >= 100;
    }
}

impl ChessGame {
    /// The first square, in file-major order, holding a king of colour
    /// `is_white` (see `king_square`).
    fn find_king(board: &Board, is_white: bool) -> (res: Option<Square>)
        ensures
            coords(res) == king_square(board.cells(), is_white),
    {
        let ghost b = board.cells();
        let mut file: i8 = 0;
        while file < 8
            invariant
                0 <= file <= 8,
                b == board.cells(),
                king_square(b, is_white) == king_from(b, is_white, file as int, 0),
            decreases 8 - file,
        {
            let mut rank: i8 = 0;
            while rank < 8
                invariant
                    0 <= file < 8,
                    0 <= rank <= 8,
                    b == board.cells(),
                    rank < 8 ==> king_square(b, is_white) == king_from(b, is_white, file as int, rank as int),
                    rank == 8 ==> king_square(b, is_white) == king_from(b, is_white, file + 1, 0),
                decreases 8 - rank,
            {
                match board.get_piece_file_rank(file, rank) {
                    Some(piece) => if piece.piece_type() == PieceType::King && piece.is_white() == is_white {
                        return Square::new_square_from_index(file, rank);
                    },
                    None => {},
                }
                rank += 1;
            }
            file += 1;
        }
        return None;
    }

    /// Whether some piece not of colour `is_white` may move onto
    /// `attacked_square` (see `attacked`).
    fn is_attacked(&self, board: &Board, attacked_square: &Square, is_white: bool) -> (res: bool)
        ensures
            res == attacked(board.cells(), self.state().en_passant, attacked_square.file() as int,
                attacked_square.rank() as int, is_white, depth()),
    {
        let ghost b = board.cells();
        let ghost ep = self.state().en_passant;
        let ghost (qf, qr) = (attacked_square.file() as int, attacked_square.rank() as int);
        let ghost answer = attacked(b, ep, qf, qr, is_white, depth());
        let mut file: i8 = 0;
        while file < 8
            invariant
                0 <= file <= 8,
                b == board.cells(), ep == self.state().en_passant,
                qf == attacked_square.file(), qr == attacked_square.rank(),
                answer == attacked(b, ep, qf, qr, is_white, depth()),
                answer == attacked_from(b, ep, qf, qr, is_white, depth(), file as int, 0),
            decreases 8 - file,
        {
            let mut rank: i8 = 0;
            while rank < 8
                invariant
                    0 <= file < 8,
                    0 <= rank <= 8,
                    b == board.cells(), ep == self.state().en_passant,
                    qf == attacked_square.file(), qr == attacked_square.rank(),
                    answer == attacked(b, ep, qf, qr, is_white, depth()),
                    rank < 8 ==> answer == attacked_from(b, ep, qf, qr, is_white, depth(), file as int, rank as int),
                    rank == 8 ==> answer == attacked_from(b, ep, qf, qr, is_white, depth(), file + 1, 0),
                decreases 8 - rank,
            {
                let checking_square = Square::new_square_from_index(file, rank).unwrap();
                match board.get_piece_file_rank(file, rank) {
                    Some(piece) => if piece.is_white() == is_white {
                        rank += 1;
                        continue;
                    },
                    None => {
                        rank += 1;
                        continue;
                    },
                }
                if self.movement_logic.check_move(board, &checking_square, attacked_square) {
                    return true;
                }
                rank += 1;
            }
            file += 1;
        }
        return false;
    }

    /// Whether the player `is_white` is in check on `board` (see `in_check_on`).
    fn is_in_check(&self, board: &Board, is_white: bool) -> (res: bool)
        ensures
            res == in_check_on(board.cells(), self.state().en_passant, is_white),
    {
        match Self::find_king(board, is_white) {
            Some(king_square) => return self.is_attacked(board, &king_square, is_white),
            None => return false,
        }
    }

    /// Whether the player `is_white` is in check on `board`, with
    /// `en_passant` as the square open to capture en passant.
    fn is_in_check_with(board: &Board, en_passant: Option<Square>, is_white: bool) -> (res: bool)
        ensures
            res == in_check_on(board.cells(), coords(en_passant), is_white),
    {
        let probe = ChessGame {
            board_state: *board,
            is_white_turn: is_white,
            movement_logic: Move { en_passant_square: en_passant, since_pawn_capture: 0 },
        };
        probe.is_in_check(board, is_white)
    }

    /// The board and the en passant square once the move from `start` to
    /// `stop` is made (see `board_after`), and whether the move is a pawn
    /// reaching the last rank without a valid promotion choice.
    fn board_after_move(
        &self,
        board: &Board,
        start: &Square,
        stop: &Square,
        promotion_choice: Option<PieceType>,
    ) -> (res: (Board, Option<Square>, bool))
        requires
            cell(board.cells(), start.file() as int, start.rank() as int) is Some,
        ensures
            (res.0.cells(), coords(res.1)) == board_after(board.cells(), self.state().en_passant, start.file() as int,
                start.rank() as int, stop.file() as int, stop.rank() as int, promotion_choice),
            res.2 == (is_promotion_move(board.cells(), self.state().en_passant, start.file() as int,
                start.rank() as int, stop.file() as int, stop.rank() as int) && !is_promotion_choice(promotion_choice)),
    {
        proof {
            use_type_invariant(start);
            use_type_invariant(stop);
        }
        let mut next = *board;
        let mut piece = board.get_piece_square(start).unwrap();
        let mut en_passant: Option<Square> = None;
        let mut refused = false;
        if self.movement_logic.is_valid_castle(board, start, stop) {
            // The rook jumps over the king.
            let step: i8 = if stop.file() > start.file() { 1 } else { -1 };
            let rook_file: i8 = if step > 0 { 7 } else { 0 };
            let rook_start = Square::new_square_from_index(rook_file, start.rank()).unwrap();
            let rook_stop = Square::new_square_from_index(stop.file() - step, start.rank()).unwrap();
            let mut rook = next.get_piece_square(&rook_start).unwrap();
            rook.has_moved_true();
            next.set_piece_square(&rook_start, Some(rook));
            next.move_piece_square(&rook_start, &rook_stop);
        } else if self.movement_logic.is_valid_en_passant_setup(board, start, stop) {
            // The skipped square is open to capture en passant next move.
            let direction: i8 = if piece.is_white() { 1 } else { -1 };
            en_passant = Some(Square::new_square_from_index(start.file(), start.rank() + direction).unwrap());
        } else if self.movement_logic.is_valid_en_passant_capture(board, start, stop) {
            // The captured pawn stands beside the start square, not on the stop square.
            let captured_square = Square::new_square_from_index(stop.file(), start.rank()).unwrap();
            next.set_piece_square(&captured_square, None);
        } else if self.movement_logic.is_valid_promotion(board, start, stop) {
            let valid_choice = match promotion_choice {
                Some(PieceType::Queen) | Some(PieceType::Rook) | Some(PieceType::Bishop) | Some(PieceType::Knight) => true,
                _ => false,
            };
            if valid_choice {
                piece = ChessPiece::new(promotion_choice.unwrap(), piece.is_white(), false).unwrap();
            } else {
                refused = true;
            }
        }
        piece.has_moved_true();
        next.set_piece_square(start, Some(piece));
        next.move_piece_square(start, stop);
        (next, en_passant, refused)
    }

    /// Whether making the move from `start` to `stop` would leave the player
    /// `is_white` in check (see `hangs`).
    fn hangs_king(
        &self,
        board: &Board,
        start: &Square,
        stop: &Square,
        is_white: bool,
        promotion_choice: Option<PieceType>,
    ) -> (res: bool)
        requires
            cell(board.cells(), start.file() as int, start.rank() as int) is Some,
        ensures
            res == hangs(board.cells(), self.state().en_passant, start.file() as int, start.rank() as int,
                stop.file() as int, stop.rank() as int, is_white, promotion_choice),
    {
        let (test_board, en_passant, _) = self.board_after_move(board, start, stop, promotion_choice);
        Self::is_in_check_with(&test_board, en_passant, is_white)
    }

    /// Whether the player to move is in check.
    pub fn in_check(&self) -> (res: bool)
        ensures
            res == in_check_on(self.state().cells, self.state().en_passant, self.state().white_turn),
    {
        self.is_in_check(&self.board_state, self.is_white_turn)
    }
}

impl ChessGame {
    /// Whether the player `is_white` has a move that the movement rules
    /// allow and that does not leave them in check (see `has_safe_move`).
    fn has_legal_moves(&self, board: &Board, is_white: bool) -> (res: bool)
        ensures
            res == has_safe_move(board.cells(), self.state().en_passant, is_white),
    {
        let ghost b = board.cells();
        let ghost ep = self.state().en_passant;
        let mut file: i8 = 0;
        while file < 8
            invariant
                0 <= file <= 8,
                b == board.cells(), ep == self.state().en_passant,
                forall|sf: int, sr: int, tf: int, tr: int|
                    sf < file ==> !#[trigger] safe_move(b, ep, is_white, sf, sr, tf, tr),
            decreases 8 - file,
        {
            let mut rank: i8 = 0;
            while rank < 8
                invariant
                    0 <= file < 8,
                    0 <= rank <= 8,
                    b == board.cells(), ep == self.state().en_passant,
                    forall|sf: int, sr: int, tf: int, tr: int|
                        sf < file || (sf == file && sr < rank) ==> !#[trigger] safe_move(b, ep, is_white, sf, sr, tf, tr),
                decreases 8 - rank,
            {
                let checking_square = Square::new_square_from_index(file, rank).unwrap();
                match board.get_piece_file_rank(file, rank) {
                    Some(piece) => if piece.is_white() == !is_white {
                        rank += 1;
                        continue;
                    },
                    None => {
                        rank += 1;
                        continue;
                    },
                }
                let mut dest_file: i8 = 0;
                while dest_file < 8
                    invariant
                        0 <= file < 8,
                        0 <= rank < 8,
                        0 <= dest_file <= 8,
                        b == board.cells(), ep == self.state().en_passant,
                        checking_square.file() == file, checking_square.rank() == rank,
                        cell(b, file as int, rank as int) is Some,
                        cell(b, file as int, rank as int)->0.is_white() == is_white,
                        forall|sf: int, sr: int, tf: int, tr: int|
                            sf < file || (sf == file && sr < rank) || (sf == file && sr == rank && tf < dest_file)
                                ==> !#[trigger] safe_move(b, ep, is_white, sf, sr, tf, tr),
                    decreases 8 - dest_file,
                {
                    let mut dest_rank: i8 = 0;
                    while dest_rank < 8
                        invariant
                            0 <= file < 8,
                            0 <= rank < 8,
                            0 <= dest_file < 8,
                            0 <= dest_rank <= 8,
                            b == board.cells(), ep == self.state().en_passant,
                            checking_square.file() == file, checking_square.rank() == rank,
                            cell(b, file as int, rank as int) is Some,
                            cell(b, file as int, rank as int)->0.is_white() == is_white,
                            forall|sf: int, sr: int, tf: int, tr: int|
                                sf < file || (sf == file && sr < rank) || (sf == file && sr == rank && tf < dest_file)
                                    || (sf == file && sr == rank && tf == dest_file && tr < dest_rank)
                                    ==> !#[trigger] safe_move(b, ep, is_white, sf, sr, tf, tr),
                        decreases 8 - dest_rank,
                    {
                        let destination_square = Square::new_square_from_index(dest_file, dest_rank).unwrap();
                        if self.movement_logic.check_move(board, &checking_square, &destination_square) {
                            if !self.hangs_king(board, &checking_square, &destination_square, is_white, Some(PieceType::Queen)) {
                                proof {
                                    assert(safe_move(b, ep, is_white, file as int, rank as int, dest_file as int,
                                        dest_rank as int));
                                }
                                return true;
                            }
                        }
                        dest_rank += 1;
                    }
                    dest_file += 1;
                }
                rank += 1;
            }
            file += 1;
        }
        return false;
    }

    /// Whether the player `is_white` is checkmated on `board`: in check and
    /// without a move.
    pub fn is_checkmate(&self, board: &Board, is_white: bool) -> (res: bool)
        ensures
            res == checkmate_on(board.cells(), self.state().en_passant, is_white),
    {
        self.is_in_check(board, is_white) && !self.has_legal_moves(board, is_white)
    }

    /// Whether the player `is_white` is stalemated on `board`: not in check
    /// and without a move.
    pub fn is_stalemate(&self, board: &Board, is_white: bool) -> (res: bool)
        ensures
            res == stalemate_on(board.cells(), self.state().en_passant, is_white),
    {
        !self.is_in_check(board, is_white) && !self.has_legal_moves(board, is_white)
    }

    /// Whether the player to move is checkmated.
    pub fn in_checkmate(&self) -> (res: bool)
        ensures
            res == checkmate_on(self.state().cells, self.state().en_passant, self.state().white_turn),
    {
        self.is_checkmate(&self.board_state, self.is_white_turn)
    }

    /// Whether the player to move is stalemated.
    pub fn in_stalemate(&self) -> (res: bool)
        ensures
            res == stalemate_on(self.state().cells, self.state().en_passant, self.state().white_turn),
    {
        self.is_stalemate(&self.board_state, self.is_white_turn)
    }
}

impl ChessGame {
    /// Plays the move from `start` to `stop` if the rules allow it (see
    /// `move_outcome` for the checks, their order and the resulting state).
    fn make_move_internal(
        &mut self,
        start: Option<Square>,
        stop: Option<Square>,
        promotion_choice: Option<PieceType>,
    ) -> (res: Result<(), MoveError>)
        requires
            counter_fits(old(self).state(), coords(start), coords(stop), promotion_choice),
        ensures
            res == move_outcome(old(self).state(), coords(start), coords(stop), promotion_choice).0,
            final(self).state() == move_outcome(old(self).state(), coords(start), coords(stop), promotion_choice).1,
    {
        let start_square = match start {
            Some(square) => square,
            None => return Err(MoveError::InvalidNotation),
        };
        let stop_square = match stop {
            Some(square) => square,
            None => return Err(MoveError::InvalidNotation),
        };
        proof {
            use_type_invariant(start_square);
            use_type_invariant(stop_square);
        }
        let piece = match self.board_state.get_piece_square(&start_square) {
            Some(piece) => piece,
            None => return Err(MoveError::EmptySquare),
        };
        if piece.is_white() != self.is_white_turn {
            return Err(MoveError::NotYourPiece);
        }
        if self.board_state.is_same_color(&start_square, &stop_square) {
            return Err(MoveError::CantSelfHarm);
        }
        if !self.movement_logic.check_move(&self.board_state, &start_square, &stop_square) {
            return Err(MoveError::IllegalMove);
        }
        let (next_board, en_passant, refused) = self.board_after_move(
            &self.board_state,
            &start_square,
            &stop_square,
            promotion_choice,
        );
        if Self::is_in_check_with(&next_board, en_passant, self.is_white_turn) {
            return Err(MoveError::HangsKing);
        }
        if refused {
            return Err(MoveError::InvalidPromotion);
        }
        self.movement_logic.fifty_handler(&self.board_state, &start_square, &stop_square);
        self.board_state = next_board;
        self.movement_logic.set_en_passant_square(en_passant);
        self.is_white_turn = !self.is_white_turn;
        return Ok(());
    }
}

impl ChessGame {
    /// Plays a move given in lower-case notation such as `e2`, `e4`; a
    /// pawn reaching the last rank is refused with `InvalidPromotion`.
    pub fn make_move_notation(&mut self, start: &str, stop: &str) -> (res: Result<(), MoveError>)
        requires
            counter_fits(old(self).state(), parse_notation(start), parse_notation(stop), None),
        ensures
            res == move_outcome(old(self).state(), parse_notation(start), parse_notation(stop), None).0,
            final(self).state() == move_outcome(old(self).state(), parse_notation(start), parse_notation(stop), None).1,
    {
        self.make_move_internal(
            Square::new_square_from_notation_str(&start),
            Square::new_square_from_notation_str(&stop),
            None,
        )
    }

    /// Like `make_move_notation`, with the piece that a pawn reaching the
    /// last rank turns into.
    pub fn make_promotion_notation(&mut self, start: &str, stop: &str, promotion_choice: PieceType) -> (res: Result<
        (),
        MoveError,
    >)
        requires
            counter_fits(old(self).state(), parse_notation(start), parse_notation(stop), Some(promotion_choice)),
        ensures
            res == move_outcome(old(self).state(), parse_notation(start), parse_notation(stop), Some(promotion_choice)).0,
            final(self).state() == move_outcome(
                old(self).state(),
                parse_notation(start),
                parse_notation(stop),
                Some(promotion_choice),
            ).1,
    {
        self.make_move_internal(
            Square::new_square_from_notation_str(&start),
            Square::new_square_from_notation_str(&stop),
            Some(promotion_choice),
        )
    }

    /// Plays a move between two squares; a pawn reaching the last rank is
    /// refused with `InvalidPromotion`.
    pub fn make_move(&mut self, start: Option<Square>, stop: Option<Square>) -> (res: Result<(), MoveError>)
        requires
            counter_fits(old(self).state(), coords(start), coords(stop), None),
        ensures
            res == move_outcome(old(self).state(), coords(start), coords(stop), None).0,
            final(self).state() == move_outcome(old(self).state(), coords(start), coords(stop), None).1,
    {
        self.make_move_internal(start, stop, None)
    }

    /// Like `make_move`, with the piece that a pawn reaching the last rank
    /// turns into.
    pub fn make_promotion_move(&mut self, start: Option<Square>, stop: Option<Square>, promotion_choice: PieceType) -> (res:
        Result<(), MoveError>)
        requires
            counter_fits(old(self).state(), coords(start), coords(stop), Some(promotion_choice)),
        ensures
            res == move_outcome(old(self).state(), coords(start), coords(stop), Some(promotion_choice)).0,
            final(self).state() == move_outcome(old(self).state(), coords(start), coords(stop), Some(promotion_choice)).1,
    {
        self.make_move_internal(start, stop, Some(promotion_choice))
    }
}

/// A king of colour `white` stands on the square.
pub open spec fn king_at(b: Cells, white: bool, f: int, r: int) -> bool {
    cell(b, f, r) is Some && cell(b, f, r)->0.piece_type() == PieceType::King && cell(b, f, r)->0.is_white() == white
}

proof fn lemma_king_from(b: Cells, white: bool, f: int, r: int)
    requires
        on_board(f, r) || (f == 8 && r == 0),
    ensures
        match king_from(b, white, f, r) {
            Some((kf, kr)) => on_board(kf, kr) && king_at(b, white, kf, kr) && kf * 8 + kr >= f * 8 + r
                && forall|xf: int, xr: int|
                    on_board(xf, xr) && f * 8 + r <= xf * 8 + xr < kf * 8 + kr ==> !#[trigger] king_at(b, white, xf, xr),
            None => forall|xf: int, xr: int|
                on_board(xf, xr) && f * 8 + r <= xf * 8 + xr ==> !#[trigger] king_at(b, white, xf, xr),
        },
    decreases 64 - f * 8 - r,
{
    if on_board(f, r) {
        if r < 7 {
            lemma_king_from(b, white, f, r + 1);
        } else {
            lemma_king_from(b, white, f + 1, 0);
        }
    }
}

/// The king that the game watches is a king of that colour, and no other
/// king of that colour comes before it in file-major order; when there is
/// none, the side has no king at all.
pub proof fn lemma_king_square(b: Cells, white: bool)
    ensures
        match king_square(b, white) {
            Some((kf, kr)) => on_board(kf, kr) && king_at(b, white, kf, kr) && forall|xf: int, xr: int|
                on_board(xf, xr) && xf * 8 + xr < kf * 8 + kr ==> !#[trigger] king_at(b, white, xf, xr),
            None => forall|xf: int, xr: int| on_board(xf, xr) ==> !#[trigger] king_at(b, white, xf, xr),
        },
{
    lemma_king_from(b, white, 0, 0);
}

/// A player whose only king of their colour stands on (`kf`, `kr`) is in
/// check exactly when some enemy piece may move onto that square by its
/// movement rules; a player without a king is never in check.
pub proof fn lemma_in_check_means_king_attacked(b: Cells, ep: Option<(int, int)>, white: bool, kf: int, kr: int)
    ensures
        on_board(kf, kr) && king_at(b, white, kf, kr) && (forall|xf: int, xr: int|
            on_board(xf, xr) && #[trigger] king_at(b, white, xf, xr) ==> xf == kf && xr == kr) ==> (in_check_on(
            b,
            ep,
            white,
        ) <==> exists|af: int, ar: int|
            on_board(af, ar) && cell(b, af, ar) is Some && cell(b, af, ar)->0.is_white() != white
                && #[trigger] legal_move(b, ep, af, ar, kf, kr, depth())),
        (forall|xf: int, xr: int| on_board(xf, xr) ==> !#[trigger] king_at(b, white, xf, xr)) ==> !in_check_on(
            b,
            ep,
            white,
        ),
{
    lemma_king_square(b, white);
    lemma_attacked_iff_some_attacker(b, ep, kf, kr, white, depth());
}

/// Checkmate and stalemate never hold together.
pub proof fn lemma_checkmate_excludes_stalemate(b: Cells, ep: Option<(int, int)>, white: bool)
    ensures
        !(checkmate_on(b, ep, white) && stalemate_on(b, ep, white)),
{
}

/// A refused move changes nothing: the board, the player to move, the en
/// passant square and the fifty-move counter stay as they were.
pub proof fn lemma_refused_move(
    g: GameState,
    start: Option<(int, int)>,
    stop: Option<(int, int)>,
    promotion_choice: Option<PieceType>,
)
    ensures
        ({
            let (res, after) = move_outcome(g, start, stop, promotion_choice);
            res is Err ==> after == g
        }),
{
}

/// An accepted move was the mover's own piece moving by its rules; it does
/// not leave the mover in check; afterwards the other player is to move,
/// the start square is empty, and a piece of the mover's colour, marked as
/// moved, stands on the stop square. The fifty-move counter is reset by a
/// capture or a pawn move and counts up otherwise, and en passant is open
/// exactly after a pawn's double step, on the square it skipped.
pub proof fn lemma_accepted_move(
    g: GameState,
    sf: int,
    sr: int,
    tf: int,
    tr: int,
    promotion_choice: Option<PieceType>,
)
    requires
        g.cells.len() == 64,
        on_board(sf, sr),
        on_board(tf, tr),
    ensures
        ({
            let (res, after) = move_outcome(g, Some((sf, sr)), Some((tf, tr)), promotion_choice);
            let piece = cell(g.cells, sf, sr);
            res is Ok ==> {
                &&& piece is Some
                &&& piece->0.is_white() == g.white_turn
                &&& legal_move(g.cells, g.en_passant, sf, sr, tf, tr, depth())
                &&& !in_check_on(after.cells, after.en_passant, g.white_turn)
                &&& after.white_turn == !g.white_turn
                &&& cell(after.cells, sf, sr) is None
                &&& cell(after.cells, tf, tr) is Some
                &&& cell(after.cells, tf, tr)->0.is_white() == g.white_turn
                &&& cell(after.cells, tf, tr)->0.has_moved()
                &&& after.fifty == fifty_after(g.cells, sf, sr, tf, tr, g.fifty)
                &&& after.en_passant == if en_passant_setup(g.cells, sf, sr, tf, tr) {
                    Some((sf, sr + pawn_dir(piece->0)))
                } else {
                    None
                }
            }
        }),
{
}

/// The special moves: a castling king takes its rook along to the square it
/// passed over, leaving the corner empty; a capture en passant removes the
/// pawn beside the start square; a piece keeps its kind unless it is a pawn
/// promoted on the last rank, which takes the chosen kind.
pub proof fn lemma_special_moves(
    g: GameState,
    sf: int,
    sr: int,
    tf: int,
    tr: int,
    promotion_choice: Option<PieceType>,
)
    requires
        g.cells.len() == 64,
        on_board(sf, sr),
        on_board(tf, tr),
    ensures
        ({
            let (res, after) = move_outcome(g, Some((sf, sr)), Some((tf, tr)), promotion_choice);
            let piece = cell(g.cells, sf, sr)->0;
            let step = if tf > sf { 1int } else { -1int };
            res is Ok ==> {
                &&& castle_ok(g.cells, g.en_passant, sf, sr, tf, tr, depth()) ==> {
                    &&& cell(after.cells, tf - step, sr) is Some
                    &&& cell(after.cells, tf - step, sr)->0.piece_type() == PieceType::Rook
                    &&& cell(after.cells, tf - step, sr)->0.is_white() == g.white_turn
                    &&& cell(after.cells, rook_file(step), sr) is None
                }
                &&& en_passant_capture(g.cells, g.en_passant, sf, sr, tf, tr) ==> cell(after.cells, tf, sr) is None
                &&& cell(after.cells, tf, tr)->0.piece_type() == piece.piece_type() || (promotion_ok(
                    g.cells,
                    g.en_passant,
                    sf,
                    sr,
                    tf,
                    tr,
                ) && promotion_choice == Some(cell(after.cells, tf, tr)->0.piece_type()))
            }
        }),
{
}

/// An accepted move changes only the squares it moves pieces between: the
/// start and stop squares; for castling also the rook's corner and the
/// square the rook lands on; for a capture en passant also the square of the
/// captured pawn, beside the start square on the stop file. Every other
/// square keeps what it held. A capture en passant is a pawn's diagonal step
/// onto the game's en passant square, and castling is an unmoved king's
/// step of two files along its rank.
pub proof fn lemma_move_changes_only_its_squares(
    g: GameState,
    sf: int,
    sr: int,
    tf: int,
    tr: int,
    promotion_choice: Option<PieceType>,
)
    requires
        g.cells.len() == 64,
        on_board(sf, sr),
        on_board(tf, tr),
    ensures
        ({
            let (res, after) = move_outcome(g, Some((sf, sr)), Some((tf, tr)), promotion_choice);
            let piece = cell(g.cells, sf, sr)->0;
            let step = if tf > sf { 1int } else { -1int };
            let corner = if tf > sf { 7int } else { 0int };
            let castles = castle_ok(g.cells, g.en_passant, sf, sr, tf, tr, depth());
            let takes_en_passant = en_passant_capture(g.cells, g.en_passant, sf, sr, tf, tr);
            res is Ok ==> {
                &&& forall|f: int, r: int|
                    on_board(f, r) && !(f == sf && r == sr) && !(f == tf && r == tr) && !(castles && r == sr && (f
                        == corner || f == tf - step)) && !(takes_en_passant && f == tf && r == sr) ==> #[trigger] cell(
                        after.cells,
                        f,
                        r,
                    ) == cell(g.cells, f, r)
                &&& takes_en_passant ==> {
                    &&& piece.piece_type() == PieceType::Pawn
                    &&& g.en_passant == Some((tf, tr))
                    &&& tr - sr == (if piece.is_white() { 1int } else { -1int })
                    &&& (tf - sf == 1 || tf - sf == -1)
                }
                &&& castles ==> {
                    &&& piece.piece_type() == PieceType::King
                    &&& !piece.has_moved()
                    &&& tr == sr
                    &&& (tf - sf == 2 || tf - sf == -2)
                }
            }
        }),
{
    let (res, after) = move_outcome(g, Some((sf, sr)), Some((tf, tr)), promotion_choice);
    if res is Ok {
        let b = g.cells;
        let ep = g.en_passant;
        let step = if tf > sf { 1int } else { -1int };
        let castles = castle_ok(b, ep, sf, sr, tf, tr, depth());
        if castles {
            lemma_castling_conditions(b, ep, sf, sr, tf, tr, depth());
        }
        let takes_en_passant = en_passant_capture(b, ep, sf, sr, tf, tr);
        let corner = if tf > sf { 7int } else { 0int };
        assert forall|f: int, r: int|
            on_board(f, r) && !(f == sf && r == sr) && !(f == tf && r == tr) && !(castles && r == sr && (f == corner
                || f == tf - step)) && !(takes_en_passant && f == tf && r == sr) implies #[trigger] cell(
            after.cells,
            f,
            r,
        ) == cell(b, f, r) by {
            if castles {
                let rook = cell(b, corner, sr)->0;
                let moved_rook = put(b, corner, sr, Some(ChessPiece::spec_new(rook.piece_type(), rook.is_white(), true)));
                let carried = carry(moved_rook, corner, sr, tf - step, sr);
                lemma_put_then_read(b, corner, sr, Some(ChessPiece::spec_new(rook.piece_type(), rook.is_white(), true)), f, r);
                lemma_carry(moved_rook, corner, sr, tf - step, sr, f, r);
                lemma_put_then_read(carried, sf, sr, Some(ChessPiece::spec_new(cell(b, sf, sr)->0.piece_type(), cell(b, sf, sr)->0.is_white(), true)), f, r);
                lemma_carry(put(carried, sf, sr, Some(ChessPiece::spec_new(cell(b, sf, sr)->0.piece_type(), cell(b, sf, sr)->0.is_white(), true))), sf, sr, tf, tr, f, r);
            } else if takes_en_passant {
                let emptied = put(b, tf, sr, None);
                lemma_put_then_read(b, tf, sr, None, f, r);
                lemma_put_then_read(emptied, sf, sr, Some(ChessPiece::spec_new(cell(b, sf, sr)->0.piece_type(), cell(b, sf, sr)->0.is_white(), true)), f, r);
                lemma_carry(put(emptied, sf, sr, Some(ChessPiece::spec_new(cell(b, sf, sr)->0.piece_type(), cell(b, sf, sr)->0.is_white(), true))), sf, sr, tf, tr, f, r);
            } else {
                let p = if promotion_ok(b, ep, sf, sr, tf, tr) && is_promotion_choice(promotion_choice) {
                    ChessPiece::spec_new(promotion_choice->0, cell(b, sf, sr)->0.is_white(), false)
                } else {
                    cell(b, sf, sr)->0
                };
                let marked = Some(ChessPiece::spec_new(p.piece_type(), p.is_white(), true));
                lemma_put_then_read(b, sf, sr, marked, f, r);
                lemma_carry(put(b, sf, sr, marked), sf, sr, tf, tr, f, r);
            }
        }
    }
}

/// What an accepted move does besides carrying its piece: en passant is
/// open exactly after a pawn's two-square step, on the square it passed
/// over; the fifty-move counter is 0 after any pawn move or capture and one
/// more than before after any other move; a pawn stepping onto the last rank
/// turns into the chosen piece, which must be a queen, rook, bishop or
/// knight, else the move is refused.
pub proof fn lemma_move_effects(
    g: GameState,
    sf: int,
    sr: int,
    tf: int,
    tr: int,
    promotion_choice: Option<PieceType>,
)
    requires
        g.cells.len() == 64,
        on_board(sf, sr),
        on_board(tf, tr),
    ensures
        ({
            let (res, after) = move_outcome(g, Some((sf, sr)), Some((tf, tr)), promotion_choice);
            let piece = cell(g.cells, sf, sr)->0;
            let is_pawn = cell(g.cells, sf, sr) is Some && piece.piece_type() == PieceType::Pawn;
            let d = if piece.is_white() { 1int } else { -1int };
            let last_rank = if piece.is_white() { 7int } else { 0int };
            let captures = cell(g.cells, tf, tr) is Some && cell(g.cells, tf, tr)->0.is_white() != piece.is_white();
            &&& res is Ok ==> after.en_passant == if is_pawn && tf == sf && (tr - sr == 2 || tr - sr == -2) {
                Some((sf, if tr > sr { sr + 1 } else { sr - 1 }))
            } else {
                None
            }
            &&& res is Ok ==> after.fifty == if is_pawn || captures {
                0
            } else {
                g.fifty + 1
            }
            &&& res is Ok && is_pawn && tr == last_rank && tr - sr == d && g.en_passant != Some((tf, tr)) ==> {
                &&& (promotion_choice == Some(PieceType::Queen) || promotion_choice == Some(PieceType::Rook)
                    || promotion_choice == Some(PieceType::Bishop) || promotion_choice == Some(PieceType::Knight))
                &&& cell(after.cells, tf, tr) is Some
                &&& cell(after.cells, tf, tr)->0.piece_type() == promotion_choice->0
                &&& cell(after.cells, tf, tr)->0.is_white() == piece.is_white()
            }
            &&& refusal(g, sf, sr, tf, tr, promotion_choice) is None && is_pawn && tr == last_rank && tr - sr == d
                && g.en_passant != Some((tf, tr)) && !(promotion_choice == Some(PieceType::Queen) || promotion_choice
                == Some(PieceType::Rook) || promotion_choice == Some(PieceType::Bishop) || promotion_choice == Some(
                PieceType::Knight)) ==> res == Err::<(), MoveError>(MoveError::InvalidPromotion)
        }),
{
    let (res, after) = move_outcome(g, Some((sf, sr)), Some((tf, tr)), promotion_choice);
    let b = g.cells;
    let ep = g.en_passant;
    let piece = cell(b, sf, sr)->0;
    if cell(b, sf, sr) is Some {
        lemma_fifty_counter(b, sf, sr, tf, tr, g.fifty);
        if piece.piece_type() == PieceType::Pawn {
            lemma_pawn_moves(b, ep, sf, sr, tf, tr, depth());
        }
    }
    if res is Ok {
        lemma_accepted_move(g, sf, sr, tf, tr, promotion_choice);
        lemma_special_moves(g, sf, sr, tf, tr, promotion_choice);
    }
}

/// The promotion choice matters only for a pawn reaching the last rank:
/// any other move has one outcome whatever the choice.
pub proof fn lemma_choice_only_for_promotion(
    g: GameState,
    sf: int,
    sr: int,
    tf: int,
    tr: int,
    choice: Option<PieceType>,
    other_choice: Option<PieceType>,
)
    requires
        !promotion_ok(g.cells, g.en_passant, sf, sr, tf, tr),
    ensures
        move_outcome(g, Some((sf, sr)), Some((tf, tr)), choice) == move_outcome(
            g,
            Some((sf, sr)),
            Some((tf, tr)),
            other_choice,
        ),
{
    assert(board_after(g.cells, g.en_passant, sf, sr, tf, tr, choice) == board_after(
        g.cells,
        g.en_passant,
        sf,
        sr,
        tf,
        tr,
        other_choice,
    ));
}

/// A move counts as a move of the player to move (see `safe_move`) and is
/// not onto a piece of their own colour exactly when asking for it, with a
/// queen as promotion choice, is accepted. The one kind of move that counts
/// and lands on an own piece is a king castling onto its own rook's corner,
/// which is refused with `CantSelfHarm`.
pub proof fn lemma_safe_move_iff_accepted(g: GameState, sf: int, sr: int, tf: int, tr: int)
    requires
        on_board(sf, sr),
        on_board(tf, tr),
    ensures
        safe_move(g.cells, g.en_passant, g.white_turn, sf, sr, tf, tr) && !same_color(g.cells, sf, sr, tf, tr)
            <==> move_outcome(g, Some((sf, sr)), Some((tf, tr)), Some(PieceType::Queen)).0 is Ok,
        safe_move(g.cells, g.en_passant, g.white_turn, sf, sr, tf, tr) && same_color(g.cells, sf, sr, tf, tr) ==> {
            &&& castle_ok(g.cells, g.en_passant, sf, sr, tf, tr, depth())
            &&& tf == rook_file(if tf > sf { 1 } else { -1 })
            &&& move_outcome(g, Some((sf, sr)), Some((tf, tr)), Some(PieceType::Queen)).0 == Err::<(), MoveError>(
                MoveError::CantSelfHarm,
            )
        },
{
    lemma_landing_on_own_piece(g.cells, g.en_passant, sf, sr, tf, tr, depth());
}

/// Some move that the player to move could ask for, with a queen as
/// promotion choice, would be accepted.
pub open spec fn some_move_accepted(g: GameState) -> bool {
    exists|sf: int, sr: int, tf: int, tr: int|
        on_board(sf, sr) && on_board(tf, tr) && (#[trigger] move_outcome(
            g,
            Some((sf, sr)),
            Some((tf, tr)),
            Some(PieceType::Queen),
        )).0 is Ok
}

/// The player to move has a move (see `safe_move`) that castles their king
/// onto their own rook's corner.
pub open spec fn castles_onto_own_rook(g: GameState) -> bool {
    exists|sf: int, sr: int, tf: int, tr: int|
        #[trigger] safe_move(g.cells, g.en_passant, g.white_turn, sf, sr, tf, tr) && same_color(
            g.cells,
            sf,
            sr,
            tf,
            tr,
        )
}

/// The player to move has a move exactly when some move they could ask for
/// would be accepted or their king may castle onto its own rook's corner;
/// checkmate and stalemate follow: in check (or not) with neither.
pub proof fn lemma_no_move_iff_none_accepted(g: GameState)
    ensures
        has_safe_move(g.cells, g.en_passant, g.white_turn) <==> some_move_accepted(g) || castles_onto_own_rook(g),
        checkmate_on(g.cells, g.en_passant, g.white_turn) <==> in_check_on(g.cells, g.en_passant, g.white_turn)
            && !some_move_accepted(g) && !castles_onto_own_rook(g),
        stalemate_on(g.cells, g.en_passant, g.white_turn) <==> !in_check_on(g.cells, g.en_passant, g.white_turn)
            && !some_move_accepted(g) && !castles_onto_own_rook(g),
{
    if has_safe_move(g.cells, g.en_passant, g.white_turn) {
        let (sf, sr, tf, tr) = choose|sf: int, sr: int, tf: int, tr: int|
            #[trigger] safe_move(g.cells, g.en_passant, g.white_turn, sf, sr, tf, tr);
        lemma_safe_move_iff_accepted(g, sf, sr, tf, tr);
        if !same_color(g.cells, sf, sr, tf, tr) {
            assert(some_move_accepted(g));
        }
    }
    if some_move_accepted(g) {
        let (sf, sr, tf, tr) = choose|sf: int, sr: int, tf: int, tr: int|
            on_board(sf, sr) && on_board(tf, tr) && (#[trigger] move_outcome(
                g,
                Some((sf, sr)),
                Some((tf, tr)),
                Some(PieceType::Queen),
            )).0 is Ok;
        lemma_safe_move_iff_accepted(g, sf, sr, tf, tr);
        assert(safe_move(g.cells, g.en_passant, g.white_turn, sf, sr, tf, tr));
    }
}

impl ChessGame {
    /// Whether playing the move from `start` to `stop` keeps the fifty-move
    /// counter within its range: false only for a move that would be
    /// accepted, is neither a capture nor a pawn move, and finds the counter
    /// already at 255. Callers test this before asking for a move.
    pub fn move_counter_fits(
        &self,
        start: Option<Square>,
        stop: Option<Square>,
        promotion_choice: Option<PieceType>,
    ) -> (res: bool)
        ensures
            res == counter_fits(self.state(), coords(start), coords(stop), promotion_choice),
    {
        let start_square = match start {
            Some(square) => square,
            None => return true,
        };
        let stop_square = match stop {
            Some(square) => square,
            None => return true,
        };
        let piece = match self.board_state.get_piece_square(&start_square) {
            Some(piece) => piece,
            None => return true,
        };
        if piece.is_white() != self.is_white_turn
            || self.board_state.is_same_color(&start_square, &stop_square)
            || !self.movement_logic.check_move(&self.board_state, &start_square, &stop_square)
            || self.hangs_king(&self.board_state, &start_square, &stop_square, self.is_white_turn, promotion_choice) {
            return true;
        }
        self.board_state.would_be_capture(&start_square, &stop_square) || piece.piece_type() == PieceType::Pawn
            || self.movement_logic.get_fifty_increment() < 255
    }
}

} // verus!
