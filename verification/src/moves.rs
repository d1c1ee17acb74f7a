use vstd::prelude::*;

use crate::board::{Board, Cells, Square, cell, on_board, same_color, is_capture};
use crate::pieces::{ChessPiece, PieceType};

verus! {

/// How many castling checks may be nested inside one another while looking
/// for attacks. A castling move is only checked when the king's square is not
/// attacked, and an unmoved enemy king two files away "attacks" by castling,
/// so the checks can call one another, without end for some boards (two
/// unmoved kings two files apart on one rank). Past this depth a castling
/// check answers "no". When castling from a move cannot come back to a
/// castling state it is already checking, the checks nest at most 16 deep
/// (they stay on one rank: 8 king files, 2 directions), so the bound is
/// never reached and the answer is that of any deeper search (see
/// `lemma_castle_search_depth_suffices`).
pub const CASTLE_SEARCH_DEPTH: u8 = 128;

/// The rank direction in which a pawn of this piece's colour moves.
pub open spec fn pawn_dir(p: ChessPiece) -> int {
    if p.is_white() {
        1
    } else {
        -1
    }
}

/// `k` steps in the direction `d` (one of -1, 0, 1).
pub open spec fn stride(k: int, d: int) -> int {
    if d == 1 {
        k
    } else if d == -1 {
        -k
    } else {
        0
    }
}

/// A direction of a line piece: both components in -1..=1, not both 0.
pub open spec fn is_direction(dr: int, df: int) -> bool {
    -1 <= dr <= 1 && -1 <= df <= 1 && !(dr == 0 && df == 0)
}

/// How many steps in the direction (`dr`, `df`) lead from the start to the
/// stop square, when they lie on one line in that direction.
pub open spec fn ray_distance(sf: int, sr: int, tf: int, tr: int, dr: int, df: int) -> int {
    if df == 1 {
        tf - sf
    } else if df == -1 {
        sf - tf
    } else if dr == 1 {
        tr - sr
    } else {
        sr - tr
    }
}

/// The squares 1 to `k - 1` steps from the start in the direction are empty.
pub open spec fn ray_clear(b: Cells, sf: int, sr: int, dr: int, df: int, k: int) -> bool {
    forall|j: int| 1 <= j < k ==> #[trigger] cell(b, sf + stride(j, df), sr + stride(j, dr)) is None
}

/// A line piece on the start square reaches the stop square by moving in the
/// direction (`dr`, `df`): the stop square lies on the board in that
/// direction, every square before it is empty, and it is empty or holds a
/// piece of the other colour.
pub open spec fn slide_ok(b: Cells, sf: int, sr: int, tf: int, tr: int, dr: int, df: int) -> bool {
    let k = ray_distance(sf, sr, tf, tr, dr, df);
    &&& k >= 1
    &&& tf == sf + stride(k, df)
    &&& tr == sr + stride(k, dr)
    &&& on_board(tf, tr)
    &&& ray_clear(b, sf, sr, dr, df, k)
    &&& (cell(b, tf, tr) is None || cell(b, tf, tr)->0.is_white() != cell(b, sf, sr)->0.is_white())
}

/// A bishop move: along one of the four diagonals.
pub open spec fn diagonal_ok(b: Cells, sf: int, sr: int, tf: int, tr: int) -> bool {
    ||| slide_ok(b, sf, sr, tf, tr, 1, 1)
    ||| slide_ok(b, sf, sr, tf, tr, 1, -1)
    ||| slide_ok(b, sf, sr, tf, tr, -1, 1)
    ||| slide_ok(b, sf, sr, tf, tr, -1, -1)
}

/// A rook move: along a rank or a file.
pub open spec fn straight_ok(b: Cells, sf: int, sr: int, tf: int, tr: int) -> bool {
    ||| slide_ok(b, sf, sr, tf, tr, 1, 0)
    ||| slide_ok(b, sf, sr, tf, tr, -1, 0)
    ||| slide_ok(b, sf, sr, tf, tr, 0, 1)
    ||| slide_ok(b, sf, sr, tf, tr, 0, -1)
}

/// The knight's jump: two squares one way and one square the other.
pub open spec fn knight_jump(dr: int, df: int) -> bool {
    ||| (dr == 2 || dr == -2) && (df == 1 || df == -1)
    ||| (dr == 1 || dr == -1) && (df == 2 || df == -2)
}

/// The king's step: to one of the eight neighbouring squares.
pub open spec fn king_step(dr: int, df: int) -> bool {
    is_direction(dr, df)
}

/// A pawn move without promotion choice: one square forward onto an empty
/// square; one square diagonally forward onto a piece or onto the en passant
/// square; or, for a pawn that has not moved, two squares forward over an
/// empty square onto an empty square. Never onto a piece of its own colour.
pub open spec fn pawn_ok(b: Cells, ep: Option<(int, int)>, sf: int, sr: int, tf: int, tr: int) -> bool {
    let p = cell(b, sf, sr)->0;
    let d = pawn_dir(p);
    let dr = tr - sr;
    let df = tf - sf;
    &&& !same_color(b, sf, sr, tf, tr)
    &&& {
        ||| dr == d && df == 0 && cell(b, tf, tr) is None
        ||| dr == d && (df == 1 || df == -1) && (cell(b, tf, tr) is Some || ep == Some((tf, tr)))
        ||| dr == 2 * d && df == 0 && cell(b, tf, tr) is None && cell(b, tf, tr - d) is None
            && !p.has_moved()
    }
}

/// The move is a pawn's double step, after which the skipped square is open
/// to capture en passant.
pub open spec fn en_passant_setup(b: Cells, sf: int, sr: int, tf: int, tr: int) -> bool {
    let p = cell(b, sf, sr)->0;
    &&& p.piece_type() == PieceType::Pawn
    &&& tr - sr == 2 * pawn_dir(p)
    &&& tf - sf == 0
}

/// The move is a pawn's diagonal step onto the en passant square.
pub open spec fn en_passant_capture(b: Cells, ep: Option<(int, int)>, sf: int, sr: int, tf: int, tr: int) -> bool {
    let p = cell(b, sf, sr)->0;
    &&& p.piece_type() == PieceType::Pawn
    &&& tr - sr == pawn_dir(p)
    &&& (tf - sf == 1 || tf - sf == -1)
    &&& ep == Some((tf, tr))
}

/// The move is a legal pawn move onto the last rank (rank 8 for white,
/// rank 1 for black).
pub open spec fn promotion_ok(b: Cells, ep: Option<(int, int)>, sf: int, sr: int, tf: int, tr: int) -> bool {
    match cell(b, sf, sr) {
        Some(p) => {
            &&& p.piece_type() == PieceType::Pawn
            &&& tr == (if p.is_white() { 7int } else { 0int })
            &&& pawn_ok(b, ep, sf, sr, tf, tr)
        },
        None => false,
    }
}

/// The move counter of the fifty-move rule after a legal move: a capture or
/// a pawn move resets it, any other move adds one.
pub open spec fn fifty_after(b: Cells, sf: int, sr: int, tf: int, tr: int, count: int) -> int {
    if is_capture(b, sf, sr, tf, tr) || cell(b, sf, sr)->0.piece_type() == PieceType::Pawn {
        0
    } else {
        count + 1
    }
}

/// The piece on the start square may move to the stop square by its own
/// movement rules (whether the move exposes its king is not considered).
/// `fuel` bounds how deeply castling checks may nest (see `CASTLE_SEARCH_DEPTH`).
pub open spec fn legal_move(b: Cells, ep: Option<(int, int)>, sf: int, sr: int, tf: int, tr: int, fuel: nat) -> bool
    decreases fuel, 1nat, 0int,
{
    match cell(b, sf, sr) {
        None => false,
        Some(p) => match p.piece_type() {
            PieceType::Pawn => pawn_ok(b, ep, sf, sr, tf, tr),
            PieceType::Knight => knight_jump(tr - sr, tf - sf) && !same_color(b, sf, sr, tf, tr),
            PieceType::Bishop => diagonal_ok(b, sf, sr, tf, tr),
            PieceType::Rook => straight_ok(b, sf, sr, tf, tr),
            PieceType::Queen => diagonal_ok(b, sf, sr, tf, tr) || straight_ok(b, sf, sr, tf, tr),
            PieceType::King => if king_step(tr - sr, tf - sf) {
                !same_color(b, sf, sr, tf, tr)
            } else {
                castle_ok(b, ep, sf, sr, tf, tr, fuel)
            },
        },
    }
}

/// Some piece not of colour `white` may move onto the square (`file`, `rank`);
/// the squares are searched file by file from (`af`, `ar`) on.
pub open spec fn attacked_from(
    b: Cells,
    ep: Option<(int, int)>,
    file: int,
    rank: int,
    white: bool,
    fuel: nat,
    af: int,
    ar: int,
) -> bool
    decreases fuel, 2nat, 64 - af * 8 - ar,
{
    if !on_board(af, ar) {
        false
    } else {
        let hit = cell(b, af, ar) is Some && cell(b, af, ar)->0.is_white() != white
            && legal_move(b, ep, af, ar, file, rank, fuel);
        hit || if ar < 7 {
            attacked_from(b, ep, file, rank, white, fuel, af, ar + 1)
        } else {
            attacked_from(b, ep, file, rank, white, fuel, af + 1, 0)
        }
    }
}

/// Some piece not of colour `white` may move onto the square (`file`, `rank`)
/// (see `lemma_attacked_iff_some_attacker`).
pub open spec fn attacked(b: Cells, ep: Option<(int, int)>, file: int, rank: int, white: bool, fuel: nat) -> bool
    decreases fuel, 2nat, 65int,
{
    attacked_from(b, ep, file, rank, white, fuel, 0, 0)
}

/// The file of the rook that a king castles with, for the side `step`.
pub open spec fn rook_file(step: int) -> int {
    if step > 0 {
        7
    } else {
        0
    }
}

/// The square `file` lies strictly between the king's file `sf` and the
/// rook's corner on the side `step`.
pub open spec fn between_king_and_rook(sf: int, step: int, file: int) -> bool {
    if step > 0 {
        sf < file < rook_file(step)
    } else {
        rook_file(step) < file < sf
    }
}

/// Castling towards the side `step` (1 or -1) is open for the king on the
/// start square: an unmoved rook of its colour stands in the corner, the
/// squares between king and rook are empty, and the first two of those
/// squares, the ones the king passes over and lands on, are not attacked.
/// (A king next to the corner, or one file further away, has fewer squares
/// between it and the rook, and only those are tested.)
pub open spec fn castle_path_ok(b: Cells, ep: Option<(int, int)>, sf: int, sr: int, step: int, fuel: nat) -> bool
    decreases fuel, 3nat, 0int,
{
    let white = cell(b, sf, sr)->0.is_white();
    let rf = rook_file(step);
    let rook = cell(b, rf, sr);
    &&& rook is Some
    &&& rook->0.piece_type() == PieceType::Rook
    &&& !rook->0.has_moved()
    &&& rook->0.is_white() == white
    &&& forall|f: int| #![trigger cell(b, f, sr)] between_king_and_rook(sf, step, f) ==> cell(b, f, sr) is None
    &&& (between_king_and_rook(sf, step, sf + step) ==> !attacked(b, ep, sf + step, sr, white, fuel))
    &&& (between_king_and_rook(sf, step, sf + 2 * step) ==> !attacked(b, ep, sf + 2 * step, sr, white, fuel))
}

/// The move is a castling move: an unmoved king steps two files sideways,
/// is not attacked, and the castling path on that side is open.
pub open spec fn castle_ok(b: Cells, ep: Option<(int, int)>, sf: int, sr: int, tf: int, tr: int, fuel: nat) -> bool
    decreases fuel, 0nat, 0int,
{
    match cell(b, sf, sr) {
        Some(king) => {
            &&& fuel > 0
            &&& king.piece_type() == PieceType::King
            &&& !king.has_moved()
            &&& tr == sr
            &&& (tf - sf == 2 || tf - sf == -2)
            &&& !attacked(b, ep, sf, sr, king.is_white(), (fuel - 1) as nat)
            &&& castle_path_ok(b, ep, sf, sr, if tf > sf { 1 } else { -1 }, (fuel - 1) as nat)
        },
        None => false,
    }
}

/// The movement rules' state: the square open to capture en passant and the
/// move counter of the fifty-move rule.
#[derive(Debug, Clone, Copy)]
pub struct Move {
    pub(crate) en_passant_square: Option<Square>,
    pub(crate) since_pawn_capture: u8,
}

impl Move {
    /// The en passant square as (file, rank).
    pub open(crate) spec fn en_passant(&self) -> Option<(int, int)> {
        match self.en_passant_square {
            Some(sq) => Some((sq.file as int, sq.rank as int)),
            None => None,
        }
    }

    pub open(crate) spec fn spec_fifty_count(&self) -> u8 {
        self.since_pawn_capture
    }

    /// No en passant square and a zero move counter.
    pub fn new_move() -> (res: Self)
        ensures
            res.en_passant() is None,
            res.get_fifty_increment() == 0,
    {
        Self { en_passant_square: None, since_pawn_capture: 0 }
    }

    fn fifty_increment(&mut self)
        requires
            old(self).get_fifty_increment() < 255,
        ensures
            final(self).get_fifty_increment() == old(self).get_fifty_increment() + 1,
            final(self).en_passant() == old(self).en_passant(),
    {
        self.since_pawn_capture += 1;
    }

    fn fifty_reset(&mut self)
        ensures
            final(self).get_fifty_increment() == 0,
            final(self).en_passant() == old(self).en_passant(),
    {
        self.since_pawn_capture = 0;
    }

    /// Counts a legal move for the fifty-move rule: a capture or a pawn move
    /// resets the counter, any other move adds one.
    pub fn fifty_handler(&mut self, board: &Board, start: &Square, stop: &Square)
        requires
            is_capture(board.cells(), start.file() as int, start.rank() as int, stop.file() as int, stop.rank() as int)
                || cell(board.cells(), start.file() as int, start.rank() as int) is Some,
            fifty_after(board.cells(), start.file() as int, start.rank() as int, stop.file() as int, stop.rank() as int,
                old(self).get_fifty_increment() as int) <= 255,
        ensures
            final(self).get_fifty_increment() as int == fifty_after(
                board.cells(),
                start.file() as int,
                start.rank() as int,
                stop.file() as int,
                stop.rank() as int,
                old(self).get_fifty_increment() as int,
            ),
            final(self).en_passant() == old(self).en_passant(),
    {
        if board.would_be_capture(start, stop) {
            self.fifty_reset();
        } else if board.get_piece_square(start).unwrap().piece_type() == PieceType::Pawn {
            self.fifty_reset();
        } else {
            self.fifty_increment();
        }
    }

    /// The move counter of the fifty-move rule.
    #[verifier::when_used_as_spec(spec_fifty_count)]
    pub fn get_fifty_increment(&self) -> (res: u8)
        ensures
            res == self.spec_fifty_count(),
    {
        return self.since_pawn_capture;
    }

    /// Sets the square open to capture en passant.
    pub fn set_en_passant_square(&mut self, square: Option<Square>)
        ensures
            final(self).en_passant() == match square {
                Some(sq) => Some((sq.file() as int, sq.rank() as int)),
                None => None::<(int, int)>,
            },
            final(self).get_fifty_increment() == old(self).get_fifty_increment(),
    {
        self.en_passant_square = square;
    }
}

impl Move {
    /// Steps from `start` in one direction until the edge of the board or a
    /// piece: whether `stop` is reached (see `slide_ok`).
    fn direction_stepping(board: &Board, start: &Square, stop: &Square, direction: (i8, i8)) -> (res: bool)
        requires
            cell(board.cells(), start.file() as int, start.rank() as int) is Some,
            is_direction(direction.0 as int, direction.1 as int),
        ensures
            res == slide_ok(
                board.cells(),
                start.file() as int,
                start.rank() as int,
                stop.file() as int,
                stop.rank() as int,
                direction.0 as int,
                direction.1 as int,
            ),
    {
        let ghost b = board.cells();
        let ghost (sf, sr, tf, tr) = (start.file() as int, start.rank() as int, stop.file() as int, stop.rank() as int);
        proof {
            use_type_invariant(start);
            use_type_invariant(stop);
        }
        let starting_piece = board.get_piece_square(start).unwrap();
        let (rank_change, file_change) = direction;
        let ghost (dr, df) = (rank_change as int, file_change as int);
        let mut rank: i8 = start.rank();
        let mut file: i8 = start.file();
        let ghost mut k: int = 0;
        loop
            invariant_except_break
                b == board.cells(),
                sf == start.file(), sr == start.rank(), tf == stop.file(), tr == stop.rank(),
                on_board(tf, tr),
                on_board(sf, sr),
                dr == rank_change, df == file_change,
                direction == (rank_change, file_change),
                is_direction(dr, df),
                starting_piece == cell(b, sf, sr)->0,
                0 <= k <= 7,
                file == sf + stride(k, df),
                rank == sr + stride(k, dr),
                on_board(file as int, rank as int),
                ray_clear(b, sf, sr, dr, df, k + 1),
                forall|j: int| 1 <= j <= k ==> !(sf + stride(j, df) == tf && sr + stride(j, dr) == tr),
            ensures
                !slide_ok(b, sf, sr, tf, tr, dr, df),
            decreases 7 - k,
        {
            rank = rank + rank_change;
            file = file + file_change;
            proof {
                k = k + 1;
            }
            if 0 > rank || rank >= 8 || 0 > file || file >= 8 {
                proof {
                    let kk = ray_distance(sf, sr, tf, tr, dr, df);
                    if slide_ok(b, sf, sr, tf, tr, dr, df) {
                        if kk < k {
                            assert(1 <= kk <= k - 1);
                            assert(sf + stride(kk, df) == tf && sr + stride(kk, dr) == tr);
                        }
                    }
                }
                break;
            }
            let stepped_piece = board.get_piece_file_rank(file, rank);
            match stepped_piece {
                Some(piece) => {
                    if rank == stop.rank() && file == stop.file() {
                        proof {
                            assert(ray_distance(sf, sr, tf, tr, dr, df) == k);
                        }
                        return starting_piece.is_white() != piece.is_white();
                    }
                    proof {
                        let kk = ray_distance(sf, sr, tf, tr, dr, df);
                        if slide_ok(b, sf, sr, tf, tr, dr, df) {
                            if kk < k {
                                assert(sf + stride(kk, df) == tf && sr + stride(kk, dr) == tr);
                            } else if kk > k {
                                assert(cell(b, sf + stride(k, df), sr + stride(k, dr)) is None);
                            }
                        }
                    }
                    break;
                },
                None => {
                    if rank == stop.rank() && file == stop.file() {
                        proof {
                            assert(ray_distance(sf, sr, tf, tr, dr, df) == k);
                        }
                        return true;
                    }
                },
            }
        }
        return false;
    }
}

impl Move {
    /// A bishop move (see `diagonal_ok`).
    fn bishop_move_check(&self, board: &Board, start: &Square, stop: &Square) -> (res: bool)
        requires
            cell(board.cells(), start.file() as int, start.rank() as int) is Some,
        ensures
            res == diagonal_ok(board.cells(), start.file() as int, start.rank() as int, stop.file() as int, stop.rank() as int),
    {
        let directions: [(i8, i8); 4] = [(1, 1), (1, -1), (-1, 1), (-1, -1)];
        let mut i: usize = 0;
        while i < 4
            invariant
                i <= 4,
                directions@ == seq![(1i8, 1i8), (1i8, -1i8), (-1i8, 1i8), (-1i8, -1i8)],
                cell(board.cells(), start.file() as int, start.rank() as int) is Some,
                forall|j: int| #![trigger directions@[j]] 0 <= j < i ==> !slide_ok(board.cells(), start.file() as int, start.rank() as int,
                    stop.file() as int, stop.rank() as int, directions@[j].0 as int, directions@[j].1 as int),
            decreases 4 - i,
        {
            if Self::direction_stepping(board, start, stop, directions[i]) {
                return true;
            }
            i += 1;
        }
        proof {
            assert(directions@[0] == (1i8, 1i8));
            assert(directions@[1] == (1i8, -1i8));
            assert(directions@[2] == (-1i8, 1i8));
            assert(directions@[3] == (-1i8, -1i8));
        }
        return false;
    }

    /// A rook move (see `straight_ok`).
    fn rook_move_check(&self, board: &Board, start: &Square, stop: &Square) -> (res: bool)
        requires
            cell(board.cells(), start.file() as int, start.rank() as int) is Some,
        ensures
            res == straight_ok(board.cells(), start.file() as int, start.rank() as int, stop.file() as int, stop.rank() as int),
    {
        let directions: [(i8, i8); 4] = [(1, 0), (-1, 0), (0, 1), (0, -1)];
        let mut i: usize = 0;
        while i < 4
            invariant
                i <= 4,
                directions@ == seq![(1i8, 0i8), (-1i8, 0i8), (0i8, 1i8), (0i8, -1i8)],
                cell(board.cells(), start.file() as int, start.rank() as int) is Some,
                forall|j: int| #![trigger directions@[j]] 0 <= j < i ==> !slide_ok(board.cells(), start.file() as int, start.rank() as int,
                    stop.file() as int, stop.rank() as int, directions@[j].0 as int, directions@[j].1 as int),
            decreases 4 - i,
        {
            if Self::direction_stepping(board, start, stop, directions[i]) {
                return true;
            }
            i += 1;
        }
        proof {
            assert(directions@[0] == (1i8, 0i8));
            assert(directions@[1] == (-1i8, 0i8));
            assert(directions@[2] == (0i8, 1i8));
            assert(directions@[3] == (0i8, -1i8));
        }
        return false;
    }

    /// A queen move: a bishop move or a rook move.
    fn queen_move_check(&self, board: &Board, start: &Square, stop: &Square) -> (res: bool)
        requires
            cell(board.cells(), start.file() as int, start.rank() as int) is Some,
        ensures
            res == (diagonal_ok(board.cells(), start.file() as int, start.rank() as int, stop.file() as int, stop.rank() as int)
                || straight_ok(board.cells(), start.file() as int, start.rank() as int, stop.file() as int, stop.rank() as int)),
    {
        let directions: [(i8, i8); 8] = [(1, 1), (1, -1), (1, 0), (-1, 0), (-1, 1), (-1, -1), (0, 1), (0, -1)];
        let mut i: usize = 0;
        while i < 8
            invariant
                i <= 8,
                directions@ == seq![(1i8, 1i8), (1i8, -1i8), (1i8, 0i8), (-1i8, 0i8), (-1i8, 1i8), (-1i8, -1i8), (0i8, 1i8), (0i8, -1i8)],
                cell(board.cells(), start.file() as int, start.rank() as int) is Some,
                forall|j: int| #![trigger directions@[j]] 0 <= j < i ==> !slide_ok(board.cells(), start.file() as int, start.rank() as int,
                    stop.file() as int, stop.rank() as int, directions@[j].0 as int, directions@[j].1 as int),
            decreases 8 - i,
        {
            if Self::direction_stepping(board, start, stop, directions[i]) {
                return true;
            }
            i += 1;
        }
        proof {
            assert(directions@[0] == (1i8, 1i8));
            assert(directions@[1] == (1i8, -1i8));
            assert(directions@[2] == (1i8, 0i8));
            assert(directions@[3] == (-1i8, 0i8));
            assert(directions@[4] == (-1i8, 1i8));
            assert(directions@[5] == (-1i8, -1i8));
            assert(directions@[6] == (0i8, 1i8));
            assert(directions@[7] == (0i8, -1i8));
        }
        return false;
    }

    /// A knight move: a knight's jump not onto a piece of its own colour.
    fn knight_move_check(&self, board: &Board, start: &Square, stop: &Square) -> (res: bool)
        ensures
            res == (knight_jump(stop.rank() - start.rank(), stop.file() - start.file())
                && !same_color(board.cells(), start.file() as int, start.rank() as int, stop.file() as int, stop.rank() as int)),
    {
        let moves: [(i8, i8); 8] = [(2, 1), (2, -1), (1, 2), (1, -2), (-1, 2), (-1, -2), (-2, 1), (-2, -1)];
        let mut move_match = false;
        let rank_change = stop.rank() - start.rank();
        let file_change = stop.file() - start.file();
        let mut i: usize = 0;
        while i < 8
            invariant
                i <= 8,
                moves@ == seq![(2i8, 1i8), (2i8, -1i8), (1i8, 2i8), (1i8, -2i8), (-1i8, 2i8), (-1i8, -2i8), (-2i8, 1i8), (-2i8, -1i8)],
                move_match == exists|j: int| 0 <= j < i && #[trigger] moves@[j] == (rank_change, file_change),
            decreases 8 - i,
        {
            let (rank_move, file_move) = moves[i];
            if rank_move == rank_change && file_move == file_change {
                move_match = true;
            }
            i += 1;
        }
        proof {
            let target = (rank_change, file_change);
            assert(moves@[0] == (2i8, 1i8));
            assert(moves@[1] == (2i8, -1i8));
            assert(moves@[2] == (1i8, 2i8));
            assert(moves@[3] == (1i8, -2i8));
            assert(moves@[4] == (-1i8, 2i8));
            assert(moves@[5] == (-1i8, -2i8));
            assert(moves@[6] == (-2i8, 1i8));
            assert(moves@[7] == (-2i8, -1i8));
            assert(move_match == knight_jump(rank_change as int, file_change as int));
        }
        return move_match && !board.is_same_color(start, stop);
    }
}

/// The checks that one pawn offset (`rm` ranks forward, `fm` files sideways)
/// makes for a pawn move from the start to the stop square.
spec fn pawn_offset_hit(b: Cells, ep: Option<(int, int)>, sf: int, sr: int, tf: int, tr: int, rm: int, fm: int) -> bool {
    let p = cell(b, sf, sr)->0;
    let d = pawn_dir(p);
    &&& rm * d == tr - sr
    &&& fm == tf - sf
    &&& {
        ||| rm == 1 && fm == 0 && cell(b, tf, tr) is None
        ||| en_passant_setup(b, sf, sr, tf, tr) && cell(b, tf, tr) is None && cell(b, tf, tr - d) is None
            && !p.has_moved()
        ||| rm == 1 && (fm == 1 || fm == -1) && cell(b, tf, tr) is Some
        ||| en_passant_capture(b, ep, sf, sr, tf, tr)
    }
}

/// The four pawn offsets together make up `pawn_ok`.
proof fn lemma_pawn_offsets(b: Cells, ep: Option<(int, int)>, sf: int, sr: int, tf: int, tr: int)
    requires
        cell(b, sf, sr) is Some,
        cell(b, sf, sr)->0.piece_type() == PieceType::Pawn,
        on_board(sf, sr),
        on_board(tf, tr),
    ensures
        pawn_ok(b, ep, sf, sr, tf, tr) == (!same_color(b, sf, sr, tf, tr) && (
            pawn_offset_hit(b, ep, sf, sr, tf, tr, 1, 0)
            || pawn_offset_hit(b, ep, sf, sr, tf, tr, 1, -1)
            || pawn_offset_hit(b, ep, sf, sr, tf, tr, 1, 1)
            || pawn_offset_hit(b, ep, sf, sr, tf, tr, 2, 0))),
{
}

impl Move {
    /// Whether the move is a pawn's double step (the start square must hold
    /// a piece).
    pub fn is_valid_en_passant_setup(&self, board: &Board, start: &Square, stop: &Square) -> (res: bool)
        requires
            cell(board.cells(), start.file() as int, start.rank() as int) is Some,
        ensures
            res == en_passant_setup(board.cells(), start.file() as int, start.rank() as int, stop.file() as int, stop.rank() as int),
    {
        let piece = board.get_piece_square(start).unwrap();
        if piece.piece_type() != PieceType::Pawn {
            return false;
        }
        let direction: i8 = if piece.is_white() { 1 } else { -1 };
        let rank_change = stop.rank() - start.rank();
        let file_change = stop.file() - start.file();
        return rank_change == 2 * direction && file_change == 0;
    }

    /// Whether the move is a pawn's capture en passant (the start square must
    /// hold a piece).
    pub fn is_valid_en_passant_capture(&self, board: &Board, start: &Square, stop: &Square) -> (res: bool)
        requires
            cell(board.cells(), start.file() as int, start.rank() as int) is Some,
        ensures
            res == en_passant_capture(board.cells(), self.en_passant(), start.file() as int, start.rank() as int,
                stop.file() as int, stop.rank() as int),
    {
        let piece = board.get_piece_square(start).unwrap();
        if piece.piece_type() != PieceType::Pawn {
            return false;
        }
        let direction: i8 = if piece.is_white() { 1 } else { -1 };
        let rank_change = stop.rank() - start.rank();
        let file_change = stop.file() - start.file();
        let on_en_passant_square = match self.en_passant_square {
            Some(square) => square.file() == stop.file() && square.rank() == stop.rank(),
            None => false,
        };
        return rank_change == direction && (file_change == 1 || file_change == -1) && on_en_passant_square;
    }

    /// Whether the move is a legal pawn move onto the last rank.
    pub fn is_valid_promotion(&self, board: &Board, start: &Square, stop: &Square) -> (res: bool)
        ensures
            res == promotion_ok(board.cells(), self.en_passant(), start.file() as int, start.rank() as int,
                stop.file() as int, stop.rank() as int),
    {
        let piece = match board.get_piece_square(start) {
            Some(piece) => piece,
            None => return false,
        };
        if piece.piece_type() != PieceType::Pawn {
            return false;
        }
        let back_rank: i8 = if piece.is_white() { 7 } else { 0 };
        if stop.rank() != back_rank {
            return false;
        }
        return self.pawn_move_check(board, start, stop);
    }

    /// A pawn move (see `pawn_ok`).
    fn pawn_move_check(&self, board: &Board, start: &Square, stop: &Square) -> (res: bool)
        requires
            cell(board.cells(), start.file() as int, start.rank() as int) is Some,
            cell(board.cells(), start.file() as int, start.rank() as int)->0.piece_type() == PieceType::Pawn,
        ensures
            res == pawn_ok(board.cells(), self.en_passant(), start.file() as int, start.rank() as int,
                stop.file() as int, stop.rank() as int),
    {
        let ghost b = board.cells();
        let ghost ep = self.en_passant();
        let ghost (sf, sr, tf, tr) = (start.file() as int, start.rank() as int, stop.file() as int, stop.rank() as int);
        let moves: [(i8, i8); 4] = [(1, 0), (1, -1), (1, 1), (2, 0)];
        let mut move_match = false;
        let rank_change = stop.rank() - start.rank();
        let file_change = stop.file() - start.file();
        let direction: i8 = if board.get_piece_square(start).unwrap().is_white() { 1 } else { -1 };
        let mut i: usize = 0;
        while i < 4
            invariant
                i <= 4,
                b == board.cells(), ep == self.en_passant(),
                sf == start.file(), sr == start.rank(), tf == stop.file(), tr == stop.rank(),
                on_board(sf, sr), on_board(tf, tr),
                rank_change == tr - sr, file_change == tf - sf,
                cell(b, sf, sr) is Some,
                direction == pawn_dir(cell(b, sf, sr)->0),
                moves@ == seq![(1i8, 0i8), (1i8, -1i8), (1i8, 1i8), (2i8, 0i8)],
                move_match == exists|j: int| 0 <= j < i && #[trigger] pawn_offset_hit(b, ep, sf, sr, tf, tr,
                    moves@[j].0 as int, moves@[j].1 as int),
            decreases 4 - i,
        {
            let (rank_move, file_move) = moves[i];
            if rank_move * direction != rank_change || file_move != file_change {
                i += 1;
                continue;
            }
            if rank_move == 1 && file_move == 0 && board.get_piece_square(stop).is_none() {
                move_match = true;
            }
            if self.is_valid_en_passant_setup(board, start, stop)
                && (board.get_piece_square(stop).is_none()
                && board.get_piece_file_rank(stop.file(), stop.rank() - direction).is_none())
                && !board.get_piece_square(start).unwrap().has_moved() {
                move_match = true;
            }
            if rank_move == 1 && (file_move == 1 || file_move == -1) && !board.get_piece_square(stop).is_none() {
                move_match = true;
            }
            if self.is_valid_en_passant_capture(board, start, stop) {
                move_match = true;
            }
            proof {
                if move_match {
                    if !(exists|j: int| 0 <= j < i && #[trigger] pawn_offset_hit(b, ep, sf, sr, tf, tr,
                        moves@[j].0 as int, moves@[j].1 as int)) {
                        assert(pawn_offset_hit(b, ep, sf, sr, tf, tr, moves@[i as int].0 as int, moves@[i as int].1 as int));
                    }
                }
            }
            i += 1;
        }
        proof {
            assert(moves@[0] == (1i8, 0i8));
            assert(moves@[1] == (1i8, -1i8));
            assert(moves@[2] == (1i8, 1i8));
            assert(moves@[3] == (2i8, 0i8));
            let h0 = pawn_offset_hit(b, ep, sf, sr, tf, tr, moves@[0].0 as int, moves@[0].1 as int);
            let h1 = pawn_offset_hit(b, ep, sf, sr, tf, tr, moves@[1].0 as int, moves@[1].1 as int);
            let h2 = pawn_offset_hit(b, ep, sf, sr, tf, tr, moves@[2].0 as int, moves@[2].1 as int);
            let h3 = pawn_offset_hit(b, ep, sf, sr, tf, tr, moves@[3].0 as int, moves@[3].1 as int);
            if move_match {
                let j = choose|j: int| 0 <= j < 4 && #[trigger] pawn_offset_hit(b, ep, sf, sr, tf, tr,
                    moves@[j].0 as int, moves@[j].1 as int);
                assert(j == 0 || j == 1 || j == 2 || j == 3);
                assert(h0 || h1 || h2 || h3);
            }
            assert(move_match == (h0 || h1 || h2 || h3));
            lemma_pawn_offsets(b, ep, sf, sr, tf, tr);
        }
        return move_match && !board.is_same_color(start, stop);
    }
}

impl Move {
    /// Whether the piece on `start` may move to `stop` by its movement rules
    /// (see `legal_move`); an empty start square gives `false`. Whether the
    /// move would leave its own king attacked is not considered.
    pub fn check_move(&self, board: &Board, start: &Square, stop: &Square) -> (res: bool)
        ensures
            res == legal_move(board.cells(), self.en_passant(), start.file() as int, start.rank() as int,
                stop.file() as int, stop.rank() as int, CASTLE_SEARCH_DEPTH as nat),
    {
        self.check_move_at(board, start, stop, CASTLE_SEARCH_DEPTH)
    }

    /// Whether the move is a castling move (see `castle_ok`).
    pub fn is_valid_castle(&self, board: &Board, start: &Square, stop: &Square) -> (res: bool)
        ensures
            res == castle_ok(board.cells(), self.en_passant(), start.file() as int, start.rank() as int,
                stop.file() as int, stop.rank() as int, CASTLE_SEARCH_DEPTH as nat),
    {
        self.is_valid_castle_at(board, start, stop, CASTLE_SEARCH_DEPTH)
    }

    fn check_move_at(&self, board: &Board, start: &Square, stop: &Square, depth: u8) -> (res: bool)
        ensures
            res == legal_move(board.cells(), self.en_passant(), start.file() as int, start.rank() as int,
                stop.file() as int, stop.rank() as int, depth as nat),
        decreases depth, 3nat,
    {
        let piece = match board.get_piece_square(start) {
            Some(piece) => piece,
            None => return false,
        };
        match piece.piece_type() {
            PieceType::Pawn => self.pawn_move_check(board, start, stop),
            PieceType::Knight => self.knight_move_check(board, start, stop),
            PieceType::Bishop => self.bishop_move_check(board, start, stop),
            PieceType::Rook => self.rook_move_check(board, start, stop),
            PieceType::Queen => self.queen_move_check(board, start, stop),
            PieceType::King => self.king_move_check(board, start, stop, depth),
        }
    }

    /// A king move: a step to a neighbouring square not onto a piece of its
    /// own colour, or else a castling move.
    fn king_move_check(&self, board: &Board, start: &Square, stop: &Square, depth: u8) -> (res: bool)
        ensures
            res == if king_step(stop.rank() - start.rank(), stop.file() - start.file()) {
                !same_color(board.cells(), start.file() as int, start.rank() as int, stop.file() as int, stop.rank() as int)
            } else {
                castle_ok(board.cells(), self.en_passant(), start.file() as int, start.rank() as int,
                    stop.file() as int, stop.rank() as int, depth as nat)
            },
        decreases depth, 2nat,
    {
        let moves: [(i8, i8); 8] = [(1, 1), (1, -1), (1, 0), (-1, 0), (-1, 1), (-1, -1), (0, 1), (0, -1)];
        let mut move_match = false;
        let rank_change = stop.rank() - start.rank();
        let file_change = stop.file() - start.file();
        let mut i: usize = 0;
        while i < 8
            invariant
                i <= 8,
                moves@ == seq![(1i8, 1i8), (1i8, -1i8), (1i8, 0i8), (-1i8, 0i8), (-1i8, 1i8), (-1i8, -1i8), (0i8, 1i8), (0i8, -1i8)],
                move_match == exists|j: int| 0 <= j < i && #[trigger] moves@[j] == (rank_change, file_change),
            decreases 8 - i,
        {
            let (rank_move, file_move) = moves[i];
            if rank_move == rank_change && file_move == file_change {
                move_match = true;
            }
            i += 1;
        }
        proof {
            assert(moves@[0] == (1i8, 1i8));
            assert(moves@[1] == (1i8, -1i8));
            assert(moves@[2] == (1i8, 0i8));
            assert(moves@[3] == (-1i8, 0i8));
            assert(moves@[4] == (-1i8, 1i8));
            assert(moves@[5] == (-1i8, -1i8));
            assert(moves@[6] == (0i8, 1i8));
            assert(moves@[7] == (0i8, -1i8));
            assert(move_match == king_step(rank_change as int, file_change as int));
        }
        if move_match {
            return !board.is_same_color(start, stop);
        }
        return self.is_valid_castle_at(board, start, stop, depth);
    }

    fn is_valid_castle_at(&self, board: &Board, start: &Square, stop: &Square, depth: u8) -> (res: bool)
        ensures
            res == castle_ok(board.cells(), self.en_passant(), start.file() as int, start.rank() as int,
                stop.file() as int, stop.rank() as int, depth as nat),
        decreases depth, 1nat,
    {
        proof {
            use_type_invariant(start);
            use_type_invariant(stop);
        }
        let king = match board.get_piece_square(start) {
            Some(piece) => piece,
            None => return false,
        };
        if king.piece_type() != PieceType::King || king.has_moved() {
            return false;
        }
        let rank_change = stop.rank() - start.rank();
        let file_change = stop.file() - start.file();
        if rank_change != 0 || (file_change != 2 && file_change != -2) {
            return false;
        }
        if depth == 0 {
            return false;
        }
        if self.square_attacked_at(board, start, king.is_white(), depth - 1) {
            return false;
        }
        let step: i8 = if file_change > 0 { 1 } else { -1 };
        self.castling_directional_check_at(board, start, step, depth - 1)
    }

    /// Whether some piece not of colour `is_white` may move onto `square`.
    fn square_attacked_at(&self, board: &Board, square: &Square, is_white: bool, depth: u8) -> (res: bool)
        ensures
            res == attacked(board.cells(), self.en_passant(), square.file() as int, square.rank() as int,
                is_white, depth as nat),
        decreases depth, 4nat,
    {
        let ghost b = board.cells();
        let ghost ep = self.en_passant();
        let ghost (qf, qr) = (square.file() as int, square.rank() as int);
        let ghost answer = attacked(b, ep, qf, qr, is_white, depth as nat);
        let mut file: i8 = 0;
        while file < 8
            invariant
                0 <= file <= 8,
                b == board.cells(), ep == self.en_passant(),
                qf == square.file(), qr == square.rank(),
                answer == attacked(b, ep, qf, qr, is_white, depth as nat),
                answer == attacked_from(b, ep, qf, qr, is_white, depth as nat, file as int, 0),
            decreases 8 - file,
        {
            let mut rank: i8 = 0;
            while rank < 8
                invariant
                    0 <= file < 8,
                    0 <= rank <= 8,
                    b == board.cells(), ep == self.en_passant(),
                    qf == square.file(), qr == square.rank(),
                    answer == attacked(b, ep, qf, qr, is_white, depth as nat),
                    rank < 8 ==> answer == attacked_from(b, ep, qf, qr, is_white, depth as nat, file as int, rank as int),
                    rank == 8 ==> answer == attacked_from(b, ep, qf, qr, is_white, depth as nat, file + 1, 0),
                decreases 8 - rank,
            {
                let attacker_square = match Square::new_square_from_index(file, rank) {
                    Some(square) => square,
                    None => {
                        rank += 1;
                        continue;
                    },
                };
                match board.get_piece_square(&attacker_square) {
                    Some(piece) if piece.is_white() != is_white => {
                        if self.check_move_at(board, &attacker_square, square, depth) {
                            return true;
                        }
                    },
                    _ => {},
                }
                rank += 1;
            }
            file += 1;
        }
        return false;
    }

    /// Whether castling towards the side `file_change` (1 or -1) is open for
    /// the king on `start` (see `castle_path_ok`).
    fn castling_directional_check_at(&self, board: &Board, start: &Square, file_change: i8, depth: u8) -> (res: bool)
        requires
            cell(board.cells(), start.file() as int, start.rank() as int) is Some,
            file_change == 1 || file_change == -1,
            // A piece on the rook's own corner that passes as the rook would
            // walk off the board.
            !(start.file() == rook_file(file_change as int) && cell(board.cells(), start.file() as int,
                start.rank() as int)->0.piece_type() == PieceType::Rook && !cell(board.cells(), start.file() as int,
                start.rank() as int)->0.has_moved()),
        ensures
            res == castle_path_ok(board.cells(), self.en_passant(), start.file() as int, start.rank() as int,
                file_change as int, depth as nat),
        decreases depth, 5nat,
    {
        let ghost b = board.cells();
        let ghost ep = self.en_passant();
        let ghost (sf, sr) = (start.file() as int, start.rank() as int);
        proof {
            use_type_invariant(start);
        }
        let king_is_white = board.get_piece_square(start).unwrap().is_white();
        let rook_file: i8 = if file_change > 0 { 7 } else { 0 };
        let rook_square = Square::new_square_from_index(rook_file, start.rank()).unwrap();
        let rook = match board.get_piece_square(&rook_square) {
            Some(piece) => piece,
            None => return false,
        };
        if rook.piece_type() != PieceType::Rook || rook.has_moved() || rook.is_white() != king_is_white {
            return false;
        }
        let rank = start.rank();
        let mut file = start.file();
        let mut steps: i8 = 0;
        loop
            invariant
                b == board.cells(), ep == self.en_passant(),
                sf == start.file(), sr == start.rank(), rank == sr,
                on_board(sf, sr),
                file_change == 1 || file_change == -1,
                rook_file == crate::moves::rook_file(file_change as int),
                rook_square.file() == rook_file, rook_square.rank() == rank,
                king_is_white == cell(b, sf, sr)->0.is_white(),
                cell(b, rook_file as int, sr) == Some(rook),
                rook.piece_type() == PieceType::Rook, !rook.has_moved(), rook.is_white() == king_is_white,
                0 <= steps <= 6,
                file == sf + stride(steps as int, file_change as int),
                file_change == 1 ==> file < 7,
                file_change == -1 ==> file > 0,
                forall|f: int| #![trigger cell(b, f, sr)]
                    (if file_change > 0 { sf < f <= file } else { file <= f < sf }) ==> cell(b, f, sr) is None,
                steps >= 1 ==> !attacked(b, ep, sf + file_change, sr, king_is_white, depth as nat),
                steps >= 2 ==> !attacked(b, ep, sf + 2 * file_change, sr, king_is_white, depth as nat),
            decreases if file_change > 0 { 7 - file } else { file as int },
        {
            file = file + file_change;
            if file == rook_square.file() {
                return true;
            }
            if board.get_piece_file_rank(file, rank).is_some() {
                return false;
            }
            steps += 1;
            if steps <= 2 {
                let square = Square::new_square_from_index(file, rank).unwrap();
                if self.square_attacked_at(board, &square, king_is_white, depth) {
                    return false;
                }
            }
        }
    }
}

/// The search of `attacked_from` finds an attacker exactly when one stands
/// on a square at or after (`af`, `ar`) in file-major order.
proof fn lemma_attacked_from_iff(
    b: Cells,
    ep: Option<(int, int)>,
    file: int,
    rank: int,
    white: bool,
    fuel: nat,
    af: int,
    ar: int,
)
    requires
        on_board(af, ar) || (af == 8 && ar == 0),
    ensures
        attacked_from(b, ep, file, rank, white, fuel, af, ar) <==> exists|xf: int, xr: int|
            on_board(xf, xr) && (xf > af || (xf == af && xr >= ar)) && cell(b, xf, xr) is Some
                && cell(b, xf, xr)->0.is_white() != white && #[trigger] legal_move(b, ep, xf, xr, file, rank, fuel),
    decreases 64 - af * 8 - ar,
{
    let found = exists|xf: int, xr: int|
        on_board(xf, xr) && (xf > af || (xf == af && xr >= ar)) && cell(b, xf, xr) is Some
            && cell(b, xf, xr)->0.is_white() != white && #[trigger] legal_move(b, ep, xf, xr, file, rank, fuel);
    if on_board(af, ar) {
        let hit = cell(b, af, ar) is Some && cell(b, af, ar)->0.is_white() != white
            && legal_move(b, ep, af, ar, file, rank, fuel);
        let (nf, nr) = if ar < 7 { (af, ar + 1) } else { (af + 1, 0) };
        lemma_attacked_from_iff(b, ep, file, rank, white, fuel, nf, nr);
        let later = exists|xf: int, xr: int|
            on_board(xf, xr) && (xf > nf || (xf == nf && xr >= nr)) && cell(b, xf, xr) is Some
                && cell(b, xf, xr)->0.is_white() != white && #[trigger] legal_move(b, ep, xf, xr, file, rank, fuel);
        assert(attacked_from(b, ep, file, rank, white, fuel, af, ar) == (hit || later));
        if found {
            let (xf, xr) = choose|xf: int, xr: int|
                on_board(xf, xr) && (xf > af || (xf == af && xr >= ar)) && cell(b, xf, xr) is Some
                    && cell(b, xf, xr)->0.is_white() != white && #[trigger] legal_move(b, ep, xf, xr, file, rank, fuel);
            if !(xf == af && xr == ar) {
                assert(later);
            }
        }
    }
}

/// A square is attacked exactly when some piece not of the defending colour
/// may move onto it.
pub proof fn lemma_attacked_iff_some_attacker(
    b: Cells,
    ep: Option<(int, int)>,
    file: int,
    rank: int,
    white: bool,
    fuel: nat,
)
    ensures
        attacked(b, ep, file, rank, white, fuel) <==> exists|af: int, ar: int|
            on_board(af, ar) && cell(b, af, ar) is Some && cell(b, af, ar)->0.is_white() != white
                && #[trigger] legal_move(b, ep, af, ar, file, rank, fuel),
{
    lemma_attacked_from_iff(b, ep, file, rank, white, fuel, 0, 0);
}

/// By its movement rules a piece moves onto a piece of its own colour only
/// when a king castles onto its own rook's corner (a king two files from the
/// corner, castling towards it); any other castling king lands on an empty
/// square.
pub proof fn lemma_landing_on_own_piece(b: Cells, ep: Option<(int, int)>, sf: int, sr: int, tf: int, tr: int, fuel: nat)
    ensures
        legal_move(b, ep, sf, sr, tf, tr, fuel) && !castle_ok(b, ep, sf, sr, tf, tr, fuel) ==> !same_color(
            b,
            sf,
            sr,
            tf,
            tr,
        ),
        castle_ok(b, ep, sf, sr, tf, tr, fuel) && tf != rook_file(if tf > sf { 1 } else { -1 }) ==> cell(
            b,
            tf,
            tr,
        ) is None,
        castle_ok(b, ep, sf, sr, tf, tr, fuel) && tf == rook_file(if tf > sf { 1 } else { -1 }) ==> same_color(
            b,
            sf,
            sr,
            tf,
            tr,
        ),
{
    if castle_ok(b, ep, sf, sr, tf, tr, fuel) {
        let step = if tf > sf { 1int } else { -1int };
        assert(castle_path_ok(b, ep, sf, sr, step, (fuel - 1) as nat));
        if tf != rook_file(step) && between_king_and_rook(sf, step, tf) {
            assert(cell(b, tf, sr) is None);
        }
    }
}

/// Some branch of the search for the move reaches a castling check that
/// passes its first tests with no fuel left: the castling checks nest
/// deeper than `fuel`.
pub open spec fn move_runs_out(b: Cells, ep: Option<(int, int)>, sf: int, sr: int, tf: int, tr: int, fuel: nat) -> bool
    decreases fuel, 1nat, 0int,
{
    match cell(b, sf, sr) {
        Some(p) => p.piece_type() == PieceType::King && !king_step(tr - sr, tf - sf) && castle_runs_out(
            b,
            ep,
            sf,
            sr,
            tf,
            tr,
            fuel,
        ),
        None => false,
    }
}

/// The castling check of the move runs out of fuel on some branch.
pub open spec fn castle_runs_out(b: Cells, ep: Option<(int, int)>, sf: int, sr: int, tf: int, tr: int, fuel: nat) -> bool
    decreases fuel, 0nat, 0int,
{
    match cell(b, sf, sr) {
        Some(king) => {
            &&& king.piece_type() == PieceType::King
            &&& !king.has_moved()
            &&& tr == sr
            &&& (tf - sf == 2 || tf - sf == -2)
            &&& (fuel == 0 || attack_runs_out_from(b, ep, sf, sr, king.is_white(), (fuel - 1) as nat, 0, 0)
                || path_runs_out(b, ep, sf, sr, if tf > sf { 1 } else { -1 }, (fuel - 1) as nat))
        },
        None => false,
    }
}

/// The search for an attacker of (`file`, `rank`), from (`af`, `ar`) on,
/// runs out of fuel on some branch.
pub open spec fn attack_runs_out_from(
    b: Cells,
    ep: Option<(int, int)>,
    file: int,
    rank: int,
    white: bool,
    fuel: nat,
    af: int,
    ar: int,
) -> bool
    decreases fuel, 2nat, 64 - af * 8 - ar,
{
    if !on_board(af, ar) {
        false
    } else {
        let here = cell(b, af, ar) is Some && cell(b, af, ar)->0.is_white() != white
            && move_runs_out(b, ep, af, ar, file, rank, fuel);
        here || if ar < 7 {
            attack_runs_out_from(b, ep, file, rank, white, fuel, af, ar + 1)
        } else {
            attack_runs_out_from(b, ep, file, rank, white, fuel, af + 1, 0)
        }
    }
}

/// The attack tests on the king's castling path run out of fuel on some branch.
pub open spec fn path_runs_out(b: Cells, ep: Option<(int, int)>, sf: int, sr: int, step: int, fuel: nat) -> bool
    decreases fuel, 3nat, 0int,
{
    let white = cell(b, sf, sr)->0.is_white();
    ||| between_king_and_rook(sf, step, sf + step) && attack_runs_out_from(b, ep, sf + step, sr, white, fuel, 0, 0)
    ||| between_king_and_rook(sf, step, sf + 2 * step) && attack_runs_out_from(
        b,
        ep,
        sf + 2 * step,
        sr,
        white,
        fuel,
        0,
        0,
    )
}

proof fn lemma_move_stable(b: Cells, ep: Option<(int, int)>, sf: int, sr: int, tf: int, tr: int, fuel: nat, more: nat)
    requires
        fuel <= more,
        !move_runs_out(b, ep, sf, sr, tf, tr, fuel),
    ensures
        legal_move(b, ep, sf, sr, tf, tr, fuel) == legal_move(b, ep, sf, sr, tf, tr, more),
    decreases fuel, 1nat, 0int,
{
    if cell(b, sf, sr) is Some && cell(b, sf, sr)->0.piece_type() == PieceType::King && !king_step(tr - sr, tf - sf) {
        lemma_castle_stable(b, ep, sf, sr, tf, tr, fuel, more);
    }
}

proof fn lemma_castle_stable(b: Cells, ep: Option<(int, int)>, sf: int, sr: int, tf: int, tr: int, fuel: nat, more: nat)
    requires
        fuel <= more,
        !castle_runs_out(b, ep, sf, sr, tf, tr, fuel),
    ensures
        castle_ok(b, ep, sf, sr, tf, tr, fuel) == castle_ok(b, ep, sf, sr, tf, tr, more),
    decreases fuel, 0nat, 0int,
{
    match cell(b, sf, sr) {
        Some(king) => {
            if king.piece_type() == PieceType::King && !king.has_moved() && tr == sr && (tf - sf == 2 || tf - sf
                == -2) {
                let step = if tf > sf { 1int } else { -1int };
                lemma_attack_stable_from(b, ep, sf, sr, king.is_white(), (fuel - 1) as nat, (more - 1) as nat, 0, 0);
                lemma_path_stable(b, ep, sf, sr, step, (fuel - 1) as nat, (more - 1) as nat);
            }
        },
        None => {},
    }
}

proof fn lemma_attack_stable_from(
    b: Cells,
    ep: Option<(int, int)>,
    file: int,
    rank: int,
    white: bool,
    fuel: nat,
    more: nat,
    af: int,
    ar: int,
)
    requires
        fuel <= more,
        !attack_runs_out_from(b, ep, file, rank, white, fuel, af, ar),
    ensures
        attacked_from(b, ep, file, rank, white, fuel, af, ar) == attacked_from(b, ep, file, rank, white, more, af, ar),
    decreases fuel, 2nat, 64 - af * 8 - ar,
{
    if on_board(af, ar) {
        if cell(b, af, ar) is Some && cell(b, af, ar)->0.is_white() != white {
            lemma_move_stable(b, ep, af, ar, file, rank, fuel, more);
        }
        if ar < 7 {
            lemma_attack_stable_from(b, ep, file, rank, white, fuel, more, af, ar + 1);
        } else {
            lemma_attack_stable_from(b, ep, file, rank, white, fuel, more, af + 1, 0);
        }
    }
}

proof fn lemma_path_stable(b: Cells, ep: Option<(int, int)>, sf: int, sr: int, step: int, fuel: nat, more: nat)
    requires
        fuel <= more,
        !path_runs_out(b, ep, sf, sr, step, fuel),
    ensures
        castle_path_ok(b, ep, sf, sr, step, fuel) == castle_path_ok(b, ep, sf, sr, step, more),
    decreases fuel, 3nat, 0int,
{
    let white = cell(b, sf, sr)->0.is_white();
    if between_king_and_rook(sf, step, sf + step) {
        lemma_attack_stable_from(b, ep, sf + step, sr, white, fuel, more, 0, 0);
    }
    if between_king_and_rook(sf, step, sf + 2 * step) {
        lemma_attack_stable_from(b, ep, sf + 2 * step, sr, white, fuel, more, 0, 0);
    }
}

/// Once the castling checks of a search nest no deeper than its fuel, a
/// search with more fuel gives the same answer: the depth bound only
/// decides where castling checks would call one another without end.
pub proof fn lemma_deeper_move_search_agrees(
    b: Cells,
    ep: Option<(int, int)>,
    sf: int,
    sr: int,
    tf: int,
    tr: int,
    fuel: nat,
    more: nat,
)
    requires
        fuel <= more,
        !move_runs_out(b, ep, sf, sr, tf, tr, fuel),
    ensures
        legal_move(b, ep, sf, sr, tf, tr, fuel) == legal_move(b, ep, sf, sr, tf, tr, more),
{
    lemma_move_stable(b, ep, sf, sr, tf, tr, fuel, more);
}

/// The same for the search for an attacker of a square.
pub proof fn lemma_deeper_attack_search_agrees(
    b: Cells,
    ep: Option<(int, int)>,
    file: int,
    rank: int,
    white: bool,
    fuel: nat,
    more: nat,
)
    requires
        fuel <= more,
        !attack_runs_out_from(b, ep, file, rank, white, fuel, 0, 0),
    ensures
        attacked(b, ep, file, rank, white, fuel) == attacked(b, ep, file, rank, white, more),
{
    lemma_attack_stable_from(b, ep, file, rank, white, fuel, more, 0, 0);
}

/// The attack search that a castling check makes one level down agrees
/// with the movement rules of `check_move` whenever its own castling checks
/// finish within that level: the square is attacked exactly when some enemy
/// piece may move onto it by `check_move`'s rules.
pub proof fn lemma_castling_attack_search_agrees(
    b: Cells,
    ep: Option<(int, int)>,
    file: int,
    rank: int,
    white: bool,
)
    requires
        !attack_runs_out_from(b, ep, file, rank, white, (CASTLE_SEARCH_DEPTH - 1) as nat, 0, 0),
    ensures
        attacked(b, ep, file, rank, white, (CASTLE_SEARCH_DEPTH - 1) as nat) <==> exists|af: int, ar: int|
            on_board(af, ar) && cell(b, af, ar) is Some && cell(b, af, ar)->0.is_white() != white
                && #[trigger] legal_move(b, ep, af, ar, file, rank, CASTLE_SEARCH_DEPTH as nat),
{
    lemma_attack_stable_from(
        b,
        ep,
        file,
        rank,
        white,
        (CASTLE_SEARCH_DEPTH - 1) as nat,
        CASTLE_SEARCH_DEPTH as nat,
        0,
        0,
    );
    lemma_attacked_iff_some_attacker(b, ep, file, rank, white, CASTLE_SEARCH_DEPTH as nat);
}

/// A castling state met while checking moves, written (king's file, king's
/// rank, target file): it passes the first tests of a castling check, an
/// unmoved king standing on the square with the target two files away.
pub open spec fn castle_frame(b: Cells, x: (int, int, int)) -> bool {
    let (kf, kr, tf) = x;
    &&& cell(b, kf, kr) is Some
    &&& cell(b, kf, kr)->0.piece_type() == PieceType::King
    &&& !cell(b, kf, kr)->0.has_moved()
    &&& (tf - kf == 2 || tf - kf == -2)
}

/// Checking the castling state `x` leads, through one of its attack tests,
/// to checking the castling state `y`: an enemy king on the same rank
/// castling onto the king's square or onto one of the squares that `x`
/// tests for attacks.
pub open spec fn castle_nests(b: Cells, x: (int, int, int), y: (int, int, int)) -> bool {
    let (kf, kr, tf) = x;
    let (yf, yr, yt) = y;
    let step = if tf > kf { 1int } else { -1int };
    &&& yr == kr
    &&& cell(b, yf, yr)->0.is_white() != cell(b, kf, kr)->0.is_white()
    &&& (yt == kf || (yt == kf + step && between_king_and_rook(kf, step, kf + step)) || (yt == kf + 2 * step
        && between_king_and_rook(kf, step, kf + 2 * step)))
}

/// A sequence of castling states, each one led to by the one before it.
pub open spec fn castle_chain(b: Cells, c: Seq<(int, int, int)>) -> bool {
    &&& forall|i: int| 0 <= i < c.len() ==> castle_frame(b, #[trigger] c[i])
    &&& forall|i: int, j: int| 0 <= i && j == i + 1 && j < c.len() ==> #[trigger] castle_nests(b, c[i], c[j])
}

/// Checking castling from the state `first` can come back to a state that
/// it is already checking: some chain of castling states from `first`
/// repeats a state.
pub open spec fn castling_repeats_from(b: Cells, first: (int, int, int)) -> bool {
    exists|c: Seq<(int, int, int)>| #[trigger] castle_chain(b, c) && c.len() > 0 && c[0] == first && !c.no_duplicates()
}

/// An attack search that runs out of fuel does so through some attacker.
proof fn lemma_attack_runs_out_witness(
    b: Cells,
    ep: Option<(int, int)>,
    file: int,
    rank: int,
    white: bool,
    fuel: nat,
    af: int,
    ar: int,
) -> (x: (int, int))
    requires
        attack_runs_out_from(b, ep, file, rank, white, fuel, af, ar),
    ensures
        on_board(x.0, x.1),
        cell(b, x.0, x.1) is Some,
        cell(b, x.0, x.1)->0.is_white() != white,
        move_runs_out(b, ep, x.0, x.1, file, rank, fuel),
    decreases 64 - af * 8 - ar,
{
    if cell(b, af, ar) is Some && cell(b, af, ar)->0.is_white() != white && move_runs_out(
        b,
        ep,
        af,
        ar,
        file,
        rank,
        fuel,
    ) {
        (af, ar)
    } else if ar < 7 {
        lemma_attack_runs_out_witness(b, ep, file, rank, white, fuel, af, ar + 1)
    } else {
        lemma_attack_runs_out_witness(b, ep, file, rank, white, fuel, af + 1, 0)
    }
}

/// A castling check that runs out of fuel passes through a chain of
/// castling states one longer than its fuel.
proof fn lemma_castle_runs_out_chain(
    b: Cells,
    ep: Option<(int, int)>,
    sf: int,
    sr: int,
    tf: int,
    tr: int,
    fuel: nat,
) -> (c: Seq<(int, int, int)>)
    requires
        castle_runs_out(b, ep, sf, sr, tf, tr, fuel),
    ensures
        c.len() == fuel + 1,
        c[0] == (sf, sr, tf),
        castle_chain(b, c),
    decreases fuel,
{
    let x = (sf, sr, tf);
    if fuel == 0 {
        seq![x]
    } else {
        let white = cell(b, sf, sr)->0.is_white();
        let step = if tf > sf { 1int } else { -1int };
        let less = (fuel - 1) as nat;
        let t: int = if attack_runs_out_from(b, ep, sf, sr, white, less, 0, 0) {
            sf
        } else if between_king_and_rook(sf, step, sf + step) && attack_runs_out_from(
            b,
            ep,
            sf + step,
            sr,
            white,
            less,
            0,
            0,
        ) {
            sf + step
        } else {
            sf + 2 * step
        };
        let w = lemma_attack_runs_out_witness(b, ep, t, sr, white, less, 0, 0);
        let rest = lemma_castle_runs_out_chain(b, ep, w.0, w.1, t, sr, less);
        let c = seq![x] + rest;
        assert(castle_nests(b, x, rest[0]));
        assert forall|i: int| 0 <= i < c.len() implies castle_frame(b, #[trigger] c[i]) by {
            if i > 0 {
                assert(c[i] == rest[i - 1]);
            }
        }
        assert forall|i: int, j: int| 0 <= i && j == i + 1 && j < c.len() implies #[trigger] castle_nests(
            b,
            c[i],
            c[j],
        ) by {
            assert(c[j] == rest[i]);
            if i > 0 {
                assert(c[i] == rest[i - 1]);
                assert(castle_nests(b, rest[i - 1], rest[i]));
            } else {
                assert(c[i] == x);
            }
        }
        c
    }
}

/// All the castling states of a chain stand on one rank.
proof fn lemma_chain_rank(b: Cells, c: Seq<(int, int, int)>, i: int)
    requires
        castle_chain(b, c),
        0 <= i < c.len(),
    ensures
        c[i].1 == c[0].1,
    decreases i,
{
    if i > 0 {
        lemma_chain_rank(b, c, i - 1);
        assert(castle_nests(b, c[i - 1], c[i]));
    }
}

/// A chain of castling states that repeats none has at most 16 states:
/// they stand on one rank, with 8 king files and 2 directions.
proof fn lemma_chain_without_repeats_is_short(b: Cells, c: Seq<(int, int, int)>)
    requires
        castle_chain(b, c),
        c.no_duplicates(),
    ensures
        c.len() <= 16,
{
    let keys = c.map_values(|x: (int, int, int)| x.0 * 2 + if x.2 > x.0 { 1int } else { 0int });
    assert forall|i: int, j: int| 0 <= i < j < keys.len() implies keys[i] != keys[j] by {
        assert(castle_frame(b, c[i]));
        assert(castle_frame(b, c[j]));
        lemma_chain_rank(b, c, i);
        lemma_chain_rank(b, c, j);
        assert(c[i] != c[j]);
    }
    assert(keys.no_duplicates());
    keys.unique_seq_to_set();
    let range = vstd::set_lib::set_int_range(0, 16);
    assert forall|k: int| keys.to_set().contains(k) implies range.contains(k) by {
        assert(keys.contains(k));
        let i = choose|i: int| 0 <= i < keys.len() && keys[i] == k;
        assert(castle_frame(b, c[i]));
    }
    vstd::set_lib::lemma_int_range(0, 16);
    vstd::set_lib::lemma_len_subset(keys.to_set(), range);
}

/// A move checked with `CASTLE_SEARCH_DEPTH` levels of castling checks
/// never runs out of them when castling from the move's own state cannot
/// come back to a state it is already checking; the answer is then that of
/// any deeper search.
pub proof fn lemma_castle_search_depth_suffices(
    b: Cells,
    ep: Option<(int, int)>,
    sf: int,
    sr: int,
    tf: int,
    tr: int,
    more: nat,
)
    requires
        !castling_repeats_from(b, (sf, sr, tf)),
        CASTLE_SEARCH_DEPTH <= more,
    ensures
        !move_runs_out(b, ep, sf, sr, tf, tr, CASTLE_SEARCH_DEPTH as nat),
        legal_move(b, ep, sf, sr, tf, tr, CASTLE_SEARCH_DEPTH as nat) == legal_move(b, ep, sf, sr, tf, tr, more),
{
    if move_runs_out(b, ep, sf, sr, tf, tr, CASTLE_SEARCH_DEPTH as nat) {
        let c = lemma_castle_runs_out_chain(b, ep, sf, sr, tf, tr, CASTLE_SEARCH_DEPTH as nat);
        if c.no_duplicates() {
            lemma_chain_without_repeats_is_short(b, c);
        }
        assert(castling_repeats_from(b, (sf, sr, tf)));
    }
    lemma_move_stable(b, ep, sf, sr, tf, tr, CASTLE_SEARCH_DEPTH as nat, more);
}

/// The attack search that a castling check makes one level down never runs
/// out of castling checks when no enemy castling onto the square can come
/// back to a castling state it is already checking; the square is then
/// attacked exactly when some enemy piece may move onto it by
/// `check_move`'s rules.
pub proof fn lemma_castle_attack_search_depth_suffices(
    b: Cells,
    ep: Option<(int, int)>,
    file: int,
    rank: int,
    white: bool,
)
    requires
        forall|xf: int, xr: int| !#[trigger] castling_repeats_from(b, (xf, xr, file)),
    ensures
        !attack_runs_out_from(b, ep, file, rank, white, (CASTLE_SEARCH_DEPTH - 1) as nat, 0, 0),
        attacked(b, ep, file, rank, white, (CASTLE_SEARCH_DEPTH - 1) as nat) <==> exists|af: int, ar: int|
            on_board(af, ar) && cell(b, af, ar) is Some && cell(b, af, ar)->0.is_white() != white
                && #[trigger] legal_move(b, ep, af, ar, file, rank, CASTLE_SEARCH_DEPTH as nat),
{
    let less = (CASTLE_SEARCH_DEPTH - 1) as nat;
    if attack_runs_out_from(b, ep, file, rank, white, less, 0, 0) {
        let w = lemma_attack_runs_out_witness(b, ep, file, rank, white, less, 0, 0);
        let c = lemma_castle_runs_out_chain(b, ep, w.0, w.1, file, rank, less);
        if c.no_duplicates() {
            lemma_chain_without_repeats_is_short(b, c);
        }
        assert(castling_repeats_from(b, (w.0, w.1, file)));
    }
    lemma_castling_attack_search_agrees(b, ep, file, rank, white);
}

/// A knight moves exactly to the squares one rank and two files away, or two
/// ranks and one file away, that are on the board and do not hold a piece
/// of its own colour.
pub proof fn lemma_knight_moves(b: Cells, ep: Option<(int, int)>, sf: int, sr: int, tf: int, tr: int, fuel: nat)
    requires
        cell(b, sf, sr) is Some,
        cell(b, sf, sr)->0.piece_type() == PieceType::Knight,
        on_board(tf, tr),
    ensures
        legal_move(b, ep, sf, sr, tf, tr, fuel) <==> {
            &&& ((tr - sr == 1 || tr - sr == -1) && (tf - sf == 2 || tf - sf == -2)) || ((tr - sr == 2 || tr - sr
                == -2) && (tf - sf == 1 || tf - sf == -1))
            &&& !(cell(b, tf, tr) is Some && cell(b, tf, tr)->0.is_white() == cell(b, sf, sr)->0.is_white())
        },
{
}

/// A king never castles out of check: when a castling move is allowed, no
/// enemy piece may move onto the king's square. Nor does it pass over or
/// land on a square between it and its rook that an enemy piece may move
/// onto; those squares are empty, and an unmoved rook of its colour stands
/// in the corner.
pub proof fn lemma_castling_conditions(b: Cells, ep: Option<(int, int)>, sf: int, sr: int, tf: int, tr: int, fuel: nat)
    requires
        castle_ok(b, ep, sf, sr, tf, tr, fuel),
    ensures
        ({
            let king = cell(b, sf, sr)->0;
            let step = if tf > sf { 1int } else { -1int };
            let corner = if tf > sf { 7int } else { 0int };
            &&& cell(b, sf, sr) is Some
            &&& king.piece_type() == PieceType::King
            &&& !king.has_moved()
            &&& tr == sr
            &&& tf == sf + 2 || tf == sf - 2
            &&& cell(b, corner, sr) is Some
            &&& cell(b, corner, sr)->0.piece_type() == PieceType::Rook
            &&& !cell(b, corner, sr)->0.has_moved()
            &&& cell(b, corner, sr)->0.is_white() == king.is_white()
            &&& forall|f: int| (sf < f < corner || corner < f < sf) ==> #[trigger] cell(b, f, sr) is None
            &&& forall|af: int, ar: int|
                on_board(af, ar) && cell(b, af, ar) is Some && cell(b, af, ar)->0.is_white() != king.is_white()
                    ==> {
                    &&& !#[trigger] legal_move(b, ep, af, ar, sf, sr, (fuel - 1) as nat)
                    &&& ((sf < sf + step < corner || corner < sf + step < sf) ==> !legal_move(
                        b,
                        ep,
                        af,
                        ar,
                        sf + step,
                        sr,
                        (fuel - 1) as nat,
                    ))
                    &&& ((sf < sf + 2 * step < corner || corner < sf + 2 * step < sf) ==> !legal_move(
                        b,
                        ep,
                        af,
                        ar,
                        sf + 2 * step,
                        sr,
                        (fuel - 1) as nat,
                    ))
                }
        }),
{
    let king = cell(b, sf, sr)->0;
    let step = if tf > sf { 1int } else { -1int };
    let less = (fuel - 1) as nat;
    lemma_attacked_iff_some_attacker(b, ep, sf, sr, king.is_white(), less);
    lemma_attacked_iff_some_attacker(b, ep, sf + step, sr, king.is_white(), less);
    lemma_attacked_iff_some_attacker(b, ep, sf + 2 * step, sr, king.is_white(), less);
    assert(castle_path_ok(b, ep, sf, sr, step, less));
    assert forall|f: int| (sf < f < rook_file(step) || rook_file(step) < f < sf) implies #[trigger] cell(b, f, sr)
        is None by {
        assert(between_king_and_rook(sf, step, f));
    }
}

/// The fifty-move counter after a move: any move of a pawn, of either
/// colour, and any capture set it to 0; any other move adds one.
pub proof fn lemma_fifty_counter(b: Cells, sf: int, sr: int, tf: int, tr: int, count: int)
    requires
        cell(b, sf, sr) is Some,
    ensures
        cell(b, sf, sr)->0.piece_type() == PieceType::Pawn ==> fifty_after(b, sf, sr, tf, tr, count) == 0,
        cell(b, tf, tr) is Some && cell(b, tf, tr)->0.is_white() != cell(b, sf, sr)->0.is_white() ==> fifty_after(
            b,
            sf,
            sr,
            tf,
            tr,
            count,
        ) == 0,
        cell(b, sf, sr)->0.piece_type() != PieceType::Pawn && (cell(b, tf, tr) is None || cell(b, tf, tr)->0.is_white()
            == cell(b, sf, sr)->0.is_white()) ==> fifty_after(b, sf, sr, tf, tr, count) == count + 1,
{
}

/// The square (`f`, `r`) lies strictly between the squares (`sf`, `sr`) and
/// (`tf`, `tr`) on the rank, file or diagonal through both.
pub open spec fn lies_between(sf: int, sr: int, tf: int, tr: int, f: int, r: int) -> bool {
    let f_inside = sf < f < tf || tf < f < sf;
    let r_inside = sr < r < tr || tr < r < sr;
    ||| sr == tr && r == sr && f_inside
    ||| sf == tf && f == sf && r_inside
    ||| tr - sr == tf - sf && r - sr == f - sf && f_inside
    ||| tr - sr == sf - tf && r - sr == sf - f && f_inside
}

/// A line move in one direction: the stop square lies that way, every
/// square strictly between is empty, and the stop square does not hold a
/// piece of the mover's colour.
proof fn lemma_slide_explicit(b: Cells, sf: int, sr: int, tf: int, tr: int, dr: int, df: int)
    requires
        is_direction(dr, df),
    ensures
        slide_ok(b, sf, sr, tf, tr, dr, df) <==> {
            let k = ray_distance(sf, sr, tf, tr, dr, df);
            &&& k >= 1
            &&& tf == sf + stride(k, df)
            &&& tr == sr + stride(k, dr)
            &&& on_board(tf, tr)
            &&& forall|f: int, r: int| lies_between(sf, sr, tf, tr, f, r) ==> #[trigger] cell(b, f, r) is None
            &&& !(cell(b, tf, tr) is Some && cell(b, tf, tr)->0.is_white() == cell(b, sf, sr)->0.is_white())
        },
{
    let k = ray_distance(sf, sr, tf, tr, dr, df);
    if k >= 1 && tf == sf + stride(k, df) && tr == sr + stride(k, dr) {
        if ray_clear(b, sf, sr, dr, df, k) {
            assert forall|f: int, r: int| lies_between(sf, sr, tf, tr, f, r) implies #[trigger] cell(b, f, r) is None by {
                let j = if df == 1 {
                    f - sf
                } else if df == -1 {
                    sf - f
                } else if dr == 1 {
                    r - sr
                } else {
                    sr - r
                };
                assert(f == sf + stride(j, df) && r == sr + stride(j, dr));
                assert(cell(b, sf + stride(j, df), sr + stride(j, dr)) is None);
            }
        }
        if forall|f: int, r: int| lies_between(sf, sr, tf, tr, f, r) ==> #[trigger] cell(b, f, r) is None {
            assert forall|j: int| 1 <= j < k implies #[trigger] cell(b, sf + stride(j, df), sr + stride(j, dr))
                is None by {
                assert(lies_between(sf, sr, tf, tr, sf + stride(j, df), sr + stride(j, dr)));
            }
        }
    }
}

/// A rook moves along its rank or its file to any square such that every
/// square strictly between is empty, and not onto a piece of its own colour.
pub proof fn lemma_rook_moves(b: Cells, ep: Option<(int, int)>, sf: int, sr: int, tf: int, tr: int, fuel: nat)
    requires
        cell(b, sf, sr) is Some,
        cell(b, sf, sr)->0.piece_type() == PieceType::Rook,
        on_board(tf, tr),
    ensures
        legal_move(b, ep, sf, sr, tf, tr, fuel) <==> {
            &&& (sr == tr && sf != tf) || (sf == tf && sr != tr)
            &&& forall|f: int, r: int| lies_between(sf, sr, tf, tr, f, r) ==> #[trigger] cell(b, f, r) is None
            &&& !(cell(b, tf, tr) is Some && cell(b, tf, tr)->0.is_white() == cell(b, sf, sr)->0.is_white())
        },
{
    lemma_slide_explicit(b, sf, sr, tf, tr, 1, 0);
    lemma_slide_explicit(b, sf, sr, tf, tr, -1, 0);
    lemma_slide_explicit(b, sf, sr, tf, tr, 0, 1);
    lemma_slide_explicit(b, sf, sr, tf, tr, 0, -1);
}

/// A bishop moves along a diagonal to any square such that every square
/// strictly between is empty, and not onto a piece of its own colour.
pub proof fn lemma_bishop_moves(b: Cells, ep: Option<(int, int)>, sf: int, sr: int, tf: int, tr: int, fuel: nat)
    requires
        cell(b, sf, sr) is Some,
        cell(b, sf, sr)->0.piece_type() == PieceType::Bishop,
        on_board(tf, tr),
    ensures
        legal_move(b, ep, sf, sr, tf, tr, fuel) <==> {
            &&& (tf - sf == tr - sr || tf - sf == sr - tr) && tf != sf
            &&& forall|f: int, r: int| lies_between(sf, sr, tf, tr, f, r) ==> #[trigger] cell(b, f, r) is None
            &&& !(cell(b, tf, tr) is Some && cell(b, tf, tr)->0.is_white() == cell(b, sf, sr)->0.is_white())
        },
{
    lemma_slide_explicit(b, sf, sr, tf, tr, 1, 1);
    lemma_slide_explicit(b, sf, sr, tf, tr, 1, -1);
    lemma_slide_explicit(b, sf, sr, tf, tr, -1, 1);
    lemma_slide_explicit(b, sf, sr, tf, tr, -1, -1);
}

/// A queen moves along its rank, its file or a diagonal to any square such
/// that every square strictly between is empty, and not onto a piece of its
/// own colour.
pub proof fn lemma_queen_moves(b: Cells, ep: Option<(int, int)>, sf: int, sr: int, tf: int, tr: int, fuel: nat)
    requires
        cell(b, sf, sr) is Some,
        cell(b, sf, sr)->0.piece_type() == PieceType::Queen,
        on_board(tf, tr),
    ensures
        legal_move(b, ep, sf, sr, tf, tr, fuel) <==> {
            &&& (sr == tr || sf == tf || tf - sf == tr - sr || tf - sf == sr - tr) && !(sf == tf && sr == tr)
            &&& forall|f: int, r: int| lies_between(sf, sr, tf, tr, f, r) ==> #[trigger] cell(b, f, r) is None
            &&& !(cell(b, tf, tr) is Some && cell(b, tf, tr)->0.is_white() == cell(b, sf, sr)->0.is_white())
        },
{
    lemma_slide_explicit(b, sf, sr, tf, tr, 1, 0);
    lemma_slide_explicit(b, sf, sr, tf, tr, -1, 0);
    lemma_slide_explicit(b, sf, sr, tf, tr, 0, 1);
    lemma_slide_explicit(b, sf, sr, tf, tr, 0, -1);
    lemma_slide_explicit(b, sf, sr, tf, tr, 1, 1);
    lemma_slide_explicit(b, sf, sr, tf, tr, 1, -1);
    lemma_slide_explicit(b, sf, sr, tf, tr, -1, 1);
    lemma_slide_explicit(b, sf, sr, tf, tr, -1, -1);
}

/// A king steps to any of the eight neighbouring squares that does not hold
/// a piece of its own colour; its only longer move is castling, two files
/// along its rank; it never stays where it is.
pub proof fn lemma_king_moves(b: Cells, ep: Option<(int, int)>, sf: int, sr: int, tf: int, tr: int, fuel: nat)
    requires
        cell(b, sf, sr) is Some,
        cell(b, sf, sr)->0.piece_type() == PieceType::King,
        on_board(tf, tr),
    ensures
        -1 <= tr - sr <= 1 && -1 <= tf - sf <= 1 && !(tr == sr && tf == sf) ==> (legal_move(
            b,
            ep,
            sf,
            sr,
            tf,
            tr,
            fuel,
        ) <==> !(cell(b, tf, tr) is Some && cell(b, tf, tr)->0.is_white() == cell(b, sf, sr)->0.is_white())),
        legal_move(b, ep, sf, sr, tf, tr, fuel) && !(-1 <= tr - sr <= 1 && -1 <= tf - sf <= 1) ==> {
            &&& tr == sr
            &&& (tf - sf == 2 || tf - sf == -2)
            &&& castle_ok(b, ep, sf, sr, tf, tr, fuel)
        },
        !legal_move(b, ep, sf, sr, sf, sr, fuel),
{
}

/// A pawn moves forward only (up the board for white, down for black): one
/// square onto an empty square; one square diagonally onto an enemy piece or
/// onto the en passant square; two squares, when it has not moved, over an
/// empty square onto an empty square. It never captures straight ahead and
/// never lands on a piece of its own colour.
pub proof fn lemma_pawn_moves(b: Cells, ep: Option<(int, int)>, sf: int, sr: int, tf: int, tr: int, fuel: nat)
    requires
        cell(b, sf, sr) is Some,
        cell(b, sf, sr)->0.piece_type() == PieceType::Pawn,
        on_board(tf, tr),
    ensures
        ({
            let p = cell(b, sf, sr)->0;
            let d = if p.is_white() { 1int } else { -1int };
            let legal = legal_move(b, ep, sf, sr, tf, tr, fuel);
            &&& legal ==> (tr - sr == d || tr - sr == 2 * d) && -1 <= tf - sf <= 1
            &&& legal ==> !(cell(b, tf, tr) is Some && cell(b, tf, tr)->0.is_white() == p.is_white())
            &&& legal && tf == sf ==> cell(b, tf, tr) is None
            &&& legal && tf != sf ==> tr - sr == d && (cell(b, tf, tr) is Some || ep == Some((tf, tr)))
            &&& legal && tr - sr == 2 * d ==> tf == sf && !p.has_moved() && cell(b, sf, sr + d) is None
            &&& tr - sr == d && tf == sf && cell(b, tf, tr) is None ==> legal
            &&& tr - sr == d && (tf - sf == 1 || tf - sf == -1) && cell(b, tf, tr) is Some && cell(b, tf, tr)->0.is_white()
                != p.is_white() ==> legal
            &&& tr - sr == d && (tf - sf == 1 || tf - sf == -1) && cell(b, tf, tr) is None && ep == Some((tf, tr))
                ==> legal
            &&& tr - sr == 2 * d && tf == sf && !p.has_moved() && cell(b, sf, sr + d) is None && cell(b, tf, tr)
                is None ==> legal
        }),
{
}

} // verus!
