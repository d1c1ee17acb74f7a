use vstd::prelude::*;

use crate::pieces::{ChessPiece, PieceType};
use vstd::string::StringSliceAdditionalSpecFns;
use vstd::string::StrSliceExecFns;
use vstd::string::StringExecFns;
use vstd::string::is_ascii;

verus! {

/// The 64 squares of a board, file-major: the square on file `f` and rank
/// `r` (both counted from 0, `a1` being file 0, rank 0) is at index `8 * f + r`.
pub type Cells = Seq<Option<ChessPiece>>;

/// File and rank both in `0..8`.
pub open spec fn on_board(file: int, rank: int) -> bool {
    0 <= file < 8 && 0 <= rank < 8
}

/// What stands on a square; `None` for an empty square or a place off the board.
pub open spec fn cell(b: Cells, file: int, rank: int) -> Option<ChessPiece> {
    if on_board(file, rank) {
        b[file * 8 + rank]
    } else {
        None
    }
}

/// The board with `piece` put on the given square.
pub open spec fn put(b: Cells, file: int, rank: int, piece: Option<ChessPiece>) -> Cells {
    b.update(file * 8 + rank, piece)
}

/// The board after the content of the start square is carried to the stop
/// square: the start square is emptied and the stop square overwritten.
pub open spec fn carry(b: Cells, start_file: int, start_rank: int, stop_file: int, stop_rank: int) -> Cells {
    put(put(b, start_file, start_rank, None), stop_file, stop_rank, cell(b, start_file, start_rank))
}

/// Both squares hold a piece, and the two pieces have one colour.
pub open spec fn same_color(b: Cells, start_file: int, start_rank: int, stop_file: int, stop_rank: int) -> bool {
    &&& cell(b, start_file, start_rank) is Some
    &&& cell(b, stop_file, stop_rank) is Some
    &&& cell(b, start_file, start_rank)->0.is_white() == cell(b, stop_file, stop_rank)->0.is_white()
}

/// The stop square holds a piece that is not of the start piece's colour
/// (an empty start square counts as no colour).
pub open spec fn is_capture(b: Cells, start_file: int, start_rank: int, stop_file: int, stop_rank: int) -> bool {
    cell(b, stop_file, stop_rank) is Some && !same_color(b, start_file, start_rank, stop_file, stop_rank)
}

/// The kind of piece on each square of the back rank, from file `a` to `h`.
pub open spec fn back_rank_kind(file: int) -> PieceType {
    if file == 0 || file == 7 {
        PieceType::Rook
    } else if file == 1 || file == 6 {
        PieceType::Knight
    } else if file == 2 || file == 5 {
        PieceType::Bishop
    } else if file == 3 {
        PieceType::Queen
    } else {
        PieceType::King
    }
}

/// The standard starting position, no piece having moved.
pub open spec fn starting_cell(file: int, rank: int) -> Option<ChessPiece> {
    if rank == 0 || rank == 7 {
        Some(ChessPiece::spec_new(back_rank_kind(file), rank == 0, false))
    } else if rank == 1 || rank == 6 {
        Some(ChessPiece::spec_new(PieceType::Pawn, rank == 1, false))
    } else {
        None
    }
}

/// A square of the board, by file and rank index, both in `0..8`.
#[derive(Debug, PartialEq, Eq, Clone, Copy, Structural)]
pub struct Square {
    pub(crate) file: i8,
    pub(crate) rank: i8,
}

/// The file index of a file letter `a` to `h`.
pub open spec fn file_of_letter(letter: char) -> Option<int> {
    if 'a' <= letter <= 'h' {
        Some(letter as int - 'a' as int)
    } else {
        None
    }
}

/// An ASCII digit `0` to `9`.
pub open spec fn is_ascii_digit(c: char) -> bool {
    '0' <= c <= '9'
}

/// The square named by lower-case notation such as `e4`, as (file, rank),
/// from its file letter and its rank number (1 to 8).
pub open spec fn notation_square(file: char, rank: int) -> Option<(int, int)> {
    match file_of_letter(file) {
        Some(f) => if 1 <= rank <= 8 {
            Some((f, rank - 1))
        } else {
            None
        },
        None => None,
    }
}

/// The square that a notation string names: two bytes, the first a file
/// letter and the second a rank digit.
pub open spec fn parse_notation(s: &str) -> Option<(int, int)> {
    if s.spec_bytes().len() != 2 || s@.len() != 2 || !is_ascii_digit(s@[1]) {
        None
    } else {
        notation_square(s.spec_bytes()[0] as char, s@[1] as int - '0' as int)
    }
}

/// The upper-case name of a square, such as `A1` or `D7`.
pub open spec fn square_name(file: int, rank: int) -> Seq<char> {
    seq![(file + 'A' as int) as char, (rank + '1' as int) as char]
}

/// The square that an upper-case name such as `E4` stands for, as (file, rank).
pub open spec fn parse_square_name(s: Seq<char>) -> Option<(int, int)> {
    if s.len() == 2 && 'A' <= s[0] <= 'H' && '1' <= s[1] <= '8' {
        Some((s[0] as int - 'A' as int, s[1] as int - '1' as int))
    } else {
        None
    }
}

impl Square {
    #[verifier::type_invariant]
    pub open(crate) spec fn wf(self) -> bool {
        on_board(self.file as int, self.rank as int)
    }

    pub open(crate) spec fn spec_file(&self) -> i8 {
        self.file
    }

    pub open(crate) spec fn spec_rank(&self) -> i8 {
        self.rank
    }

    /// The square at a file and rank index, when both are in `0..8`.
    pub fn new_square_from_index(file: i8, rank: i8) -> (res: Option<Self>)
        ensures
            res is Some <==> on_board(file as int, rank as int),
            res matches Some(sq) ==> sq.file() == file && sq.rank() == rank,
    {
        if file >= 0 && file < 8 && rank >= 0 && rank < 8 {
            Some(Self { file, rank })
        } else {
            None
        }
    }

    /// The square of a file letter `a` to `h` and a rank number 1 to 8.
    fn new_square_from_notation(file: char, rank: i8) -> (res: Option<Self>)
        ensures
            res is Some <==> notation_square(file, rank as int) is Some,
            res matches Some(sq) ==> notation_square(file, rank as int) == Some(
                (sq.file() as int, sq.rank() as int),
            ),
    {
        let converted_file: i8 = match file {
            'a' => 0,
            'b' => 1,
            'c' => 2,
            'd' => 3,
            'e' => 4,
            'f' => 5,
            'g' => 6,
            'h' => 7,
            _ => return None,
        };
        let converted_rank: i8;
        if rank > 8 || rank <= 0 {
            return None;
        } else {
            converted_rank = rank - 1;
        }
        Self::new_square_from_index(converted_file, converted_rank)
    }

    /// Reads lower-case notation such as `a1` into a square. A string that
    /// is not two bytes long, or that names no square, gives `None`.
    pub fn new_square_from_notation_str(notation_string: &str) -> (res: Option<Self>)
        ensures
            res is Some <==> parse_notation(notation_string) is Some,
            res matches Some(sq) ==> parse_notation(notation_string) == Some(
                (sq.file() as int, sq.rank() as int),
            ),
    {
        let bytes: &[u8] = notation_string.as_bytes();
        if bytes.len() != 2 {
            return None;
        }
        // Two bytes may also be one character of two bytes.
        if notation_string.unicode_len() != 2 {
            return None;
        }
        let second: char = notation_string.get_char(1);
        let rank: i8 = match second {
            '0' => 0,
            '1' => 1,
            '2' => 2,
            '3' => 3,
            '4' => 4,
            '5' => 5,
            '6' => 6,
            '7' => 7,
            '8' => 8,
            '9' => 9,
            _ => return None,
        };
        let file: char = bytes[0] as char;
        Self::new_square_from_notation(file, rank)
    }

    #[verifier::when_used_as_spec(spec_file)]
    pub fn file(&self) -> (res: i8)
        ensures
            res == self.spec_file(),
            0 <= res < 8,
    {
        proof {
            use_type_invariant(self);
        }
        self.file
    }

    #[verifier::when_used_as_spec(spec_rank)]
    pub fn rank(&self) -> (res: i8)
        ensures
            res == self.spec_rank(),
            0 <= res < 8,
    {
        proof {
            use_type_invariant(self);
        }
        self.rank
    }
}

impl From<Square> for String {
    /// The upper-case name of the square, such as `A1`.
    fn from(square: Square) -> (res: String)
        ensures
            res@ == square_name(square.file() as int, square.rank() as int),
    {
        proof {
            use_type_invariant(square);
            reveal_strlit("A");
            reveal_strlit("B");
            reveal_strlit("C");
            reveal_strlit("D");
            reveal_strlit("E");
            reveal_strlit("F");
            reveal_strlit("G");
            reveal_strlit("H");
            reveal_strlit("1");
            reveal_strlit("2");
            reveal_strlit("3");
            reveal_strlit("4");
            reveal_strlit("5");
            reveal_strlit("6");
            reveal_strlit("7");
            reveal_strlit("8");
        }
        let file: &str = match square.file {
            0 => "A",
            1 => "B",
            2 => "C",
            3 => "D",
            4 => "E",
            5 => "F",
            6 => "G",
            _ => "H",
        };
        let rank: &str = match square.rank {
            0 => "1",
            1 => "2",
            2 => "3",
            3 => "4",
            4 => "5",
            5 => "6",
            6 => "7",
            _ => "8",
        };
        let mut name = String::from_str(file);
        name.append(rank);
        name
    }
}

impl vstd::std_specs::convert::FromSpecImpl<Square> for String {
    /// A `String` is not determined by its characters in the specification
    /// language, so `from` is specified by its own `ensures` instead.
    open spec fn obeys_from_spec() -> bool {
        false
    }

    open spec fn from_spec(v: Square) -> String {
        arbitrary()
    }
}

impl<'a> TryFrom<&'a str> for Square {
    type Error = ();

    /// Reads an upper-case square name such as `E4`; anything else is an error.
    fn try_from(value: &'a str) -> (res: Result<Self, ()>)
        ensures
            res is Ok <==> parse_square_name(value@) is Some,
            res matches Ok(sq) ==> parse_square_name(value@) == Some(
                (sq.file() as int, sq.rank() as int),
            ),
    {
        if value.unicode_len() != 2 {
            return Err(());
        }
        let first: char = value.get_char(0);
        let second: char = value.get_char(1);
        let file: i8 = match first {
            'A' => 0,
            'B' => 1,
            'C' => 2,
            'D' => 3,
            'E' => 4,
            'F' => 5,
            'G' => 6,
            'H' => 7,
            _ => return Err(()),
        };
        let rank: i8 = match second {
            '1' => 0,
            '2' => 1,
            '3' => 2,
            '4' => 3,
            '5' => 4,
            '6' => 5,
            '7' => 6,
            '8' => 7,
            _ => return Err(()),
        };
        match Self::new_square_from_index(file, rank) {
            Some(o) => Ok(o),
            None => Err(()),
        }
    }
}

impl<'a> vstd::std_specs::convert::TryFromSpecImpl<&'a str> for Square {
    open spec fn obeys_try_from_spec() -> bool {
        true
    }

    closed spec fn try_from_spec(value: &'a str) -> Result<Square, ()> {
        match parse_square_name(value@) {
            Some((f, r)) => Ok(Square { file: f as i8, rank: r as i8 }),
            None => Err(()),
        }
    }
}

/// The board: a mailbox of 64 squares, each empty or holding one piece.
#[derive(Debug, Copy, Clone)]
pub struct Board {
    pub(crate) squares: [Option<ChessPiece>; 64],
}

impl Board {
    /// The content of the 64 squares.
    pub open(crate) spec fn cells(&self) -> Cells {
        self.squares@
    }

    /// A board with no piece on it.
    pub fn new_empty_board() -> (res: Self)
        ensures
            res.cells() == Seq::new(64, |i: int| None::<ChessPiece>),
    {
        Self { squares: [None;64] }
    }

    /// The board that eight strings of eight piece letters describe, the
    /// first string being rank 8 and the last rank 1; `.` or any other
    /// character that is not a piece letter leaves a square empty. Every
    /// piece counts as not yet moved.
    pub fn board_from_strings(string_array: [&str; 8]) -> (res: Self)
        requires
            forall|i: int| 0 <= i < 8 ==> #[trigger] string_array[i].spec_bytes().len() >= 8,
        ensures
            forall|file: int, rank: int|
                on_board(file, rank) ==> #[trigger] cell(res.cells(), file, rank)
                    == ChessPiece::spec_from_letter(
                    string_array[7 - rank].spec_bytes()[file] as char,
                    false,
                ),
    {
        let mut board = Self::new_empty_board();
        let mut rank: usize = 0;
        while rank < 8
            invariant
                rank <= 8,
                forall|i: int| 0 <= i < 8 ==> #[trigger] string_array[i].spec_bytes().len() >= 8,
                forall|f: int, r: int|
                    on_board(f, r) && 7 - r < rank ==> #[trigger] cell(board.cells(), f, r)
                        == ChessPiece::spec_from_letter(
                        string_array[7 - r].spec_bytes()[f] as char,
                        false,
                    ),
            decreases 8 - rank,
        {
            let mut file: usize = 0;
            let row: &[u8] = string_array[rank].as_bytes();
            while file < 8
                invariant
                    rank < 8,
                    file <= 8,
                    row@ == string_array[rank as int].spec_bytes(),
                    row@.len() >= 8,
                    forall|f: int, r: int|
                        on_board(f, r) && (7 - r < rank || (7 - r == rank && f < file))
                            ==> #[trigger] cell(board.cells(), f, r) == ChessPiece::spec_from_letter(
                            string_array[7 - r].spec_bytes()[f] as char,
                            false,
                        ),
                decreases 8 - file,
            {
                let letter: char = row[file] as char;
                let ghost before = board.cells();
                board.squares[file * 8 + (7 - rank)] = ChessPiece::piece_from_letter(letter, false);
                assert forall|f: int, r: int|
                    on_board(f, r) && (7 - r < rank || (7 - r == rank && f <= file)) implies
                    #[trigger] cell(board.cells(), f, r) == ChessPiece::spec_from_letter(
                        string_array[7 - r].spec_bytes()[f] as char,
                        false,
                    ) by {
                    if f == file && r == 7 - rank {
                    } else {
                        assert(f * 8 + r != file * 8 + (7 - rank));
                        assert(cell(before, f, r) == cell(board.cells(), f, r));
                    }
                }
                file += 1;
            }
            rank += 1;
        }
        board
    }
}

/// The bytes of an ASCII string of eight characters are its characters.
proof fn lemma_ascii_row(s: &str)
    requires
        s@.len() == 8,
        forall|i: int| 0 <= i < 8 ==> ' ' <= #[trigger] s@[i] <= '~',
    ensures
        s.spec_bytes().len() == 8,
        forall|i: int| 0 <= i < 8 ==> #[trigger] s.spec_bytes()[i] as char == s@[i],
{
    assert(is_ascii(s));
    vstd::string::is_ascii_spec_bytes(s);
}

impl Board {
    /// The standard starting position (see `starting_cell`).
    pub fn new_starting_board() -> (res: Self)
        ensures
            forall|file: int, rank: int|
                on_board(file, rank) ==> #[trigger] cell(res.cells(), file, rank) == starting_cell(
                    file,
                    rank,
                ),
    {
        let rows: [&str; 8] = [
            "rnbqkbnr",
            "pppppppp",
            "........",
            "........",
            "........",
            "........",
            "PPPPPPPP",
            "RNBQKBNR",
        ];
        proof {
            reveal_strlit("rnbqkbnr");
            reveal_strlit("pppppppp");
            reveal_strlit("........");
            reveal_strlit("PPPPPPPP");
            reveal_strlit("RNBQKBNR");
            lemma_ascii_row("rnbqkbnr");
            lemma_ascii_row("pppppppp");
            lemma_ascii_row("........");
            lemma_ascii_row("PPPPPPPP");
            lemma_ascii_row("RNBQKBNR");
        }
        let board = Board::board_from_strings(rows);
        proof {
            assert forall|file: int, rank: int| on_board(file, rank) implies
                #[trigger] cell(board.cells(), file, rank) == starting_cell(file, rank) by {
                if rank == 0 {
                    assert(rows[7 - rank]@ == "RNBQKBNR"@);
                } else if rank == 1 {
                    assert(rows[7 - rank]@ == "PPPPPPPP"@);
                } else if rank == 6 {
                    assert(rows[7 - rank]@ == "pppppppp"@);
                } else if rank == 7 {
                    assert(rows[7 - rank]@ == "rnbqkbnr"@);
                } else {
                    assert(rows[7 - rank]@ == "........"@);
                }
            }
        }
        board
    }
}

impl Board {
    /// Puts `chess_piece` (or nothing) on a square; the other squares keep
    /// their content.
    pub fn set_piece_square(&mut self, square: &Square, chess_piece: Option<ChessPiece>)
        ensures
            final(self).cells() == put(
                old(self).cells(),
                square.file() as int,
                square.rank() as int,
                chess_piece,
            ),
    {
        proof {
            use_type_invariant(square);
        }
        self.squares[(square.file as usize) * 8 + square.rank as usize] = chess_piece;
    }

    /// The content of a square.
    pub fn get_piece_square(&self, square: &Square) -> (res: Option<ChessPiece>)
        ensures
            res == cell(self.cells(), square.file() as int, square.rank() as int),
    {
        proof {
            use_type_invariant(square);
        }
        self.squares[(square.file as usize) * 8 + square.rank as usize]
    }

    /// The content of the square at a file and a rank index.
    pub fn get_piece_file_rank(&self, file: i8, rank: i8) -> (res: Option<ChessPiece>)
        requires
            on_board(file as int, rank as int),
        ensures
            res == cell(self.cells(), file as int, rank as int),
    {
        return self.get_piece_square(&Square::new_square_from_index(file, rank).unwrap());
    }

    /// Carries the content of `start` to `stop`: `start` is left empty and
    /// whatever stood on `stop` is overwritten.
    pub fn move_piece_square(&mut self, start: &Square, stop: &Square)
        ensures
            final(self).cells() == carry(
                old(self).cells(),
                start.file() as int,
                start.rank() as int,
                stop.file() as int,
                stop.rank() as int,
            ),
    {
        let piece = self.get_piece_square(start);
        self.set_piece_square(start, None);
        self.set_piece_square(stop, piece);
    }

    /// Whether both squares hold pieces of one colour.
    pub fn is_same_color(&self, start: &Square, stop: &Square) -> (res: bool)
        ensures
            res == same_color(
                self.cells(),
                start.file() as int,
                start.rank() as int,
                stop.file() as int,
                stop.rank() as int,
            ),
    {
        let start_piece = match self.get_piece_square(start) {
            Some(piece) => piece,
            None => return false,
        };
        let stop_piece = match self.get_piece_square(stop) {
            Some(piece) => piece,
            None => return false,
        };
        return start_piece.is_white() == stop_piece.is_white();
    }

    /// Whether moving from `start` to `stop` would take a piece: `stop`
    /// holds a piece that is not of `start`'s colour.
    pub fn would_be_capture(&self, start: &Square, stop: &Square) -> (res: bool)
        ensures
            res == is_capture(
                self.cells(),
                start.file() as int,
                start.rank() as int,
                stop.file() as int,
                stop.rank() as int,
            ),
    {
        match self.get_piece_square(stop) {
            None => return false,
            Some(_) => (),
        };
        return !self.is_same_color(start, stop);
    }
}

/// Square names spell the files with the letters `A` to `H` in order and the
/// ranks with the digits `1` to `8` in order: file 0 is `A`, each next file
/// the next letter, and the letter is the upper-case form of the one that
/// lower-case notation reads as that file. A name reads back as exactly its
/// square.
pub proof fn lemma_square_names(file: int, rank: int)
    requires
        on_board(file, rank),
    ensures
        square_name(file, rank).len() == 2,
        square_name(0, rank)[0] == 'A',
        square_name(file, 0)[1] == '1',
        file < 7 ==> square_name(file + 1, rank)[0] as int == square_name(file, rank)[0] as int + 1,
        rank < 7 ==> square_name(file, rank + 1)[1] as int == square_name(file, rank)[1] as int + 1,
        file_of_letter((square_name(file, rank)[0] as int + ('a' as int - 'A' as int)) as char) == Some(file),
        notation_square((square_name(file, rank)[0] as int + ('a' as int - 'A' as int)) as char, rank + 1) == Some(
            (file, rank),
        ),
        forall|s: Seq<char>| parse_square_name(s) == Some((file, rank)) <==> s =~= square_name(file, rank),
{
    assert forall|s: Seq<char>| parse_square_name(s) == Some((file, rank)) implies s =~= square_name(file, rank) by {
        lemma_square_name_unique(s);
    }
}

/// Lower-case notation names a square by the lower-case letter of its file
/// and the digit of its rank, the same as the square's upper-case name: a
/// string reads as a square exactly when its first byte is that letter and
/// its second character that digit.
pub proof fn lemma_notation_matches_names(s: &str, file: int, rank: int)
    requires
        on_board(file, rank),
        s.spec_bytes().len() == 2,
        s@.len() == 2,
    ensures
        parse_notation(s) == Some((file, rank)) <==> s.spec_bytes()[0] as int == square_name(file, rank)[0] as int
            + ('a' as int - 'A' as int) && s@[1] == square_name(file, rank)[1],
{
}

/// The starting position: white's pieces on ranks 1 and 2, black's mirrored
/// on ranks 8 and 7, each back rank holding rook, knight, bishop, queen,
/// king, bishop, knight, rook from file `a` to `h`, a pawn on each file of
/// the second rank, and the middle of the board empty; no piece has moved.
pub proof fn lemma_starting_position(file: int, rank: int)
    requires
        on_board(file, rank),
    ensures
        starting_cell(file, rank) is Some <==> (rank <= 1 || rank >= 6),
        starting_cell(file, rank) matches Some(p) ==> p.is_white() == (rank <= 1) && !p.has_moved(),
        starting_cell(file, rank) matches Some(p) ==> starting_cell(file, 7 - rank) matches Some(q)
            && q.piece_type() == p.piece_type() && q.is_white() != p.is_white(),
        (rank == 1 || rank == 6) ==> starting_cell(file, rank)->0.piece_type() == PieceType::Pawn,
        rank == 0 ==> starting_cell(file, rank)->0.piece_type() == (if file == 0 || file == 7 {
            PieceType::Rook
        } else if file == 1 || file == 6 {
            PieceType::Knight
        } else if file == 2 || file == 5 {
            PieceType::Bishop
        } else if file == 3 {
            PieceType::Queen
        } else {
            PieceType::King
        }),
{
}

/// Naming a square and reading the name back gives the same square.
pub proof fn lemma_square_name_round_trip(file: int, rank: int)
    requires
        on_board(file, rank),
    ensures
        parse_square_name(square_name(file, rank)) == Some((file, rank)),
{
}

/// A name that reads as a square is that square's name.
pub proof fn lemma_square_name_unique(name: Seq<char>)
    ensures
        parse_square_name(name) matches Some((f, r)) ==> on_board(f, r) && square_name(f, r) =~= name,
{
}

/// What is put on a square is read back from it, and every other square
/// keeps its content.
pub proof fn lemma_put_then_read(b: Cells, file: int, rank: int, piece: Option<ChessPiece>, f: int, r: int)
    requires
        b.len() == 64,
        on_board(file, rank),
    ensures
        cell(put(b, file, rank, piece), file, rank) == piece,
        !(f == file && r == rank) ==> cell(put(b, file, rank, piece), f, r) == cell(b, f, r),
{
}

/// Carrying a piece empties the start square and puts the start square's
/// former content on the stop square; every other square keeps its content.
/// Carrying a square's content onto itself changes nothing.
pub proof fn lemma_carry(b: Cells, sf: int, sr: int, tf: int, tr: int, f: int, r: int)
    requires
        b.len() == 64,
        on_board(sf, sr),
        on_board(tf, tr),
    ensures
        cell(carry(b, sf, sr, tf, tr), tf, tr) == cell(b, sf, sr),
        !(sf == tf && sr == tr) ==> cell(carry(b, sf, sr, tf, tr), sf, sr) is None,
        !(f == sf && r == sr) && !(f == tf && r == tr) ==> cell(carry(b, sf, sr, tf, tr), f, r) == cell(b, f, r),
        (sf == tf && sr == tr) ==> carry(b, sf, sr, tf, tr) == b,
{
    if sf == tf && sr == tr {
        assert(carry(b, sf, sr, tf, tr) =~= b);
    }
}

/// Having one colour does not depend on the order of the two squares, and
/// a capture never takes a piece of the mover's own colour.
pub proof fn lemma_same_color_symmetric(b: Cells, sf: int, sr: int, tf: int, tr: int)
    ensures
        same_color(b, sf, sr, tf, tr) == same_color(b, tf, tr, sf, sr),
        is_capture(b, sf, sr, tf, tr) ==> cell(b, tf, tr) is Some && !same_color(b, sf, sr, tf, tr),
{
}

} // verus!
