use vstd::prelude::*;

verus! {

/// The six kinds of chess piece.
#[derive(Debug, Clone, Copy, PartialEq, Eq, Structural)]
pub enum PieceType {
    Pawn,
    Knight,
    Bishop,
    Rook,
    Queen,
    King,
}

/// A piece on the board: its kind, its colour and whether it has moved yet.
#[derive(Debug, Clone, Copy, PartialEq, Eq, Structural)]
pub struct ChessPiece {
    pub(crate) piece_type: PieceType,
    pub(crate) is_white: bool,
    pub(crate) has_moved: bool,
}

/// The kind of piece that a letter stands for, in either case
/// (`p n b r q k`, upper case for white).
pub open spec fn letter_kind(letter: char) -> Option<PieceType> {
    if letter == 'p' || letter == 'P' {
        Some(PieceType::Pawn)
    } else if letter == 'n' || letter == 'N' {
        Some(PieceType::Knight)
    } else if letter == 'b' || letter == 'B' {
        Some(PieceType::Bishop)
    } else if letter == 'r' || letter == 'R' {
        Some(PieceType::Rook)
    } else if letter == 'q' || letter == 'Q' {
        Some(PieceType::Queen)
    } else if letter == 'k' || letter == 'K' {
        Some(PieceType::King)
    } else {
        None
    }
}

/// An upper-case ASCII letter.
pub open spec fn is_ascii_upper(letter: char) -> bool {
    'A' <= letter <= 'Z'
}

/// The lower-case letter of a kind of piece.
pub open spec fn kind_letter(kind: PieceType) -> char {
    match kind {
        PieceType::Pawn => 'p',
        PieceType::Knight => 'n',
        PieceType::Bishop => 'b',
        PieceType::Rook => 'r',
        PieceType::Queen => 'q',
        PieceType::King => 'k',
    }
}

/// The upper-case letter of a kind of piece.
pub open spec fn kind_letter_upper(kind: PieceType) -> char {
    match kind {
        PieceType::Pawn => 'P',
        PieceType::Knight => 'N',
        PieceType::Bishop => 'B',
        PieceType::Rook => 'R',
        PieceType::Queen => 'Q',
        PieceType::King => 'K',
    }
}

/// The symbol of a square's content: `.` when empty, the kind's letter
/// otherwise, upper case for a white piece.
pub open spec fn piece_letter(piece: Option<ChessPiece>) -> char {
    match piece {
        None => '.',
        Some(p) => if p.is_white() {
            kind_letter_upper(p.piece_type())
        } else {
            kind_letter(p.piece_type())
        },
    }
}

impl ChessPiece {
    /// The piece with the given kind, colour and moved flag.
    pub open(crate) spec fn spec_new(piece_type: PieceType, is_white: bool, has_moved: bool) -> ChessPiece {
        ChessPiece { piece_type, is_white, has_moved }
    }

    pub open(crate) spec fn spec_piece_type(&self) -> PieceType {
        self.piece_type
    }

    pub open(crate) spec fn spec_is_white(&self) -> bool {
        self.is_white
    }

    pub open(crate) spec fn spec_has_moved(&self) -> bool {
        self.has_moved
    }

    /// The piece that `letter` stands for when read from a board string.
    pub open(crate) spec fn spec_from_letter(letter: char, has_moved: bool) -> Option<ChessPiece> {
        match letter_kind(letter) {
            Some(kind) => Some(ChessPiece::spec_new(kind, is_ascii_upper(letter), has_moved)),
            None => None,
        }
    }

    /// Makes a piece; this never fails.
    pub fn new(piece_type: PieceType, is_white: bool, has_moved: bool) -> (res: Option<Self>)
        ensures
            res == Some(ChessPiece::spec_new(piece_type, is_white, has_moved)),
    {
        Some(ChessPiece { piece_type, is_white, has_moved })
    }

    /// Reads a piece letter: `p n b r q k` in either case, upper case
    /// for white. Any other character gives `None`.
    pub fn piece_from_letter(letter: char, has_moved: bool) -> (res: Option<Self>)
        ensures
            res == ChessPiece::spec_from_letter(letter, has_moved),
    {
        let is_white: bool = 'A' <= letter && letter <= 'Z';
        let piece_type: PieceType = match letter {
            'p' | 'P' => PieceType::Pawn,
            'n' | 'N' => PieceType::Knight,
            'b' | 'B' => PieceType::Bishop,
            'r' | 'R' => PieceType::Rook,
            'q' | 'Q' => PieceType::Queen,
            'k' | 'K' => PieceType::King,
            _ => return None,
        };
        Self::new(piece_type, is_white, has_moved)
    }

    /// The ASCII symbol of a square's content (see `piece_letter`).
    pub fn letter_from_piece(piece: Option<Self>) -> (res: char)
        ensures
            res == piece_letter(piece),
    {
        match piece {
            None => '.',
            Some(p) => {
                if p.is_white {
                    match p.piece_type {
                        PieceType::Pawn => 'P',
                        PieceType::Knight => 'N',
                        PieceType::Bishop => 'B',
                        PieceType::Rook => 'R',
                        PieceType::Queen => 'Q',
                        PieceType::King => 'K',
                    }
                } else {
                    match p.piece_type {
                        PieceType::Pawn => 'p',
                        PieceType::Knight => 'n',
                        PieceType::Bishop => 'b',
                        PieceType::Rook => 'r',
                        PieceType::Queen => 'q',
                        PieceType::King => 'k',
                    }
                }
            },
        }
    }

    #[verifier::when_used_as_spec(spec_piece_type)]
    pub fn piece_type(&self) -> (res: PieceType)
        ensures
            res == self.spec_piece_type(),
    {
        self.piece_type
    }

    #[verifier::when_used_as_spec(spec_is_white)]
    pub fn is_white(&self) -> (res: bool)
        ensures
            res == self.spec_is_white(),
    {
        self.is_white
    }

    #[verifier::when_used_as_spec(spec_has_moved)]
    pub fn has_moved(&self) -> (res: bool)
        ensures
            res == self.spec_has_moved(),
    {
        self.has_moved
    }

    /// Marks the piece as moved; kind and colour stay.
    pub fn has_moved_true(&mut self)
        ensures
            *final(self) == ChessPiece::spec_new(old(self).piece_type(), old(self).is_white(), true),
    {
        self.has_moved = true;
    }
}

/// Writing a piece's letter and reading it back gives the same piece,
/// for the moved flag that it carries.
pub proof fn lemma_letter_round_trip(piece: ChessPiece)
    ensures
        ChessPiece::spec_from_letter(piece_letter(Some(piece)), piece.has_moved()) == Some(piece),
{
}

/// Reading a piece letter and writing it back gives the same letter;
/// any other character reads as no piece.
pub proof fn lemma_read_letter_round_trip(letter: char, has_moved: bool)
    ensures
        letter_kind(letter) is Some ==> piece_letter(ChessPiece::spec_from_letter(letter, has_moved)) == letter,
        letter_kind(letter) is None ==> ChessPiece::spec_from_letter(letter, has_moved) is None,
{
}

/// Each kind of piece is written with the initial of its English name
/// (`n` for the knight), lower case for black and the same letter in upper
/// case for white; different kinds have different letters.
pub proof fn lemma_piece_letters(kind: PieceType, other: PieceType)
    ensures
        kind_letter(kind) == match kind {
            PieceType::Pawn => 'p',
            PieceType::Knight => 'n',
            PieceType::Bishop => 'b',
            PieceType::Rook => 'r',
            PieceType::Queen => 'q',
            PieceType::King => 'k',
        },
        kind_letter_upper(kind) as int == kind_letter(kind) as int - ('a' as int - 'A' as int),
        kind != other ==> kind_letter(kind) != kind_letter(other),
        letter_kind(kind_letter(kind)) == Some(kind),
        letter_kind(kind_letter_upper(kind)) == Some(kind),
{
}

} // verus!
