# chess_box

A chess library on a mailbox board (64 squares, each empty or holding a
piece), with every function proved against its specification in Verus.

- `src/pieces.rs`: piece kinds, pieces, and their one-letter symbols.
- `src/board.rs`: squares, their notation (`e4`, `E4`), and the board.
- `src/moves.rs`: the movement rules of each piece, castling, en passant,
  promotion, attacks, and the fifty-move counter.
- `src/game.rs`: a game: whose turn it is, check, checkmate, stalemate,
  the fifty-move draw, and playing a move or refusing it with a reason.
- `app/main.rs`: a text front end that reads moves from standard input.

The specification functions (`legal_move`, `attacked`, `move_outcome`, ...)
state the rules; the `lemma_*` proof functions state properties of the
library as a whole, such as that a refused move changes nothing and that
checkmate and stalemate exclude each other.
