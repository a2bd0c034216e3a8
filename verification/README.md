# Chess move generation, verified

A verified library that generates the moves of a chess position, tells which
of them are legal, finds attackers of a square, plays out a capture exchange,
and applies moves to a position. Every function is proved in Verus against a
contract stated over a mathematical model of the board.

Layout of `src/`:

- `square.rs`, `piece.rs`: squares (`8 * rank + file`) and piece codes (type plus color bit).
- `bitboard.rs`: sets of squares as 64-bit words.
- `moveboard.rs`: the step patterns of knight, king and pawns, and the eight rays.
- `move_.rs`: moves packed in 32 bits.
- `position.rs`: the position, its model `PositionView`, and `apply_move`.
- `rules.rs`: the rules of movement and attack, as spec functions.
- `move_order.rs`: the order in which the generator lists moves.
- `generator.rs`: the move generator and attack queries.
- `exchange.rs`: the capture exchange on a square.
- `outcome.rs`, `text.rs`: search outcomes, their scores and UCI text.
- `laws.rs`: properties that relate several functions.
