# hexy_reversi

Reversi on a hexagonal board of radius 4 (61 cells, axial coordinates), played
by a human against a computer player.

- `src/` is the verified library: the board and its cells (`board`), the
  capture rule and legal moves (`rules`), the game state and its turn and pass
  rules (`game`), the computer's move scoring and stable ranking (`scoring`),
  its random draws (`random`), decimal text (`text`), the decision panel and
  what each cell of the board shows (`presentation`), the session that turns
  clicks, pointer moves and timer events into state changes, sounds and
  computer turns (`session`), and the laws that relate these (`laws`).
- `app/` is the window around it: drawing with gpui, sound with rodio, the
  clock, and the timer that runs the computer's turn.
- `tests/` exercise the library on concrete positions.
