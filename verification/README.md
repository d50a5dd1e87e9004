# sudokuroyale

The core of a two-player competitive Sudoku server, written in Verus: the
code runs as ordinary Rust, and its behaviour is stated in `requires` /
`ensures` contracts that Verus proves.

## Layout

- `src/layout`: cells, digits, houses (rows, columns, blocks), bit sets of
  them, rectangles, grids, and their text forms.
- `src/solve`: the board (values and candidates), actions and their effect on
  a board model, the changer, consistency of a board, the solving techniques
  (`src/solve/algorithms`), and the solver that applies them in order.
- `src/generation`: the generator of complete grids and the finder of
  givens, within the solution, that the search by trial and error completes
  in one way only.
- `src/game`: a single game: players, moves, outcomes, time control, views.
- `src/match_state.rs`, `src/game_match`: matches between two players, their
  repository, and the services that create, join, start and play them.
- `src/api`: plain request and response types and the conversions between
  them and the game.
- `src/user`: validation of user input and password-reset tokens.
- `src/io.rs`: text forms for the console.
- `tests/`: tests of the library, run against the compiled crate.
- `app/`: the HTTP and WebSocket server around the library (Rocket), with the
  serde copies of the request and response types.

## Main guarantees

- Every technique reports only actions that erase or set candidates of the
  board; most also report something exactly when their pattern is on the
  board (singles, peers, naked tuples, skyscrapers, empty rectangles, XYZ-wings,
  fireworks, BUG+1, unique rectangles of the five types); WXYZ-wings are
  reported whenever one is made of one cell with four digits, or two cells
  with the same four, and other cells with two or three of them.
- On a consistent board, the search by trial and error answers `Unsolvable`
  only when no grid completes the board, and `Solved` (when asked for all
  solutions) only for the one grid that completes it.
- The generator always returns a board, complete unless it saw the cancel
  flag raised, and a valid grid too when its changer stops on errors; the puzzles the server makes have exactly one
  completion: their solution.
- Each action states what it does: naked and hidden singles set the one
  digit left; naked tuples, XYZ- and WXYZ-wings, empty rectangles,
  skyscrapers, fireworks and the five types of unique rectangle erase exactly
  the candidates their pattern rules out.
- The solver answers a solved board as solved at once, and never leaves a
  solved board unsolved. Each of its steps (`technique_step`) takes the
  cancel flag as read and gives nothing when it is raised, else the
  technique's first action exactly when the technique finds something; the
  search gives the first action of the first technique that finds one.
- With more than the first asked for, naked tuples report every naked tuple
  on the board.
- Identifiers are parsed by the library (`parse_uuid`); the server only
  turns its refusals into HTTP statuses.
- A game applies a move only while it is running and the revision matches;
  its revision counts the moves applied; a win or loss is earned by the rules.
