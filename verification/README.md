# snake_quiz

A terminal snake game in which every apple the snake eats asks a
multiple-choice question read from a JSON file.

- `src/` is the verified library (Verus):
  - `grid.rs`: the 30 x 30 field, where cells and the border are drawn, and
    the counting lemmas on cells;
  - `game.rs`: the game as a state machine (`Game::new`, `handle_key`, `tick`,
    `record_answer`) with its invariant, free cells and apple placement;
  - `text.rs`: whitespace, words and greedy word wrapping, decimal notation;
  - `quiz.rs`: questions, the checks on a question set, picking a question,
    choosing an answer with the keys;
  - `screen.rs`: the rows of the question and result screens, the score line;
  - `random.rs`: the one call into `rand`.
- `app/main.rs` runs the game: terminal I/O with crossterm, the clock, and
  reading the questions with serde_json.
- `tests/` exercises the library on concrete values.

The program takes the question file as its first argument (default
`questions.json`); the file holds an array of
`{"prompt": ..., "answers": [a, b, c, d], "answer_index": 0..3}`.
