# neo_calc

A calculator for expressions such as `2pi + sin(3!)` or `x^2 - 3x + 1`, with
stored variables and a function plotter.

- `src/` is the verified library (Verus). It strips the whitespace of an input
  line while remembering where each character stood, parses the expression
  with a grammar that is stated as a specification (`grammar.rs`) and
  implemented by a recursive-descent parser proved against it (`parser.rs`),
  and compiles it (`compile.rs`) to a stack program: the evaluation steps in
  the order in which they happen, followed by the error that stops evaluation,
  if any, with its position in the original line. It also validates variable
  names, keeps the table of stored variables, builds the caret line under an
  error, and trims formatted numbers. `laws.rs` proves properties that relate
  these functions.
- `app/` is the Leptos user interface and everything that computes with
  floating-point numbers: the stack machine that runs a compiled program, the
  numeric functions, number formatting, and drawing the plot on a canvas.
- `tests/` exercises the library, including full evaluations through a small
  stack machine like the one in `app/`.
