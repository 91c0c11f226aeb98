# tinct

The front end of the tinct language: it splits sources into tokens, parses them
into surface trees with recovery from errors, reports diagnostics, keeps the
session of the interactive prompt, and collects profiling spans.

Verus proves the functions of the library against their contracts, with these
exceptions. What the library takes from `std` and `indexmap` is declared in
`text`, `header`, `thunk` and `profiling`: the contracts of those declarations
are believed, not proved. `profiling::elapsed_us` has no contract, because
nothing is claimed of the time that passes. Implementations that `derive` writes
have no contracts.

Layout of `src/`:

- Tokens: `scan` (lexemes), `lexer` (tokens with lines and columns), `pieces`
  (tokens of the compact syntax), `stream` (looking ahead, comments).
- Trees: `ast` and `tree` are the trees, `model` their mathematical models,
  `node` builds and reads expressions.
- The parser: `frame` (open forms), `state` (the state and recovery), one module
  for what each token does (`open`, `close`, `colon`, `operator`, `value`,
  `section`, `annotate`, `direct`), `place` and `take` (putting expressions into
  forms and taking them out), `parser` (the loop and its entry points), `laws`
  and `sound` (what holds of every parse and of the trees that it builds).
  `parser2` parses the compact syntax; `layout` shows which tokens change nothing
  there.
- Output: `diagnostic`, `report`.
- The prompt: `brackets`, `console` (which lines make an input), `repl` (the
  session).
- Profiling: `profiling`, with the values of `thunk`; `history` (what holds over
  any sequence of calls); `records` (the line of a record parses to its dict).
- `text` and `header` hold what the library takes from `std` and `indexmap`.

A parse is a function on models: `parser::step` says what a token makes of the
state, `parser::parsed` what a source leads to, and the executable functions
return what these say.

`app/` runs the prompt on a terminal with `rustyline`; the evaluator comes from
its caller.
