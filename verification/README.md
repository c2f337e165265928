# fat

A small, syntax-aware `cat`: file headers, a number gutter, inclusive line
ranges, squeezed blank lines, visible whitespace and light highlighting for
Rust, TOML, YAML, JSON, Markdown and shell scripts.

The library in `src/` is written in Verus. Every function there carries a
contract over mathematical models (`Seq<char>` for text, `OptionsModel` for
the parsed options), and the properties the tool promises are proved as
public proof functions in `src/laws.rs` and `src/escapes.rs`.

- `options.rs` — command-line parsing, with its grammar as a spec function;
  `arguments.rs` — laws of that grammar.
- `display.rs` — color, decoration, gutter and pager decisions.
- `render.rs` — the verbatim `--plain` output, and otherwise line splitting,
  ranges, squeezing, the gutter, headers and the output of several inputs.
- `highlight.rs` — language detection, highlighting and whitespace marks.
- `number.rs`, `text.rs`, `style.rs` — decimal numbers, text helpers and
  terminal escape sequences.
- `escapes.rs` — a model of what a terminal shows and of deleting the
  style codes, and the proofs that colors only add escape sequences.

`app/main.rs` is the command itself: it reads files and standard input,
consults the environment and the terminal, and writes the rendered bytes to
standard output or through `less -R -F -X`.
