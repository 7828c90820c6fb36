# thebe

Parser, compiler front end and route planner for `.trs` single-file
components, written in Verus: the library's functions are stated with
`requires` / `ensures` over mathematical models and proved. The exceptions
are the default `Visitor::visit_html_node`, whose body (a call of
`walk_html_node`) Verus does not read because it refuses recursion among a
trait's default methods, and the calls into `std` and `ariadne`, whose
contracts are trusted.

Paths are handled as `/`-separated text, as `std::path` does on Unix
hosts; a backslash is not a separator (on Windows hosts `std::path` would
also split on it).

## Layout

- `src/` — the verified library
  - `text.rs`: character sequences, UTF-8 byte positions, search helpers
  - `types.rs`, `parser.rs`, `template.rs`: the AST, the block parser
    (`parse`) and the template / HTML parsers (`parse_template`,
    `parse_html`)
  - `ir.rs`, `lower.rs`, `error.rs`: the IR and the lowering pass (`lower`)
  - `warning.rs`, `validate.rs`: semantic validation (`validate`)
  - `diagnostics.rs`: error and warning messages and diagnostic metadata
  - `report.rs`, `compile_report.rs`: plain-text reports rendered with
    `ariadne`
  - `visitor.rs`: the AST visitor
  - `discover.rs`, `emit.rs`: route discovery and the texts of the
    generated modules
- `tests/` — the test suite
- `app/` — the command-line program: file system walking, writing the
  generated files, and printing diagnostics in colour with `ariadne`
