# charlie_ast

A spreadsheet formula engine: A1 references, a semantic expression tree, a criteria language,
an evaluator and a registry of worksheet functions, with their behaviour stated as `requires` /
`ensures` contracts and proved by Verus.

## Layout

- `src/` — the verified library.
  - `a1.rs` parses and formats A1 cell references.
  - `value.rs` holds the value model and the `Number` trait the engine computes with; the
    embedding application supplies the number type.
  - `expr.rs` holds the expression tree and the `Resolver` trait through which the engine reads
    cells, the clock and a random source.
  - `eval.rs` evaluates a tree: coercions, operators, comparison order, depth limit. Its
    `evaluates` relation states what a tree evaluates to, operand by operand.
  - `criteria.rs` is the `*IF(S)` criteria language with its wildcard matcher.
  - `diag.rs` holds the located refusal codes.
  - `func/` is the function registry (`mod.rs`) and the built-ins, one family per file;
    `func/array.rs` is implicit array evaluation. Each built-in's statement is also named as a
    predicate (`…_gives`), which `row_outcome` gathers so that a call is tied to its row.
- `tests/` — the test suites, run against a small grid resolver over `f64`.
- `app/` — an `f64` number type and an in-memory workbook resolver (system clock and entropy).
