# basilisk_checker

The text- and structure-level analyses behind the diagnostics of a Python
type checker, written in Verus: each rule is an executable function whose
`ensures` states exactly what it reports, as a spec function over `Seq`s,
and the laws that relate the rules' building blocks are proof functions.

Layout:

- `src/text.rs`, `src/position.rs`, `src/numbers.rs`, `src/names.rs`,
  `src/assoc.rs`: characters, trimming, splitting, lines and UTF-8 byte
  offsets; integer literals; name lists; association lists (the tables the
  rules keep, in insertion order, a repeated key replacing its value in place).
- `src/ast.rs`, `src/module.rs`, `src/hierarchy.rs`: what the rules read of a
  module — a small syntax tree, functions, classes, variables and the class
  hierarchy. A caller builds these from its parser and resolver.
- One module per rule (`src/variance.rs`, `src/deprecated.rs`,
  `src/constructor.rs`, `src/instance_attrs.rs`, ...), each documented at its
  top.
- `tests/`: scenario tests over concrete inputs.

Reports are structured values (the rule's finding, the names involved and a
byte span). Each report type has a `message` method that builds the
diagnostic's text from those values, with an `ensures` giving that text
exactly; a few also build the advice that goes with it (`help`).
