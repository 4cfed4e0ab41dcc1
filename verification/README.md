# libabbs

Utilities for maintaining AOSC OS packaging scripts, verified with Verus:
the ACBS Package Metadata Language (APML) with its lossless syntax tree,
parser, abstract syntax tree and evaluator, the ABBS tree layout, and the
logic of the PackFixerUpper linters.

## Layout

- `src/apml/`: APML.
  - `model.rs`, `grammar.rs`: the mathematical model of the lossless tree
    and the grammar, as spec functions.
  - `lst.rs`, `parser.rs`: the lossless syntax tree, its printing and the
    parser; `roundtrip.rs` proves that printing a parsed source gives the
    source back, for every source (a `|` that ends a pattern list, as in
    `a=${x#?(y|)}`, stands before an empty pattern, the empty alternative).
  - `ast.rs`, `ast_roundtrip.rs`: the abstract syntax tree, emitted from and
    lowered to the lossless tree, and the proof that lowering then emitting
    gives the tree back, for trees without sub-command words and with
    substring offsets that fit in an `isize`.
  - `context.rs`, `eval.rs`: variable values, the evaluation context and
    the evaluator.
  - `pattern.rs`, `glob.rs`: bash patterns and their regular expressions.
  - `array.rs`, `union.rs`: string arrays and unions (`tag::key=value::arg`);
    for unions, setting and getting a property are proved to agree, and
    printing a union read from a text gives the text back where the text
    lists its properties in increasing order of their keys.
- `src/tree.rs`: the ABBS tree: sections, packages and sub-packages, over
  directory listings.
- `src/style.rs`, `src/archgroup.rs`, `src/checks.rs`, `src/python.rs`: the
  checks and fixes of the linters: empty lines and extra spaces,
  arch-group overrides, sources, update checkers, fish completions, and
  Python dependencies.
- `src/selector.rs`: the selection of linters from presets and directives.
- `src/lint.rs`: lint messages and snippets.
- `src/matcher.rs`: regular expressions of the `regex` crate.
- `app/`: the `pakfixer` program: command line, file and network access,
  and the reports.
