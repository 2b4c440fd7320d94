# sl_compiler

The semantic core of a compiler for a small script language whose programs
are XML-like forms with embedded rhai expressions. The core is written in
Verus: each function states in `requires` / `ensures` what it computes, and
Verus proves it.

## Layout

- `src/form.rs`, `src/collections.rs`, `src/text.rs`: the form tree, ordered
  name maps and sets, and text helpers the rest is built on.
- `src/expr/`: scanning, rewriting and normalising expression text, and the
  read/write analysis of an expression's syntax tree.
- `src/const_value.rs`, `src/const_eval.rs`, `src/readback.rs`: const values,
  the const expression parser, the literal each value renders to, and the
  proof that a rendered literal reads back as its value.
- `src/macros.rs`, `src/binding.rs`, `src/macro_registry.rs`, `src/quote.rs`,
  `src/dispatch.rs`, `src/env.rs`: macro parameters, bindings, hygiene and
  dispatch.
- `src/resolve.rs`, `src/scope.rs`, `src/program.rs`, `src/semantic.rs`,
  `src/classify.rs`: name resolution and the semantic analysis of modules and
  scripts.
- `src/lower.rs`, `src/assemble.rs`, `src/names.rs`, `src/pipeline.rs`,
  `src/session.rs`: lowering scripts to instructions and assembling the
  compiled artifact.
- `src/builder.rs`: collecting globals and scripts straight from module
  forms, and the boot script built from them.
- `src/laws.rs`: properties that span several functions, stated and proved
  as proof functions.
- `app/`: the parts that are not verified: compiling expression text with
  rhai and handing its syntax tree to the verified analysis.
- `tests/`: executable tests of the library.
