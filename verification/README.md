# glam_syntax

The front end of the `g0` language, written in Rust and verified with Verus.

A source is scanned (`lexical`), cut into declarations and lines (`input`,
`layout`, `expression_context`), parsed (`grammar` says what is meant; the
parsers are `expression`, `structural`, `pattern`, `do_expr`, `conditional`,
`declaration` and `source`), and analysed (`analysis`, `recursive_preview`,
`block_previews`, `name_analysis`; `name_order` shows that conflicts do not
depend on the order of declarations). Numbers and values are compared in
`number`, `decimal` and `equality`.

Declarations become closed code over the values of `values` and
`compiler_values` (`definitions`, `imports`, `objects`, `object_bodies`,
`module_lowering`), and code becomes the steps that build its nets
(`net_lowering`, `net_steps`).

Macros read and write through `macro_io`, `macro_host`, `macro_effects` and
`macro_runner`; `logical` finds them in a declaration, `rewrite` puts their
output in place, `embedding` the data that they wrote, and `expansion` publishes
what they log.

`app/` holds what surrounds the library: files, the loop that drives an
evaluator, the loop that resolves and lowers a module, the plans of `do` blocks,
and the builder of nets. `tests/` runs the library.
