# ulottie_compiler

The back end of a Lottie-to-JavaScript compiler, written in Verus: the parts
that decide what a compiled animation module contains, each with a contract
that Verus proves.

- `src/` is the verified library: capability sets, the runtime tree shaker
  and bundler, the expression passes (parsing through a trusted wrapper over
  `oxc`, resolving and rewriting layer references into slots), the markup
  pretty-printer, the scene-data encoder's walk, and the React Native and
  Skia targets (markup parsing, slot numbering, tree lowering, descriptor and
  module assembly). Calls into `oxc` and `flate2` stand behind a few trusted
  items in `src/expr/syntax.rs`, `src/backend/runtime.rs` and
  `src/backend.rs`, whose doc comments say what is assumed of them.
- `tests/` runs the library on concrete inputs.
- `app/` holds the copies of library types that carry serde's derives and
  their JSON conversions.
