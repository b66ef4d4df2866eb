# harvest_tools

The tools of a pipeline that rewrites C projects in Rust, with their logic
verified by Verus.

- `src/` is the verified library. Each module holds one tool or what several
  tools share: the CMake scanner (`build_config`), the C entities (`c_ast`), the
  manifests (`cargo_toml`, `emit_build_features`, `normalize_cargo`), reading the
  output of cargo (`cargo_output`, `try_cargo_build`, `clippy_lint`,
  `fix_build_check`), splitting and repairing packages (`split_and_format`,
  `modular_fix_llm`, `fix_declarations_llm`, `auto_fix`), and what is sent to
  language models and agents and made of their replies.
- `tests/` runs the library on concrete projects, manifests and build outputs.
- `app/` reads and writes files, runs cargo, CMake, clang and the agents, and
  hands plain values to the library.

Calls into `cargo_metadata`, `prettyplease`, `proc_macro2`, `serde_json`, `syn`
and `toml_edit` stand in `src/` behind functions marked
`#[verifier::external_body]`. Their doc comments say what is taken on trust.
