# env_toml

A TOML value reader extended with environment variable placeholders
(`${NAME}`, `${NAME:default}`, bare or inside a basic string), verified
with Verus.

- `src/` is the verified library: the value grammar (`grammar.rs` states it,
  `parser.rs` and the string/scalar readers implement it), the model of a
  parsed value (`value.rs`), placeholder resolution (`env.rs`), the
  decisions a deserializer makes for each value (`deserializer.rs`), struct
  key checking (`keys.rs`), and the properties that hold across them
  (`laws.rs`).
- `app/` drives serde's visitor traits with those decisions and reads the
  process environment.
- `tests/` exercises the library on concrete inputs.
