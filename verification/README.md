# starship

The configuration of the Starship prompt, as a library that Verus proves.

- `src/sources.rs`, `src/env.rs`, `src/migration.rs`: where the configuration files are, in which
  order they are loaded, and what is done about a file in the legacy location.
- `src/config.rs`, `src/value.rs`, `src/toml_text.rs`: TOML values, how they are merged and looked
  up, and how a module reads its settings.
- `src/style.rs`: style strings and colors.
- `src/ondemand.rs`, `src/allowlist.rs`, `src/modules/ondemand.rs`: items that a project contributes
  from its `.starship` directories once they are on the allowlist.
- `src/*_laws.rs`: what holds of all of this together.
- `src/text.rs`, `src/path.rs`, `src/order.rs`, `src/dictionary.rs`: what the rest is built on.

What is taken on trust stands in `src/toml_text.rs` (the `toml` crate), `src/text.rs`
(`str::to_lowercase`) and `src/env.rs` (`str::from_utf8`), each behind a function that says what it
takes for granted.

`app/` is ordinary Rust around the library: files, the environment, serde, terminal colors and
drawing. `tests/` runs the library.
