# engine_behavior

Behavior logic for the scene objects of a terminal game engine, written in
Verus. Every function in `src/` carries a contract that Verus proves, except a
few trusted wrappers around outside code (`String::push`, the default hasher,
three `IndexMap` lookups and Rhai's compiler), whose contracts are believed;
their doc comments say what they claim.

- `src/` — the verified library: built-in behaviors (blink, menu selection and
  carousels, scene audio), emitter bookkeeping, integer shape geometry, the mod
  behavior registry, palettes, configuration documents (deep merge, prefab
  inheritance through `ref`), the frame protocol of scripted behaviors and the
  command lists scripts return, key state, and the command-producing script
  services. `src/laws.rs` states properties that span several operations.
- `tests/` — tests on concrete values.
- `app/` — plain Rust around the library: reading mod files, converting YAML,
  JSON and Rhai values to and from library documents, the script engine with
  the library's time, debug and audio services, handing script results to the
  library, and the floating-point helpers.
