# sing_config

A preprocessor for sing-box configurations, written in Verus. Selectors and
URL tests may name *providers*: other sing-box configurations, read from a
file, fetched from a URL or taken from another provider, whose outbounds are
filtered by regex actions and merged in. Every outbound tag must stay unique.

Layout:

- `src/` is the verified library.
  - `convert.rs`: the conversion of sing-config outbounds into sing-box
    outbounds (tag conflicts, provider expansion), with its model and laws.
  - `entries.rs`: keyed sequences, the model of the insertion-ordered maps.
  - `sing_config/action.rs`: include/exclude filters over outbound tags and
    types.
  - `load.rs`, `load/lazy.rs`: the loader interface, and the decisions of a
    loader (which source, which references are refused, the action chain).
  - `sing_box.rs`, `sing_config.rs` and their submodules: the data types.
  - `foreign.rs`: the outside types the library carries, and the few calls it
    makes on JSON values.
- `app/` is the command-line program: file and network I/O, TOML/JSON
  parsing and printing, the caching loader, and error messages.
- `tests/` holds the tests.
