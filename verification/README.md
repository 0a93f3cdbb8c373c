# concerto_core

A verified validator for JSON instances of Concerto models. Models are read
from the Concerto metamodel JSON; an instance is checked against a named
type, and every error found is reported with its JSON path and kind.

Layout:

- `src/` — the library, verified with Verus:
  - `json.rs`, `number.rs`, `text.rs`: JSON values (parsed by `serde_json`),
    exact decimals for doubles, and string helpers with exact specifications;
  - `property.rs`, `declaration.rs`, `model_file.rs`: the loaded model;
  - `parser/`: the metamodel loader;
  - `model_manager.rs`: the registry of loaded models and name resolution;
  - `validator/`: the instance validator, its supertype walks, and the string
    and numeric checks;
  - `summary.rs`: sorted listings for the command line;
  - `external.rs`: the calls into `regex` and `chrono`.
- `tests/`: the test suites.
- `app/`: the command line, the C and WebAssembly bindings, and the fixture
  loaders.
