# decon

Deconstruct a codebase into an AI-generated tutorial: crawl a repository,
scope it to modules, assess its setup documentation, estimate the LLM
budget, identify abstractions with a model, and check the generated
tutorial's structure and Mermaid diagrams.

The library in `src/` is written in Verus. Its functions carry
`requires`/`ensures` contracts that Verus proves, except a few small
trusted wrappers around outside calls, whose contracts are assumed and
documented next to them.

- `text`, `order` — character-sequence helpers and a stable insertion sort
  with their specifications.
- `module`, `scope`, `crawl` — module keys, scope filtering and the sorted
  crawl inventory.
- `setup`, `budget`, `eval`, `extract` — setup assessment, budget
  estimation and batch packing, tutorial scoring, YAML/JSON block
  extraction.
- `mermaid`, `diagrams` — label and diagram sanitizing, validation and the
  index diagram builders.
- `config`, `progress`, `abstraction` — layered run configuration, the LLM
  call budget tracker and the identify-stage domain types.
- `llm` — errors, the scripted mock client, retry/backoff decisions of the
  OpenAI-compatible client, and response-cache keys.
- `pipeline` — prompt ids, template rendering and input sanitizing, the identify stage's checks,
  checkpoint directory rules and the dry-run planner.

The trusted wrappers call `serde_json::to_string`, `sha2::Sha256::digest`,
`hex::encode`, minijinja's `render_str`, and from std
`char::is_alphanumeric`, `str::to_lowercase`, `Duration` (`as_nanos`,
`from_secs`, `saturating_mul`), `Debug` formatting of a `str` and
collecting `char`s into a `String`.

`app/` is the command-line program (`crawl`, `dry-run`, `eval`) with the
filesystem, network, async and serde work around the library. `tests/`
holds the test suite.
