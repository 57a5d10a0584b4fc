# kide_core

The core of a semantic indexer for polyglot workspaces, written in Verus. The
library decides; a thin application around it reads files, talks to language
workers and keeps the database.

## Layout

- `src/` is the library. Every function is proved against its contract.
  - Facts: `canonical`, `identifiers`, `names`, `value_names`, `protocol`,
    `position`, `source_metadata`.
  - Workspaces and inputs: `configuration`, `discovery`, `input`,
    `input_inventory`, `freshness`, `freshness_gate`, `incremental_plan`.
  - Workers: `worker_framing`, `worker_proto`, `worker_proto_adapter`,
    `worker_message_adapter`, `supervisor`, `orchestrator`,
    `semantic_capability`.
  - Dependency artifacts: `dependency_identity`, `artifact_cache`,
    `artifact_blob_layout`, `artifact_proto`, `artifact_proto_adapter`,
    `symbol_detail`, `artifact_query`, `artifact_agreement`.
  - Storage: `store`, `text_index`.
  - Queries: `query`, `query_resolver`, `navigation`, `search`, `selector`,
    `semantic_query`, `framework_query`, `query_package`, `project_query`,
    `query_command`, `index_command`, `measures`.
  - Shared pieces: `text`, `shown`, `json`, `digest`, `ordering`, `ordered_map`.
- `tests/` runs the library on concrete values, with the outside crates linked.
- `app/` is the command line program: argument parsing, files, processes and
  SQLite. It is ordinary Rust and is not verified.

## What is proved and what is trusted

Contracts are stated over sequences of characters and bytes and over plain
values. Properties that relate several functions are public proof functions
whose names begin with `law_`: what was published is loaded back, what was
encoded is decoded to the same facts, unchanged sources are not analysed again,
a manifest is published last, and others of that kind.

Eight items are believed rather than proved. Each wraps one function of another
crate or of the standard library, and its doc comment says what is claimed:
`sha256` in `digest`, `json_string` in `json`, `gzip` and `gunzip` in
`artifact_blob_layout`, `utf8_text` and `is_alphanumeric` in `text_index`,
`quote` in `shown`, and the specification of `String::push` in `text`.

Five of them return what takes pages to state, and give it a name that other
contracts speak of: `sha256_digest` is what `sha256` returns, `gzipped` and
`gunzipped` what `gzip` and `gunzip` return, `quoted` what `quote` shows, and
`alphanumeric` what `is_alphanumeric` answers. Of these names nothing is
believed but that they depend on their arguments alone, that a digest has 32
bytes, and that a stream that `gzip` made is decoded to what went into it.
