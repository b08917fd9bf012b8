# cdt_api

The data layer of a desktop viewer for coding-assistant session logs,
written as a Verus library: each public function carries a contract and is
proved against it.

- `src/` — the verified library. Caches (`scan_cache`, `parsed_cache`,
  `groups_cache`, `worktree_meta`), the background scan registry
  (`scan_registry`), paging
  (`pagination`, `group`), session chunks and their trimming (`chunk`,
  `omit`), message lookups and subagent headers (`messages`, `subagents`),
  memory files (`memory`), paths and validation (`paths`, `search`,
  `config_section`), contexts (`context`), external programs
  (`external_app`, `search_path`), images (`image`), jobs (`jobs`) and the
  cross-function properties (`laws`).
- `app/` — runtime glue: file system, processes, channels and the
  serialisable copies of library types.
- `tests/` — tests run against the compiled library.
