# packtrans-glossary

Tools for indexing and querying Minecraft mod glossary translations: build a search index from
mod language files, download release indexes and Lindera dictionaries, and query them from the
command line, over HTTP, or as MCP tools.

## Layout

- `src/` — the library, verified with Verus. It holds the rules of the tools as functions on
  plain values, each with a contract:
  - `text_component`, `slots`, `json` — flattening Minecraft text components (translations,
    `%s` / `%N$s` slots, keybinds, selectors) into searchable text;
  - `util`, `index`, `indexes`, `dictionary`, `tokenizer` — path rules, where indexes and
    dictionaries live, choosing release assets, ordering and cleaning what is installed;
  - `archive`, `memory_index` — which entries of an index or dictionary archive are used, and
    where they go;
  - `query`, `server` — validating queries and limits, classifying failures, laying out hits;
  - `builder`, `modlist`, `download`, `index_build`, `number` — the index builder: mod lists
    fetched page by page, mod and Minecraft downloads, the documents of an index;
  - `cache` — the LRU caches of loaded dictionaries and opened indexes;
  - `order`, `text` — string ordering and character-level helpers.
- `tests/` — tests of the library.
- `app/` — the command-line program around the library: argument parsing, files, HTTP,
  Tantivy search, Lindera loading, the HTTP and MCP servers.
