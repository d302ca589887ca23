# krait

Code intelligence for the command line: symbol search, references, semantic editing, diagnostics and
search, backed by language servers that a daemon keeps running for a project.

The library under `src/` holds the logic and is verified with Verus: each function states in its
contract what it returns, over mathematical models of texts, paths, JSON values and results. What
cannot be part of it (the file system, processes, sockets, the database, the command line) stands in
`app/`, which hands the library plain values and does what it decides.

| Module | What it holds |
|--------|---------------|
| `text`, `paths`, `json`, `serial`, `sorting` | texts, Unix paths, JSON values and their text, stable sorting |
| `protocol`, `client`, `cli` | what client and daemon say to each other, and the frames it is said in |
| `config`, `detect` | the configuration, the languages of a project, its root and its packages |
| `commands` | what each command computes from files and from the answers of language servers |
| `lsp` | messages, the servers of a project and when they are started and evicted, diagnostics, symbols |
| `index` | which files to index, what of the index is fresh, and what it answers |
| `daemon` | what the daemon decides and answers for each request |
| `output`, `report` | how answers are shown |

Outside crates are called from the library through small wrappers whose contracts are trusted:
`regex` for patterns, `dashmap` for the diagnostics, `ignore` for ignore rules, `blake3` for hashes,
`serde_json` for printing and reading JSON, `lsp-types` for URIs and the answer to the handshake.
