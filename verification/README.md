# provenance-mcp

An MCP server with two read-only tools over kernel facilities:

- `file_provenance` reads the provfs provenance xattrs (`user.prov.session`,
  `user.prov.ts`) of a file by running `getfattr -d --absolute-names <path>`.
- `memlog_recent` lists recent pre-compaction context snapshots by running
  `memlog show [--since <DUR>] [--limit <N>] --format json`.

Layout:

- `src/` is the verified library (Verus): parsing of `getfattr` output
  (`backend`), the command lines the tools run (`command`), character-level
  text handling (`text`) and the tools' argument handling (`tools`). Proof
  functions there state that the parser reads back the stamps as provfs wrote
  them, that output without stamps yields no provenance, and that only
  read-only commands are ever built.
- `app/` is the program: command-line handling, running the subprocesses,
  JSON in and out, and the MCP stdio transport (the sibling `mcp-core` crate).
- `tests/` runs the library.
