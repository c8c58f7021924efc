# steampipe

Navigation, editing and distillation logic for Boil batches, verified with Verus.

A batch holds a project's source and three distilled layers (`L0_partial`,
`L1_skeletal`, `L2_architectural`). The library decides how files are
distilled and how a batch is read and edited; its functions carry contracts
that Verus proves.

- `src/batch`: batches, fidelity levels, path resolution, and the distillation
  planning: compression strategies over tree-sitter captures, compression
  levels, targets, output paths, and the patching of layers after an edit.
- `src/commands`: finding and expanding symbols, listing, and line edits.
- `src/mcp`: request routing and server state of the MCP server.
- `src/text`: text helpers with specifications (lines, splitting, decimals).
- `app/`: the command line, file and terminal I/O, TOML and JSON, and the MCP
  server loop, around the library.
- `tests/`: tests of the library on concrete values.
