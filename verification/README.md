# cheat_engine_mcp

A verified core for a memory-inspection toolkit of the game TaskbarHero:
finding method offsets in an IL2CPP `dump.cs`, scanning a process's memory
for values and refining the matches, and the decisions behind listing
processes, modules and memory regions on Windows.

- `src/` is the library, each function proved against its contract:
  - `text.rs`: the text operations the parsers rest on, with their specifications;
  - `int_parse.rs`: integer reading with the errors of `str::parse`;
  - `il2cpp.rs`: the line-by-line scan of `dump.cs` and the anchors that locate the methods;
  - `native_scan.rs`: scan types, values and their bytes, comparisons, buffer scans, the report;
  - `process.rs`: one step of each Win32 walk (processes, modules, regions, chunked scans), reads, writes and refinement.
- `app/` holds what the library leaves to the caller: the Win32 calls, reading
  `dump.cs`, JSON and serde, and the floating-point reading, comparison and
  writing of `f32` and `f64` values.
- `tests/` runs the library on concrete inputs.
