# griffr_common

The task pool of a game installer: it decides which files are verified, reused,
downloaded, extracted, patched and deleted, in which order, and what may run side
by side. The decisions are verified with Verus; the reading, writing and fetching
is ordinary Rust around them.

## Layout

- `src/graph` — the task graph: nodes, dependencies, tokens, subgraphs that a
  running task adds, and how success and failure spread.
- `src/scheduler` — what each task needs of the machine, which waiting task is
  admitted next, the run of a graph, its metrics and its progress.
- `src/archive` — archives in volumes: grouping, trusted files, ranges, entries,
  shards, extraction, repair.
- `src/patch` — manifests and plans of patches, the order of their entries, and
  how each entry is applied.
- `src/download.rs`, `src/transfer.rs`, `src/reuse.rs`, `src/ensure.rs` — bringing
  one file to its place.
- `src/path.rs`, `src/path_safety.rs`, `src/files.rs`, `src/commit.rs`,
  `src/digest.rs`, `src/text.rs` and their neighbours — what the rest is built
  from.
- `app` — disk, network and threads. It asks the library what to do, does it, and
  hands back what came of it.
- `tests` — tests on given values.

## What is proved

Every function states what it returns for every input. Public proof functions
whose names begin with `law_` state what holds across functions: that a graph
never stalls, that a task which broke takes exactly its dependents with it, that
a task which was expanded follows the leaves of its subgraph, that released tasks
come out of the backlog once and in order, that admission keeps every limit, that
conflicting paths are never changed at once, that a patch reads a base before the
base is replaced or removed, that an interrupted patch that is taken up again
leaves and reports what an uninterrupted one does, that a task is routed by
nothing on disk but the paths that are probed for it, that entries of an archive
stay inside the install, and others.

## What is believed

The library believes the contracts of a few items that it does not prove: the
digest of `md-5`, the map of `rapidhash`, `String::push`, and the sort of `std`.
Each has a comment that says what is claimed of it.

The formats of archives and of differences are read by services that the user of
`app` supplies (`ArchiveReader`, `DifferencePatcher`).
