# xybrid

The logic behind the `xybrid` command line and runtime hooks, verified with
Verus.

- `src/listener.rs`: execution events, the listener registry (one listener at
  a time; emitting reaches the registered listener) and the execution guard
  (`Started`, then `Completed` or `Failed` with the last recorded error).
- `src/pack.rs`: which files go into a `.xyb` bundle, the duplicate names
  reported, and the bundle's file name.
- `src/catalog.rs`: case-insensitive model search, grouping by key in
  `BTreeMap` order, text-to-speech detection, voice marks.
- `src/plan.rs`: download totals and offline capability of a pipeline plan.
- `src/text.rs`, `src/sorted.rs`: the order of `str`, substring search,
  ascending sets of strings.

`app/` holds the command line, the process-wide listener and the Flutter
client: file and network access, terminal output, and the registry and
bundle types of the SDK.
