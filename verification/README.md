# rx_store

A reactive store: shared values and ordered maps whose subscribers are told
every change, signals derived from them, and values composed by futures that a
store spawns and cancels together.

The library under `src/` is verified with Verus:

- `diff` — the changes of map- and vector-valued signals, and what they do to
  a map or a sequence;
- `btree_state`, `btree_map` — an ordered map that hands each subscriber its
  changes, so that every subscriber, replaying them, holds the map's entries;
- `mutable` — a shared value whose subscribers are told each new value;
- `keys` — the keys of a map-valued signal kept sorted, to tell its changes as
  changes of a vector of keys or of entries;
- `map_signals`, `slots`, `order` — the decisions of the derived signals;
- `registry` — the cancellation tokens of spawned futures, kept under keys;
- `composable`, `traits` — values built by several futures.

`app/` holds the runtime around it: the tokio runtime and type map of the
store, the signal traits and their polling, and the handles that pair the
library's shared values with a store. The tests under `tests/` exercise the
library.
