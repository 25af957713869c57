# iox_core

The core logic of a time series database server, written in Rust and proved with Verus: batches
of rows and their conversion to Arrow, the lifecycle of buffered partitions, the messages of the
write buffer, the rules of databases, and the steps in which chunks are written to the object
store and the catalog is brought up to date.

## Layout

- `src/` is the library. Every function carries its contract in `requires` and `ensures`; what
  holds of several functions together is stated in the proof functions whose names start with
  `law_`. Functions marked as trusted call other crates, and say what is believed of them.
- `tests/` holds tests on concrete values.
- `app/` is the program around the library: arguments, files, the network, clocks and tasks.

## Laws

- Buffered partitions (`src/persist_plan.rs`): after a run of the lifecycle manager memory is
  within its threshold, nothing is left that is too large or too old, the largest partitions went
  first, and which ones were persisted, and in which order, depends on the tracked partitions and
  the time alone. Writes add up until their partition is removed or persisted, which undoes them;
  whatever has happened, its age counts from its first write since.
- Batches (`src/batch_view.rs`): extending a batch keeps its rows, can be done by parts and range
  by range, and is associative, with the empty batch as its neutral element; a selection
  determines its columns, and makes an Arrow batch unless it is empty or a timestamp is null.
- Messages (`src/codec.rs`): headers and operations are what is decoded of what was encoded, and
  encoding only appends; the case of header names does not matter, nor do headers of other names,
  and the last header wins.
- Rules (`src/rules.rs`): rules that were persisted are loaded again as they were provided, and
  make for the same configuration as if they were provided once more.
- Steps (`src/catalog_update.rs`, `src/chunk_write.rs`, `src/checkpoints.rs`): whatever comes of
  each step, the whole comes to what it should; checkpoints recur, and cover every other
  partition.
