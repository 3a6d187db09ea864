# metrale-model-engine

Host-side decisions of a transformer inference engine, verified with Verus.

An engine that serves many requests on one device keeps deciding things on the host: how a prompt
is cut into chunks, which prefix-cache blocks and recurrent-state snapshots it reuses, where every
row's metadata goes in the scratch buffer, whether several prompts can share one pass over the
layers, which captured graph a speculative verify replays, and what happens to a sequence's
resources when it retires. Most of these must come out the same on every rank, and several of them
guard memory that two passes would otherwise overwrite. They are plain functions on plain values
here, and each has a contract that pins its result.

## Layout

- `src/` is the library. `lib.rs` lists the modules by topic: sequences, prefix cache and
  snapshots, single-stream prefill, batched prefill, speculative verify, and the order of steps.
  Properties that relate several functions are public proof functions beside them.
- `tests/` run the library on concrete values.
- `app/` is the engine around it: it reads the environment, talks to the device, the caches and
  the other ranks, and performs what the library decided. Its traits stand for the device, the
  layers, the caches and the communicator.

## Numbers and limits

Positions and lengths are `usize`; what goes to the device is `u32`, `i32` or `i64` as the kernels
read it. A `requires` clause holds a bound only where a product or a sum would not fit the machine
word, or where a caller's mistake would be an index out of range. Floating-point values do not
occur: the length penalty of a beam search is carried as its bits.
