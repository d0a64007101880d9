# javm

A verified kernel for capability-based virtual machines.

Programs are images. A running program is an instance: its registers, its memory and a
table of slots that hold capabilities. An instance calls others, yields to whoever
catches its yields, and pays for its steps out of gas meters. The library decides all of
that; an engine, which it does not contain, runs the instructions in between.

- `src/cap.rs`, `src/cache.rs`, `src/frame.rs`, `src/callstack.rs`, `src/vm.rs`,
  `src/ecall.rs`: the machine that interprets, with its calls to the host.
- `src/kernel/`: the machine on bare x86-64: tasks and their call loop, yields, gas,
  page tables, pages that come into memory on first access, the cache of compiled code.
- `src/local.rs`, `src/rpc.rs`, `src/ring.rs`, `src/abi.rs`: the in-process backend and
  the boundary between a host and its guest.
- `app/`: the wire encoding, the loops that run an engine, processor instructions.

Each function states in its contract what it returns and changes. What holds across
functions is stated in the public proof functions whose names begin with `law_`. Two
outside functions are trusted: the BLAKE2b digest in `src/hash.rs` and the archived form
of a number in `src/rpc.rs`.
