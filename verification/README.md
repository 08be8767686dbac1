# halide-cache

A cache for the object files and headers that Halide generators produce, for one machine
or shared between many.

- `src/` is the library. It holds the rules of the cache: how addresses are computed, how
  entries are laid out, what each operation asks of the file system and what it makes of the
  replies, what is evicted, how an invocation proceeds with and without a server, and what the
  server answers and counts. It is verified with Verus, but for what it assumes of the crates
  and of the standard library (see below).
- `tests/` runs the library, with a file system that is kept in memory.
- `app/` holds the two programs, `halide-cache` and `halide-cache-server`: arguments, files,
  sockets and threads. Operations of the library are machines. A program performs what a
  machine asks for and hands back what came of it, until the machine is done.

Laws that span several functions are proof functions whose names begin with `law_`. The
modules `model`, `faults`, `turns`, `pass`, `exchange` and `flow` state what whole operations
do: that what was stored is what is retrieved, on the same machine or on another; that a store
which fails or is stopped leaves every entry whole; that stores at the same time do not collide,
if those at one address are of one kind, and that whoever reads meanwhile gets a whole blob; that
an eviction removes the least recently used entries and nothing that is in use, and with a scan
before it limits what the entries take up on disk; that an outage of the server never fails a
build.

Some contracts are assumed, and each says what it assumes. The library calls `blake3`, `hex` and
`zstd` through functions marked `external_body`, whose results have names without a definition
where they take pages to state. `String::push` has its contract by an `assume_specification` in
`src/text.rs`.
