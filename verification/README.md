# kaiforth

A Forth virtual machine with a tiered execution pipeline: a bytecode
interpreter, a trace-driven optimizer that learns hot instruction sequences,
and a JIT that compiles them into x86_64 super-instructions guarded by
journaled rollback and differential audits against the interpreter.

The library under `src/` is written in Verus. Its functions carry contracts
that Verus proves, with one exception: the small trusted wrappers around
memmap2 (the memory maps), regex (the token pattern) and a few std calls
(`str::to_lowercase`, `str::get`) are marked `external_body`, and their
contracts, stated from those crates' sources and documentation, are
believed rather than proved. Everything proved about the library rests on
them. Native code run from `app/` writes the data stack and memory maps
directly; each library call takes the machine as it finds it.

- `common/` — errors, instructions (`Op`) and their byte codes, address
  ranges, memory-access summaries and semantic contracts.
- `vm/` — the machine state, its stacks (the data stack lives in a memory
  map between canaries), system memory with its write journal, the
  mathematical semantics of every instruction (`semantics.rs`) and the
  interpreter that follows it (`execution.rs`).
- `compiler/` — the tokenizer (`parser.rs`) and the outer interpreter that
  compiles and executes tokens (`interpret.rs`).
- `optimizer/` — per-instruction contracts, symbolic analysis and constant
  folding of sequences, segmentation of traces, pattern learning and decay,
  and the versioned snapshot container.
- `jit/` — the byte-exact emitter (`emit.rs`), compiled-block bookkeeping
  (`runtime.rs`), the native call context and its commit check (`abi.rs`),
  and the audit and rollback around a native run (`guard.rs`).
- `system/` — the dictionary, code buffers and the system that ties the
  parts together.

`app/` is the command-line program: the REPL and script runner, the run
loops, the native calls into compiled code, guard pages, and JSON
persistence of the optimizer state. `tests/` exercises the library.
