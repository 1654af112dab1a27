# takos-agent-engine

An agent engine with a verified core. A turn runs through a graph of nodes:
memories are activated, a context is assembled within its budget, a model
answers, tools run, and what was said is recorded and later distilled into
abstract nodes that point back at their sources.

`src/` is the core, written in Verus. It does no I/O and, floating point aside,
holds what the engine decides:

- `config`: the configuration and what it refuses;
- `domain`: raw nodes, abstract nodes, relations, sessions, checkpoints;
- `engine`: the execution graph and its runner, the context assembler, the
  conversation history, rounds of tools, distillation and maintenance;
- `memory`: activation queries, the selection of memories, relaxed retrieval;
- `model`: what is sent to OpenAI-compatible endpoints and what is read back;
- `storage`: repositories in memory, walks over the graph of abstract nodes,
  distillation claims, and the files and indexes of the object store;
- `tools`: the memory tools' arguments and the results of calls;
- `text`, `ids`, `json`, `time`, `float32`, `order`, `table`: the ground that the
  rest stands on.

Each function says in its contract what it returns. Public proof functions state
what holds across functions: that a planned round of tools always fits its
reserve, that a call which may have changed something never runs beside another,
that a resumed checkpoint is the one that was saved, that a committed operation
happens once, that a rebuilt store lists everything that it holds, that a walk
reaches each node by a shortest way, that a claim on a loop is given back once,
after all that was written under it.

`app/` is ordinary Rust around the core: storage on disk and in SQLite, HTTP,
time limits, cancellation, serialization, and the arithmetic on floats.
