# knot

Knot compiles literate documents: Typst sources with R and Python chunks
and inline expressions, executed and cached, into a Typst document.

`src/` is the library, verified with Verus. Every function there carries a
contract, and `src/laws.rs` holds the properties that relate several
operations. Other modules:

- parsing of the configuration keys (`config_keys`) and chunk options (`config`, `ast`);
- execution identities and hashing (`hashing`);
- the result cache and snapshots (`cache`, `snapshots`);
- planning and running the language chains (`planning`, `execution`, `pipeline`);
- rendering chunks as Typst (`backend`, `compiler`, `codegen`, `codly`);
- interpreter output (`executors`);
- navigation markers (`sync`);
- project tools (`cleaning`, `formatters`, `watch`, `project_build`).

The file system, interpreters and formatters are reached through traits
(`CacheStore`, `KnotExecutor`, `ProjectFiles`, `SourceFiles`). Nothing is
assumed of their implementations. An interpreter runs inside an
`Interpreter`, which records each piece of code it is asked to run (and each
session it is asked to restore) with the answer it gave; the contracts of the
chains and of inline expressions say, over that record, which code ran and
that what is rendered and cached is what came back. In the same way a
cleanup works on `RecordedFiles`, which records the existence checks, the
listing and the removals it makes; the targets come from `cleanup_targets`,
whose result is exact.

`app/` is the command-line program around the library. It provides the
`clean` command and navigation between sources and the generated document.

`tests/` runs the library on concrete inputs.
