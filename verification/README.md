# sqllogictest_bin

A command line runner for sqllogictest scripts: it runs test files against a database, one by
one or in parallel, or rewrites them with what the database gives.

- `src/` is the verified library. It decides what happens: which engine is used and how it is
  reached, what becomes of each record of a script, which databases a parallel run creates and
  drops, what is printed, and what the JUnit report says.
- `app/` is the program around it: the command line, files, connections and output.
- `tests/` runs the library on concrete values.

The library calls `console`, `rand`, `chrono`, `quick-junit` and `tokio-postgres` itself. What it
relies on of each of them stands in the contract of a small function with a doc comment that
names the call.
