# jetexe

A small command-line helper that compiles and runs C programs for course work
(`jetexe run main.c`), creates a C template with a test case file
(`jetexe init main.c`), and runs JSON-described test cases against a program
(`jetexe test main.c`).

Layout:

- `src/` — the library, verified with Verus: Unix path handling (`path`), text
  helpers (`text`), source path resolution and the test case model (`resolver`),
  the decisions of `init` and `test` (`commands`), compiler invocation planning
  (`lang`, `exe`) and command selection (`cli`).
- `app/` — the program: argument reading, running gcc and the test programs,
  reading and writing files, the Zod validator call and JSON parsing.
- `tests/` — tests of the library, including comparisons with `std::path`.
