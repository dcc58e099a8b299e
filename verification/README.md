# stryker

Mutation testing for JavaScript and TypeScript. The library decides everything
that can be decided from plain values, and every function of it is verified with
[Verus](https://github.com/verus-lang/verus); the command around it reads and
writes files, runs test processes and prints reports.

## Layout

- `src/` is the library.
  - `estree`, `walk`, `mutators`, `regex_mutations`, `collect` find the mutants of
    a syntax tree; `directives` reads the comments that suppress them;
    `assemble`, `header`, `line_index`, `instrument` splice them into one text, and
    `marks` shows which of them that text names.
  - `config`, `mutate_pattern`, `paths`, `project` say which files are mutated.
  - `runners`, `process`, `command`, `junit`, `bun`, `vitest`, `coverage`,
    `composite` say how tests are run and what their outcome means.
  - `planner`, `execution`, `run` plan a run; `incremental`, `imports`, `reuse`
    say which results of an earlier run still hold.
  - `schema`, `report`, `clear_text`, `html` make reports.
  - `sandbox` says how originals are saved and come back.
  - `text`, `text_order`, `text_map`, `sort`, `source`, `model` are what the
    others are built from.
- `app/` is the `stryker` command.
- `tests/` run the library with the real crates behind it.

## What is proved

Each function states what it returns for every input. Laws that relate several
functions are public proof functions named `law_..`. Among them: leaving out what
instrumenting added gives the source back byte for byte; ignored mutants are never
placed and all others are; however far an activation came before a crash, the
originals can be recovered; a killed mutant is reused only while its killing tests
exist unchanged; a mutant survives a composite run only where it survives every
runtime.

What the library has from other crates (the parser, globs, ignore patterns, JSON,
XML, shell words, line diffs, SHA-256) is called through small wrappers whose
contracts are trusted; their doc comments say what is claimed.

## The command

```sh
stryker run [--config stryker.config.json] [--force-dirty] [--dry-run-only]
stryker restore [--temp-dir .stryker-tmp]
stryker debug files [--config ...]
stryker debug instrument <file>
stryker debug roundtrip <corpus>
```

The scripts that run inside the test processes stand in the directory `js` beside
the executable, or where `STRYKER_JS_DIR` says.
