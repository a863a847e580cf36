# kiru

A small configuration language for task runs. A configuration declares
projects, functions and runs; it is compiled to an execution form, written to
and read from kirufiles, and carried out by an executor that shows its progress
as a tree.

The library under `src/` is verified with Verus: what each function does is
stated in its contract, and what holds of the library as a whole is stated in
proof functions whose names start with `law_`.

| module | what it holds |
| --- | --- |
| `text`, `names` | texts, numbers, and maps from names that are kept in order |
| `sexp`, `layout` | s-expressions, and why what is written is read back |
| `plan` | the plan of a configuration and its kirufile |
| `ir` | the execution form, its kirufile, the rows of a run, and the arena of a program |
| `dsl` | the backtick language: tokens, syntax, parser |
| `syntax` | the template language: tokens, syntax, parser |
| `lower` | from declarations to the execution form, over files that import each other |
| `diagnostics` | messages about places in sources |
| `tree` | the branches of a tree that is shown as rows |
| `exec` | the executor: decisions, display, supervision of commands, sync |

The executor is a set of state machines. `exec::machine` executes the body of a
run, `exec::subprocess` supervises a command, and `exec::chain` takes the calls
of a chain. A machine says what is to be done next; its driver does it and
reports back.

`app/` is the program around the library: arguments, files, threads, processes
and the terminal. `tests/` runs the library on concrete inputs.
