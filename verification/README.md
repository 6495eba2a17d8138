# blisp

The verified core of blisp, a small Lisp front end for columnar finance
pipelines, written in Verus.

- `src/` is the library. Every function in it carries a contract that Verus
  proves: symbol interning and environments (`ast`, `env`), the builtins that
  work on integers, strings and tables (`builtins`, `table_builtins`), date and
  timestamp text (`io`), the CSV readers (`csv_table`, `io_fast`,
  `fast_layout`) and writer (`csv_save`), the IR plan, its validation and its
  fusion passes: elementwise chains, and cumulative sums with the elementwise
  map or difference log they read (`ir`, `fusion`, `fusion_cs1`), row
  alignment for joins and masks (`align`, `mask`, `rows`), the column pairs of
  a spread (`spread`), the expression normalizer (`normalize`),
  the operation dictionary and its matrix (`dic`, `dic_rows`, `matrix`), and
  the command line (`cli`, `pipe`).
- `app/` is the code around it that Verus does not see: file and standard
  input reading, memory-mapped files, floating-point parsing and formatting,
  YAML and JSON, and printing.
- `tests/` runs the library on concrete inputs.

Laws of the library (what a normalization does twice, what interning
returns twice, what fusion keeps, what an as-of join never looks at, ...) are
public proof functions named `law_*`.
