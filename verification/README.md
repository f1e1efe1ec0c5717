# xan

Verified building blocks of a CSV toolkit's expression language and
aggregation engine, written in Verus: every function of the library carries
a contract that the verifier proves. The library holds the CSV record reader,
the builders of expression trees (not the grammar's parser), the argument and
arity checks, the tables of functions, column lookup and layouts, the planner
of aggregations, the aggregators whose state is exact, and the exact part of
window aggregations. Expression evaluation, floating-point statistics and the
grammar itself are not part of it.

- `src/` — the library.
  - `record_reader`: a CSV record reader (quotes, delimiters, line ends) and a
    buffered reader on top of it.
  - `expr`, `parser`: the syntax tree of expressions and how operators,
    pipes, literals, lambdas and calls are built into it.
  - `arguments`, `functions`, `special_functions`, `window`, `scrape`,
    `agg_program`: formal arguments, arities, and the tables of functions.
  - `headers`, `select`, `merge`: column lookup by name, position or rank,
    and the column layouts of selection, merge and choice programs.
  - `aggregators`, `types`, `temporal`, `extent`, `frequencies`: the
    aggregators and the laws by which partial results merge.
  - `planner`: how an aggregation program shares aggregators between
    methods and between aggregations reading the same expressions.
  - `window_buffers`, `window_run`: the rows a window program keeps behind
    and ahead, and the row counters and cumulative integer aggregations.
  - `exact_aggregators`: how a value read out of a row is handed to the
    aggregators with exact state (truth counts, first and last values,
    lexicographic extent, frequencies, values, types), and what each
    method gives out of them at the end.
  - `string_functions`: the language's functions on plain strings
    (prefix and suffix tests, replacing and counting a pattern, first and
    last characters).
  - `stats`, `column_types`: the columns of per-column statistics and the
    names of the column types of Parquet files.
  - `sequences`, `pipeline`, `error`, `text`: slicing and ranges, pipelines
    of commands, error messages, and text helpers.
- `tests/` — tests of the library on concrete values.
- `app/` — what surrounds the library: child processes, reading input, a
  pager, and the measures that are floating point numbers.
