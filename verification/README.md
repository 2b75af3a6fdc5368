# fish_db

A reader for SQLite database files, written in Verus.

- `src/pager_mod`: varints, page headers, and the cells of the four kinds
  of b-tree page.
- `src/parser_mod`: the lexer, the reserved words, and the parser for
  `CREATE TABLE`, `SELECT` and `CREATE INDEX` statements (its regular
  expressions run on the `regex` crate).
- `src/schema_mod`: tables, indexes and the rows of the schema table.
- `src/db_mod`: the file header, the record format of rows, opening a
  database, finding the table a query names, and walking its b-tree page by page
  (a depth-first walk whose gathered rows are only ever appended to).
- `app/main.rs`: the command line program (`.dbinfo`, `.tables`, or a
  `SELECT` statement), which reads the file and prints.
