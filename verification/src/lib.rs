//! A reader for SQLite database files: the file header, the b-tree pages
//! and their cells, the record format of rows, and a small SQL front end
//! that understands `CREATE TABLE` and `SELECT` statements.

pub mod pager_mod;
pub mod parser_mod;
pub mod schema_mod;
pub mod db_mod;
