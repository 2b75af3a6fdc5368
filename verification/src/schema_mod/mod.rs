pub mod table;
pub mod index;
pub mod schema;
