pub mod record;
pub mod db;
