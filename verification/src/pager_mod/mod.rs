pub mod pager;
pub mod table_leaf_page;
pub mod table_interior_page;
pub mod index_leaf_page;
pub mod index_interior_page;
