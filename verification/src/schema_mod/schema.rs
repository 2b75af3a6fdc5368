use vstd::prelude::*;
use crate::schema_mod::index::{Index, IndexView};
use crate::schema_mod::table::{Table, TableView};

verus! {

/// What a row of the schema table describes.
#[derive(Debug)]
pub enum Schema {
    Table(Table),
    View,
    Trigger,
    Index(Index),
}

/// What a row of the schema table describes, in terms of its text.
pub enum SchemaView {
    Table(TableView),
    View,
    Trigger,
    Index(IndexView),
}

impl View for Schema {
    type V = SchemaView;

    open spec fn view(&self) -> SchemaView {
        match self {
            Schema::Table(t) => SchemaView::Table(t@),
            Schema::View => SchemaView::View,
            Schema::Trigger => SchemaView::Trigger,
            Schema::Index(i) => SchemaView::Index(i@),
        }
    }
}

} // verus!
