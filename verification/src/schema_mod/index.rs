use vstd::prelude::*;
use crate::parser_mod::text::strings_view;
use crate::schema_mod::table::clone_strings;

verus! {

/// An index of the database, as its schema row describes it.
#[derive(Debug)]
pub struct Index {
    pub name: String,
    pub tbl_name: String,
    pub sql: String,
    pub root_page: u8,
    pub columns: Vec<String>,
}

/// An index, in terms of its text.
#[verifier::ext_equal]
pub struct IndexView {
    pub name: Seq<char>,
    pub tbl_name: Seq<char>,
    pub sql: Seq<char>,
    pub root_page: u8,
    pub columns: Seq<Seq<char>>,
}

impl View for Index {
    type V = IndexView;

    open spec fn view(&self) -> IndexView {
        IndexView {
            name: self.name@,
            tbl_name: self.tbl_name@,
            sql: self.sql@,
            root_page: self.root_page,
            columns: strings_view(self.columns@),
        }
    }
}

impl Clone for Index {
    fn clone(&self) -> (res: Self)
        ensures
            res@ == self@,
    {
        Index {
            name: self.name.clone(),
            tbl_name: self.tbl_name.clone(),
            sql: self.sql.clone(),
            root_page: self.root_page,
            columns: clone_strings(&self.columns),
        }
    }

    /// Leaves `self` as it is: copying into an existing index is not done.
    fn clone_from(&mut self, _source: &Self)
        ensures
            *final(self) == *old(self),
    {
    }
}

} // verus!
