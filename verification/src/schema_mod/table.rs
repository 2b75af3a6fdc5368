use vstd::prelude::*;
use crate::parser_mod::text::strings_view;

verus! {

/// A table of the database, as its schema row describes it.
#[derive(Debug)]
pub struct Table {
    pub name: String,
    pub tbl_name: String,
    pub sql: String,
    pub root_page: u8,
    pub columns: Vec<String>,
}

/// A table, in terms of its text.
#[verifier::ext_equal]
pub struct TableView {
    pub name: Seq<char>,
    pub tbl_name: Seq<char>,
    pub sql: Seq<char>,
    pub root_page: u8,
    pub columns: Seq<Seq<char>>,
}

impl View for Table {
    type V = TableView;

    open spec fn view(&self) -> TableView {
        TableView {
            name: self.name@,
            tbl_name: self.tbl_name@,
            sql: self.sql@,
            root_page: self.root_page,
            columns: strings_view(self.columns@),
        }
    }
}

/// A copy of the strings of `v`.
pub fn clone_strings(v: &Vec<String>) -> (res: Vec<String>)
    ensures
        strings_view(res@) == strings_view(v@),
{
    let mut res: Vec<String> = Vec::new();
    let mut i: usize = 0;
    while i < v.len()
        invariant
            i <= v@.len(),
            strings_view(res@) =~= strings_view(v@).take(i as int),
        decreases v.len() - i,
    {
        let ghost old_res = res@;
        let s = v[i].clone();
        res.push(s);
        assert(strings_view(res@) =~= strings_view(old_res).push(s@));
        assert(strings_view(v@).take(i + 1) =~= strings_view(v@).take(i as int).push(v@[i as int]@));
        i = i + 1;
    }
    assert(strings_view(v@).take(v@.len() as int) =~= strings_view(v@));
    res
}

impl Clone for Table {
    fn clone(&self) -> (res: Self)
        ensures
            res@ == self@,
    {
        Table {
            name: self.name.clone(),
            tbl_name: self.tbl_name.clone(),
            sql: self.sql.clone(),
            root_page: self.root_page,
            columns: clone_strings(&self.columns),
        }
    }
}

} // verus!
