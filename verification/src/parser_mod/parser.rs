use vstd::prelude::*;
use crate::parser_mod::pattern::{
    compile_regex, regex_all_captures, regex_captures, regex_captures_iter, regex_compiles,
    regex_first_captures, Pattern,
};
use crate::parser_mod::text::{split_and_trim, split_on, strings_view, trim};

verus! {

/// The statement that describes the schema table of every database.
pub const DEFAULT_SCHEMA: &'static str = "CREATE TABLE sqlite_schema(
  type text,
  name text,
  tbl_name text,
  rootpage integer,
  sql text
);";

/// `CREATE TABLE name (column definitions)`: group 1 is the table's name,
/// group 2 the text of the column definitions.
pub const CREATE_TABLE_RE: &'static str = r"(?i)\bCREATE\s+TABLE\s+([^\s(]+)\s*\(([^)]+)\)";

/// `SELECT columns FROM table [WHERE conditions]`: group 1 the requested
/// columns, group 2 the table, group 3 the conditions.
pub const SELECT_RE: &'static str = r"(?i)\bSELECT\s+([^;]+)\s+FROM\s+([^\s;]+)(?:\s+WHERE\s+(.+))?;?";

/// One column definition: group 1 is the column's name, group 2 its type.
pub const COLUMN_RE: &'static str = r"\s*([^,\s]+)\s+([^\s,]+)(?:\s+[^,\s]+)*";

/// One condition `column = value` (the value optionally quoted).
pub const CONDITION_RE: &'static str = r"(?i)(\w+)\s*=\s*'?([^' ]+)'?";

/// `CREATE INDEX name ON table (columns)`: group 1 the indexed columns.
pub const CREATE_INDEX_RE: &'static str = r"(?i)create\s+index\s+\w+\s+on\s+\w+\s*\(([^)]+)\)";

/// A parsed statement, in terms of its text.
#[verifier::ext_equal]
pub struct QueryView {
    pub table_name: Seq<char>,
    pub columns_requested: Seq<Seq<char>>,
    pub where_clauses: Seq<(Seq<char>, Seq<char>)>,
}

/// A parsed statement: the table it names, the columns it lists, and the
/// conditions of its `WHERE` clause as (column, value) pairs in the order
/// they appear (a later pair for a column supersedes an earlier one).
pub struct Query {
    pub table_name: String,
    pub columns_requested: Vec<String>,
    pub where_clauses: Vec<(String, String)>,
}

/// The views of a sequence of string pairs.
pub open spec fn pairs_view(v: Seq<(String, String)>) -> Seq<(Seq<char>, Seq<char>)> {
    v.map_values(|p: (String, String)| (p.0@, p.1@))
}

/// The value of the last condition on `column`, if any: the conditions
/// answer as a map from columns to values that later pairs overwrite.
pub open spec fn condition_lookup(pairs: Seq<(Seq<char>, Seq<char>)>, column: Seq<char>) -> Option<Seq<char>>
    decreases pairs.len(),
{
    if pairs.len() == 0 {
        None
    } else if pairs.last().0 == column {
        Some(pairs.last().1)
    } else {
        condition_lookup(pairs.drop_last(), column)
    }
}

/// The value found for a column is that of the last pair with that key:
/// there is none exactly when no pair has the key, and otherwise some
/// pair holds the key with that value and no later pair holds the key.
pub proof fn lemma_condition_lookup_last(pairs: Seq<(Seq<char>, Seq<char>)>, key: Seq<char>)
    ensures
        condition_lookup(pairs, key) is None <==> forall|j: int| 0 <= j < pairs.len() ==> (#[trigger] pairs[j]).0 != key,
        condition_lookup(pairs, key) matches Some(v) ==> exists|i: int|
            0 <= i < pairs.len() && pairs[i] == (key, v) && forall|j: int| i < j < pairs.len() ==> (#[trigger] pairs[j]).0 != key,
    decreases pairs.len(),
{
    if pairs.len() > 0 {
        let prev = pairs.drop_last();
        lemma_condition_lookup_last(prev, key);
        assert forall|j: int| 0 <= j < prev.len() implies prev[j] == pairs[j] by {}
        assert(pairs[pairs.len() - 1] == pairs.last());
        if pairs.last().0 != key {
            if let Some(v) = condition_lookup(pairs, key) {
                let i = choose|i: int|
                    0 <= i < prev.len() && prev[i] == (key, v) && forall|j: int| i < j < prev.len() ==> (#[trigger] prev[j]).0 != key;
                assert(pairs[i] == (key, v));
                assert forall|j: int| i < j < pairs.len() implies (#[trigger] pairs[j]).0 != key by {
                    if j < prev.len() {
                        assert(prev[j] == pairs[j]);
                    }
                }
            } else {
                assert forall|j: int| 0 <= j < pairs.len() implies (#[trigger] pairs[j]).0 != key by {
                    if j < prev.len() {
                        assert(prev[j] == pairs[j]);
                    }
                }
            }
        }
    }
}

impl Query {
    /// The value that the `WHERE` clause sets for `column` (that of the
    /// last condition on it); `None` when no condition names it.
    pub fn condition(&self, column: &String) -> (res: Option<&String>)
        ensures
            match res {
                Some(v) => condition_lookup(self@.where_clauses, column@) == Some(v@),
                None => condition_lookup(self@.where_clauses, column@) is None,
            },
    {
        let ghost pairs = self@.where_clauses;
        let mut i: usize = self.where_clauses.len();
        assert(pairs.take(i as int) =~= pairs);
        while i > 0
            invariant
                i <= self.where_clauses@.len(),
                pairs == self@.where_clauses,
                condition_lookup(pairs, column@) == condition_lookup(pairs.take(i as int), column@),
            decreases i,
        {
            assert(pairs.take(i as int).drop_last() =~= pairs.take(i - 1));
            if self.where_clauses[i - 1].0 == *column {
                return Some(&self.where_clauses[i - 1].1);
            }
            i = i - 1;
        }
        None
    }
}

impl View for Query {
    type V = QueryView;

    open spec fn view(&self) -> QueryView {
        QueryView {
            table_name: self.table_name@,
            columns_requested: strings_view(self.columns_requested@),
            where_clauses: pairs_view(self.where_clauses@),
        }
    }
}

/// The text of capture group `i`; empty when the group is absent or did
/// not take part in the match.
pub open spec fn group_text(caps: Seq<Option<Seq<char>>>, i: int) -> Seq<char> {
    if 0 <= i < caps.len() {
        match caps[i] {
            Some(t) => t,
            None => Seq::empty(),
        }
    } else {
        Seq::empty()
    }
}

/// Group `i` of every match.
pub open spec fn nth_groups(all: Seq<Seq<Option<Seq<char>>>>, i: int) -> Seq<Seq<char>> {
    all.map_values(|caps: Seq<Option<Seq<char>>>| group_text(caps, i))
}

/// Groups 1 and 2 of every match, as pairs.
pub open spec fn group_pairs(all: Seq<Seq<Option<Seq<char>>>>) -> Seq<(Seq<char>, Seq<char>)> {
    all.map_values(|caps: Seq<Option<Seq<char>>>| (group_text(caps, 1), group_text(caps, 2)))
}

/// The pieces of a comma separated list, each trimmed of white space.
pub open spec fn comma_list(s: Seq<char>) -> Seq<Seq<char>> {
    split_on(s, ',').map_values(|p: Seq<char>| trim(p))
}

/// Whether capture group `i` took part in the match.
pub open spec fn has_group(caps: Seq<Option<Seq<char>>>, i: int) -> bool {
    0 <= i < caps.len() && caps[i] is Some
}

/// The statement that a `CREATE TABLE` match gives: its table (group 1)
/// and the name (group 1) of each match of a column definition in the text
/// of group 2.
pub open spec fn create_table_query(caps: Seq<Option<Seq<char>>>, column_matches: Seq<Seq<Option<Seq<char>>>>) -> QueryView {
    QueryView { table_name: group_text(caps, 1), columns_requested: nth_groups(column_matches, 1), where_clauses: Seq::empty() }
}

/// The statement that a `SELECT` match gives: the comma separated columns
/// of group 1, the table of group 2, and, when the `WHERE` clause (group 3)
/// is there, the (column, value) pair of each match of a condition in it.
pub open spec fn select_query(caps: Seq<Option<Seq<char>>>, condition_matches: Seq<Seq<Option<Seq<char>>>>) -> QueryView {
    QueryView {
        table_name: group_text(caps, 2),
        columns_requested: comma_list(group_text(caps, 1)),
        where_clauses: if has_group(caps, 3) {
            group_pairs(condition_matches)
        } else {
            Seq::empty()
        },
    }
}

/// The statement with no table, no columns and no conditions.
pub open spec fn empty_query() -> QueryView {
    QueryView { table_name: Seq::empty(), columns_requested: Seq::empty(), where_clauses: Seq::empty() }
}

/// The statement that `source` holds. A `CREATE TABLE` statement gives its
/// table and the names of its columns; otherwise a `SELECT` statement gives
/// the requested columns, its table and the conditions of its `WHERE`
/// clause; anything else gives an empty statement.
pub open spec fn spec_parse(source: Seq<char>) -> QueryView {
    match regex_first_captures(CREATE_TABLE_RE@, source) {
        Some(caps) => create_table_query(caps, regex_all_captures(COLUMN_RE@, group_text(caps, 2))),
        None => match regex_first_captures(SELECT_RE@, source) {
            Some(caps) => select_query(caps, regex_all_captures(CONDITION_RE@, group_text(caps, 3))),
            None => empty_query(),
        },
    }
}

/// The columns that a `CREATE INDEX` match lists (group 1, comma
/// separated); none without a match.
pub open spec fn index_columns(caps: Option<Seq<Option<Seq<char>>>>) -> Seq<Seq<char>> {
    match caps {
        Some(caps) => if has_group(caps, 1) {
            comma_list(group_text(caps, 1))
        } else {
            Seq::empty()
        },
        None => Seq::empty(),
    }
}

/// The columns that a `CREATE INDEX` statement indexes; none for any other
/// text.
pub open spec fn spec_index_columns(query: Seq<char>) -> Seq<Seq<char>> {
    index_columns(regex_first_captures(CREATE_INDEX_RE@, query))
}

/// The text of capture group `i` (see `group_text`).
pub fn group_string(caps: &Vec<Option<String>>, i: usize) -> (res: String)
    ensures
        res@ == group_text(caps.deep_view(), i as int),
{
    if i < caps.len() {
        match &caps[i] {
            Some(t) => t.clone(),
            None => String::new(),
        }
    } else {
        String::new()
    }
}

/// Whether the `regex` crate accepts each of the parser's expressions.
pub open spec fn parser_patterns_compile() -> bool {
    &&& regex_compiles(CREATE_TABLE_RE@)
    &&& regex_compiles(SELECT_RE@)
    &&& regex_compiles(COLUMN_RE@)
    &&& regex_compiles(CONDITION_RE@)
    &&& regex_compiles(CREATE_INDEX_RE@)
}

/// Parses the small subset of SQL this reader understands.
pub struct Parser {
    create_table: Pattern,
    select: Pattern,
    column: Pattern,
    condition: Pattern,
    create_index: Pattern,
}

impl Parser {
    #[verifier::type_invariant]
    spec fn compiled_from_its_patterns(self) -> bool {
        &&& self.create_table@ == CREATE_TABLE_RE@
        &&& self.select@ == SELECT_RE@
        &&& self.column@ == COLUMN_RE@
        &&& self.condition@ == CONDITION_RE@
        &&& self.create_index@ == CREATE_INDEX_RE@
    }

    /// Compiles the expressions of the parser; `None` when the `regex`
    /// crate rejects one of them.
    pub fn new() -> (res: Option<Parser>)
        ensures
            res is Some <==> parser_patterns_compile(),
    {
        let create_table = compile_regex(CREATE_TABLE_RE)?;
        let select = compile_regex(SELECT_RE)?;
        let column = compile_regex(COLUMN_RE)?;
        let condition = compile_regex(CONDITION_RE)?;
        let create_index = compile_regex(CREATE_INDEX_RE)?;
        Some(Parser { create_table, select, column, condition, create_index })
    }

    /// Parses a `CREATE TABLE` or `SELECT` statement.
    pub fn parse(&self, source: String) -> (query: Query)
        ensures
            query@ == spec_parse(source@),
    {
        proof {
            use_type_invariant(self);
        }
        match regex_captures(&self.create_table, source.as_str()) {
            Some(caps) => {
                let columns_str = group_string(&caps, 2);
                let column_matches = regex_captures_iter(&self.column, columns_str.as_str());
                query_from_create_table(&caps, &column_matches)
            },
            None => match regex_captures(&self.select, source.as_str()) {
                Some(caps) => {
                    let conditions = group_string(&caps, 3);
                    let condition_matches = if 3 < caps.len() && caps[3].is_some() {
                        regex_captures_iter(&self.condition, conditions.as_str())
                    } else {
                        Vec::new()
                    };
                    query_from_select(&caps, &condition_matches)
                },
                None => {
                    let query = Query { table_name: String::new(), columns_requested: Vec::new(), where_clauses: Vec::new() };
                    assert(query@ =~= empty_query());
                    query
                },
            },
        }
    }

    /// The columns that a `CREATE INDEX` statement indexes.
    pub fn extract_columns_from_index(&self, query: String) -> (res: Vec<String>)
        ensures
            strings_view(res@) == spec_index_columns(query@),
    {
        proof {
            use_type_invariant(self);
        }
        columns_from_index_captures(&regex_captures(&self.create_index, query.as_str()))
    }
}

/// The statement that a `CREATE TABLE` match gives (see
/// `create_table_query`), from its capture groups and the matches of column
/// definitions in its group 2.
pub fn query_from_create_table(caps: &Vec<Option<String>>, column_matches: &Vec<Vec<Option<String>>>) -> (query: Query)
    ensures
        query@ == create_table_query(caps.deep_view(), column_matches.deep_view()),
{
    let ghost all = column_matches.deep_view();
    let mut columns_requested: Vec<String> = Vec::new();
    let mut k: usize = 0;
    while k < column_matches.len()
        invariant
            k <= column_matches@.len(),
            all == column_matches.deep_view(),
            strings_view(columns_requested@) =~= nth_groups(all, 1).take(k as int),
        decreases column_matches.len() - k,
    {
        let name = group_string(&column_matches[k], 1);
        columns_requested.push(name);
        assert(nth_groups(all, 1).take(k + 1) =~= nth_groups(all, 1).take(k as int).push(name@));
        k = k + 1;
    }
    assert(nth_groups(all, 1).take(column_matches@.len() as int) =~= nth_groups(all, 1));
    let where_clauses: Vec<(String, String)> = Vec::new();
    assert(pairs_view(where_clauses@) =~= Seq::empty());
    let query = Query { table_name: group_string(caps, 1), columns_requested, where_clauses };
    assert(query@ =~= create_table_query(caps.deep_view(), all));
    query
}

/// The statement that a `SELECT` match gives (see `select_query`), from its
/// capture groups and the matches of conditions in its group 3.
pub fn query_from_select(caps: &Vec<Option<String>>, condition_matches: &Vec<Vec<Option<String>>>) -> (query: Query)
    ensures
        query@ == select_query(caps.deep_view(), condition_matches.deep_view()),
{
    let columns_str = group_string(caps, 1);
    let columns_requested = split_and_trim(columns_str.as_str(), ',');
    let table_name = group_string(caps, 2);
    let mut where_clauses: Vec<(String, String)> = Vec::new();
    if 3 < caps.len() && caps[3].is_some() {
        let ghost all = condition_matches.deep_view();
        let mut k: usize = 0;
        while k < condition_matches.len()
            invariant
                k <= condition_matches@.len(),
                all == condition_matches.deep_view(),
                pairs_view(where_clauses@) =~= group_pairs(all).take(k as int),
            decreases condition_matches.len() - k,
        {
            let column = group_string(&condition_matches[k], 1);
            let value = group_string(&condition_matches[k], 2);
            where_clauses.push((column, value));
            assert(group_pairs(all).take(k + 1) =~= group_pairs(all).take(k as int).push((column@, value@)));
            k = k + 1;
        }
        assert(group_pairs(all).take(condition_matches@.len() as int) =~= group_pairs(all));
    } else {
        assert(pairs_view(where_clauses@) =~= Seq::empty());
    }
    let query = Query { table_name, columns_requested, where_clauses };
    assert(query@ =~= select_query(caps.deep_view(), condition_matches.deep_view()));
    query
}

/// The columns that a `CREATE INDEX` match lists (see `index_columns`).
pub fn columns_from_index_captures(caps: &Option<Vec<Option<String>>>) -> (res: Vec<String>)
    ensures
        strings_view(res@) == index_columns(caps.deep_view()),
{
    match caps {
        Some(caps) => {
            if 1 < caps.len() && caps[1].is_some() {
                let columns = group_string(caps, 1);
                split_and_trim(columns.as_str(), ',')
            } else {
                let res: Vec<String> = Vec::new();
                assert(strings_view(res@) =~= Seq::empty());
                res
            }
        },
        None => {
            let res: Vec<String> = Vec::new();
            assert(strings_view(res@) =~= Seq::empty());
            res
        },
    }
}

} // verus!
