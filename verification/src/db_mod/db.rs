use vstd::prelude::*;
use vstd::utf8::{decode_utf8, valid_utf8};
use crate::db_mod::record::{decode_record, row_lookup, spec_decode_record, Row};
use crate::pager_mod::pager::{be_u16_at, be_u32_at, read_be_u16, Page, PageType};
use crate::pager_mod::table_interior_page::{
    is_pointed_table_interior_cell, lemma_table_interior_cells_follow_pointers, table_interior_cells, TableInteriorPage,
};
use crate::pager_mod::table_leaf_page::{
    is_pointed_table_leaf_cell, lemma_table_leaf_cells_follow_pointers, table_leaf_cells, TableLeafPage, TableLeafPageCell,
};
use crate::parser_mod::parser::{parser_patterns_compile, spec_parse, Parser, Query, QueryView, DEFAULT_SCHEMA};
use crate::parser_mod::text::{lemma_split_on_join, lemma_split_on_without_sep, push_char, split_on, string_from_utf8, strings_view};
use crate::schema_mod::index::{Index, IndexView};
use crate::schema_mod::schema::{Schema, SchemaView};
use crate::schema_mod::table::{Table, TableView};

verus! {

/// The fields of the database file header that the reader keeps.
pub struct Header {
    pub sql_format: String,
    pub page_size: u16,
    pub file_format_write_version: u8,
    pub file_format_read_version: u8,
    pub reserved_space_bytes: u8,
    pub maximum_embedded_payload_fraction: u8,
    pub min_embedded_payload_fraction: u8,
}

/// The text that `bytes` encode in UTF-8, if they are valid UTF-8.
pub open spec fn utf8_text(bytes: Seq<u8>) -> Option<Seq<char>> {
    if valid_utf8(bytes) {
        Some(decode_utf8(bytes))
    } else {
        None
    }
}

impl Header {
    /// Reads the header out of the first bytes of the file: the format
    /// string (bytes 0 to 15, UTF-8) and the page size (bytes 16 and 17,
    /// big-endian); the other fields are left at 0. `None` when the format
    /// string is not valid UTF-8.
    pub fn from_bytes(bytes: &[u8]) -> (res: Option<Header>)
        requires
            bytes@.len() >= 18,
        ensures
            res is Some <==> utf8_text(bytes@.take(16)) is Some,
            res matches Some(h) ==> {
                &&& Some(h.sql_format@) == utf8_text(bytes@.take(16))
                &&& h.page_size as int == be_u16_at(bytes@, 16)
                &&& h.file_format_write_version == 0
                &&& h.file_format_read_version == 0
                &&& h.reserved_space_bytes == 0
                &&& h.maximum_embedded_payload_fraction == 0
                &&& h.min_embedded_payload_fraction == 0
            },
    {
        let format_bytes = vstd::slice::slice_to_vec(vstd::slice::slice_subrange(bytes, 0, 16));
        assert(format_bytes@ =~= bytes@.take(16));
        let sql_format = string_from_utf8(format_bytes)?;
        let page_size = read_be_u16(bytes, 16);
        Some(Header {
            sql_format,
            page_size,
            file_format_write_version: 0,
            file_format_read_version: 0,
            reserved_space_bytes: 0,
            maximum_embedded_payload_fraction: 0,
            min_embedded_payload_fraction: 0,
        })
    }

    /// The size of the database's pages.
    pub fn get_page_size(&self) -> (res: u16)
        ensures
            res == self.page_size,
    {
        self.page_size
    }
}

/// The row of table `table_sql` that a record holds: its values for the
/// columns that the table's statement declares.
pub open spec fn spec_extract_data(payload: Seq<u8>, table_sql: Seq<char>) -> Option<Seq<(Seq<char>, Seq<u8>)>> {
    spec_decode_record(payload, spec_parse(table_sql).columns_requested)
}

/// Reads the row that a cell of a table holds, with the columns that the
/// table's statement declares; `None` when the record cannot be read.
pub fn extract_data(parser: &Parser, data_cell: TableLeafPageCell, table: &Table) -> (res: Option<Row>)
    ensures
        match res {
            Some(row) => spec_extract_data(data_cell.payload@, table.sql@) == Some(row@),
            None => spec_extract_data(data_cell.payload@, table.sql@) is None,
        },
{
    let keys = parser.parse(table.sql.clone()).columns_requested;
    decode_record(data_cell.payload, &keys)
}

/// What a row of the schema table describes. Its `type` is `table`,
/// `index` or something else (taken for a view); `rootpage` gives the root
/// page by its first byte; `tbl_name` names a table or an index (whose own
/// table is left empty); a table's columns are those its `sql` declares.
/// `None` when a column is missing, a text is not UTF-8, or `rootpage` is
/// empty.
pub open spec fn schema_of_row(row: Seq<(Seq<char>, Seq<u8>)>) -> Option<SchemaView> {
    match (row_lookup(row, "type"@), row_lookup(row, "rootpage"@), row_lookup(row, "sql"@)) {
        (Some(kind_bytes), Some(root_bytes), Some(sql_bytes)) => {
            if valid_utf8(kind_bytes) && root_bytes.len() > 0 && valid_utf8(sql_bytes) {
                let kind = decode_utf8(kind_bytes);
                let sql = decode_utf8(sql_bytes);
                if kind == "table"@ || kind == "index"@ {
                    match row_lookup(row, "tbl_name"@) {
                        Some(name_bytes) => if valid_utf8(name_bytes) {
                            let name = decode_utf8(name_bytes);
                            if kind == "table"@ {
                                Some(
                                    SchemaView::Table(
                                        TableView {
                                            name,
                                            tbl_name: name,
                                            sql,
                                            root_page: root_bytes[0],
                                            columns: spec_parse(sql).columns_requested,
                                        },
                                    ),
                                )
                            } else {
                                Some(
                                    SchemaView::Index(
                                        IndexView {
                                            name,
                                            tbl_name: Seq::empty(),
                                            sql,
                                            root_page: root_bytes[0],
                                            columns: Seq::empty(),
                                        },
                                    ),
                                )
                            }
                        } else {
                            None
                        },
                        None => None,
                    }
                } else {
                    Some(SchemaView::View)
                }
            } else {
                None
            }
        },
        _ => None,
    }
}

/// What a record of the schema table describes.
pub open spec fn spec_extract_table(payload: Seq<u8>) -> Option<SchemaView> {
    match spec_decode_record(payload, spec_parse(DEFAULT_SCHEMA@).columns_requested) {
        Some(row) => schema_of_row(row),
        None => None,
    }
}

/// The text of column `name` of `row`, if it is there and is UTF-8.
fn column_text(row: &Row, name: &str) -> (res: Option<String>)
    ensures
        match res {
            Some(t) => row_lookup(row@, name@) matches Some(b) && utf8_text(b) == Some(t@),
            None => row_lookup(row@, name@) matches Some(b) ==> utf8_text(b) is None,
        },
{
    let bytes = row.get(&String::from_str(name))?;
    string_from_utf8(vstd::slice::slice_to_vec(bytes.as_slice()))
}

/// What a row of the schema table describes (see `schema_of_row`); the
/// columns of a table are read from its statement with `parser`.
pub fn schema_from_row(parser: &Parser, row: &Row) -> (res: Option<Schema>)
    ensures
        match res {
            Some(schema) => schema_of_row(row@) == Some(schema@),
            None => schema_of_row(row@) is None,
        },
{
    let schema_type = column_text(row, "type")?;
    let root_bytes = row.get(&String::from_str("rootpage"))?;
    if root_bytes.len() == 0 {
        return None;
    }
    let root_page = root_bytes[0];
    let sql = column_text(row, "sql")?;
    if schema_type == String::from_str("table") {
        let name = column_text(row, "tbl_name")?;
        let tbl_name = name.clone();
        let columns = parser.parse(sql.clone()).columns_requested;
        let res = Schema::Table(Table { name, tbl_name, sql, root_page, columns });
        assert(schema_of_row(row@) == Some(res@));
        Some(res)
    } else if schema_type == String::from_str("index") {
        let name = column_text(row, "tbl_name")?;
        let columns: Vec<String> = Vec::new();
        assert(strings_view(columns@) =~= Seq::<Seq<char>>::empty());
        let res = Schema::Index(Index { name, tbl_name: String::new(), sql, root_page, columns });
        assert(schema_of_row(row@) == Some(res@));
        Some(res)
    } else {
        assert(schema_of_row(row@) == Some(SchemaView::View));
        Some(Schema::View)
    }
}

/// Reads what a cell of the schema table describes; `None` when it cannot
/// be read (see `schema_of_row`).
pub fn extract_table(parser: &Parser, data_cell: TableLeafPageCell) -> (res: Option<Schema>)
    ensures
        match res {
            Some(schema) => spec_extract_table(data_cell.payload@) == Some(schema@),
            None => spec_extract_table(data_cell.payload@) is None,
        },
{
    let keys = parser.parse(String::from_str(DEFAULT_SCHEMA)).columns_requested;
    let row = decode_record(data_cell.payload, &keys)?;
    schema_from_row(parser, &row)
}

/// The schemas that the cells of the schema table describe, in order;
/// `None` when one of them cannot be read.
pub open spec fn schema_rows(cells: Seq<(Seq<u8>, u64)>) -> Option<Seq<SchemaView>>
    decreases cells.len(),
{
    if cells.len() == 0 {
        Some(Seq::empty())
    } else {
        match schema_rows(cells.drop_last()) {
            None => None,
            Some(schemas) => match spec_extract_table(cells.last().0) {
                None => None,
                Some(schema) => Some(schemas.push(schema)),
            },
        }
    }
}

/// The tables among `schemas`, in order.
pub open spec fn tables_of(schemas: Seq<SchemaView>) -> Seq<TableView>
    decreases schemas.len(),
{
    if schemas.len() == 0 {
        Seq::empty()
    } else {
        match schemas.last() {
            SchemaView::Table(t) => tables_of(schemas.drop_last()).push(t),
            _ => tables_of(schemas.drop_last()),
        }
    }
}

/// The schemas among `schemas` that are not tables, in order.
pub open spec fn others_of(schemas: Seq<SchemaView>) -> Seq<SchemaView>
    decreases schemas.len(),
{
    if schemas.len() == 0 {
        Seq::empty()
    } else {
        match schemas.last() {
            SchemaView::Table(_) => others_of(schemas.drop_last()),
            other => others_of(schemas.drop_last()).push(other),
        }
    }
}

/// The schemas that the first page of the file describes: it must be a
/// table leaf page whose cells (their pointers counted from the start of
/// the file) are rows of the schema table.
pub open spec fn schemas_of_first_page(page: Page) -> Option<Seq<SchemaView>> {
    if page.page_type == PageType::TableLeafPage {
        match table_leaf_cells(page.contents@, page.content_offset, page.cell_count as nat, true) {
            Some(cells) => schema_rows(cells),
            None => None,
        }
    } else {
        None
    }
}

/// The views of a sequence of tables.
pub open spec fn tables_view(tables: Seq<Table>) -> Seq<TableView> {
    tables.map_values(|t: Table| t@)
}

/// The views of a sequence of schemas.
pub open spec fn schemas_view(schemas: Seq<Schema>) -> Seq<SchemaView> {
    schemas.map_values(|s: Schema| s@)
}

/// A database: its header, its tables, and the parser for its statements.
pub struct DB {
    pub header: Header,
    pub tables: Vec<Table>,
    pub parser: Parser,
}

/// The index of the first table named `name`, if any.
pub open spec fn first_table_named(tables: Seq<TableView>, name: Seq<char>) -> Option<int>
    decreases tables.len(),
{
    if tables.len() == 0 {
        None
    } else {
        match first_table_named(tables.drop_last(), name) {
            Some(i) => Some(i),
            None => if tables.last().name == name {
                Some(tables.len() - 1)
            } else {
                None
            },
        }
    }
}

/// The table that a statement asks for, and the statement with `*` (as the
/// only requested column) replaced by that table's columns; `None` when no
/// table has the statement's table name.
pub open spec fn spec_execute(tables: Seq<TableView>, query: QueryView) -> Option<(TableView, QueryView)> {
    match first_table_named(tables, query.table_name) {
        Some(i) => Some(
            (
                tables[i],
                if query.columns_requested == seq!["*"@] {
                    QueryView { columns_requested: tables[i].columns, ..query }
                } else {
                    query
                },
            ),
        ),
        None => None,
    }
}

/// What visiting a page of a table's b-tree gives.
pub enum PageVisit {
    /// An interior page: the child pages to visit, in order.
    Children(Vec<u32>),
    /// A leaf page: its rows, in order.
    Rows(Vec<Row>),
    /// A page of another kind, which holds nothing for the table.
    Skip,
}

/// What visiting a page gives, in terms of values.
pub enum PageVisitView {
    Children(Seq<u32>),
    Rows(Seq<Seq<(Seq<char>, Seq<u8>)>>),
    Skip,
}

impl View for PageVisit {
    type V = PageVisitView;

    open spec fn view(&self) -> PageVisitView {
        match self {
            PageVisit::Children(c) => PageVisitView::Children(c@),
            PageVisit::Rows(r) => PageVisitView::Rows(r@.map_values(|row: Row| row@)),
            PageVisit::Skip => PageVisitView::Skip,
        }
    }
}

/// Whether `row` holds every column of `columns`.
pub open spec fn has_columns(row: Seq<(Seq<char>, Seq<u8>)>, columns: Seq<Seq<char>>) -> bool {
    forall|i: int| 0 <= i < columns.len() ==> row_lookup(row, #[trigger] columns[i]) is Some
}

/// The rows that the cells of a leaf page of table `table_sql` hold;
/// `None` when one cannot be read or lacks one of the `requested` columns.
pub open spec fn leaf_rows(cells: Seq<(Seq<u8>, u64)>, table_sql: Seq<char>, requested: Seq<Seq<char>>)
    -> Option<Seq<Seq<(Seq<char>, Seq<u8>)>>>
    decreases cells.len(),
{
    if cells.len() == 0 {
        Some(Seq::empty())
    } else {
        match leaf_rows(cells.drop_last(), table_sql, requested) {
            None => None,
            Some(rows) => match spec_extract_data(cells.last().0, table_sql) {
                Some(row) => if has_columns(row, requested) {
                    Some(rows.push(row))
                } else {
                    None
                },
                None => None,
            },
        }
    }
}

/// What visiting a page of table `table_sql`'s b-tree gives: the left
/// child of each cell of an interior page, the rows of a leaf page (not the
/// first page of the file); `None` when the page's cells or rows cannot be
/// read or a row lacks a `requested` column.
pub open spec fn spec_visit_page(page: Page, table_sql: Seq<char>, requested: Seq<Seq<char>>) -> Option<PageVisitView> {
    match page.page_type {
        PageType::TableInteriorPage => match table_interior_cells(page.contents@, page.content_offset, page.cell_count as nat) {
            Some(cells) => Some(PageVisitView::Children(cells.map_values(|c: (u32, u64)| c.0))),
            None => None,
        },
        PageType::TableLeafPage => match table_leaf_cells(page.contents@, page.content_offset, page.cell_count as nat, false) {
            Some(cells) => match leaf_rows(cells, table_sql, requested) {
                Some(rows) => Some(PageVisitView::Rows(rows)),
                None => None,
            },
            None => None,
        },
        _ => Some(PageVisitView::Skip),
    }
}

/// The texts of the `columns` of `row` joined by `|`; `None` when a column
/// is missing or its value is not UTF-8.
pub open spec fn spec_format_row(row: Seq<(Seq<char>, Seq<u8>)>, columns: Seq<Seq<char>>) -> Option<Seq<char>>
    decreases columns.len(),
{
    if columns.len() == 0 {
        Some(Seq::empty())
    } else {
        match spec_format_row(row, columns.drop_last()) {
            None => None,
            Some(line) => match row_lookup(row, columns.last()) {
                Some(bytes) => match utf8_text(bytes) {
                    Some(text) => Some(if columns.len() == 1 { text } else { line.push('|') + text }),
                    None => None,
                },
                None => None,
            },
        }
    }
}

impl DB {
    /// Opens a database from its header and its first page: reads the rows
    /// of the schema table and keeps its tables. Also gives back the other
    /// schemas (indexes, views), in order. `None` when the parser's
    /// expressions do not compile, the first page is not a table leaf page,
    /// or a row of the schema table cannot be read.
    pub fn new(header: Header, root_page: &Page) -> (res: Option<(DB, Vec<Schema>)>)
        ensures
            res is Some <==> parser_patterns_compile() && schemas_of_first_page(*root_page) is Some,
            res matches Some((db, others)) ==> {
                &&& db.header == header
                &&& tables_view(db.tables@) == tables_of(schemas_of_first_page(*root_page).unwrap())
                &&& schemas_view(others@) == others_of(schemas_of_first_page(*root_page).unwrap())
            },
    {
        let parser = Parser::new()?;
        match root_page.page_type {
            PageType::TableLeafPage => {},
            _ => return None,
        }
        let cells = TableLeafPage::try_read_cells(
            root_page.content_offset,
            root_page.cell_count,
            &root_page.contents,
            true,
        )?;
        let ghost cells_view = crate::pager_mod::table_leaf_page::table_leaf_cells_view(cells@);
        let mut tables: Vec<Table> = Vec::new();
        let mut others: Vec<Schema> = Vec::new();
        let ghost mut schemas: Seq<SchemaView> = Seq::empty();
        let mut i: usize = 0;
        assert(cells_view.take(0) =~= Seq::<(Seq<u8>, u64)>::empty());
        while i < cells.len()
            invariant
                i <= cells@.len(),
                cells_view == crate::pager_mod::table_leaf_page::table_leaf_cells_view(cells@),
                schema_rows(cells_view.take(i as int)) == Some(schemas),
                parser_patterns_compile(),
                root_page.page_type == PageType::TableLeafPage,
                table_leaf_cells(root_page.contents@, root_page.content_offset, root_page.cell_count as nat, true)
                    == Some(cells_view),
                tables_view(tables@) =~= tables_of(schemas),
                schemas_view(others@) =~= others_of(schemas),
            decreases cells.len() - i,
        {
            let ghost before = cells_view.take(i as int);
            assert(cells_view.take(i + 1).drop_last() =~= before);
            assert(cells_view[i as int] == cells@[i as int]@);
            let schema = match extract_table(&parser, cells[i]) {
                Some(s) => s,
                None => {
                    assert(spec_extract_table(cells_view.take(i + 1).last().0) is None);
                    proof {
                        lemma_schema_rows_none_stays(cells_view, (i + 1) as nat);
                    }
                    return None;
                },
            };
            let ghost old_tables = tables@;
            let ghost old_others = others@;
            proof {
                lemma_tables_others_push(schemas, schema@);
                schemas = schemas.push(schema@);
            }
            match schema {
                Schema::Table(t) => {
                    tables.push(t);
                    assert(tables_view(tables@) =~= tables_view(old_tables).push(t@));
                },
                other => {
                    others.push(other);
                    assert(schemas_view(others@) =~= schemas_view(old_others).push(other@));
                },
            }
            i = i + 1;
        }
        assert(cells_view.take(cells@.len() as int) =~= cells_view);
        Some((DB { header, tables, parser }, others))
    }

    /// The size of the database's pages.
    pub fn get_page_size(&self) -> (res: u16)
        ensures
            res == self.header.page_size,
    {
        self.header.get_page_size()
    }

    /// Parses a `SELECT` statement and finds the table it asks for (the
    /// first of that name), with `*` replaced by the table's columns; `None`
    /// when there is no such table.
    pub fn execute(&self, query: String) -> (res: Option<(Table, Query)>)
        ensures
            match res {
                Some((table, q)) => spec_execute(tables_view(self.tables@), spec_parse(query@)) == Some((table@, q@)),
                None => spec_execute(tables_view(self.tables@), spec_parse(query@)) is None,
            },
    {
        let mut parsed_result = self.parser.parse(query);
        let ghost tables = tables_view(self.tables@);
        let mut i: usize = 0;
        while i < self.tables.len()
            invariant
                i <= self.tables@.len(),
                tables == tables_view(self.tables@),
                parsed_result@ == spec_parse(query@),
                first_table_named(tables.take(i as int), parsed_result.table_name@) is None,
            decreases self.tables.len() - i,
        {
            assert(tables.take(i + 1).drop_last() =~= tables.take(i as int));
            let table = &self.tables[i];
            if table.name == parsed_result.table_name {
                proof {
                    lemma_first_table_named_prefix(tables, (i + 1) as nat, parsed_result.table_name@);
                }
                let ghost before = parsed_result@;
                let star = String::from_str("*");
                let is_star = parsed_result.columns_requested.len() == 1 && parsed_result.columns_requested[0] == star;
                proof {
                    let cols = before.columns_requested;
                    assert(cols.len() == parsed_result.columns_requested@.len());
                    if cols == seq!["*"@] {
                        assert(cols[0] == parsed_result.columns_requested@[0]@);
                    }
                    if is_star {
                        assert(cols =~= seq!["*"@]);
                    }
                }
                if is_star {
                    parsed_result.columns_requested = crate::schema_mod::table::clone_strings(&table.columns);
                    assert(parsed_result@ =~= QueryView { columns_requested: table@.columns, ..before });
                }
                let found = table.clone();
                return Some((found, parsed_result));
            }
            i = i + 1;
        }
        assert(tables.take(self.tables@.len() as int) =~= tables);
        None
    }

    /// Visits a page of `table`'s b-tree for `query`: the child pages of an
    /// interior page, or the rows of a leaf page; `None` when the page
    /// cannot be read or a row lacks a requested column.
    pub fn visit_page(&self, page: &Page, table: &Table, query: &Query) -> (res: Option<PageVisit>)
        ensures
            match res {
                Some(v) => spec_visit_page(*page, table.sql@, query@.columns_requested) == Some(v@),
                None => spec_visit_page(*page, table.sql@, query@.columns_requested) is None,
            },
    {
        match page.page_type {
            PageType::TableInteriorPage => {
                let cells = TableInteriorPage::try_read_cells(page.content_offset, page.cell_count, &page.contents)?;
                let ghost cells_view = crate::pager_mod::table_interior_page::table_interior_cells_view(cells@);
                let mut children: Vec<u32> = Vec::new();
                let mut i: usize = 0;
                while i < cells.len()
                    invariant
                        i <= cells@.len(),
                        cells_view == crate::pager_mod::table_interior_page::table_interior_cells_view(cells@),
                        children@ =~= cells_view.take(i as int).map_values(|c: (u32, u64)| c.0),
                    decreases cells.len() - i,
                {
                    children.push(cells[i].left_child_page_number);
                    assert(cells_view.take(i + 1).map_values(|c: (u32, u64)| c.0) =~= cells_view.take(i as int).map_values(
                        |c: (u32, u64)| c.0,
                    ).push(cells_view[i as int].0));
                    i = i + 1;
                }
                assert(cells_view.take(cells@.len() as int) =~= cells_view);
                Some(PageVisit::Children(children))
            },
            PageType::TableLeafPage => {
                let cells = TableLeafPage::try_read_cells(page.content_offset, page.cell_count, &page.contents, false)?;
                let rows = self.rows_of_cells(&cells, table, query)?;
                Some(PageVisit::Rows(rows))
            },
            _ => Some(PageVisit::Skip),
        }
    }

    /// The rows that the cells of a leaf page of `table` hold; `None` when
    /// one cannot be read or lacks a column that `query` requests.
    fn rows_of_cells<'a>(&self, cells: &Vec<TableLeafPageCell<'a>>, table: &Table, query: &Query) -> (res: Option<Vec<Row>>)
        ensures
            match res {
                Some(rows) => leaf_rows(
                    crate::pager_mod::table_leaf_page::table_leaf_cells_view(cells@),
                    table.sql@,
                    query@.columns_requested,
                ) == Some(rows@.map_values(|row: Row| row@)),
                None => leaf_rows(
                    crate::pager_mod::table_leaf_page::table_leaf_cells_view(cells@),
                    table.sql@,
                    query@.columns_requested,
                ) is None,
            },
    {
        let ghost cells_view = crate::pager_mod::table_leaf_page::table_leaf_cells_view(cells@);
        let ghost requested = query@.columns_requested;
        let mut rows: Vec<Row> = Vec::new();
        let mut i: usize = 0;
        assert(cells_view.take(0) =~= Seq::<(Seq<u8>, u64)>::empty());
        assert(rows@.map_values(|row: Row| row@) =~= Seq::empty());
        while i < cells.len()
            invariant
                i <= cells@.len(),
                cells_view == crate::pager_mod::table_leaf_page::table_leaf_cells_view(cells@),
                requested == query@.columns_requested,
                leaf_rows(cells_view.take(i as int), table.sql@, requested) == Some(rows@.map_values(|row: Row| row@)),
            decreases cells.len() - i,
        {
            let ghost prefix = cells_view.take(i + 1);
            assert(prefix.drop_last() =~= cells_view.take(i as int));
            assert(prefix.last() == cells@[i as int]@);
            let row = match extract_data(&self.parser, cells[i], table) {
                Some(r) => r,
                None => {
                    proof {
                        lemma_leaf_rows_none_stays(cells_view, (i + 1) as nat, table.sql@, requested);
                    }
                    return None;
                },
            };
            let mut k: usize = 0;
            #[verifier::loop_isolation(false)]
            while k < query.columns_requested.len()
                invariant
                    k <= query.columns_requested@.len(),
                    requested == query@.columns_requested,
                    forall|j: int| 0 <= j < k ==> row_lookup(row@, #[trigger] requested[j]) is Some,
                decreases query.columns_requested.len() - k,
            {
                if row.get(&query.columns_requested[k]).is_none() {
                    proof {
                        assert(requested[k as int] == query.columns_requested@[k as int]@);
                        assert(!has_columns(row@, requested));
                        lemma_leaf_rows_none_stays(cells_view, (i + 1) as nat, table.sql@, requested);
                    }
                    return None;
                }
                k = k + 1;
            }
            assert(has_columns(row@, requested));
            let ghost old_rows = rows@;
            rows.push(row);
            assert(rows@.map_values(|r: Row| r@) =~= old_rows.map_values(|r: Row| r@).push(row@));
            i = i + 1;
        }
        assert(cells_view.take(cells@.len() as int) =~= cells_view);
        Some(rows)
    }

    /// The line that shows `row`: the text of each of `columns`, joined by
    /// `|`; `None` when a column is missing or its value is not UTF-8.
    pub fn format_row(row: &Row, columns: &Vec<String>) -> (res: Option<String>)
        ensures
            match res {
                Some(line) => spec_format_row(row@, strings_view(columns@)) == Some(line@),
                None => spec_format_row(row@, strings_view(columns@)) is None,
            },
    {
        let ghost names = strings_view(columns@);
        let mut line = String::new();
        let mut i: usize = 0;
        assert(names.take(0) =~= Seq::<Seq<char>>::empty());
        while i < columns.len()
            invariant
                i <= columns@.len(),
                names == strings_view(columns@),
                spec_format_row(row@, names.take(i as int)) == Some(line@),
            decreases columns.len() - i,
        {
            assert(names.take(i + 1).drop_last() =~= names.take(i as int));
            let bytes = match row.get(&columns[i]) {
                Some(b) => b,
                None => {
                    proof {
                        lemma_format_row_none_stays(row@, names, (i + 1) as nat);
                    }
                    return None;
                },
            };
            let text = match string_from_utf8(vstd::slice::slice_to_vec(bytes.as_slice())) {
                Some(t) => t,
                None => {
                    proof {
                        lemma_format_row_none_stays(row@, names, (i + 1) as nat);
                    }
                    return None;
                },
            };
            if i > 0 {
                push_char(&mut line, '|');
            }
            line.append(text.as_str());
            i = i + 1;
        }
        assert(names.take(columns@.len() as int) =~= names);
        Some(line)
    }
}

/// The rows of a walk, in terms of values.
pub open spec fn rows_view(rows: Seq<Row>) -> Seq<Seq<(Seq<char>, Seq<u8>)>> {
    rows.map_values(|row: Row| row@)
}

/// How the children of an interior page go onto the stack of pages still
/// to visit: last child first, so that the first child is on top.
pub open spec fn children_stack(children: Seq<u32>) -> Seq<u64> {
    Seq::new(children.len(), |i: int| children[children.len() - 1 - i] as u64)
}

/// A walk after a page that gave `visit`: an interior page's children go
/// onto the stack of pages to visit, to be visited in cell order before
/// the pages that were there; a leaf page's rows are appended to the rows;
/// any other page leaves the walk as it was.
pub open spec fn spec_walk_step(
    pending: Seq<u64>,
    rows: Seq<Seq<(Seq<char>, Seq<u8>)>>,
    visit: PageVisitView,
) -> (Seq<u64>, Seq<Seq<(Seq<char>, Seq<u8>)>>) {
    match visit {
        PageVisitView::Children(children) => (pending + children_stack(children), rows),
        PageVisitView::Rows(new_rows) => (pending, rows + new_rows),
        PageVisitView::Skip => (pending, rows),
    }
}

/// A depth-first walk over a table's b-tree: the pages still to visit,
/// the next one last, and the rows gathered so far, in order.
pub struct PageWalk {
    pub pending: Vec<u64>,
    pub rows: Vec<Row>,
}

impl PageWalk {
    /// A walk that starts at the root page `root`, with no rows yet.
    pub fn start(root: u64) -> (walk: PageWalk)
        ensures
            walk.pending@ == seq![root],
            walk.rows@.len() == 0,
    {
        let mut pending: Vec<u64> = Vec::new();
        pending.push(root);
        PageWalk { pending, rows: Vec::new() }
    }

    /// Takes the next page to visit off the stack; `None` when the walk is
    /// over. The rows stay as they are.
    pub fn next_page(&mut self) -> (res: Option<u64>)
        ensures
            match res {
                Some(p) => {
                    &&& old(self).pending@.len() > 0
                    &&& p == old(self).pending@.last()
                    &&& final(self).pending@ == old(self).pending@.drop_last()
                },
                None => old(self).pending@.len() == 0 && final(self).pending@ == old(self).pending@,
            },
            final(self).rows@ == old(self).rows@,
    {
        self.pending.pop()
    }
}

impl DB {
    /// Visits `page` of `table`'s b-tree for `query` as a step of `walk`:
    /// an interior page's children are stacked to be visited next, in cell
    /// order; a leaf page's rows are appended; an index page changes
    /// nothing. Returns `false`, with the walk unchanged, when the page
    /// cannot be read or a row lacks a requested column. Rows already
    /// gathered are never removed, changed or reordered.
    pub fn walk_page(&self, walk: &mut PageWalk, page: &Page, table: &Table, query: &Query) -> (ok: bool)
        ensures
            ok <==> spec_visit_page(*page, table.sql@, query@.columns_requested) is Some,
            ok ==> (final(walk).pending@, rows_view(final(walk).rows@)) == spec_walk_step(
                old(walk).pending@,
                rows_view(old(walk).rows@),
                spec_visit_page(*page, table.sql@, query@.columns_requested).unwrap(),
            ),
            !ok ==> final(walk).pending@ == old(walk).pending@ && final(walk).rows@ == old(walk).rows@,
            old(walk).rows@.len() <= final(walk).rows@.len(),
            final(walk).rows@.take(old(walk).rows@.len() as int) == old(walk).rows@,
            page.page_type is IndexLeafPage || page.page_type is IndexInteriorPage
                ==> final(walk).pending@ == old(walk).pending@ && final(walk).rows@ == old(walk).rows@,
            spec_visit_page(*page, table.sql@, query@.columns_requested) matches Some(PageVisitView::Children(children))
                ==> {
                &&& final(walk).rows@ == old(walk).rows@
                &&& final(walk).pending@.len() == old(walk).pending@.len() + children.len()
                &&& final(walk).pending@.take(old(walk).pending@.len() as int) == old(walk).pending@
                &&& forall|k: int| 0 <= k < children.len() ==> final(walk).pending@[final(walk).pending@.len() - 1 - k]
                    == #[trigger] children[k] as u64
            },
            spec_visit_page(*page, table.sql@, query@.columns_requested) matches Some(PageVisitView::Rows(rows)) ==> {
                &&& final(walk).pending@ == old(walk).pending@
                &&& rows_view(final(walk).rows@) == rows_view(old(walk).rows@) + rows
            },
    {
        let ghost old_pending = walk.pending@;
        let ghost old_rows = walk.rows@;
        match self.visit_page(page, table, query) {
            None => false,
            Some(PageVisit::Children(children)) => {
                let ghost stack = children_stack(children@);
                let mut i: usize = children.len();
                while i > 0
                    invariant
                        i <= children@.len(),
                        stack == children_stack(children@),
                        walk.pending@ =~= old_pending + stack.take(children@.len() - i),
                        walk.rows@ == old_rows,
                    decreases i,
                {
                    i = i - 1;
                    walk.pending.push(children[i] as u64);
                    assert(stack.take(children@.len() - i) =~= stack.take(children@.len() - i - 1).push(
                        children@[i as int] as u64,
                    ));
                }
                assert(stack.take(children@.len() as int) =~= stack);
                assert(walk.rows@.take(old_rows.len() as int) =~= old_rows);
                assert forall|k: int| 0 <= k < children@.len() implies walk.pending@[walk.pending@.len() - 1 - k]
                    == #[trigger] children@[k] as u64 by {
                    lemma_children_taken_in_cell_order(old_pending, children@, k);
                }
                proof {
                    if children@.len() > 0 {
                        lemma_children_taken_in_cell_order(old_pending, children@, 0);
                    } else {
                        assert(walk.pending@ =~= old_pending);
                    }
                }
                true
            },
            Some(PageVisit::Rows(rows)) => {
                let mut rows = rows;
                let ghost new_rows = rows@;
                walk.rows.append(&mut rows);
                assert(walk.rows@.take(old_rows.len() as int) =~= old_rows);
                assert(rows_view(walk.rows@) =~= rows_view(old_rows) + rows_view(new_rows));
                true
            },
            Some(PageVisit::Skip) => {
                assert(walk.rows@.take(old_rows.len() as int) =~= old_rows);
                true
            },
        }
    }
}

/// The children that an interior page stacks are taken off the stack in
/// cell order, all of them before any page that was stacked earlier: the
/// `k`-th page taken after the step is the `k`-th child.
pub proof fn lemma_children_taken_in_cell_order(pending: Seq<u64>, children: Seq<u32>, k: int)
    requires
        0 <= k < children.len(),
    ensures
        ({
            let stack = pending + children_stack(children);
            &&& stack.len() == pending.len() + children.len()
            &&& stack[stack.len() - 1 - k] == children[k] as u64
            &&& stack.take(pending.len() as int) == pending
        }),
{
    let stack = pending + children_stack(children);
    assert(stack.take(pending.len() as int) =~= pending);
}

/// The text of column `name` of `row`, when the row has that column and
/// its value is UTF-8.
pub open spec fn column_text_of(row: Seq<(Seq<char>, Seq<u8>)>, name: Seq<char>) -> Option<Seq<char>> {
    match row_lookup(row, name) {
        Some(bytes) => utf8_text(bytes),
        None => None,
    }
}

/// A printed row has one field per requested column, in the columns'
/// order, empty fields included: a row is printed exactly when each
/// requested column is there as text; no columns print as an empty line;
/// and, when no text holds a `|`, splitting the line at `|` gives back the
/// text of each requested column, one piece per column.
pub proof fn lemma_format_row_fields(row: Seq<(Seq<char>, Seq<u8>)>, columns: Seq<Seq<char>>)
    ensures
        spec_format_row(row, columns) is Some <==> forall|i: int|
            0 <= i < columns.len() ==> column_text_of(row, #[trigger] columns[i]) is Some,
        columns.len() == 0 ==> spec_format_row(row, columns) == Some(Seq::<char>::empty()),
        columns.len() > 0 && spec_format_row(row, columns) is Some && (forall|i: int|
            0 <= i < columns.len() ==> !column_text_of(row, #[trigger] columns[i]).unwrap().contains('|'))
            ==> split_on(spec_format_row(row, columns).unwrap(), '|') == Seq::new(
            columns.len(),
            |i: int| column_text_of(row, columns[i]).unwrap(),
        ),
    decreases columns.len(),
{
    if columns.len() > 0 {
        let prev = columns.drop_last();
        let n = columns.len();
        lemma_format_row_fields(row, prev);
        assert forall|i: int| 0 <= i < prev.len() implies prev[i] == columns[i] by {}
        assert(columns[n - 1] == columns.last());
        if (forall|i: int| 0 <= i < n ==> column_text_of(row, #[trigger] columns[i]) is Some) {
            assert(forall|i: int| 0 <= i < prev.len() ==> column_text_of(row, #[trigger] prev[i]) is Some) by {
                assert forall|i: int| 0 <= i < prev.len() implies column_text_of(row, #[trigger] prev[i]) is Some by {
                    assert(prev[i] == columns[i]);
                }
            }
        }
        if spec_format_row(row, columns) is Some {
            assert forall|i: int| 0 <= i < n implies column_text_of(row, #[trigger] columns[i]) is Some by {
                if i < n - 1 {
                    assert(prev[i] == columns[i]);
                }
            }
            let line = spec_format_row(row, columns).unwrap();
            let text = column_text_of(row, columns.last()).unwrap();
            let fields = Seq::new(n, |i: int| column_text_of(row, columns[i]).unwrap());
            if forall|i: int| 0 <= i < n ==> !column_text_of(row, #[trigger] columns[i]).unwrap().contains('|') {
                assert(!text.contains('|'));
                if n == 1 {
                    lemma_split_on_without_sep(text, '|');
                    assert(fields =~= seq![text]);
                } else {
                    let prev_line = spec_format_row(row, prev).unwrap();
                    assert forall|i: int| 0 <= i < prev.len() implies !column_text_of(row, #[trigger] prev[i]).unwrap().contains('|') by {
                        assert(prev[i] == columns[i]);
                    }
                    lemma_split_on_join(prev_line, text, '|');
                    assert(line == prev_line.push('|') + text);
                    assert(fields =~= Seq::new(prev.len(), |i: int| column_text_of(row, prev[i]).unwrap()).push(text));
                }
            }
        }
    }
}

/// Running a statement keeps what it says: it is answered exactly when a
/// table bears the statement's table name, and then with the first such
/// table; the query handed back keeps the statement's table name and its
/// `WHERE` conditions, and asks for the statement's columns, or for all of
/// the table's columns, in the table's order, when the statement asks for
/// `*` alone.
pub proof fn lemma_execute_keeps_statement(tables: Seq<TableView>, query: QueryView)
    ensures
        spec_execute(tables, query) is None <==> forall|j: int|
            0 <= j < tables.len() ==> (#[trigger] tables[j]).name != query.table_name,
        spec_execute(tables, query) matches Some((t, q)) ==> {
            &&& t.name == query.table_name
            &&& exists|i: int|
                0 <= i < tables.len() && tables[i] == t && forall|j: int| 0 <= j < i ==> (#[trigger] tables[j]).name
                    != query.table_name
            &&& q.table_name == query.table_name
            &&& q.where_clauses == query.where_clauses
            &&& q.columns_requested == (if query.columns_requested == seq!["*"@] {
                t.columns
            } else {
                query.columns_requested
            })
        },
{
    lemma_first_table_named(tables, query.table_name);
    if let Some(i) = first_table_named(tables, query.table_name) {
        assert(tables[i] == tables[i]);
    } else {
        assert forall|j: int| 0 <= j < tables.len() implies (#[trigger] tables[j]).name != query.table_name by {}
    }
}

/// What a row of the schema table describes keeps the row's text: a table
/// or an index carries the row's `sql` text as its statement, the first
/// byte of `rootpage` as its root page, and the `tbl_name` text as its
/// name (a table also as its table name, and the columns that its `sql`
/// declares as its columns; an index no table name and no columns); it is a table exactly when the
/// row's `type` reads `table`, an index exactly when it reads `index`, and
/// a view otherwise.
pub proof fn lemma_schema_keeps_row_text(row: Seq<(Seq<char>, Seq<u8>)>)
    ensures
        schema_of_row(row) matches Some(schema) ==> {
            &&& column_text_of(row, "type"@) is Some
            &&& !(schema is Trigger)
            &&& row_lookup(row, "rootpage"@) matches Some(root) && root.len() > 0
            &&& column_text_of(row, "sql"@) is Some
            &&& match schema {
                SchemaView::Table(t) => {
                    &&& column_text_of(row, "type"@) == Some("table"@)
                    &&& column_text_of(row, "sql"@) == Some(t.sql)
                    &&& column_text_of(row, "tbl_name"@) == Some(t.name)
                    &&& t.tbl_name == t.name
                    &&& t.root_page == row_lookup(row, "rootpage"@).unwrap()[0]
                    &&& t.columns == spec_parse(t.sql).columns_requested
                },
                SchemaView::Index(ix) => {
                    &&& column_text_of(row, "type"@) == Some("index"@)
                    &&& column_text_of(row, "sql"@) == Some(ix.sql)
                    &&& column_text_of(row, "tbl_name"@) == Some(ix.name)
                    &&& ix.root_page == row_lookup(row, "rootpage"@).unwrap()[0]
                    &&& ix.tbl_name.len() == 0 && ix.columns.len() == 0
                },
                SchemaView::View => column_text_of(row, "type"@) != Some("table"@) && column_text_of(row, "type"@) != Some(
                    "index"@,
                ),
                SchemaView::Trigger => false,
            }
        },
{
}

proof fn lemma_leaf_rows_each(cells: Seq<(Seq<u8>, u64)>, table_sql: Seq<char>, requested: Seq<Seq<char>>)
    ensures
        leaf_rows(cells, table_sql, requested) matches Some(rows) ==> {
            &&& rows.len() == cells.len()
            &&& forall|i: int| 0 <= i < rows.len() ==> spec_extract_data(#[trigger] cells[i].0, table_sql) == Some(rows[i])
                && has_columns(rows[i], requested)
        },
    decreases cells.len(),
{
    if cells.len() > 0 {
        lemma_leaf_rows_each(cells.drop_last(), table_sql, requested);
        if let Some(rows) = leaf_rows(cells, table_sql, requested) {
            let prev = leaf_rows(cells.drop_last(), table_sql, requested).unwrap();
            assert forall|i: int| 0 <= i < rows.len() implies spec_extract_data(#[trigger] cells[i].0, table_sql) == Some(rows[i])
                && has_columns(rows[i], requested) by {
                if i < prev.len() {
                    assert(rows[i] == prev[i]);
                    assert(cells[i] == cells.drop_last()[i]);
                }
            }
        }
    }
}

/// The children that visiting an interior page gives are the left
/// children of its cells, one per entry of the cell pointer array, in
/// order.
pub open spec fn visit_gives_pointed_children(page: Page, children: Seq<u32>) -> bool {
    &&& page.page_type == PageType::TableInteriorPage
    &&& children.len() == page.cell_count
    &&& forall|i: int| 0 <= i < children.len() ==> is_pointed_child(page.contents@, page.content_offset, i, #[trigger] children[i])
}

/// Whether `child` is the left child of the cell that entry `i` of the
/// cell pointer array at `content_offset` points at: the four big-endian
/// bytes where the cell starts.
pub open spec fn is_pointed_child(contents: Seq<u8>, content_offset: u8, i: int, child: u32) -> bool {
    let e = content_offset + 2 * i;
    let a = be_u16_at(contents, e);
    &&& e + 1 < contents.len()
    &&& a + 3 < contents.len()
    &&& child == be_u32_at(contents, a)
}

/// The rows that visiting a leaf page gives: one per cell, in order, each
/// the record of the cell that the matching entry of the cell pointer array
/// points at, read for the table's columns, and holding every requested
/// column.
pub open spec fn visit_gives_pointed_rows(
    page: Page,
    table_sql: Seq<char>,
    requested: Seq<Seq<char>>,
    rows: Seq<Seq<(Seq<char>, Seq<u8>)>>,
) -> bool {
    &&& page.page_type == PageType::TableLeafPage
    &&& rows.len() == page.cell_count
    &&& forall|i: int| 0 <= i < rows.len() ==> has_columns(#[trigger] rows[i], requested) && exists|cell: (Seq<u8>, u64)|
        is_pointed_table_leaf_cell(page.contents@, page.content_offset, false, i, cell) && spec_extract_data(cell.0, table_sql)
            == Some(rows[i])
}

proof fn lemma_visit_children(page: Page, table_sql: Seq<char>, requested: Seq<Seq<char>>)
    ensures
        spec_visit_page(page, table_sql, requested) matches Some(PageVisitView::Children(children))
            ==> visit_gives_pointed_children(page, children),
{
    if let Some(PageVisitView::Children(children)) = spec_visit_page(page, table_sql, requested) {
        lemma_table_interior_cells_follow_pointers(page.contents@, page.content_offset, page.cell_count as nat);
        let cells = table_interior_cells(page.contents@, page.content_offset, page.cell_count as nat).unwrap();
        assert(children == cells.map_values(|c: (u32, u64)| c.0));
        assert(page.page_type == PageType::TableInteriorPage);
        assert(cells.len() == page.cell_count);
        assert(children.len() == page.cell_count);
        assert forall|i: int| 0 <= i < children.len() implies is_pointed_child(page.contents@, page.content_offset, i, #[trigger] children[i]) by {
            assert(is_pointed_table_interior_cell(page.contents@, page.content_offset, i, cells[i]));
            assert(children[i] == cells[i].0);
        }
        assert(visit_gives_pointed_children(page, children));
    }
}

proof fn lemma_visit_rows(page: Page, table_sql: Seq<char>, requested: Seq<Seq<char>>)
    ensures
        spec_visit_page(page, table_sql, requested) matches Some(PageVisitView::Rows(rows))
            ==> visit_gives_pointed_rows(page, table_sql, requested, rows),
{
    if let Some(PageVisitView::Rows(rows)) = spec_visit_page(page, table_sql, requested) {
        lemma_table_leaf_cells_follow_pointers(page.contents@, page.content_offset, page.cell_count as nat, false);
        let cells = table_leaf_cells(page.contents@, page.content_offset, page.cell_count as nat, false).unwrap();
        lemma_leaf_rows_each(cells, table_sql, requested);
        assert forall|i: int| 0 <= i < rows.len() implies has_columns(#[trigger] rows[i], requested) && exists|cell: (Seq<u8>, u64)|
            is_pointed_table_leaf_cell(page.contents@, page.content_offset, false, i, cell) && spec_extract_data(cell.0, table_sql)
                == Some(rows[i]) by {
            assert(spec_extract_data(cells[i].0, table_sql) == Some(rows[i]));
            assert(is_pointed_table_leaf_cell(page.contents@, page.content_offset, false, i, cells[i]));
        }
    }
}

/// Visiting a page of a table's b-tree: an interior page gives the left
/// child of each of its cells, one per entry of its cell pointer array and
/// in that order; a leaf page gives one row per cell, in order, each the
/// record of the cell that the matching entry points at, read for the
/// table's columns and holding every requested column; an index page gives
/// nothing to do.
pub proof fn lemma_visit_page_follows_cells(page: Page, table_sql: Seq<char>, requested: Seq<Seq<char>>)
    ensures
        spec_visit_page(page, table_sql, requested) matches Some(PageVisitView::Children(children))
            ==> visit_gives_pointed_children(page, children),
        spec_visit_page(page, table_sql, requested) matches Some(PageVisitView::Rows(rows))
            ==> visit_gives_pointed_rows(page, table_sql, requested, rows),
        page.page_type == PageType::IndexLeafPage || page.page_type == PageType::IndexInteriorPage
            ==> spec_visit_page(page, table_sql, requested) == Some(PageVisitView::Skip),
{
    lemma_visit_children(page, table_sql, requested);
    lemma_visit_rows(page, table_sql, requested);
}

/// Opening a database sorts the schema rows without losing or inventing
/// any: a table is kept among the tables exactly when a schema row
/// describes it, and a schema is handed back among the others exactly when
/// it is a row's schema and not a table.
pub proof fn lemma_schemas_sorted(schemas: Seq<SchemaView>)
    ensures
        forall|t: TableView| #[trigger] tables_of(schemas).contains(t) <==> schemas.contains(SchemaView::Table(t)),
        forall|x: SchemaView| #[trigger] others_of(schemas).contains(x) <==> schemas.contains(x) && !(x is Table),
    decreases schemas.len(),
{
    if schemas.len() > 0 {
        let prev = schemas.drop_last();
        let last = schemas.last();
        lemma_schemas_sorted(prev);
        assert(schemas =~= prev.push(last));
        lemma_tables_others_push(prev, last);
        broadcast use vstd::seq_lib::lemma_seq_contains_after_push;
        assert forall|t: TableView| #[trigger] tables_of(schemas).contains(t) <==> schemas.contains(SchemaView::Table(t)) by {
            assert(schemas.contains(SchemaView::Table(t)) <==> last == SchemaView::Table(t) || prev.contains(
                SchemaView::Table(t),
            ));
        }
        assert forall|x: SchemaView| #[trigger] others_of(schemas).contains(x) <==> schemas.contains(x) && !(x is Table) by {
            assert(schemas.contains(x) <==> last == x || prev.contains(x));
        }
    }
}

/// Opening a database loses no schema: every schema row is either one of
/// its tables or one of the other schemas it hands back.
pub proof fn lemma_schemas_partition(schemas: Seq<SchemaView>)
    ensures
        tables_of(schemas).len() + others_of(schemas).len() == schemas.len(),
    decreases schemas.len(),
{
    if schemas.len() > 0 {
        lemma_schemas_partition(schemas.drop_last());
    }
}

/// A leaf page gives one row per cell, and every row holds each of the
/// requested columns.
pub proof fn lemma_leaf_rows_shape(cells: Seq<(Seq<u8>, u64)>, table_sql: Seq<char>, requested: Seq<Seq<char>>)
    ensures
        leaf_rows(cells, table_sql, requested) matches Some(rows) ==> {
            &&& rows.len() == cells.len()
            &&& forall|i: int| 0 <= i < rows.len() ==> has_columns(#[trigger] rows[i], requested)
        },
    decreases cells.len(),
{
    if cells.len() > 0 {
        lemma_leaf_rows_shape(cells.drop_last(), table_sql, requested);
        if let Some(rows) = leaf_rows(cells, table_sql, requested) {
            let prev = leaf_rows(cells.drop_last(), table_sql, requested).unwrap();
            assert forall|i: int| 0 <= i < rows.len() implies has_columns(#[trigger] rows[i], requested) by {
                if i < prev.len() {
                    assert(rows[i] == prev[i]);
                }
            }
        }
    }
}

/// The table that a statement is run against is the first table that
/// bears the statement's table name.
pub proof fn lemma_first_table_named(tables: Seq<TableView>, name: Seq<char>)
    ensures
        first_table_named(tables, name) matches Some(i) ==> {
            &&& 0 <= i < tables.len()
            &&& tables[i].name == name
            &&& forall|j: int| 0 <= j < i ==> tables[j].name != name
        },
        first_table_named(tables, name) is None ==> forall|j: int| 0 <= j < tables.len() ==> tables[j].name != name,
    decreases tables.len(),
{
    if tables.len() > 0 {
        lemma_first_table_named(tables.drop_last(), name);
        assert forall|j: int| 0 <= j < tables.len() - 1 implies tables.drop_last()[j] == tables[j] by {}
    }
}

proof fn lemma_tables_others_push(schemas: Seq<SchemaView>, s: SchemaView)
    ensures
        tables_of(schemas.push(s)) == (match s {
            SchemaView::Table(t) => tables_of(schemas).push(t),
            _ => tables_of(schemas),
        }),
        others_of(schemas.push(s)) == (match s {
            SchemaView::Table(_) => others_of(schemas),
            _ => others_of(schemas).push(s),
        }),
{
    assert(schemas.push(s).drop_last() =~= schemas);
}

proof fn lemma_schema_rows_none_stays(cells: Seq<(Seq<u8>, u64)>, k: nat)
    requires
        k <= cells.len(),
        schema_rows(cells.take(k as int)) is None,
    ensures
        schema_rows(cells) is None,
    decreases cells.len() - k,
{
    if k < cells.len() {
        assert(cells.take((k + 1) as int).drop_last() =~= cells.take(k as int));
        lemma_schema_rows_none_stays(cells, k + 1);
    } else {
        assert(cells.take(k as int) =~= cells);
    }
}

proof fn lemma_leaf_rows_none_stays(cells: Seq<(Seq<u8>, u64)>, k: nat, table_sql: Seq<char>, requested: Seq<Seq<char>>)
    requires
        k <= cells.len(),
        leaf_rows(cells.take(k as int), table_sql, requested) is None,
    ensures
        leaf_rows(cells, table_sql, requested) is None,
    decreases cells.len() - k,
{
    if k < cells.len() {
        assert(cells.take((k + 1) as int).drop_last() =~= cells.take(k as int));
        lemma_leaf_rows_none_stays(cells, k + 1, table_sql, requested);
    } else {
        assert(cells.take(k as int) =~= cells);
    }
}

proof fn lemma_format_row_none_stays(row: Seq<(Seq<char>, Seq<u8>)>, names: Seq<Seq<char>>, k: nat)
    requires
        k <= names.len(),
        spec_format_row(row, names.take(k as int)) is None,
    ensures
        spec_format_row(row, names) is None,
    decreases names.len() - k,
{
    if k < names.len() {
        assert(names.take((k + 1) as int).drop_last() =~= names.take(k as int));
        lemma_format_row_none_stays(row, names, k + 1);
    } else {
        assert(names.take(k as int) =~= names);
    }
}

proof fn lemma_first_table_named_prefix(tables: Seq<TableView>, k: nat, name: Seq<char>)
    requires
        k <= tables.len(),
        first_table_named(tables.take(k as int), name) is Some,
    ensures
        first_table_named(tables, name) == first_table_named(tables.take(k as int), name),
    decreases tables.len() - k,
{
    if k < tables.len() {
        assert(tables.take((k + 1) as int).drop_last() =~= tables.take(k as int));
        lemma_first_table_named_prefix(tables, k + 1, name);
    } else {
        assert(tables.take(k as int) =~= tables);
    }
}

} // verus!
