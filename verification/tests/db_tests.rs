use fish_db::db_mod::db::{Header, PageVisit, PageWalk, DB};
use fish_db::db_mod::record::{decode_record, find_size, Row};
use fish_db::pager_mod::pager::Page;
use fish_db::schema_mod::index::Index;
use fish_db::schema_mod::schema::Schema;
use fish_db::schema_mod::table::Table;

fn varint(v: u64) -> Vec<u8> {
    let mut digits = vec![(v & 0x7f) as u8];
    let mut rest = v >> 7;
    while rest > 0 {
        digits.push(((rest & 0x7f) as u8) | 0x80);
        rest >>= 7;
    }
    digits.reverse();
    digits
}

/// A record: its header (size, then serial types) and its values.
fn record(values: &[(u64, Vec<u8>)]) -> Vec<u8> {
    let mut serials = Vec::new();
    for (serial, _) in values {
        serials.extend(varint(*serial));
    }
    let mut out = varint((serials.len() + 1) as u64);
    out.extend(serials);
    for (_, bytes) in values {
        out.extend_from_slice(bytes);
    }
    out
}

fn text(s: &str) -> (u64, Vec<u8>) {
    (13 + 2 * s.len() as u64, s.as_bytes().to_vec())
}

fn int1(v: u8) -> (u64, Vec<u8>) {
    (1, vec![v])
}

fn leaf_cell(row_id: u64, payload: &[u8]) -> Vec<u8> {
    let mut cell = varint(payload.len() as u64);
    cell.extend(varint(row_id));
    cell.extend_from_slice(payload);
    cell
}

fn page(flag: u8, header_len: usize, cells: &[Vec<u8>], size: usize, shift: usize) -> Vec<u8> {
    let mut contents = vec![0u8; size];
    contents[0] = flag;
    contents[3] = (cells.len() >> 8) as u8;
    contents[4] = cells.len() as u8;
    let mut end = size;
    for (i, cell) in cells.iter().enumerate() {
        let start = end - cell.len();
        contents[start..end].copy_from_slice(cell);
        let pointer = start + shift;
        contents[header_len + 2 * i] = (pointer >> 8) as u8;
        contents[header_len + 2 * i + 1] = pointer as u8;
        end = start;
    }
    contents
}

const APPLES_SQL: &str = "CREATE TABLE apples\n(\n\tid integer primary key autoincrement,\n\tname text,\n\tcolor text\n)";

fn schema_page() -> Page {
    let apples = record(&[text("table"), text("apples"), text("apples"), int1(2), text(APPLES_SQL)]);
    let index = record(&[
        text("index"),
        text("idx_color"),
        text("apples"),
        int1(4),
        text("CREATE INDEX idx_color ON apples (color)"),
    ]);
    let view = record(&[text("view"), text("v"), text("v"), int1(0), text("CREATE VIEW v AS SELECT 1")]);
    let contents = page(0x0d, 8, &[leaf_cell(1, &apples), leaf_cell(2, &index), leaf_cell(3, &view)], 412, 100);
    Page::new(1, contents)
}

fn open_db() -> (DB, Vec<Schema>) {
    let mut bytes = b"SQLite format 3\0".to_vec();
    bytes.extend_from_slice(&[0x02, 0x00]);
    bytes.resize(100, 0);
    let header = Header::from_bytes(&bytes).unwrap();
    DB::new(header, &schema_page()).unwrap()
}

#[test]
fn serial_type_sizes() {
    let expected = [(0, 0), (1, 1), (2, 2), (3, 3), (4, 4), (5, 6), (6, 8), (7, 8), (8, 0), (9, 0), (12, 0), (13, 0), (14, 1), (23, 5), (24, 6)];
    for (serial, size) in expected {
        assert_eq!(find_size(serial), size);
    }
}

#[test]
fn decode_record_reads_columns_in_order() {
    let payload = record(&[int1(7), text("hello")]);
    let columns = vec!["a".to_string(), "b".to_string()];
    let row = decode_record(&payload, &columns).unwrap();
    assert_eq!(row.get(&"a".to_string()), Some(&vec![7u8]));
    assert_eq!(row.get(&"b".to_string()), Some(&b"hello".to_vec()));
    assert_eq!(row.get(&"c".to_string()), None);
    assert_eq!(row.entries.len(), 2);
}

#[test]
fn decode_record_later_column_of_a_name_decides() {
    // Two columns named x: the size kept for x is that of the second
    // (a 1-byte text), and the second value is the one x answers with.
    let payload = vec![3, 2, 15, 0x01, 0x02, 0x03];
    let columns = vec!["x".to_string(), "x".to_string()];
    let row = decode_record(&payload, &columns).unwrap();
    assert_eq!(row.entries[0].1, vec![0x01]);
    assert_eq!(row.entries[1].1, vec![0x02]);
    assert_eq!(row.get(&"x".to_string()), Some(&vec![0x02]));
}

#[test]
fn decode_record_rejects_bad_records() {
    let columns = vec!["a".to_string()];
    assert!(decode_record(&[2, 10], &columns).is_none());
    assert!(decode_record(&[2, 11], &columns).is_none());
    assert!(decode_record(&[2, 17, b'a'], &columns).is_none());
    assert!(decode_record(&[], &columns).is_none());
    assert!(decode_record(&[2], &columns).is_none());
}

#[test]
fn header_from_bytes() {
    let mut bytes = b"SQLite format 3\0".to_vec();
    bytes.extend_from_slice(&[0x10, 0x00]);
    bytes.resize(100, 0);
    let header = Header::from_bytes(&bytes).unwrap();
    assert_eq!(header.get_page_size(), 4096);
    assert_eq!(header.sql_format, "SQLite format 3\0");
    bytes[3] = 0xff;
    assert!(Header::from_bytes(&bytes).is_none());
}

#[test]
fn open_database_keeps_tables() {
    let (db, others) = open_db();
    assert_eq!(db.get_page_size(), 512);
    assert_eq!(db.tables.len(), 1);
    let t = &db.tables[0];
    assert_eq!(t.name, "apples");
    assert_eq!(t.tbl_name, "apples");
    assert_eq!(t.root_page, 2);
    assert_eq!(t.sql, APPLES_SQL);
    assert_eq!(t.columns, vec!["id", "name", "color"]);
    assert_eq!(others.len(), 2);
    match &others[0] {
        Schema::Index(i) => {
            assert_eq!(i.name, "apples");
            assert_eq!(i.tbl_name, "");
            assert_eq!(i.root_page, 4);
            assert!(i.columns.is_empty());
        },
        _ => panic!("expected an index"),
    }
    assert!(matches!(others[1], Schema::View));
}

#[test]
fn open_database_rejects_interior_first_page() {
    let (db, _) = open_db();
    let page = Page::new(1, vec![0x05, 0, 0, 0, 0, 0, 0, 0, 0, 0, 0, 0]);
    assert!(DB::new(db.header, &page).is_none());
}

#[test]
fn execute_finds_table_and_expands_star() {
    let (db, _) = open_db();
    let (table, query) = db.execute("SELECT * FROM apples".to_string()).unwrap();
    assert_eq!(table.name, "apples");
    assert_eq!(query.columns_requested, vec!["id", "name", "color"]);
    let (_, query) = db.execute("SELECT name, color FROM apples;".to_string()).unwrap();
    assert_eq!(query.columns_requested, vec!["name", "color"]);
    assert!(db.execute("SELECT * FROM pears".to_string()).is_none());
}

fn apples_leaf_page() -> Page {
    let r1 = record(&[(0, vec![]), text("Granny Smith"), text("Light Green")]);
    let r2 = record(&[(0, vec![]), text("Fuji"), text("Red")]);
    Page::new(2, page(0x0d, 8, &[leaf_cell(1, &r1), leaf_cell(2, &r2)], 256, 0))
}

#[test]
fn visit_leaf_page_gives_rows() {
    let (db, _) = open_db();
    let (table, query) = db.execute("SELECT name, color FROM apples".to_string()).unwrap();
    match db.visit_page(&apples_leaf_page(), &table, &query).unwrap() {
        PageVisit::Rows(rows) => {
            assert_eq!(rows.len(), 2);
            assert_eq!(DB::format_row(&rows[0], &query.columns_requested), Some("Granny Smith|Light Green".to_string()));
            assert_eq!(DB::format_row(&rows[1], &query.columns_requested), Some("Fuji|Red".to_string()));
            assert_eq!(rows[0].get(&"id".to_string()), Some(&vec![]));
        },
        _ => panic!("expected rows"),
    }
}

#[test]
fn visit_leaf_page_missing_column() {
    let (db, _) = open_db();
    let (table, query) = db.execute("SELECT weight FROM apples".to_string()).unwrap();
    assert!(db.visit_page(&apples_leaf_page(), &table, &query).is_none());
}

#[test]
fn visit_interior_page_gives_left_children() {
    let (db, _) = open_db();
    let (table, query) = db.execute("SELECT * FROM apples".to_string()).unwrap();
    let mut c1 = 5u32.to_be_bytes().to_vec();
    c1.extend(varint(10));
    let mut c2 = 6u32.to_be_bytes().to_vec();
    c2.extend(varint(20));
    let interior = Page::new(3, page(0x05, 12, &[c1, c2], 64, 0));
    match db.visit_page(&interior, &table, &query).unwrap() {
        PageVisit::Children(children) => assert_eq!(children, vec![5, 6]),
        _ => panic!("expected children"),
    }
    let index_page = Page::new(4, vec![0x0a, 0, 0, 0, 0, 0, 0, 0, 0, 0, 0, 0]);
    assert!(matches!(db.visit_page(&index_page, &table, &query), Some(PageVisit::Skip)));
}

#[test]
fn format_row_cases() {
    let row = Row { entries: vec![("a".to_string(), b"x".to_vec()), ("b".to_string(), vec![0xff])] };
    assert_eq!(DB::format_row(&row, &vec!["a".to_string()]), Some("x".to_string()));
    assert_eq!(DB::format_row(&row, &vec!["a".to_string(), "a".to_string()]), Some("x|x".to_string()));
    assert_eq!(DB::format_row(&row, &vec![]), Some(String::new()));
    assert_eq!(DB::format_row(&row, &vec!["b".to_string()]), None);
    assert_eq!(DB::format_row(&row, &vec!["c".to_string()]), None);
}

#[test]
fn table_and_index_clone() {
    let t = Table { name: "t".to_string(), tbl_name: "t".to_string(), sql: "s".to_string(), root_page: 3, columns: vec!["a".to_string()] };
    let c = t.clone();
    assert_eq!((c.name, c.tbl_name, c.sql, c.root_page, c.columns), (t.name, t.tbl_name, t.sql, t.root_page, t.columns));
    let i = Index { name: "i".to_string(), tbl_name: String::new(), sql: "q".to_string(), root_page: 5, columns: vec![] };
    let mut j = Index { name: "j".to_string(), tbl_name: String::new(), sql: String::new(), root_page: 1, columns: vec![] };
    j.clone_from(&i);
    assert_eq!(j.name, "j");
    assert_eq!(j.root_page, 1);
    let k = i.clone();
    assert_eq!(k.name, "i");
    assert_eq!(k.root_page, 5);
}

#[test]
fn execute_takes_first_table_of_a_name() {
    let first = record(&[text("table"), text("apples"), text("apples"), int1(2), text(APPLES_SQL)]);
    let second = record(&[text("table"), text("apples"), text("apples"), int1(9), text("CREATE TABLE apples (z int)")]);
    let contents = page(0x0d, 8, &[leaf_cell(1, &first), leaf_cell(2, &second)], 412, 100);
    let (db, others) = open_db();
    let (db, no_others) = DB::new(db.header, &Page::new(1, contents)).unwrap();
    assert_eq!(others.len(), 2);
    assert!(no_others.is_empty());
    assert_eq!(db.tables.len(), 2);
    let (table, query) = db.execute("SELECT * FROM apples".to_string()).unwrap();
    assert_eq!(table.root_page, 2);
    assert_eq!(query.columns_requested, vec!["id", "name", "color"]);
}

#[test]
fn walk_visits_children_in_cell_order_and_appends_rows() {
    let (db, _) = open_db();
    let (table, query) = db.execute("SELECT name, color FROM apples".to_string()).unwrap();
    let mut walk = PageWalk::start(3);
    assert_eq!(walk.next_page(), Some(3));
    let mut c1 = 5u32.to_be_bytes().to_vec();
    c1.extend(varint(10));
    let mut c2 = 6u32.to_be_bytes().to_vec();
    c2.extend(varint(20));
    let interior = Page::new(3, page(0x05, 12, &[c1, c2], 64, 0));
    walk.pending.push(9);
    assert!(db.walk_page(&mut walk, &interior, &table, &query));
    assert_eq!(walk.pending, vec![9, 6, 5]);
    assert!(walk.rows.is_empty());
    assert_eq!(walk.next_page(), Some(5));
    assert!(db.walk_page(&mut walk, &apples_leaf_page(), &table, &query));
    assert_eq!(walk.rows.len(), 2);
    assert_eq!(walk.next_page(), Some(6));
    assert!(db.walk_page(&mut walk, &apples_leaf_page(), &table, &query));
    assert_eq!(walk.rows.len(), 4);
    assert_eq!(DB::format_row(&walk.rows[0], &query.columns_requested), Some("Granny Smith|Light Green".to_string()));
    assert_eq!(DB::format_row(&walk.rows[3], &query.columns_requested), Some("Fuji|Red".to_string()));
    let index_page = Page::new(9, vec![0x0a, 0, 0, 0, 0, 0, 0, 0]);
    assert_eq!(walk.next_page(), Some(9));
    assert!(db.walk_page(&mut walk, &index_page, &table, &query));
    assert_eq!(walk.rows.len(), 4);
    assert!(walk.pending.is_empty());
    assert_eq!(walk.next_page(), None);
}

#[test]
fn walk_refuses_a_row_without_a_requested_column() {
    let (db, _) = open_db();
    let (table, query) = db.execute("SELECT weight FROM apples".to_string()).unwrap();
    let mut walk = PageWalk::start(2);
    walk.pending.clear();
    assert!(!db.walk_page(&mut walk, &apples_leaf_page(), &table, &query));
    assert!(walk.rows.is_empty());
    assert!(walk.pending.is_empty());
}
