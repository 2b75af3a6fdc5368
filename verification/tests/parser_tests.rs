use fish_db::parser_mod::lexer::Lexer;
use fish_db::parser_mod::parser::{Parser, Query, DEFAULT_SCHEMA};
use fish_db::parser_mod::token::{is_reserved, Reserved};

fn tokens(source: &str) -> Vec<Option<String>> {
    let mut lexer = Lexer::new(source.to_string());
    (0..8).map(|_| lexer.next_token()).collect()
}

#[test]
fn lexer_splits_words_commas_and_stops_at_semicolon() {
    let got = tokens("SELECT a,b FROM t;");
    let want: Vec<Option<String>> = vec![
        Some("SELECT".to_string()),
        Some("a".to_string()),
        Some(",".to_string()),
        Some("b".to_string()),
        Some("FROM".to_string()),
        Some("t".to_string()),
        None,
        None,
    ];
    assert_eq!(got, want);
}

#[test]
fn lexer_space_before_a_word_passes_over_a_character() {
    // After a comma the space is read into the word and the next character
    // is passed over.
    let got = tokens("SELECT a, bc FROM t;");
    assert_eq!(got[0], Some("SELECT".to_string()));
    assert_eq!(got[1], Some("a".to_string()));
    assert_eq!(got[2], Some(",".to_string()));
    assert_eq!(got[3], Some(" c".to_string()));
    assert_eq!(got[4], Some("FROM".to_string()));
    assert_eq!(got[5], Some("t".to_string()));
    assert_eq!(got[6], None);
}

#[test]
fn lexer_at_end_of_input() {
    let mut lexer = Lexer::new(String::new());
    assert_eq!(lexer.next_token(), None);
    assert_eq!(lexer.next_token(), None);
    let mut lexer = Lexer::new("ab ".to_string());
    assert_eq!(lexer.next_token(), Some("ab".to_string()));
    assert_eq!(lexer.next_token(), None);
}

#[test]
fn reserved_words() {
    assert_eq!(is_reserved(&"SELECT".to_string()), Some(Reserved::SELECT));
    assert_eq!(is_reserved(&"FROM".to_string()), Some(Reserved::FROM));
    assert_eq!(is_reserved(&"COUNT".to_string()), Some(Reserved::COUNT));
    assert_eq!(is_reserved(&"select".to_string()), None);
    assert_eq!(is_reserved(&"SELECTED".to_string()), None);
}

#[test]
fn parse_create_table() {
    let parser = Parser::new().unwrap();
    let q = parser.parse("CREATE TABLE apples\n(\n\tid integer primary key autoincrement,\n\tname text,\n\tcolor text\n)".to_string());
    assert_eq!(q.table_name, "apples");
    assert_eq!(q.columns_requested, vec!["id", "name", "color"]);
    assert!(q.where_clauses.is_empty());
}

#[test]
fn parse_default_schema() {
    let parser = Parser::new().unwrap();
    let q = parser.parse(DEFAULT_SCHEMA.to_string());
    assert_eq!(q.table_name, "sqlite_schema");
    assert_eq!(q.columns_requested, vec!["type", "name", "tbl_name", "rootpage", "sql"]);
}

#[test]
fn parse_select() {
    let parser = Parser::new().unwrap();
    let q = parser.parse("SELECT name, color FROM apples".to_string());
    assert_eq!(q.table_name, "apples");
    assert_eq!(q.columns_requested, vec!["name", "color"]);
    assert!(q.where_clauses.is_empty());
    let q = parser.parse("select * from oranges;".to_string());
    assert_eq!(q.table_name, "oranges");
    assert_eq!(q.columns_requested, vec!["*"]);
}

#[test]
fn parse_select_with_where() {
    let parser = Parser::new().unwrap();
    let q = parser.parse("SELECT name FROM apples WHERE color = 'Yellow'".to_string());
    assert_eq!(q.table_name, "apples");
    assert_eq!(q.columns_requested, vec!["name"]);
    assert_eq!(q.where_clauses, vec![("color".to_string(), "Yellow".to_string())]);
}

#[test]
fn parse_other_text_gives_empty_query() {
    let parser = Parser::new().unwrap();
    let q = parser.parse("hello there".to_string());
    assert_eq!(q.table_name, "");
    assert!(q.columns_requested.is_empty());
    assert!(q.where_clauses.is_empty());
}

#[test]
fn index_columns() {
    let parser = Parser::new().unwrap();
    assert_eq!(
        parser.extract_columns_from_index("CREATE INDEX idx_color ON apples ( color , name )".to_string()),
        vec!["color", "name"]
    );
    assert!(parser.extract_columns_from_index("CREATE TABLE t (a int)".to_string()).is_empty());
}

use fish_db::parser_mod::parser::{columns_from_index_captures, group_string, query_from_create_table, query_from_select};

fn caps(groups: &[Option<&str>]) -> Vec<Option<String>> {
    groups.iter().map(|g| g.map(|s| s.to_string())).collect()
}

#[test]
fn query_from_select_groups() {
    let c = caps(&[Some("SELECT  a ,b\t FROM t"), Some(" a ,b\t"), Some("t"), None]);
    let conditions = vec![caps(&[Some("x=1"), Some("x"), Some("1")])];
    let q = query_from_select(&c, &conditions);
    assert_eq!(q.table_name, "t");
    assert_eq!(q.columns_requested, vec!["a", "b"]);
    // Without a WHERE group the condition matches are not used.
    assert!(q.where_clauses.is_empty());
    let c = caps(&[Some("s"), Some("a,,b"), Some("t"), Some("x=1 y=2")]);
    let conditions = vec![caps(&[Some("x=1"), Some("x"), Some("1")]), caps(&[Some("y=2"), Some("y"), Some("2")])];
    let q = query_from_select(&c, &conditions);
    assert_eq!(q.columns_requested, vec!["a", "", "b"]);
    assert_eq!(q.where_clauses, vec![("x".to_string(), "1".to_string()), ("y".to_string(), "2".to_string())]);
}

#[test]
fn query_from_create_table_groups() {
    let c = caps(&[Some("CREATE TABLE t (a int, b text)"), Some("t"), Some("a int, b text")]);
    let columns = vec![caps(&[Some("a int"), Some("a"), Some("int")]), caps(&[Some(" b text"), None, Some("text")])];
    let q = query_from_create_table(&c, &columns);
    assert_eq!(q.table_name, "t");
    assert_eq!(q.columns_requested, vec!["a", ""]);
    assert!(q.where_clauses.is_empty());
}

#[test]
fn index_columns_from_groups() {
    assert!(columns_from_index_captures(&None).is_empty());
    assert!(columns_from_index_captures(&Some(caps(&[Some("x"), None]))).is_empty());
    assert_eq!(columns_from_index_captures(&Some(caps(&[Some("x"), Some("a,\u{3000}b ")]))), vec!["a", "b"]);
}

#[test]
fn capture_group_text() {
    let c = caps(&[Some("all"), None, Some("two")]);
    assert_eq!(group_string(&c, 0), "all");
    assert_eq!(group_string(&c, 1), "");
    assert_eq!(group_string(&c, 2), "two");
    assert_eq!(group_string(&c, 7), "");
}

#[test]
fn lexer_keeps_answering_none_after_semicolon() {
    let mut lexer = Lexer::new(";abc".to_string());
    for _ in 0..3 {
        assert_eq!(lexer.next_token(), None);
    }
}

#[test]
fn where_condition_lookup_takes_last_pair() {
    let parser = Parser::new().unwrap();
    let q = parser.parse("SELECT name FROM apples WHERE color = 'Yellow'".to_string());
    assert_eq!(q.condition(&"color".to_string()), Some(&"Yellow".to_string()));
    assert_eq!(q.condition(&"name".to_string()), None);
    let q = Query {
        table_name: "t".to_string(),
        columns_requested: vec![],
        where_clauses: vec![
            ("a".to_string(), "1".to_string()),
            ("b".to_string(), "2".to_string()),
            ("a".to_string(), "3".to_string()),
        ],
    };
    assert_eq!(q.condition(&"a".to_string()), Some(&"3".to_string()));
    assert_eq!(q.condition(&"b".to_string()), Some(&"2".to_string()));
    assert_eq!(q.condition(&"c".to_string()), None);
}
