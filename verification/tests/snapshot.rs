use mini_sql::executor::Database;
use mini_sql::tokenizer::tokenize;
use mini_sql::parser::parse;
use mini_sql::render::render_table;

fn run(db: &mut Database, input: &str) {
    let ts = tokenize(input).expect("tokenize failed");
    let stmt = parse(&ts).expect("parse failed");
    db.execute(stmt);
}

#[test]
fn snapshot_round_trip() {
    let mut db = Database::new();
    run(&mut db, "CREATE TABLE people (name, age)");
    run(&mut db, "INSERT INTO people VALUES ('Alice', 30)");
    let negative = mini_sql::ast::Statement::Insert(mini_sql::ast::InsertStatement {
        table_name: "people".to_string(),
        values: vec![
            mini_sql::value::Value::Str("Bob".to_string()),
            mini_sql::value::Value::Int(-2),
        ],
    });
    db.execute(negative);
    run(&mut db, "CREATE TABLE notes (body)");
    run(&mut db, "INSERT INTO notes VALUES ('déjà vu ✓')");
    let bytes = db.snapshot();
    let restored = Database::restore(&bytes);
    assert_eq!(restored, db);
}

#[test]
fn snapshot_round_trip_empty_database() {
    let db = Database::new();
    let restored = Database::restore(&db.snapshot());
    assert!(restored.tables.is_empty());
}

#[test]
fn snapshot_round_trip_schemaless_table() {
    let mut db = Database::new();
    run(&mut db, "INSERT INTO t VALUES (1)");
    run(&mut db, "INSERT INTO t VALUES (2, 'two')");
    let restored = Database::restore(&db.snapshot());
    assert_eq!(restored, db);
}

#[test]
fn restore_of_garbage_yields_empty_database() {
    let garbage: Vec<u8> = vec![9, 8, 7, 6, 5];
    let db = Database::restore(&garbage);
    assert!(db.tables.is_empty());
}

#[test]
fn restore_of_truncated_snapshot_yields_empty_database() {
    let mut db = Database::new();
    run(&mut db, "CREATE TABLE t (a)");
    run(&mut db, "INSERT INTO t VALUES (1)");
    let mut bytes = db.snapshot();
    bytes.pop();
    let restored = Database::restore(&bytes);
    assert!(restored.tables.is_empty());
}

#[test]
fn restore_of_empty_buffer_yields_empty_database() {
    let restored = Database::restore(&Vec::new());
    assert!(restored.tables.is_empty());
}

#[test]
fn snapshot_changes_when_data_changes() {
    let mut db = Database::new();
    run(&mut db, "CREATE TABLE t (a)");
    let before = db.snapshot();
    run(&mut db, "INSERT INTO t VALUES (1)");
    assert_ne!(db.snapshot(), before);
}

#[test]
fn render_table_exact_layout() {
    let headers = vec!["a".to_string(), "bb".to_string()];
    let rows = vec![vec!["1".to_string(), "x".to_string()]];
    let lines = render_table(&headers, &rows);
    assert_eq!(
        lines,
        vec![
            "+---+----+".to_string(),
            "| a | bb |".to_string(),
            "+---+----+".to_string(),
            "| 1 | x  |".to_string(),
            "+---+----+".to_string(),
        ]
    );
}

#[test]
fn render_table_widens_to_largest_cell() {
    let headers = vec!["a".to_string()];
    let rows = vec![vec!["wide".to_string()], vec!["x".to_string()]];
    let lines = render_table(&headers, &rows);
    assert_eq!(
        lines,
        vec![
            "+------+".to_string(),
            "| a    |".to_string(),
            "+------+".to_string(),
            "| wide |".to_string(),
            "| x    |".to_string(),
            "+------+".to_string(),
        ]
    );
}

#[test]
fn render_table_short_row_prints_fewer_cells() {
    let headers = vec!["a".to_string(), "b".to_string()];
    let rows = vec![vec!["1".to_string()]];
    let lines = render_table(&headers, &rows);
    assert_eq!(
        lines,
        vec![
            "+---+---+".to_string(),
            "| a | b |".to_string(),
            "+---+---+".to_string(),
            "| 1 |".to_string(),
            "+---+---+".to_string(),
        ]
    );
}

#[test]
fn decimal_rendering_exact() {
    assert_eq!(mini_sql::digits::u64_to_string(0), "0");
    assert_eq!(mini_sql::digits::u64_to_string(907), "907");
    assert_eq!(mini_sql::digits::i32_to_string(-1), "-1");
    assert_eq!(mini_sql::digits::i32_to_string(i32::MAX), "2147483647");
    assert_eq!(mini_sql::digits::i32_to_string(i32::MIN), "-2147483648");
}

#[test]
fn case_insensitive_comparison() {
    assert!(mini_sql::text::str_eq_ignore_case("TaBlE", "table"));
    assert!(!mini_sql::text::str_eq_ignore_case("table", "tables"));
    assert!(!mini_sql::text::str_eq_ignore_case("table", "tible"));
}
