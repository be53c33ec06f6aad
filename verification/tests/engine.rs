use mini_sql::executor::{Database, ExecOutcome};
use mini_sql::tokenizer::tokenize;
use mini_sql::parser::parse;
use mini_sql::ast::{InsertStatement, UpdateStatement, ColumnValue, Statement};
use mini_sql::value::Value;

fn run(db: &mut Database, input: &str) -> ExecOutcome {
    let ts = tokenize(input).expect("tokenize failed");
    let stmt = parse(&ts).expect("parse failed");
    db.execute(stmt)
}

fn strings(v: &[&str]) -> Vec<String> {
    v.iter().map(|s| s.to_string()).collect()
}

#[test]
fn insert_select_consistency() {
    let mut db = Database::new();
    assert_eq!(run(&mut db, "CREATE TABLE t (a, b)"), ExecOutcome::Created);
    assert_eq!(run(&mut db, "INSERT INTO t VALUES (1, 'x')"), ExecOutcome::Inserted);
    match run(&mut db, "SELECT * FROM t") {
        ExecOutcome::Selected { headers, rows } => {
            assert_eq!(headers, strings(&["a", "b"]));
            assert_eq!(rows, vec![strings(&["1", "x"])]);
        },
        other => panic!("expected a result set, got {:?}", other),
    }
}

#[test]
fn positional_fallback_selects_second_cell() {
    let mut db = Database::new();
    run(&mut db, "INSERT INTO t VALUES (1, 'x')");
    run(&mut db, "INSERT INTO t VALUES (2, 'y')");
    match run(&mut db, "SELECT col1 FROM t") {
        ExecOutcome::Selected { headers, rows } => {
            assert_eq!(headers, strings(&["col1"]));
            assert_eq!(rows, vec![strings(&["x"]), strings(&["y"])]);
        },
        other => panic!("expected a result set, got {:?}", other),
    }
}

#[test]
fn select_star_synthesizes_headers() {
    let mut db = Database::new();
    run(&mut db, "INSERT INTO t VALUES (7, 'z')");
    match run(&mut db, "SELECT * FROM t") {
        ExecOutcome::Selected { headers, rows } => {
            assert_eq!(headers, strings(&["col0", "col1"]));
            assert_eq!(rows, vec![strings(&["7", "z"])]);
        },
        other => panic!("expected a result set, got {:?}", other),
    }
}

#[test]
fn update_scoping() {
    let mut db = Database::new();
    run(&mut db, "CREATE TABLE t (a)");
    run(&mut db, "INSERT INTO t VALUES (1)");
    run(&mut db, "INSERT INTO t VALUES (2)");
    assert_eq!(
        run(&mut db, "UPDATE t SET a = 9 WHERE a = 1"),
        ExecOutcome::Updated { count: 1 }
    );
    match run(&mut db, "SELECT a FROM t") {
        ExecOutcome::Selected { rows, .. } => {
            assert_eq!(rows, vec![strings(&["9"]), strings(&["2"])]);
        },
        other => panic!("expected a result set, got {:?}", other),
    }
    assert_eq!(run(&mut db, "UPDATE t SET a = 5"), ExecOutcome::Updated { count: 2 });
    match run(&mut db, "SELECT a FROM t") {
        ExecOutcome::Selected { rows, .. } => {
            assert_eq!(rows, vec![strings(&["5"]), strings(&["5"])]);
        },
        other => panic!("expected a result set, got {:?}", other),
    }
}

#[test]
fn delete_is_type_sensitive() {
    let mut db = Database::new();
    run(&mut db, "CREATE TABLE t (a)");
    run(&mut db, "INSERT INTO t VALUES (1)");
    run(&mut db, "INSERT INTO t VALUES ('1')");
    run(&mut db, "INSERT INTO t VALUES (2)");
    assert_eq!(
        run(&mut db, "DELETE FROM t WHERE a = 1"),
        ExecOutcome::Deleted { count: 1 }
    );
    assert_eq!(db.tables[0].1.rows.len(), 2);
    assert_eq!(db.tables[0].1.rows[0], vec![Value::Str("1".to_string())]);
    assert_eq!(db.tables[0].1.rows[1], vec![Value::Int(2)]);
}

#[test]
fn delete_empty_condition_removes_nothing() {
    let mut db = Database::new();
    run(&mut db, "CREATE TABLE t (a)");
    run(&mut db, "INSERT INTO t VALUES (1)");
    assert_eq!(run(&mut db, "DELETE FROM t WHERE"), ExecOutcome::NothingToDelete);
    assert_eq!(db.tables[0].1.rows.len(), 1);
}

#[test]
fn missing_table_is_a_no_op() {
    let mut db = Database::new();
    run(&mut db, "CREATE TABLE t (a)");
    run(&mut db, "INSERT INTO t VALUES (1)");
    let before = db.snapshot();
    assert_eq!(run(&mut db, "SELECT * FROM nope"), ExecOutcome::TableNotFound);
    assert_eq!(run(&mut db, "UPDATE nope SET a = 1"), ExecOutcome::TableNotFound);
    assert_eq!(run(&mut db, "DELETE FROM nope WHERE a = 1"), ExecOutcome::TableNotFound);
    assert_eq!(db.snapshot(), before);
}

#[test]
fn create_overwrites_existing_table() {
    let mut db = Database::new();
    run(&mut db, "CREATE TABLE t (a)");
    run(&mut db, "INSERT INTO t VALUES (1)");
    assert_eq!(run(&mut db, "CREATE TABLE t (b, c)"), ExecOutcome::Created);
    assert_eq!(db.tables.len(), 1);
    assert_eq!(db.tables[0].1.columns, strings(&["b", "c"]));
    assert!(db.tables[0].1.rows.is_empty());
}

#[test]
fn insert_rejects_wrong_arity() {
    let mut db = Database::new();
    run(&mut db, "CREATE TABLE t (a, b)");
    assert_eq!(run(&mut db, "INSERT INTO t VALUES (1)"), ExecOutcome::ArityMismatch);
    assert!(db.tables[0].1.rows.is_empty());
}

#[test]
fn insert_rejects_non_storable_values() {
    let mut db = Database::new();
    let stmt = Statement::Insert(InsertStatement {
        table_name: "t".to_string(),
        values: vec![Value::Star],
    });
    assert_eq!(db.execute(stmt), ExecOutcome::InvalidValues);
    assert!(db.tables.is_empty());
}

#[test]
fn update_rejects_non_storable_value() {
    let mut db = Database::new();
    run(&mut db, "CREATE TABLE t (a)");
    run(&mut db, "INSERT INTO t VALUES (1)");
    let stmt = Statement::Update(UpdateStatement {
        table_name: "t".to_string(),
        set_clause: ColumnValue {
            column: "a".to_string(),
            value: Value::Identifier("b".to_string()),
        },
        condition: None,
    });
    assert_eq!(db.execute(stmt), ExecOutcome::InvalidValues);
    assert_eq!(db.tables[0].1.rows[0], vec![Value::Int(1)]);
}

#[test]
fn select_empty_table_is_reported() {
    let mut db = Database::new();
    run(&mut db, "CREATE TABLE t (a)");
    assert_eq!(run(&mut db, "SELECT * FROM t"), ExecOutcome::EmptyTable);
}

#[test]
fn select_unknown_column_falls_back_to_first() {
    let mut db = Database::new();
    run(&mut db, "CREATE TABLE t (a, b)");
    run(&mut db, "INSERT INTO t VALUES (1, 'x')");
    match run(&mut db, "SELECT nosuch FROM t") {
        ExecOutcome::Selected { headers, rows } => {
            assert_eq!(headers, strings(&["nosuch"]));
            assert_eq!(rows, vec![strings(&["1"])]);
        },
        other => panic!("expected a result set, got {:?}", other),
    }
}

#[test]
fn select_out_of_range_position_renders_null() {
    let mut db = Database::new();
    run(&mut db, "CREATE TABLE t (a)");
    run(&mut db, "INSERT INTO t VALUES (1)");
    match run(&mut db, "SELECT col5 FROM t") {
        ExecOutcome::Selected { headers, rows } => {
            assert_eq!(headers, strings(&["col5"]));
            assert_eq!(rows, vec![strings(&["NULL"])]);
        },
        other => panic!("expected a result set, got {:?}", other),
    }
}

#[test]
fn negative_integer_renders_with_sign() {
    let mut db = Database::new();
    let stmt = Statement::Insert(InsertStatement {
        table_name: "t".to_string(),
        values: vec![Value::Int(-5), Value::Int(i32::MIN)],
    });
    assert_eq!(db.execute(stmt), ExecOutcome::Inserted);
    match run(&mut db, "SELECT * FROM t") {
        ExecOutcome::Selected { rows, .. } => {
            assert_eq!(rows, vec![strings(&["-5", "-2147483648"])]);
        },
        other => panic!("expected a result set, got {:?}", other),
    }
}

#[test]
fn update_via_positional_column() {
    let mut db = Database::new();
    run(&mut db, "INSERT INTO t VALUES (1, 2)");
    assert_eq!(
        run(&mut db, "UPDATE t SET col1 = 9"),
        ExecOutcome::Updated { count: 1 }
    );
    assert_eq!(
        db.tables[0].1.rows[0],
        vec![Value::Int(1), Value::Int(9)]
    );
}

#[test]
fn update_condition_on_text_value() {
    let mut db = Database::new();
    run(&mut db, "CREATE TABLE t (name, age)");
    run(&mut db, "INSERT INTO t VALUES ('Alice', 30)");
    run(&mut db, "INSERT INTO t VALUES ('Bob', 40)");
    assert_eq!(
        run(&mut db, "UPDATE t SET age = 31 WHERE name = 'Alice'"),
        ExecOutcome::Updated { count: 1 }
    );
    assert_eq!(
        db.tables[0].1.rows[0],
        vec![Value::Str("Alice".to_string()), Value::Int(31)]
    );
    assert_eq!(
        db.tables[0].1.rows[1],
        vec![Value::Str("Bob".to_string()), Value::Int(40)]
    );
}

#[test]
fn create_with_no_columns_makes_schemaless_table() {
    let mut db = Database::new();
    assert_eq!(run(&mut db, "CREATE TABLE t ()"), ExecOutcome::Created);
    assert!(db.tables[0].1.columns.is_empty());
    assert_eq!(run(&mut db, "INSERT INTO t VALUES (1, 2, 3)"), ExecOutcome::Inserted);
    assert_eq!(db.tables[0].1.rows[0].len(), 3);
}

#[test]
fn duplicate_column_names_resolve_to_first() {
    let mut db = Database::new();
    run(&mut db, "CREATE TABLE t (a, a)");
    run(&mut db, "INSERT INTO t VALUES (1, 2)");
    match run(&mut db, "SELECT a FROM t") {
        ExecOutcome::Selected { rows, .. } => {
            assert_eq!(rows, vec![strings(&["1"])]);
        },
        other => panic!("expected a result set, got {:?}", other),
    }
}

#[test]
fn tables_are_kept_apart() {
    let mut db = Database::new();
    run(&mut db, "CREATE TABLE t (a)");
    run(&mut db, "CREATE TABLE u (a)");
    run(&mut db, "INSERT INTO t VALUES (1)");
    run(&mut db, "INSERT INTO u VALUES (2)");
    assert_eq!(run(&mut db, "DELETE FROM t WHERE a = 1"), ExecOutcome::Deleted { count: 1 });
    assert!(db.tables[0].1.rows.is_empty());
    assert_eq!(db.tables[1].1.rows.len(), 1);
}

#[test]
fn update_count_counts_only_written_rows() {
    let mut db = Database::new();
    run(&mut db, "INSERT INTO t VALUES (1)");
    run(&mut db, "INSERT INTO t VALUES (1, 2)");
    assert_eq!(
        run(&mut db, "UPDATE t SET col1 = 9 WHERE col0 = 1"),
        ExecOutcome::Updated { count: 1 }
    );
    assert_eq!(db.tables[0].1.rows[0], vec![Value::Int(1)]);
    assert_eq!(db.tables[0].1.rows[1], vec![Value::Int(1), Value::Int(9)]);
}
