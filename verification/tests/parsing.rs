use mini_sql::tokenizer::{tokenize, Token, TokenizeError};
use mini_sql::parser::{parse, parse_create, parse_delete, parse_insert, parse_select, parse_update};
use mini_sql::ast::{ParseError, Statement};
use mini_sql::value::Value;

fn toks(input: &str) -> Vec<Token> {
    tokenize(input).expect("tokenize failed")
}

#[test]
fn tokenize_punctuation_and_keywords() {
    let ts = toks("SELECT * FROM t;");
    assert_eq!(
        ts,
        vec![
            Token::Select,
            Token::Star,
            Token::From,
            Token::Identifier("t".to_string()),
            Token::Semicolon,
        ]
    );
}

#[test]
fn tokenize_keywords_case_insensitive() {
    let ts = toks("select InSeRt wHeRe set");
    assert_eq!(ts, vec![Token::Select, Token::Insert, Token::Where, Token::SetKw]);
}

#[test]
fn tokenize_identifier_preserves_case() {
    let ts = toks("MyTable _x9");
    assert_eq!(
        ts,
        vec![
            Token::Identifier("MyTable".to_string()),
            Token::Identifier("_x9".to_string()),
        ]
    );
}

#[test]
fn tokenize_string_literal() {
    let ts = toks("'hello world'");
    assert_eq!(ts, vec![Token::String("hello world".to_string())]);
}

#[test]
fn tokenize_unterminated_string_consumes_rest() {
    let ts = toks("'abc");
    assert_eq!(ts, vec![Token::String("abc".to_string())]);
}

#[test]
fn tokenize_integer() {
    let ts = toks("0 42 2147483647");
    assert_eq!(ts, vec![Token::Int(0), Token::Int(42), Token::Int(2147483647)]);
}

#[test]
fn tokenize_integer_overflow_is_error() {
    assert_eq!(tokenize("2147483648"), Err(TokenizeError::IntegerOutOfRange));
    assert_eq!(tokenize("99999999999999999999999"), Err(TokenizeError::IntegerOutOfRange));
}

#[test]
fn tokenize_leading_zeros_ok() {
    let ts = toks("0000000001");
    assert_eq!(ts, vec![Token::Int(1)]);
}

#[test]
fn tokenize_unexpected_character() {
    assert_eq!(tokenize("a @ b"), Err(TokenizeError::UnexpectedCharacter('@')));
}

#[test]
fn parse_create_ok() {
    let r = parse(&toks("CREATE TABLE t (a, b);")).unwrap();
    match r {
        Statement::Create(c) => {
            assert_eq!(c.table_name, "t");
            assert_eq!(c.columns, vec!["a".to_string(), "b".to_string()]);
        },
        other => panic!("expected create, got {:?}", other),
    }
}

#[test]
fn parse_create_errors() {
    assert_eq!(parse_create(&toks("SELECT")), Err(ParseError::ExpectedCreate));
    assert_eq!(parse(&toks("CREATE x")), Err(ParseError::ExpectedTableKeyword));
    assert_eq!(parse(&toks("CREATE TABLE")), Err(ParseError::ExpectedTableName));
    assert_eq!(parse(&toks("CREATE TABLE t")), Err(ParseError::ExpectedLeftParen));
    assert_eq!(parse(&toks("CREATE TABLE t (a")), Err(ParseError::UnexpectedEndInColumns));
    assert_eq!(parse(&toks("CREATE TABLE t (1)")), Err(ParseError::UnexpectedTokenInColumns));
}

#[test]
fn parse_insert_ok() {
    let r = parse(&toks("INSERT INTO t VALUES (1, 'x');")).unwrap();
    match r {
        Statement::Insert(i) => {
            assert_eq!(i.table_name, "t");
            assert_eq!(i.values, vec![Value::Int(1), Value::Str("x".to_string())]);
        },
        other => panic!("expected insert, got {:?}", other),
    }
}

#[test]
fn parse_insert_errors() {
    assert_eq!(parse_insert(&toks("SELECT")), Err(ParseError::ExpectedInsert));
    assert_eq!(parse(&toks("INSERT x")), Err(ParseError::ExpectedInto));
    assert_eq!(parse(&toks("INSERT INTO")), Err(ParseError::ExpectedTableName));
    assert_eq!(parse(&toks("INSERT INTO t")), Err(ParseError::ExpectedValuesKeyword));
    assert_eq!(parse(&toks("INSERT INTO t VALUES")), Err(ParseError::ExpectedLeftParen));
    assert_eq!(parse(&toks("INSERT INTO t VALUES (a)")), Err(ParseError::UnexpectedTokenInValues));
    assert_eq!(parse(&toks("INSERT INTO t VALUES (1,")), Err(ParseError::UnexpectedEndInValues));
}

#[test]
fn parse_select_ok() {
    let r = parse(&toks("SELECT a, b FROM t;")).unwrap();
    match r {
        Statement::Select(s) => {
            assert_eq!(s.table_name, "t");
            assert_eq!(
                s.values,
                vec![
                    Value::Identifier("a".to_string()),
                    Value::Identifier("b".to_string()),
                ]
            );
        },
        other => panic!("expected select, got {:?}", other),
    }
}

#[test]
fn parse_select_star() {
    let r = parse(&toks("SELECT * FROM t")).unwrap();
    match r {
        Statement::Select(s) => {
            assert_eq!(s.values, vec![Value::Star]);
        },
        other => panic!("expected select, got {:?}", other),
    }
}

#[test]
fn parse_select_errors() {
    assert_eq!(parse_select(&toks("CREATE")), Err(ParseError::ExpectedSelect));
    assert_eq!(parse(&toks("SELECT a")), Err(ParseError::UnexpectedEndInProjection));
    assert_eq!(parse(&toks("SELECT 1 FROM t")), Err(ParseError::UnexpectedTokenInProjection));
    assert_eq!(parse(&toks("SELECT a FROM")), Err(ParseError::ExpectedTableName));
}

#[test]
fn parse_delete_ok() {
    let r = parse(&toks("DELETE FROM t WHERE a = 1;")).unwrap();
    match r {
        Statement::Delete(d) => {
            assert_eq!(d.table_name, "t");
            let cond = d.condition.expect("condition expected");
            assert_eq!(cond.column, "a");
            assert_eq!(cond.value, Value::Int(1));
        },
        other => panic!("expected delete, got {:?}", other),
    }
}

#[test]
fn parse_delete_missing_where_is_error() {
    assert_eq!(parse(&toks("DELETE FROM t")), Err(ParseError::ExpectedWhere));
    assert_eq!(parse(&toks("DELETE FROM t;")), Err(ParseError::ExpectedWhere));
}

#[test]
fn parse_delete_empty_condition() {
    let r = parse(&toks("DELETE FROM t WHERE;")).unwrap();
    match r {
        Statement::Delete(d) => assert!(d.condition.is_none()),
        other => panic!("expected delete, got {:?}", other),
    }
}

#[test]
fn parse_delete_errors() {
    assert_eq!(parse_delete(&toks("SELECT")), Err(ParseError::ExpectedDelete));
    assert_eq!(parse(&toks("DELETE x")), Err(ParseError::ExpectedFrom));
    assert_eq!(parse(&toks("DELETE FROM WHERE")), Err(ParseError::ExpectedTableName));
    assert_eq!(parse(&toks("DELETE FROM t WHERE a 1")), Err(ParseError::ExpectedEquals));
    assert_eq!(parse(&toks("DELETE FROM t WHERE a =")), Err(ParseError::ExpectedValue));
    assert_eq!(parse(&toks("DELETE FROM t WHERE = 1")), Err(ParseError::ExpectedColumnName));
}

#[test]
fn parse_update_with_condition() {
    let r = parse(&toks("UPDATE t SET a = 9 WHERE b = 'x';")).unwrap();
    match r {
        Statement::Update(u) => {
            assert_eq!(u.table_name, "t");
            assert_eq!(u.set_clause.column, "a");
            assert_eq!(u.set_clause.value, Value::Int(9));
            let cond = u.condition.expect("condition expected");
            assert_eq!(cond.column, "b");
            assert_eq!(cond.value, Value::Str("x".to_string()));
        },
        other => panic!("expected update, got {:?}", other),
    }
}

#[test]
fn parse_update_without_condition() {
    let r = parse(&toks("UPDATE t SET a = 9;")).unwrap();
    match r {
        Statement::Update(u) => {
            assert!(u.condition.is_none());
        },
        other => panic!("expected update, got {:?}", other),
    }
}

#[test]
fn parse_update_bare_word_value_is_text() {
    let r = parse(&toks("UPDATE t SET a = hello")).unwrap();
    match r {
        Statement::Update(u) => {
            assert_eq!(u.set_clause.value, Value::Str("hello".to_string()));
        },
        other => panic!("expected update, got {:?}", other),
    }
}

#[test]
fn parse_update_errors() {
    assert_eq!(parse_update(&toks("SELECT")), Err(ParseError::ExpectedUpdate));
    assert_eq!(parse(&toks("UPDATE")), Err(ParseError::ExpectedTableName));
    assert_eq!(parse(&toks("UPDATE t")), Err(ParseError::ExpectedSetKeyword));
    assert_eq!(parse(&toks("UPDATE t SET")), Err(ParseError::ExpectedColumnName));
    assert_eq!(parse(&toks("UPDATE t SET a")), Err(ParseError::ExpectedEquals));
    assert_eq!(parse(&toks("UPDATE t SET a =")), Err(ParseError::ExpectedValue));
    assert_eq!(parse(&toks("UPDATE t SET a = 1 2")), Err(ParseError::UnexpectedTokenInSetClause));
}

#[test]
fn parse_unsupported_statement() {
    assert_eq!(parse(&toks("foo bar")), Err(ParseError::UnsupportedStatement));
    assert_eq!(parse(&Vec::new()), Err(ParseError::UnsupportedStatement));
}

#[test]
fn parse_error_description_mentions_expectation() {
    assert_eq!(ParseError::ExpectedCreate.describe(), "Expected 'CREATE'");
    assert_eq!(
        ParseError::UnsupportedStatement.describe(),
        "Unknown or unsupported statement"
    );
}

#[test]
fn tokenize_empty_input() {
    assert_eq!(tokenize(""), Ok(Vec::new()));
    assert_eq!(tokenize("   \t\n"), Ok(Vec::new()));
}

#[test]
fn parse_ignores_tokens_after_semicolon() {
    let r = parse(&toks("CREATE TABLE t (a); nonsense here")).unwrap();
    assert!(matches!(r, Statement::Create(_)));
}

#[test]
fn parse_update_condition_after_where_may_be_empty() {
    let r = parse(&toks("UPDATE t SET a = 1 WHERE ;")).unwrap();
    match r {
        Statement::Update(u) => assert!(u.condition.is_none()),
        other => panic!("expected update, got {:?}", other),
    }
}
