//! The parser: a token sequence to a typed statement, by recursive descent.
//! Dispatch is on the first token; each statement form is consumed left to
//! right with no lookahead.  Tokens after a completed statement (behind an
//! optional trailing semicolon) are ignored.

use vstd::prelude::*;
use crate::tokenizer::{Token, SpecToken};
use crate::value::{Value, SpecValue};
use crate::ast::{
    ColumnValue, SpecColumnValue, InsertStatement, SelectStatement, CreateTableStatement,
    DeleteStatement, UpdateStatement, SpecInsertStatement, SpecSelectStatement,
    SpecCreateTableStatement, SpecDeleteStatement, SpecUpdateStatement, Statement, SpecStatement,
    ParseError,
};

verus! {

/// The model of a parse result.
pub open spec fn parse_result_view(r: Result<Statement, ParseError>) -> Result<
    SpecStatement,
    ParseError,
> {
    match r {
        Ok(stmt) => Ok(stmt@),
        Err(e) => Err(e),
    }
}

/// The identifier token for the keyword `TABLE`, case-insensitively (it is
/// not part of the tokenizer's keyword set).
pub open spec fn is_table_keyword(t: SpecToken) -> bool {
    t matches SpecToken::Identifier(w) && crate::text::eq_ignore_ascii_case(w, "TABLE"@)
}

/// The column list of a CREATE statement, from position `i` to the closing
/// parenthesis; commas are separators.  Returns the columns and the position
/// after the closing parenthesis.
pub open spec fn spec_parse_cols(t: Seq<SpecToken>, i: int, acc: Seq<Seq<char>>) -> Result<
    (Seq<Seq<char>>, int),
    ParseError,
>
    decreases t.len() - i,
    when 0 <= i
{
    if i >= t.len() {
        Err(ParseError::UnexpectedEndInColumns)
    } else {
        match t[i] {
            SpecToken::Identifier(c) => spec_parse_cols(t, i + 1, acc.push(c)),
            SpecToken::Comma => spec_parse_cols(t, i + 1, acc),
            SpecToken::RightParen => Ok((acc, i + 1)),
            _ => Err(ParseError::UnexpectedTokenInColumns),
        }
    }
}

/// The literal list of an INSERT statement, from position `i` to the closing
/// parenthesis.
pub open spec fn spec_parse_vals(t: Seq<SpecToken>, i: int, acc: Seq<SpecValue>) -> Result<
    (Seq<SpecValue>, int),
    ParseError,
>
    decreases t.len() - i,
    when 0 <= i
{
    if i >= t.len() {
        Err(ParseError::UnexpectedEndInValues)
    } else {
        match t[i] {
            SpecToken::Int(v) => spec_parse_vals(t, i + 1, acc.push(SpecValue::Int(v))),
            SpecToken::String(s) => spec_parse_vals(t, i + 1, acc.push(SpecValue::Str(s))),
            SpecToken::Comma => spec_parse_vals(t, i + 1, acc),
            SpecToken::RightParen => Ok((acc, i + 1)),
            _ => Err(ParseError::UnexpectedTokenInValues),
        }
    }
}

/// The projection list of a SELECT statement, from position `i` to the FROM
/// keyword.
pub open spec fn spec_parse_projection(t: Seq<SpecToken>, i: int, acc: Seq<SpecValue>) -> Result<
    (Seq<SpecValue>, int),
    ParseError,
>
    decreases t.len() - i,
    when 0 <= i
{
    if i >= t.len() {
        Err(ParseError::UnexpectedEndInProjection)
    } else {
        match t[i] {
            SpecToken::Star => spec_parse_projection(t, i + 1, acc.push(SpecValue::Star)),
            SpecToken::Identifier(n) => spec_parse_projection(
                t,
                i + 1,
                acc.push(SpecValue::Identifier(n)),
            ),
            SpecToken::Comma => spec_parse_projection(t, i + 1, acc),
            SpecToken::From => Ok((acc, i + 1)),
            _ => Err(ParseError::UnexpectedTokenInProjection),
        }
    }
}

/// A `column = literal` condition starting at position `i`; an absent or
/// immediately terminated condition is the empty condition.  A bare
/// identifier on the right-hand side is taken as text.
pub open spec fn spec_parse_condition(t: Seq<SpecToken>, i: int) -> Result<
    Option<SpecColumnValue>,
    ParseError,
> {
    if i >= t.len() || t[i] is Semicolon {
        Ok(None)
    } else if t[i] is Identifier {
        let col = t[i]->Identifier_0;
        if i + 1 >= t.len() || !(t[i + 1] is Equals) {
            Err(ParseError::ExpectedEquals)
        } else if i + 2 >= t.len() {
            Err(ParseError::ExpectedValue)
        } else {
            match t[i + 2] {
                SpecToken::Int(v) => Ok(
                    Some(SpecColumnValue { column: col, value: SpecValue::Int(v) }),
                ),
                SpecToken::String(s) => Ok(
                    Some(SpecColumnValue { column: col, value: SpecValue::Str(s) }),
                ),
                SpecToken::Identifier(w) => Ok(
                    Some(SpecColumnValue { column: col, value: SpecValue::Str(w) }),
                ),
                _ => Err(ParseError::ExpectedValue),
            }
        }
    } else {
        Err(ParseError::ExpectedColumnName)
    }
}

/// `CREATE TABLE <name> ( <col> (, <col>)* ) [;]`.
pub open spec fn spec_parse_create(t: Seq<SpecToken>) -> Result<SpecStatement, ParseError> {
    if t.len() < 1 || !(t[0] is Create) {
        Err(ParseError::ExpectedCreate)
    } else if t.len() < 2 || !is_table_keyword(t[1]) {
        Err(ParseError::ExpectedTableKeyword)
    } else if t.len() < 3 || !(t[2] is Identifier) {
        Err(ParseError::ExpectedTableName)
    } else if t.len() < 4 || !(t[3] is LeftParen) {
        Err(ParseError::ExpectedLeftParen)
    } else {
        match spec_parse_cols(t, 4, Seq::empty()) {
            Ok((cols, _)) => Ok(
                SpecStatement::Create(
                    SpecCreateTableStatement { table_name: t[2]->Identifier_0, columns: cols },
                ),
            ),
            Err(e) => Err(e),
        }
    }
}

/// `INSERT INTO <name> VALUES ( <literal> (, <literal>)* ) [;]`.
pub open spec fn spec_parse_insert(t: Seq<SpecToken>) -> Result<SpecStatement, ParseError> {
    if t.len() < 1 || !(t[0] is Insert) {
        Err(ParseError::ExpectedInsert)
    } else if t.len() < 2 || !(t[1] is Into) {
        Err(ParseError::ExpectedInto)
    } else if t.len() < 3 || !(t[2] is Identifier) {
        Err(ParseError::ExpectedTableName)
    } else if t.len() < 4 || !(t[3] is Values) {
        Err(ParseError::ExpectedValuesKeyword)
    } else if t.len() < 5 || !(t[4] is LeftParen) {
        Err(ParseError::ExpectedLeftParen)
    } else {
        match spec_parse_vals(t, 5, Seq::empty()) {
            Ok((vals, _)) => Ok(
                SpecStatement::Insert(
                    SpecInsertStatement { table_name: t[2]->Identifier_0, values: vals },
                ),
            ),
            Err(e) => Err(e),
        }
    }
}

/// `SELECT (* | <ident> (, <ident>)*) FROM <name> [;]`.
pub open spec fn spec_parse_select(t: Seq<SpecToken>) -> Result<SpecStatement, ParseError> {
    if t.len() < 1 || !(t[0] is Select) {
        Err(ParseError::ExpectedSelect)
    } else {
        match spec_parse_projection(t, 1, Seq::empty()) {
            Ok((vals, i)) => if i >= t.len() || !(t[i] is Identifier) {
                Err(ParseError::ExpectedTableName)
            } else {
                Ok(
                    SpecStatement::Select(
                        SpecSelectStatement { table_name: t[i]->Identifier_0, values: vals },
                    ),
                )
            },
            Err(e) => Err(e),
        }
    }
}

/// `DELETE FROM <name> WHERE <condition> [;]`; the WHERE keyword itself is
/// required, though the condition after it may be empty.
pub open spec fn spec_parse_delete(t: Seq<SpecToken>) -> Result<SpecStatement, ParseError> {
    if t.len() < 1 || !(t[0] is Delete) {
        Err(ParseError::ExpectedDelete)
    } else if t.len() < 2 || !(t[1] is From) {
        Err(ParseError::ExpectedFrom)
    } else if t.len() < 3 || !(t[2] is Identifier) {
        Err(ParseError::ExpectedTableName)
    } else if t.len() < 4 || !(t[3] is Where) {
        Err(ParseError::ExpectedWhere)
    } else {
        match spec_parse_condition(t, 4) {
            Ok(cond) => Ok(
                SpecStatement::Delete(
                    SpecDeleteStatement { table_name: t[2]->Identifier_0, condition: cond },
                ),
            ),
            Err(e) => Err(e),
        }
    }
}

/// `UPDATE <name> SET <col> = <literal> [WHERE <condition>] [;]`.
pub open spec fn spec_parse_update(t: Seq<SpecToken>) -> Result<SpecStatement, ParseError> {
    if t.len() < 1 || !(t[0] is Update) {
        Err(ParseError::ExpectedUpdate)
    } else if t.len() < 2 || !(t[1] is Identifier) {
        Err(ParseError::ExpectedTableName)
    } else if t.len() < 3 || !(t[2] is SetKw) {
        Err(ParseError::ExpectedSetKeyword)
    } else if t.len() < 4 || !(t[3] is Identifier) {
        Err(ParseError::ExpectedColumnName)
    } else if t.len() < 5 || !(t[4] is Equals) {
        Err(ParseError::ExpectedEquals)
    } else if t.len() < 6 {
        Err(ParseError::ExpectedValue)
    } else {
        let set_value = match t[5] {
            SpecToken::Int(v) => Some(SpecValue::Int(v)),
            SpecToken::String(s) => Some(SpecValue::Str(s)),
            SpecToken::Identifier(w) => Some(SpecValue::Str(w)),
            _ => None,
        };
        match set_value {
            None => Err(ParseError::ExpectedValue),
            Some(sv) => {
                let set_clause = SpecColumnValue { column: t[3]->Identifier_0, value: sv };
                if 6 >= t.len() || t[6] is Semicolon {
                    Ok(
                        SpecStatement::Update(
                            SpecUpdateStatement {
                                table_name: t[1]->Identifier_0,
                                set_clause: set_clause,
                                condition: None,
                            },
                        ),
                    )
                } else if t[6] is Where {
                    match spec_parse_condition(t, 7) {
                        Ok(cond) => Ok(
                            SpecStatement::Update(
                                SpecUpdateStatement {
                                    table_name: t[1]->Identifier_0,
                                    set_clause: set_clause,
                                    condition: cond,
                                },
                            ),
                        ),
                        Err(e) => Err(e),
                    }
                } else {
                    Err(ParseError::UnexpectedTokenInSetClause)
                }
            },
        }
    }
}

/// Dispatch on the first token.
pub open spec fn spec_parse(t: Seq<SpecToken>) -> Result<SpecStatement, ParseError> {
    if t.len() == 0 {
        Err(ParseError::UnsupportedStatement)
    } else {
        match t[0] {
            SpecToken::Insert => spec_parse_insert(t),
            SpecToken::Select => spec_parse_select(t),
            SpecToken::Create => spec_parse_create(t),
            SpecToken::Delete => spec_parse_delete(t),
            SpecToken::Update => spec_parse_update(t),
            _ => Err(ParseError::UnsupportedStatement),
        }
    }
}

/// Parses one statement, matching `spec_parse`.
pub fn parse(tokens: &Vec<Token>) -> (r: Result<Statement, ParseError>)
    ensures
        parse_result_view(r) == spec_parse(tokens.deep_view()),
{
    if tokens.len() == 0 {
        return Err(ParseError::UnsupportedStatement);
    }
    match &tokens[0] {
        Token::Insert => parse_insert(tokens),
        Token::Select => parse_select(tokens),
        Token::Create => parse_create(tokens),
        Token::Delete => parse_delete(tokens),
        Token::Update => parse_update(tokens),
        _ => Err(ParseError::UnsupportedStatement),
    }
}

/// Parses a CREATE statement, matching `spec_parse_create`.
#[verifier::loop_isolation(false)]
pub fn parse_create(tokens: &Vec<Token>) -> (r: Result<Statement, ParseError>)
    ensures
        parse_result_view(r) == spec_parse_create(tokens.deep_view()),
{
    let ghost t = tokens.deep_view();
    let n = tokens.len();
    if n < 1 || !matches!(&tokens[0], Token::Create) {
        return Err(ParseError::ExpectedCreate);
    }
    if n < 2 {
        return Err(ParseError::ExpectedTableKeyword);
    }
    let table_kw = match &tokens[1] {
        Token::Identifier(w) => w,
        _ => return Err(ParseError::ExpectedTableKeyword),
    };
    if !crate::text::str_eq_ignore_case(table_kw.as_str(), "TABLE") {
        return Err(ParseError::ExpectedTableKeyword);
    }
    if n < 3 {
        return Err(ParseError::ExpectedTableName);
    }
    let table_name = match &tokens[2] {
        Token::Identifier(name) => name.clone(),
        _ => return Err(ParseError::ExpectedTableName),
    };
    if n < 4 || !matches!(&tokens[3], Token::LeftParen) {
        return Err(ParseError::ExpectedLeftParen);
    }
    let mut columns: Vec<String> = Vec::new();
    assert(columns.deep_view() =~= Seq::<Seq<char>>::empty());
    let mut i: usize = 4;
    while i < n
        invariant
            n == t.len(),
            t == tokens.deep_view(),
            4 <= i <= n,
            spec_parse_cols(t, i as int, columns.deep_view()) == spec_parse_cols(
                t,
                4,
                Seq::empty(),
            ),
            table_name@ == t[2]->Identifier_0,
        decreases n - i,
    {
        let ghost dv0 = columns.deep_view();
        match &tokens[i] {
            Token::Identifier(c) => {
                columns.push(c.clone());
                assert(columns.deep_view() =~= dv0.push(c@));
                i += 1;
            },
            Token::Comma => {
                i += 1;
            },
            Token::RightParen => {
                return Ok(
                    Statement::Create(CreateTableStatement { table_name, columns }),
                );
            },
            _ => {
                return Err(ParseError::UnexpectedTokenInColumns);
            },
        }
    }
    Err(ParseError::UnexpectedEndInColumns)
}

/// Parses an INSERT statement, matching `spec_parse_insert`.
#[verifier::loop_isolation(false)]
pub fn parse_insert(tokens: &Vec<Token>) -> (r: Result<Statement, ParseError>)
    ensures
        parse_result_view(r) == spec_parse_insert(tokens.deep_view()),
{
    let ghost t = tokens.deep_view();
    let n = tokens.len();
    if n < 1 || !matches!(&tokens[0], Token::Insert) {
        return Err(ParseError::ExpectedInsert);
    }
    if n < 2 || !matches!(&tokens[1], Token::Into) {
        return Err(ParseError::ExpectedInto);
    }
    if n < 3 {
        return Err(ParseError::ExpectedTableName);
    }
    let table_name = match &tokens[2] {
        Token::Identifier(name) => name.clone(),
        _ => return Err(ParseError::ExpectedTableName),
    };
    if n < 4 || !matches!(&tokens[3], Token::Values) {
        return Err(ParseError::ExpectedValuesKeyword);
    }
    if n < 5 || !matches!(&tokens[4], Token::LeftParen) {
        return Err(ParseError::ExpectedLeftParen);
    }
    let mut values: Vec<Value> = Vec::new();
    assert(values.deep_view() =~= Seq::<SpecValue>::empty());
    let mut i: usize = 5;
    while i < n
        invariant
            n == t.len(),
            t == tokens.deep_view(),
            5 <= i <= n,
            spec_parse_vals(t, i as int, values.deep_view()) == spec_parse_vals(
                t,
                5,
                Seq::empty(),
            ),
            table_name@ == t[2]->Identifier_0,
        decreases n - i,
    {
        let ghost dv0 = values.deep_view();
        match &tokens[i] {
            Token::Int(v) => {
                values.push(Value::Int(*v));
                assert(values.deep_view() =~= dv0.push(SpecValue::Int(*v as int)));
                i += 1;
            },
            Token::String(s) => {
                values.push(Value::Str(s.clone()));
                assert(values.deep_view() =~= dv0.push(SpecValue::Str(s@)));
                i += 1;
            },
            Token::Comma => {
                i += 1;
            },
            Token::RightParen => {
                return Ok(Statement::Insert(InsertStatement { table_name, values }));
            },
            _ => {
                return Err(ParseError::UnexpectedTokenInValues);
            },
        }
    }
    Err(ParseError::UnexpectedEndInValues)
}

/// Parses a SELECT statement, matching `spec_parse_select`.
#[verifier::loop_isolation(false)]
pub fn parse_select(tokens: &Vec<Token>) -> (r: Result<Statement, ParseError>)
    ensures
        parse_result_view(r) == spec_parse_select(tokens.deep_view()),
{
    let ghost t = tokens.deep_view();
    let n = tokens.len();
    if n < 1 || !matches!(&tokens[0], Token::Select) {
        return Err(ParseError::ExpectedSelect);
    }
    let mut values: Vec<Value> = Vec::new();
    assert(values.deep_view() =~= Seq::<SpecValue>::empty());
    let mut i: usize = 1;
    while i < n
        invariant
            n == t.len(),
            t == tokens.deep_view(),
            1 <= i <= n,
            spec_parse_projection(t, i as int, values.deep_view()) == spec_parse_projection(
                t,
                1,
                Seq::empty(),
            ),
        decreases n - i,
    {
        let ghost dv0 = values.deep_view();
        match &tokens[i] {
            Token::Star => {
                values.push(Value::Star);
                assert(values.deep_view() =~= dv0.push(SpecValue::Star));
                i += 1;
            },
            Token::Identifier(name) => {
                values.push(Value::Identifier(name.clone()));
                assert(values.deep_view() =~= dv0.push(SpecValue::Identifier(name@)));
                i += 1;
            },
            Token::Comma => {
                i += 1;
            },
            Token::From => {
                i += 1;
                let table_name = if i < n {
                    match &tokens[i] {
                        Token::Identifier(name) => name.clone(),
                        _ => return Err(ParseError::ExpectedTableName),
                    }
                } else {
                    return Err(ParseError::ExpectedTableName);
                };
                return Ok(Statement::Select(SelectStatement { table_name, values }));
            },
            _ => {
                return Err(ParseError::UnexpectedTokenInProjection);
            },
        }
    }
    Err(ParseError::UnexpectedEndInProjection)
}

/// Parses the optional `column = literal` condition at position `i`,
/// matching `spec_parse_condition`.
fn parse_condition(tokens: &Vec<Token>, i: usize) -> (r: Result<
    Option<ColumnValue>,
    ParseError,
>)
    ensures
        match r {
            Ok(cond) => spec_parse_condition(tokens.deep_view(), i as int) == Ok::<
                Option<SpecColumnValue>,
                ParseError,
            >(cond.deep_view()),
            Err(e) => spec_parse_condition(tokens.deep_view(), i as int) == Err::<
                Option<SpecColumnValue>,
                ParseError,
            >(e),
        },
{
    let n = tokens.len();
    if i >= n || matches!(&tokens[i], Token::Semicolon) {
        return Ok(None);
    }
    let column = match &tokens[i] {
        Token::Identifier(c) => c.clone(),
        _ => return Err(ParseError::ExpectedColumnName),
    };
    if i + 1 >= n || !matches!(&tokens[i + 1], Token::Equals) {
        return Err(ParseError::ExpectedEquals);
    }
    if i + 2 >= n {
        return Err(ParseError::ExpectedValue);
    }
    let value = match &tokens[i + 2] {
        Token::Int(v) => Value::Int(*v),
        Token::String(s) => Value::Str(s.clone()),
        Token::Identifier(w) => Value::Str(w.clone()),
        _ => return Err(ParseError::ExpectedValue),
    };
    Ok(Some(ColumnValue { column, value }))
}

/// Parses a DELETE statement, matching `spec_parse_delete`.
pub fn parse_delete(tokens: &Vec<Token>) -> (r: Result<Statement, ParseError>)
    ensures
        parse_result_view(r) == spec_parse_delete(tokens.deep_view()),
{
    let n = tokens.len();
    if n < 1 || !matches!(&tokens[0], Token::Delete) {
        return Err(ParseError::ExpectedDelete);
    }
    if n < 2 || !matches!(&tokens[1], Token::From) {
        return Err(ParseError::ExpectedFrom);
    }
    if n < 3 {
        return Err(ParseError::ExpectedTableName);
    }
    let table_name = match &tokens[2] {
        Token::Identifier(name) => name.clone(),
        _ => return Err(ParseError::ExpectedTableName),
    };
    if n < 4 || !matches!(&tokens[3], Token::Where) {
        return Err(ParseError::ExpectedWhere);
    }
    match parse_condition(tokens, 4) {
        Ok(condition) => Ok(Statement::Delete(DeleteStatement { table_name, condition })),
        Err(e) => Err(e),
    }
}

/// Parses an UPDATE statement, matching `spec_parse_update`.
pub fn parse_update(tokens: &Vec<Token>) -> (r: Result<Statement, ParseError>)
    ensures
        parse_result_view(r) == spec_parse_update(tokens.deep_view()),
{
    let n = tokens.len();
    if n < 1 || !matches!(&tokens[0], Token::Update) {
        return Err(ParseError::ExpectedUpdate);
    }
    if n < 2 {
        return Err(ParseError::ExpectedTableName);
    }
    let table_name = match &tokens[1] {
        Token::Identifier(name) => name.clone(),
        _ => return Err(ParseError::ExpectedTableName),
    };
    if n < 3 || !matches!(&tokens[2], Token::SetKw) {
        return Err(ParseError::ExpectedSetKeyword);
    }
    if n < 4 {
        return Err(ParseError::ExpectedColumnName);
    }
    let column = match &tokens[3] {
        Token::Identifier(c) => c.clone(),
        _ => return Err(ParseError::ExpectedColumnName),
    };
    if n < 5 || !matches!(&tokens[4], Token::Equals) {
        return Err(ParseError::ExpectedEquals);
    }
    if n < 6 {
        return Err(ParseError::ExpectedValue);
    }
    let value = match &tokens[5] {
        Token::Int(v) => Value::Int(*v),
        Token::String(s) => Value::Str(s.clone()),
        Token::Identifier(w) => Value::Str(w.clone()),
        _ => return Err(ParseError::ExpectedValue),
    };
    let set_clause = ColumnValue { column, value };
    if n <= 6 || matches!(&tokens[6], Token::Semicolon) {
        return Ok(
            Statement::Update(UpdateStatement { table_name, set_clause, condition: None }),
        );
    }
    if !matches!(&tokens[6], Token::Where) {
        return Err(ParseError::UnexpectedTokenInSetClause);
    }
    match parse_condition(tokens, 7) {
        Ok(condition) => Ok(
            Statement::Update(UpdateStatement { table_name, set_clause, condition }),
        ),
        Err(e) => Err(e),
    }
}

} // verus!
