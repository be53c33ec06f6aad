//! Typed statements, as the parser produces them and the execution engine
//! consumes them.  A WHERE condition and a SET clause are both carried as a
//! structured column/value pair rather than as re-parsed text.

use vstd::prelude::*;
use crate::value::{Value, SpecValue};

verus! {

/// A structured `column = value` pair: the single supported equality form,
/// used both as a SET clause and as a WHERE condition.
#[derive(Debug, Clone, PartialEq)]
pub struct ColumnValue {
    pub column: String,
    pub value: Value,
}

/// The mathematical model of a `ColumnValue`.
pub struct SpecColumnValue {
    pub column: Seq<char>,
    pub value: SpecValue,
}

impl View for ColumnValue {
    type V = SpecColumnValue;

    open spec fn view(&self) -> SpecColumnValue {
        SpecColumnValue { column: self.column@, value: self.value@ }
    }
}

impl DeepView for ColumnValue {
    type V = SpecColumnValue;

    open spec fn deep_view(&self) -> SpecColumnValue {
        self.view()
    }
}

#[derive(Debug, Clone, PartialEq)]
pub struct InsertStatement {
    pub table_name: String,
    pub values: Vec<Value>,
}

#[derive(Debug, Clone, PartialEq)]
pub struct SelectStatement {
    pub table_name: String,
    pub values: Vec<Value>,
}

#[derive(Debug, Clone, PartialEq)]
pub struct CreateTableStatement {
    pub table_name: String,
    pub columns: Vec<String>,
}

#[derive(Debug, Clone, PartialEq)]
pub struct DeleteStatement {
    pub table_name: String,
    pub condition: Option<ColumnValue>,
}

#[derive(Debug, Clone, PartialEq)]
pub struct UpdateStatement {
    pub table_name: String,
    pub set_clause: ColumnValue,
    pub condition: Option<ColumnValue>,
}

pub struct SpecInsertStatement {
    pub table_name: Seq<char>,
    pub values: Seq<SpecValue>,
}

pub struct SpecSelectStatement {
    pub table_name: Seq<char>,
    pub values: Seq<SpecValue>,
}

pub struct SpecCreateTableStatement {
    pub table_name: Seq<char>,
    pub columns: Seq<Seq<char>>,
}

pub struct SpecDeleteStatement {
    pub table_name: Seq<char>,
    pub condition: Option<SpecColumnValue>,
}

pub struct SpecUpdateStatement {
    pub table_name: Seq<char>,
    pub set_clause: SpecColumnValue,
    pub condition: Option<SpecColumnValue>,
}

impl View for InsertStatement {
    type V = SpecInsertStatement;

    open spec fn view(&self) -> SpecInsertStatement {
        SpecInsertStatement { table_name: self.table_name@, values: self.values.deep_view() }
    }
}

impl View for SelectStatement {
    type V = SpecSelectStatement;

    open spec fn view(&self) -> SpecSelectStatement {
        SpecSelectStatement { table_name: self.table_name@, values: self.values.deep_view() }
    }
}

impl View for CreateTableStatement {
    type V = SpecCreateTableStatement;

    open spec fn view(&self) -> SpecCreateTableStatement {
        SpecCreateTableStatement { table_name: self.table_name@, columns: self.columns.deep_view() }
    }
}

impl View for DeleteStatement {
    type V = SpecDeleteStatement;

    open spec fn view(&self) -> SpecDeleteStatement {
        SpecDeleteStatement { table_name: self.table_name@, condition: self.condition.deep_view() }
    }
}

impl View for UpdateStatement {
    type V = SpecUpdateStatement;

    open spec fn view(&self) -> SpecUpdateStatement {
        SpecUpdateStatement {
            table_name: self.table_name@,
            set_clause: self.set_clause@,
            condition: self.condition.deep_view(),
        }
    }
}

/// One parsed statement.
#[derive(Debug, Clone, PartialEq)]
pub enum Statement {
    Insert(InsertStatement),
    Select(SelectStatement),
    Create(CreateTableStatement),
    Delete(DeleteStatement),
    Update(UpdateStatement),
}

/// The mathematical model of a statement.
pub enum SpecStatement {
    Insert(SpecInsertStatement),
    Select(SpecSelectStatement),
    Create(SpecCreateTableStatement),
    Delete(SpecDeleteStatement),
    Update(SpecUpdateStatement),
}

impl View for Statement {
    type V = SpecStatement;

    open spec fn view(&self) -> SpecStatement {
        match self {
            Statement::Insert(s) => SpecStatement::Insert(s@),
            Statement::Select(s) => SpecStatement::Select(s@),
            Statement::Create(s) => SpecStatement::Create(s@),
            Statement::Delete(s) => SpecStatement::Delete(s@),
            Statement::Update(s) => SpecStatement::Update(s@),
        }
    }
}

/// A parse error, naming the token or keyword that was expected.
#[derive(Debug, Clone, Copy, PartialEq, Eq, Structural)]
pub enum ParseError {
    UnsupportedStatement,
    ExpectedCreate,
    ExpectedTableKeyword,
    ExpectedTableName,
    ExpectedLeftParen,
    UnexpectedTokenInColumns,
    UnexpectedEndInColumns,
    ExpectedInsert,
    ExpectedInto,
    ExpectedValuesKeyword,
    UnexpectedTokenInValues,
    UnexpectedEndInValues,
    ExpectedSelect,
    UnexpectedTokenInProjection,
    UnexpectedEndInProjection,
    ExpectedDelete,
    ExpectedFrom,
    ExpectedWhere,
    ExpectedUpdate,
    ExpectedSetKeyword,
    ExpectedColumnName,
    ExpectedEquals,
    ExpectedValue,
    UnexpectedTokenInSetClause,
}

/// The wording of each parse error.
pub open spec fn spec_describe(e: ParseError) -> Seq<char> {
    match e {
        ParseError::UnsupportedStatement => "Unknown or unsupported statement"@,
        ParseError::ExpectedCreate => "Expected 'CREATE'"@,
        ParseError::ExpectedTableKeyword => "Expected 'TABLE' after 'CREATE'"@,
        ParseError::ExpectedTableName => "Expected table name"@,
        ParseError::ExpectedLeftParen => "Expected '('"@,
        ParseError::UnexpectedTokenInColumns => "Unexpected token in columns"@,
        ParseError::UnexpectedEndInColumns => "Unexpected end of input in columns"@,
        ParseError::ExpectedInsert => "Expected 'INSERT'"@,
        ParseError::ExpectedInto => "Expected 'INTO' after 'INSERT'"@,
        ParseError::ExpectedValuesKeyword => "Expected 'VALUES' keyword"@,
        ParseError::UnexpectedTokenInValues => "Unexpected token in VALUES"@,
        ParseError::UnexpectedEndInValues => "Unexpected end of input in VALUES"@,
        ParseError::ExpectedSelect => "Expected 'SELECT'"@,
        ParseError::UnexpectedTokenInProjection => "Unexpected token in SELECT"@,
        ParseError::UnexpectedEndInProjection => "Unexpected end of input in SELECT"@,
        ParseError::ExpectedDelete => "Expected 'DELETE'"@,
        ParseError::ExpectedFrom => "Expected 'FROM' after 'DELETE'"@,
        ParseError::ExpectedWhere => "Expected 'WHERE' after table name in DELETE"@,
        ParseError::ExpectedUpdate => "Expected 'UPDATE'"@,
        ParseError::ExpectedSetKeyword => "Expected 'SET' after table name"@,
        ParseError::ExpectedColumnName => "Expected a column name in a clause"@,
        ParseError::ExpectedEquals => "Expected '=' after the column name"@,
        ParseError::ExpectedValue => "Expected a literal value after '='"@,
        ParseError::UnexpectedTokenInSetClause => "Unexpected token in SET clause"@,
    }
}

impl ParseError {
    /// A human-readable description of what was expected, matching
    /// `spec_describe`.
    pub fn describe(&self) -> (r: &'static str)
        ensures
            r@ == spec_describe(*self),
    {
        match self {
            ParseError::UnsupportedStatement => "Unknown or unsupported statement",
            ParseError::ExpectedCreate => "Expected 'CREATE'",
            ParseError::ExpectedTableKeyword => "Expected 'TABLE' after 'CREATE'",
            ParseError::ExpectedTableName => "Expected table name",
            ParseError::ExpectedLeftParen => "Expected '('",
            ParseError::UnexpectedTokenInColumns => "Unexpected token in columns",
            ParseError::UnexpectedEndInColumns => "Unexpected end of input in columns",
            ParseError::ExpectedInsert => "Expected 'INSERT'",
            ParseError::ExpectedInto => "Expected 'INTO' after 'INSERT'",
            ParseError::ExpectedValuesKeyword => "Expected 'VALUES' keyword",
            ParseError::UnexpectedTokenInValues => "Unexpected token in VALUES",
            ParseError::UnexpectedEndInValues => "Unexpected end of input in VALUES",
            ParseError::ExpectedSelect => "Expected 'SELECT'",
            ParseError::UnexpectedTokenInProjection => "Unexpected token in SELECT",
            ParseError::UnexpectedEndInProjection => "Unexpected end of input in SELECT",
            ParseError::ExpectedDelete => "Expected 'DELETE'",
            ParseError::ExpectedFrom => "Expected 'FROM' after 'DELETE'",
            ParseError::ExpectedWhere => "Expected 'WHERE' after table name in DELETE",
            ParseError::ExpectedUpdate => "Expected 'UPDATE'",
            ParseError::ExpectedSetKeyword => "Expected 'SET' after table name",
            ParseError::ExpectedColumnName => "Expected a column name in a clause",
            ParseError::ExpectedEquals => "Expected '=' after the column name",
            ParseError::ExpectedValue => "Expected a literal value after '='",
            ParseError::UnexpectedTokenInSetClause => "Unexpected token in SET clause",
        }
    }
}

} // verus!
