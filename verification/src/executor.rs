//! The execution engine and the table store: a statement is interpreted
//! against the in-memory database, mutating it and producing a structured
//! outcome.  Execution notices (a missing table, a rejected row) leave the
//! database entirely unchanged.

use vstd::prelude::*;
use crate::value::{
    Value, SpecValue, spec_value_stored, spec_render_value, value_eq, value_copy, render_value,
};
use crate::ast::{
    ColumnValue, SpecColumnValue, InsertStatement, SelectStatement, CreateTableStatement,
    DeleteStatement, UpdateStatement, Statement, SpecStatement, SpecInsertStatement,
    SpecSelectStatement, SpecCreateTableStatement, SpecDeleteStatement, SpecUpdateStatement,
};
use crate::digits::{is_digit, digits_val, spec_nat_str, u64_to_string, lemma_digits_val_prefix};
use vstd::string::StrSliceExecFns;

verus! {

/// One named table: an ordered column-name list and ordered rows.
#[derive(Debug, PartialEq)]
pub struct Table {
    pub rows: Vec<Vec<Value>>,
    pub columns: Vec<String>,
}

/// The mathematical model of a table.
pub struct SpecTable {
    pub rows: Seq<Seq<SpecValue>>,
    pub columns: Seq<Seq<char>>,
}

impl View for Table {
    type V = SpecTable;

    open spec fn view(&self) -> SpecTable {
        SpecTable { rows: self.rows.deep_view(), columns: self.columns.deep_view() }
    }
}

impl DeepView for Table {
    type V = SpecTable;

    open spec fn deep_view(&self) -> SpecTable {
        self.view()
    }
}

/// The table store: tables under unique names.  The order of entries is the
/// order of first creation; it carries no meaning.
#[derive(Debug, PartialEq)]
pub struct Database {
    pub tables: Vec<(String, Table)>,
}

/// The mathematical model of a database.
pub struct SpecDatabase {
    pub tables: Seq<(Seq<char>, SpecTable)>,
}

impl View for Database {
    type V = SpecDatabase;

    open spec fn view(&self) -> SpecDatabase {
        SpecDatabase { tables: self.tables.deep_view() }
    }
}

/// Every cell of every row is a storable value, and when the table declares
/// columns, every row has exactly one cell per column.
pub open spec fn spec_table_wf(t: SpecTable) -> bool {
    &&& forall|i: int, j: int|
        0 <= i < t.rows.len() && 0 <= j < t.rows[i].len() ==> spec_value_stored(
            #[trigger] t.rows[i][j],
        )
    &&& t.columns.len() > 0 ==> forall|i: int|
        0 <= i < t.rows.len() ==> (#[trigger] t.rows[i]).len() == t.columns.len()
}

/// Table names are unique and every table is well formed.
pub open spec fn spec_db_wf(db: SpecDatabase) -> bool {
    &&& forall|i: int, j: int|
        0 <= i < j < db.tables.len() ==> (#[trigger] db.tables[i].0) != (
        #[trigger] db.tables[j].0)
    &&& forall|i: int| 0 <= i < db.tables.len() ==> spec_table_wf((#[trigger] db.tables[i]).1)
}

/// The index of the first table of the given name, from position `i` on.
pub open spec fn spec_find_from(
    tables: Seq<(Seq<char>, SpecTable)>,
    name: Seq<char>,
    i: int,
) -> Option<int>
    decreases tables.len() - i,
    when 0 <= i
{
    if i >= tables.len() {
        None
    } else if tables[i].0 == name {
        Some(i)
    } else {
        spec_find_from(tables, name, i + 1)
    }
}

/// The index of the table of the given name, if any.
pub open spec fn spec_find_table(db: SpecDatabase, name: Seq<char>) -> Option<int> {
    spec_find_from(db.tables, name, 0)
}

pub proof fn lemma_find_from(tables: Seq<(Seq<char>, SpecTable)>, name: Seq<char>, i: int)
    requires
        0 <= i,
    ensures
        match spec_find_from(tables, name, i) {
            None => forall|j: int| i <= j < tables.len() ==> (#[trigger] tables[j].0) != name,
            Some(k) => i <= k < tables.len() && tables[k].0 == name,
        },
    decreases tables.len() - i,
{
    if i < tables.len() && tables[i].0 != name {
        lemma_find_from(tables, name, i + 1);
    }
}

/// The first position of `name` among the declared columns, from `i` on.
pub open spec fn spec_col_position_from(cols: Seq<Seq<char>>, name: Seq<char>, i: int) -> Option<
    int,
>
    decreases cols.len() - i,
    when 0 <= i
{
    if i >= cols.len() {
        None
    } else if cols[i] == name {
        Some(i)
    } else {
        spec_col_position_from(cols, name, i + 1)
    }
}

/// The first position of `name` among the declared columns.
pub open spec fn spec_col_position(cols: Seq<Seq<char>>, name: Seq<char>) -> Option<int> {
    spec_col_position_from(cols, name, 0)
}

/// The index demanded by the positional form `col<N>`: the name is `col`
/// followed by one or more digits whose value fits an index.
pub open spec fn spec_col_positional(name: Seq<char>) -> Option<int> {
    if name.len() > 3 && name.subrange(0, 3) == seq!['c', 'o', 'l'] && (forall|i: int|
        3 <= i < name.len() ==> is_digit(#[trigger] name[i])) && digits_val(
        name.subrange(3, name.len() as int),
    ) <= usize::MAX {
        Some(digits_val(name.subrange(3, name.len() as int)))
    } else {
        None
    }
}

/// Column resolution: an exact column-name match wins; otherwise the
/// positional form `col<N>`; otherwise index zero.
pub open spec fn spec_resolve_column(cols: Seq<Seq<char>>, name: Seq<char>) -> int {
    match spec_col_position(cols, name) {
        Some(i) => i,
        None => match spec_col_positional(name) {
            Some(n) => n,
            None => 0,
        },
    }
}

/// Finds a table by name, matching `spec_find_table`.
#[verifier::loop_isolation(false)]
fn find_table_index(tables: &Vec<(String, Table)>, name: &String) -> (r: Option<usize>)
    ensures
        match r {
            Some(i) => spec_find_from(tables.deep_view(), name@, 0) == Some(i as int) && i
                < tables.len(),
            None => spec_find_from(tables.deep_view(), name@, 0) is None,
        },
{
    let mut i: usize = 0;
    while i < tables.len()
        invariant
            i <= tables.len(),
            spec_find_from(tables.deep_view(), name@, 0) == spec_find_from(
                tables.deep_view(),
                name@,
                i as int,
            ),
        decreases tables.len() - i,
    {
        if tables[i].0 == *name {
            return Some(i);
        }
        i += 1;
    }
    None
}

/// The first position of `name` among `cols`, matching `spec_col_position`.
#[verifier::loop_isolation(false)]
fn col_position(cols: &Vec<String>, name: &String) -> (r: Option<usize>)
    ensures
        match r {
            Some(i) => spec_col_position(cols.deep_view(), name@) == Some(i as int) && i
                < cols.len(),
            None => spec_col_position(cols.deep_view(), name@) is None,
        },
{
    let mut i: usize = 0;
    while i < cols.len()
        invariant
            i <= cols.len(),
            spec_col_position(cols.deep_view(), name@) == spec_col_position_from(
                cols.deep_view(),
                name@,
                i as int,
            ),
        decreases cols.len() - i,
    {
        if cols[i] == *name {
            return Some(i);
        }
        i += 1;
    }
    None
}

/// The positional index of a `col<N>` name, matching `spec_col_positional`.
#[verifier::loop_isolation(false)]
fn col_positional(name: &String) -> (r: Option<usize>)
    ensures
        match r {
            Some(u) => spec_col_positional(name@) == Some(u as int),
            None => spec_col_positional(name@) is None,
        },
{
    let s = name.as_str();
    let n = s.unicode_len();
    if n <= 3 {
        return None;
    }
    if s.get_char(0) != 'c' || s.get_char(1) != 'o' || s.get_char(2) != 'l' {
        assert(name@.subrange(0, 3) != seq!['c', 'o', 'l']) by {
            assert(seq!['c', 'o', 'l'][0] == 'c');
            assert(seq!['c', 'o', 'l'][1] == 'o');
            assert(seq!['c', 'o', 'l'][2] == 'l');
            assert(name@.subrange(0, 3)[0] == name@[0]);
            assert(name@.subrange(0, 3)[1] == name@[1]);
            assert(name@.subrange(0, 3)[2] == name@[2]);
        }
        return None;
    }
    assert(name@.subrange(0, 3) =~= seq!['c', 'o', 'l']);
    let umax: u64 = usize::MAX as u64;
    let mut acc: u64 = 0;
    let mut i: usize = 3;
    while i < n
        invariant
            3 <= i <= n,
            forall|k: int| 3 <= k < i ==> is_digit(#[trigger] name@[k]),
            acc == digits_val(name@.subrange(3, i as int)),
            acc <= umax,
        decreases n - i,
    {
        let c = s.get_char(i);
        if !('0' <= c && c <= '9') {
            return None;
        }
        let d: u64 = (c as u32 - 48) as u64;
        assert(name@.subrange(3, i + 1 as int).drop_last() =~= name@.subrange(3, i as int));
        if acc > (umax - d) / 10 {
            proof {
                let whole = name@.subrange(3, n as int);
                if forall|k: int| 3 <= k < name@.len() ==> is_digit(#[trigger] name@[k]) {
                    assert(forall|k: int|
                        0 <= k < whole.len() ==> is_digit(#[trigger] whole[k]));
                    lemma_digits_val_prefix(whole, i + 1 - 3);
                    assert(whole.subrange(0, i + 1 - 3) =~= name@.subrange(3, i + 1 as int));
                    assert(digits_val(name@.subrange(3, i + 1 as int)) == acc * 10 + d);
                    assert(acc * 10 + d > umax);
                }
            }
            return None;
        }
        acc = acc * 10 + d;
        i += 1;
    }
    assert(name@.subrange(3, n as int) =~= name@.subrange(3, i as int));
    Some(acc as usize)
}

/// Resolves a requested column name to a row index, matching
/// `spec_resolve_column`.
fn resolve_column(cols: &Vec<String>, name: &String) -> (r: usize)
    ensures
        r as int == spec_resolve_column(cols.deep_view(), name@),
{
    match col_position(cols, name) {
        Some(i) => i,
        None => match col_positional(name) {
            Some(n) => n,
            None => 0,
        },
    }
}

/// The structured result of executing one statement.  Execution notices
/// (a missing table, an empty table, a rejected row, an empty DELETE
/// condition) are ordinary outcomes, not errors, and come with no mutation.
#[derive(Debug, Clone, PartialEq)]
pub enum ExecOutcome {
    Created,
    Inserted,
    InvalidValues,
    ArityMismatch,
    Selected { headers: Vec<String>, rows: Vec<Vec<String>> },
    Updated { count: usize },
    Deleted { count: usize },
    NothingToDelete,
    TableNotFound,
    EmptyTable,
}

/// The mathematical model of an outcome.
pub enum SpecOutcome {
    Created,
    Inserted,
    InvalidValues,
    ArityMismatch,
    Selected { headers: Seq<Seq<char>>, rows: Seq<Seq<Seq<char>>> },
    Updated { count: int },
    Deleted { count: int },
    NothingToDelete,
    TableNotFound,
    EmptyTable,
}

impl View for ExecOutcome {
    type V = SpecOutcome;

    open spec fn view(&self) -> SpecOutcome {
        match self {
            ExecOutcome::Created => SpecOutcome::Created,
            ExecOutcome::Inserted => SpecOutcome::Inserted,
            ExecOutcome::InvalidValues => SpecOutcome::InvalidValues,
            ExecOutcome::ArityMismatch => SpecOutcome::ArityMismatch,
            ExecOutcome::Selected { headers, rows } => SpecOutcome::Selected {
                headers: headers.deep_view(),
                rows: rows.deep_view(),
            },
            ExecOutcome::Updated { count } => SpecOutcome::Updated { count: *count as int },
            ExecOutcome::Deleted { count } => SpecOutcome::Deleted { count: *count as int },
            ExecOutcome::NothingToDelete => SpecOutcome::NothingToDelete,
            ExecOutcome::TableNotFound => SpecOutcome::TableNotFound,
            ExecOutcome::EmptyTable => SpecOutcome::EmptyTable,
        }
    }
}

/// Every value of the list may be stored in a row.
pub open spec fn spec_row_ok(values: Seq<SpecValue>) -> bool {
    forall|i: int| 0 <= i < values.len() ==> spec_value_stored(#[trigger] values[i])
}

/// CREATE inserts a fresh, empty table under the name, silently replacing
/// any existing table of that name.
pub open spec fn spec_execute_create(db: SpecDatabase, c: SpecCreateTableStatement) -> (
    SpecDatabase,
    SpecOutcome,
) {
    let t = SpecTable { rows: Seq::empty(), columns: c.columns };
    match spec_find_table(db, c.table_name) {
        Some(i) => (
            SpecDatabase { tables: db.tables.update(i, (c.table_name, t)) },
            SpecOutcome::Created,
        ),
        None => (
            SpecDatabase { tables: db.tables.push((c.table_name, t)) },
            SpecOutcome::Created,
        ),
    }
}

/// INSERT appends the values as one new row, creating a table with no
/// declared columns when the name is absent.  A list holding a non-storable
/// value is rejected, as is one whose arity differs from the declared
/// columns; a rejection mutates nothing.
pub open spec fn spec_execute_insert(db: SpecDatabase, s: SpecInsertStatement) -> (
    SpecDatabase,
    SpecOutcome,
) {
    if !spec_row_ok(s.values) {
        (db, SpecOutcome::InvalidValues)
    } else {
        match spec_find_table(db, s.table_name) {
            Some(i) => {
                let t = db.tables[i].1;
                if t.columns.len() > 0 && s.values.len() != t.columns.len() {
                    (db, SpecOutcome::ArityMismatch)
                } else {
                    let t2 = SpecTable { rows: t.rows.push(s.values), columns: t.columns };
                    (
                        SpecDatabase { tables: db.tables.update(i, (db.tables[i].0, t2)) },
                        SpecOutcome::Inserted,
                    )
                }
            },
            None => {
                let t = SpecTable { rows: seq![s.values], columns: Seq::empty() };
                (
                    SpecDatabase { tables: db.tables.push((s.table_name, t)) },
                    SpecOutcome::Inserted,
                )
            },
        }
    }
}

/// Whether a row satisfies the condition: the resolved cell exists and
/// equals the literal, by exact value-and-type equality.
pub open spec fn spec_row_matches(
    cols: Seq<Seq<char>>,
    row: Seq<SpecValue>,
    cond: SpecColumnValue,
) -> bool {
    let ix = spec_resolve_column(cols, cond.column);
    0 <= ix < row.len() && row[ix] == cond.value
}

/// The rows that survive a DELETE: exactly those that do not match the
/// condition, in their original order.
pub open spec fn spec_kept_rows(
    cols: Seq<Seq<char>>,
    rows: Seq<Seq<SpecValue>>,
    cond: SpecColumnValue,
) -> Seq<Seq<SpecValue>>
    decreases rows.len(),
{
    if rows.len() == 0 {
        Seq::empty()
    } else {
        let rest = spec_kept_rows(cols, rows.drop_last(), cond);
        if spec_row_matches(cols, rows.last(), cond) {
            rest
        } else {
            rest.push(rows.last())
        }
    }
}

/// DELETE with a condition removes every matching row; with an empty
/// condition it removes nothing.
pub open spec fn spec_execute_delete(db: SpecDatabase, s: SpecDeleteStatement) -> (
    SpecDatabase,
    SpecOutcome,
) {
    match spec_find_table(db, s.table_name) {
        None => (db, SpecOutcome::TableNotFound),
        Some(i) => match s.condition {
            None => (db, SpecOutcome::NothingToDelete),
            Some(cond) => {
                let t = db.tables[i].1;
                let kept = spec_kept_rows(t.columns, t.rows, cond);
                let t2 = SpecTable { rows: kept, columns: t.columns };
                (
                    SpecDatabase { tables: db.tables.update(i, (db.tables[i].0, t2)) },
                    SpecOutcome::Deleted { count: t.rows.len() - kept.len() },
                )
            },
        },
    }
}

/// Whether the (optional) condition holds of a row; an empty condition
/// holds of every row.
pub open spec fn spec_cond_holds(
    cols: Seq<Seq<char>>,
    row: Seq<SpecValue>,
    cond: Option<SpecColumnValue>,
) -> bool {
    match cond {
        None => true,
        Some(c) => spec_row_matches(cols, row, c),
    }
}

/// Whether an UPDATE touches a row: the condition holds and the resolved
/// target cell exists.
pub open spec fn spec_update_applies(
    cols: Seq<Seq<char>>,
    row: Seq<SpecValue>,
    set_ix: int,
    cond: Option<SpecColumnValue>,
) -> bool {
    spec_cond_holds(cols, row, cond) && 0 <= set_ix < row.len()
}

/// One row after an UPDATE.
pub open spec fn spec_updated_row(
    cols: Seq<Seq<char>>,
    row: Seq<SpecValue>,
    set_ix: int,
    set_v: SpecValue,
    cond: Option<SpecColumnValue>,
) -> Seq<SpecValue> {
    if spec_update_applies(cols, row, set_ix, cond) {
        row.update(set_ix, set_v)
    } else {
        row
    }
}

/// How many rows an UPDATE touches.
pub open spec fn spec_update_count(
    cols: Seq<Seq<char>>,
    rows: Seq<Seq<SpecValue>>,
    set_ix: int,
    cond: Option<SpecColumnValue>,
) -> int
    decreases rows.len(),
{
    if rows.len() == 0 {
        0
    } else {
        spec_update_count(cols, rows.drop_last(), set_ix, cond) + if spec_update_applies(
            cols,
            rows.last(),
            set_ix,
            cond,
        ) {
            1int
        } else {
            0int
        }
    }
}

/// UPDATE writes the literal into the resolved target cell of every row the
/// condition selects; a non-storable literal is rejected with no mutation.
pub open spec fn spec_execute_update(db: SpecDatabase, s: SpecUpdateStatement) -> (
    SpecDatabase,
    SpecOutcome,
) {
    match spec_find_table(db, s.table_name) {
        None => (db, SpecOutcome::TableNotFound),
        Some(i) => {
            if !spec_value_stored(s.set_clause.value) {
                (db, SpecOutcome::InvalidValues)
            } else {
                let t = db.tables[i].1;
                let set_ix = spec_resolve_column(t.columns, s.set_clause.column);
                let new_rows = Seq::new(
                    t.rows.len(),
                    |r: int|
                        spec_updated_row(t.columns, t.rows[r], set_ix, s.set_clause.value, s.condition),
                );
                let t2 = SpecTable { rows: new_rows, columns: t.columns };
                (
                    SpecDatabase { tables: db.tables.update(i, (db.tables[i].0, t2)) },
                    SpecOutcome::Updated {
                        count: spec_update_count(t.columns, t.rows, set_ix, s.condition),
                    },
                )
            }
        },
    }
}

/// One whole row, rendered.
pub open spec fn spec_render_row_all(row: Seq<SpecValue>) -> Seq<Seq<char>> {
    Seq::new(row.len(), |j: int| spec_render_value(row[j]))
}

/// Synthetic headers `col0 .. colN-1` for a table with no declared columns.
pub open spec fn spec_synth_headers(w: nat) -> Seq<Seq<char>> {
    Seq::new(w, |j: int| seq!['c', 'o', 'l'] + spec_nat_str(j))
}

/// The requested identifiers of a projection list, in order; `*` entries in
/// a list that is not exactly `*` contribute nothing.
pub open spec fn spec_proj_names(vals: Seq<SpecValue>) -> Seq<Seq<char>>
    decreases vals.len(),
{
    if vals.len() == 0 {
        Seq::empty()
    } else {
        let rest = spec_proj_names(vals.drop_last());
        match vals.last() {
            SpecValue::Identifier(n) => rest.push(n),
            _ => rest,
        }
    }
}

/// The header shown for one requested name: the declared column it resolves
/// to, or the name itself.
pub open spec fn spec_header_for(cols: Seq<Seq<char>>, name: Seq<char>) -> Seq<char> {
    if spec_col_position(cols, name) is Some {
        name
    } else {
        match spec_col_positional(name) {
            Some(ix) => if ix < cols.len() {
                cols[ix]
            } else {
                name
            },
            None => name,
        }
    }
}

/// The rendered cell for one requested name in one row; an absent cell
/// renders as the null marker.
pub open spec fn spec_cell_for(cols: Seq<Seq<char>>, row: Seq<SpecValue>, name: Seq<char>) -> Seq<
    char,
> {
    let ix = spec_resolve_column(cols, name);
    if 0 <= ix < row.len() {
        spec_render_value(row[ix])
    } else {
        seq!['N', 'U', 'L', 'L']
    }
}

/// SELECT never mutates; it renders headers and one line of cells per row,
/// in storage order.  `SELECT *` projects every stored column; an explicit
/// list projects each requested name through column resolution.
pub open spec fn spec_execute_select(db: SpecDatabase, s: SpecSelectStatement) -> SpecOutcome {
    match spec_find_table(db, s.table_name) {
        None => SpecOutcome::TableNotFound,
        Some(i) => {
            let t = db.tables[i].1;
            if t.rows.len() == 0 {
                SpecOutcome::EmptyTable
            } else if s.values.len() == 1 && s.values[0] is Star {
                let headers = if t.columns.len() > 0 {
                    t.columns
                } else {
                    spec_synth_headers(t.rows[0].len())
                };
                SpecOutcome::Selected {
                    headers,
                    rows: Seq::new(t.rows.len(), |r: int| spec_render_row_all(t.rows[r])),
                }
            } else {
                let names = spec_proj_names(s.values);
                SpecOutcome::Selected {
                    headers: Seq::new(names.len(), |j: int| spec_header_for(t.columns, names[j])),
                    rows: Seq::new(
                        t.rows.len(),
                        |r: int|
                            Seq::new(
                                names.len(),
                                |j: int| spec_cell_for(t.columns, t.rows[r], names[j]),
                            ),
                    ),
                }
            }
        },
    }
}

/// The whole engine: the database after one statement, and its outcome.
pub open spec fn spec_execute(db: SpecDatabase, stmt: SpecStatement) -> (
    SpecDatabase,
    SpecOutcome,
) {
    match stmt {
        SpecStatement::Insert(s) => spec_execute_insert(db, s),
        SpecStatement::Select(s) => (db, spec_execute_select(db, s)),
        SpecStatement::Create(s) => spec_execute_create(db, s),
        SpecStatement::Delete(s) => spec_execute_delete(db, s),
        SpecStatement::Update(s) => spec_execute_update(db, s),
    }
}

/// Every surviving row of a DELETE was one of the original rows, and no
/// rows appear from nowhere.
pub proof fn lemma_kept_rows_sub(
    cols: Seq<Seq<char>>,
    rows: Seq<Seq<SpecValue>>,
    cond: SpecColumnValue,
)
    ensures
        spec_kept_rows(cols, rows, cond).len() <= rows.len(),
        forall|j: int|
            0 <= j < spec_kept_rows(cols, rows, cond).len() ==> rows.contains(
                #[trigger] spec_kept_rows(cols, rows, cond)[j],
            ),
    decreases rows.len(),
{
    if rows.len() > 0 {
        lemma_kept_rows_sub(cols, rows.drop_last(), cond);
        assert forall|x: Seq<SpecValue>| rows.drop_last().contains(x) implies rows.contains(
            x,
        ) by {
            let k = choose|k: int|
                0 <= k < rows.drop_last().len() && rows.drop_last()[k] == x;
            assert(rows[k] == x);
        }
        assert(rows.contains(rows.last()));
    }
}

/// Execution preserves well-formedness: names stay unique, stored rows stay
/// storable and aligned with their columns.
pub proof fn lemma_execute_preserves_wf(db: SpecDatabase, stmt: SpecStatement)
    requires
        spec_db_wf(db),
    ensures
        spec_db_wf(spec_execute(db, stmt).0),
{
    let db2 = spec_execute(db, stmt).0;
    match stmt {
        SpecStatement::Insert(s) => {
            if spec_row_ok(s.values) {
                lemma_find_from(db.tables, s.table_name, 0);
                match spec_find_table(db, s.table_name) {
                    Some(i) => {
                        let t = db.tables[i].1;
                        if !(t.columns.len() > 0 && s.values.len() != t.columns.len()) {
                            let t2 = SpecTable { rows: t.rows.push(s.values), columns: t.columns };
                            assert(spec_table_wf(t2)) by {
                                assert(forall|r: int|
                                    0 <= r < t.rows.len() ==> t2.rows[r] == #[trigger] t.rows[r]);
                            }
                        }
                    },
                    None => {
                        let t = SpecTable { rows: seq![s.values], columns: Seq::empty() };
                        assert(spec_table_wf(t));
                    },
                }
            }
        },
        SpecStatement::Select(_) => {},
        SpecStatement::Create(s) => {
            lemma_find_from(db.tables, s.table_name, 0);
            let t = SpecTable { rows: Seq::empty(), columns: s.columns };
            assert(spec_table_wf(t));
        },
        SpecStatement::Delete(s) => {
            lemma_find_from(db.tables, s.table_name, 0);
            match spec_find_table(db, s.table_name) {
                Some(i) => match s.condition {
                    Some(cond) => {
                        let t = db.tables[i].1;
                        let kept = spec_kept_rows(t.columns, t.rows, cond);
                        lemma_kept_rows_sub(t.columns, t.rows, cond);
                        assert(spec_table_wf(SpecTable { rows: kept, columns: t.columns })) by {
                            assert(spec_table_wf(t));
                            assert forall|r: int, j: int|
                                0 <= r < kept.len() && 0 <= j < kept[r].len() implies
                                spec_value_stored(#[trigger] kept[r][j]) by {
                                let k = choose|k: int|
                                    0 <= k < t.rows.len() && t.rows[k] == kept[r];
                            }
                            if t.columns.len() > 0 {
                                assert forall|r: int| 0 <= r < kept.len() implies (
                                #[trigger] kept[r]).len() == t.columns.len() by {
                                    let k = choose|k: int|
                                        0 <= k < t.rows.len() && t.rows[k] == kept[r];
                                }
                            }
                        }
                    },
                    None => {},
                },
                None => {},
            }
        },
        SpecStatement::Update(s) => {
            lemma_find_from(db.tables, s.table_name, 0);
            match spec_find_table(db, s.table_name) {
                Some(i) => {
                    if spec_value_stored(s.set_clause.value) {
                        let t = db.tables[i].1;
                        let set_ix = spec_resolve_column(t.columns, s.set_clause.column);
                        let new_rows = Seq::new(
                            t.rows.len(),
                            |r: int|
                                spec_updated_row(
                                    t.columns,
                                    t.rows[r],
                                    set_ix,
                                    s.set_clause.value,
                                    s.condition,
                                ),
                        );
                        assert(spec_table_wf(SpecTable { rows: new_rows, columns: t.columns }))
                            by {
                            assert(spec_table_wf(t));
                            assert forall|r: int, j: int|
                                0 <= r < new_rows.len() && 0 <= j < new_rows[r].len() implies
                                spec_value_stored(#[trigger] new_rows[r][j]) by {
                                assert(spec_value_stored(t.rows[r][j]) || new_rows[r][j]
                                    == s.set_clause.value);
                            }
                        }
                    }
                },
                None => {},
            }
        },
    }
}

/// Whether every value may be stored in a row, matching `spec_row_ok`.
#[verifier::loop_isolation(false)]
pub(crate) fn all_values_stored(values: &Vec<Value>) -> (r: bool)
    ensures
        r == spec_row_ok(values.deep_view()),
{
    let mut i: usize = 0;
    while i < values.len()
        invariant
            i <= values.len(),
            forall|k: int|
                0 <= k < i ==> spec_value_stored(#[trigger] values.deep_view()[k]),
        decreases values.len() - i,
    {
        match &values[i] {
            Value::Int(_) => {},
            Value::Str(_) => {},
            _ => {
                assert(!spec_value_stored(values.deep_view()[i as int]));
                return false;
            },
        }
        assert(spec_value_stored(values.deep_view()[i as int]));
        i += 1;
    }
    true
}

/// An exact copy of a row.
#[verifier::loop_isolation(false)]
fn copy_row(row: &Vec<Value>) -> (r: Vec<Value>)
    ensures
        r.deep_view() == row.deep_view(),
{
    let mut out: Vec<Value> = Vec::new();
    let mut i: usize = 0;
    while i < row.len()
        invariant
            i <= row.len(),
            out@.len() == i,
            forall|k: int| 0 <= k < i ==> out.deep_view()[k] == row.deep_view()[k],
        decreases row.len() - i,
    {
        let ghost dv0 = out.deep_view();
        out.push(value_copy(&row[i]));
        assert(out.deep_view() =~= dv0.push(row.deep_view()[i as int]));
        i += 1;
    }
    assert(out.deep_view() =~= row.deep_view());
    out
}

/// An exact copy of a column-name list.
#[verifier::loop_isolation(false)]
fn copy_strings(v: &Vec<String>) -> (r: Vec<String>)
    ensures
        r.deep_view() == v.deep_view(),
{
    let mut out: Vec<String> = Vec::new();
    let mut i: usize = 0;
    while i < v.len()
        invariant
            i <= v.len(),
            out@.len() == i,
            forall|k: int| 0 <= k < i ==> out.deep_view()[k] == v.deep_view()[k],
        decreases v.len() - i,
    {
        let ghost dv0 = out.deep_view();
        out.push(v[i].clone());
        assert(out.deep_view() =~= dv0.push(v.deep_view()[i as int]));
        i += 1;
    }
    assert(out.deep_view() =~= v.deep_view());
    out
}

/// The synthetic header `col<j>`.
fn make_col_name(j: u64) -> (r: String)
    ensures
        r@ == seq!['c', 'o', 'l'] + spec_nat_str(j as int),
{
    let mut s = String::new();
    s.push('c');
    s.push('o');
    s.push('l');
    let digits_part = u64_to_string(j);
    s.append(digits_part.as_str());
    assert(s@ =~= seq!['c', 'o', 'l'] + spec_nat_str(j as int));
    s
}

/// The header shown for one requested name, matching `spec_header_for`.
fn header_for(cols: &Vec<String>, name: &String) -> (r: String)
    ensures
        r@ == spec_header_for(cols.deep_view(), name@),
{
    match col_position(cols, name) {
        Some(_) => name.clone(),
        None => match col_positional(name) {
            Some(ix) => if ix < cols.len() {
                cols[ix].clone()
            } else {
                name.clone()
            },
            None => name.clone(),
        },
    }
}

/// The rendered cell for one requested name in one row, matching
/// `spec_cell_for`.
fn cell_for(cols: &Vec<String>, row: &Vec<Value>, name: &String) -> (r: String)
    ensures
        r@ == spec_cell_for(cols.deep_view(), row.deep_view(), name@),
{
    let ix = resolve_column(cols, name);
    if ix < row.len() {
        render_value(&row[ix])
    } else {
        render_value(&Value::Star)
    }
}

/// Whether a table is well formed, matching `spec_table_wf`.
#[verifier::loop_isolation(false)]
pub(crate) fn check_table_wf(t: &Table) -> (r: bool)
    ensures
        r == spec_table_wf(t@),
{
    let ncols = t.columns.len();
    let mut i: usize = 0;
    while i < t.rows.len()
        invariant
            i <= t.rows.len(),
            forall|a: int, b: int|
                0 <= a < i && 0 <= b < t@.rows[a].len() ==> spec_value_stored(
                    #[trigger] t@.rows[a][b],
                ),
            ncols > 0 ==> forall|a: int|
                0 <= a < i ==> (#[trigger] t@.rows[a]).len() == ncols,
        decreases t.rows.len() - i,
    {
        let row = &t.rows[i];
        if !all_values_stored(row) {
            assert(!spec_table_wf(t@)) by {
                let b = choose|b: int|
                    0 <= b < t@.rows[i as int].len() && !spec_value_stored(
                        t@.rows[i as int][b],
                    );
                assert(t@.rows[i as int][b] == row.deep_view()[b]);
            }
            return false;
        }
        if ncols > 0 && row.len() != ncols {
            assert((t@.rows[i as int]).len() != t@.columns.len());
            return false;
        }
        assert(forall|b: int|
            0 <= b < t@.rows[i as int].len() ==> spec_value_stored(
                #[trigger] t@.rows[i as int][b],
            )) by {
            assert(forall|b: int|
                0 <= b < row.deep_view().len() ==> spec_value_stored(
                    #[trigger] row.deep_view()[b],
                ));
            assert(t@.rows[i as int] == row.deep_view());
        }
        i += 1;
    }
    true
}

/// Whether a store is well formed, matching `spec_db_wf`.
#[verifier::loop_isolation(false)]
pub(crate) fn check_db_wf(db: &Database) -> (r: bool)
    ensures
        r == spec_db_wf(db@),
{
    let n = db.tables.len();
    let mut i: usize = 0;
    while i < n
        invariant
            i <= n,
            forall|a: int, b: int|
                0 <= a < b < n && a < i ==> (#[trigger] db@.tables[a].0) != (
                #[trigger] db@.tables[b].0),
            forall|a: int| 0 <= a < i ==> spec_table_wf((#[trigger] db@.tables[a]).1),
        decreases n - i,
    {
        if !check_table_wf(&db.tables[i].1) {
            assert(db@.tables[i as int].1 == db.tables@[i as int].1.deep_view());
            assert(!spec_db_wf(db@));
            return false;
        }
        let mut j: usize = i + 1;
        while j < n
            invariant
                i < j <= n,
                forall|b: int| i < b < j ==> (#[trigger] db@.tables[b].0) != db@.tables[i as int].0,
            decreases n - j,
        {
            if db.tables[j].0 == db.tables[i].0 {
                assert(db@.tables[i as int].0 == db.tables@[i as int].0@);
                assert(db@.tables[j as int].0 == db.tables@[j as int].0@);
                assert(!spec_db_wf(db@));
                return false;
            }
            j += 1;
        }
        i += 1;
    }
    true
}

impl Database {
    /// A fresh database with no tables.
    pub fn new() -> (r: Database)
        ensures
            r@.tables == Seq::<(Seq<char>, SpecTable)>::empty(),
            r.wf(),
    {
        let r = Database { tables: Vec::new() };
        assert(r@.tables =~= Seq::<(Seq<char>, SpecTable)>::empty());
        r
    }

    /// The store's invariant: unique table names, well-formed tables.
    pub open spec fn wf(&self) -> bool {
        spec_db_wf(self@)
    }

    /// Executes one statement against the store, matching `spec_execute`.
    pub fn execute(&mut self, stmt: Statement) -> (r: ExecOutcome)
        requires
            old(self).wf(),
        ensures
            final(self)@ == spec_execute(old(self)@, stmt@).0,
            r@ == spec_execute(old(self)@, stmt@).1,
            final(self).wf(),
    {
        proof {
            lemma_execute_preserves_wf(old(self)@, stmt@);
        }
        match stmt {
            Statement::Insert(s) => self.execute_insert(s),
            Statement::Select(s) => self.execute_select(&s),
            Statement::Create(s) => self.execute_create(s),
            Statement::Delete(s) => self.execute_delete(s),
            Statement::Update(s) => self.execute_update(s),
        }
    }

    /// CREATE: a fresh table under the name; an existing table of that name
    /// is silently replaced, its data discarded.
    fn execute_create(&mut self, c: CreateTableStatement) -> (r: ExecOutcome)
        ensures
            final(self)@ == spec_execute_create(old(self)@, c@).0,
            r@ == spec_execute_create(old(self)@, c@).1,
    {
        let ghost db0 = self@;
        let table = Table { rows: Vec::new(), columns: c.columns };
        assert(table@.rows =~= Seq::<Seq<SpecValue>>::empty());
        match find_table_index(&self.tables, &c.table_name) {
            Some(i) => {
                let ghost name_v = c.table_name@;
                let _replaced = self.tables.remove(i);
                self.tables.insert(i, (c.table_name, table));
                assert(self@.tables =~= db0.tables.update(
                    i as int,
                    (name_v, SpecTable { rows: Seq::empty(), columns: c.columns.deep_view() }),
                ));
                ExecOutcome::Created
            },
            None => {
                let ghost name_v = c.table_name@;
                self.tables.push((c.table_name, table));
                assert(self@.tables =~= db0.tables.push(
                    (name_v, SpecTable { rows: Seq::empty(), columns: c.columns.deep_view() }),
                ));
                ExecOutcome::Created
            },
        }
    }

    /// INSERT: appends the values as one row, creating a table with no
    /// declared columns when the name is absent; a rejected row mutates
    /// nothing.
    fn execute_insert(&mut self, s: InsertStatement) -> (r: ExecOutcome)
        ensures
            final(self)@ == spec_execute_insert(old(self)@, s@).0,
            r@ == spec_execute_insert(old(self)@, s@).1,
    {
        let ghost db0 = self@;
        if !all_values_stored(&s.values) {
            return ExecOutcome::InvalidValues;
        }
        match find_table_index(&self.tables, &s.table_name) {
            Some(i) => {
                let ncols = self.tables[i].1.columns.len();
                if ncols > 0 && s.values.len() != ncols {
                    return ExecOutcome::ArityMismatch;
                }
                let ghost vals_v = s.values.deep_view();
                let (name, mut table) = self.tables.remove(i);
                let ghost t0 = table@;
                table.rows.push(s.values);
                assert(table@.rows =~= t0.rows.push(vals_v));
                self.tables.insert(i, (name, table));
                assert(self@.tables =~= db0.tables.update(
                    i as int,
                    (
                        db0.tables[i as int].0,
                        SpecTable { rows: t0.rows.push(vals_v), columns: t0.columns },
                    ),
                ));
                ExecOutcome::Inserted
            },
            None => {
                let ghost vals_v = s.values.deep_view();
                let mut rows: Vec<Vec<Value>> = Vec::new();
                rows.push(s.values);
                assert(rows.deep_view() =~= seq![vals_v]);
                let table = Table { rows, columns: Vec::new() };
                assert(table@.columns =~= Seq::<Seq<char>>::empty());
                self.tables.push((s.table_name, table));
                assert(self@.tables =~= db0.tables.push(
                    (s.table_name@, SpecTable { rows: seq![vals_v], columns: Seq::empty() }),
                ));
                ExecOutcome::Inserted
            },
        }
    }

    /// DELETE: removes every row the condition selects, keeping the order
    /// of the rest; an empty condition removes nothing.
    #[verifier::loop_isolation(false)]
    fn execute_delete(&mut self, s: DeleteStatement) -> (r: ExecOutcome)
        ensures
            final(self)@ == spec_execute_delete(old(self)@, s@).0,
            r@ == spec_execute_delete(old(self)@, s@).1,
    {
        let ghost db0 = self@;
        let ti = match find_table_index(&self.tables, &s.table_name) {
            None => {
                return ExecOutcome::TableNotFound;
            },
            Some(ti) => ti,
        };
        let cond = match s.condition {
            None => {
                return ExecOutcome::NothingToDelete;
            },
            Some(cond) => cond,
        };
        let ghost scond = cond@;
        let ix = resolve_column(&self.tables[ti].1.columns, &cond.column);
        let (name, table) = self.tables.remove(ti);
        let Table { rows, columns } = table;
        let ghost crows = rows.deep_view();
        let ghost ccols = columns.deep_view();
        assert(ix as int == spec_resolve_column(ccols, scond.column));
        let mut kept: Vec<Vec<Value>> = Vec::new();
        assert(kept.deep_view() =~= spec_kept_rows(ccols, crows.take(0), scond));
        let mut k: usize = 0;
        while k < rows.len()
            invariant
                k <= rows.len(),
                kept@.len() <= k,
                kept.deep_view() == spec_kept_rows(ccols, crows.take(k as int), scond),
            decreases rows.len() - k,
        {
            let row = &rows[k];
            let matched = ix < row.len() && value_eq(&row[ix], &cond.value);
            assert(matched == spec_row_matches(ccols, crows[k as int], scond));
            let ghost kept0 = kept.deep_view();
            if !matched {
                let copied = copy_row(row);
                kept.push(copied);
                assert(kept.deep_view() =~= kept0.push(crows[k as int]));
            }
            proof {
                assert(crows.take(k + 1 as int).drop_last() =~= crows.take(k as int));
                assert(crows.take(k + 1 as int).last() == crows[k as int]);
            }
            k += 1;
        }
        assert(crows.take(rows.len() as int) =~= crows);
        let count = rows.len() - kept.len();
        self.tables.insert(ti, (name, Table { rows: kept, columns }));
        assert(self@.tables =~= db0.tables.update(
            ti as int,
            (
                db0.tables[ti as int].0,
                SpecTable { rows: spec_kept_rows(ccols, crows, scond), columns: ccols },
            ),
        ));
        ExecOutcome::Deleted { count }
    }

    /// UPDATE: writes the literal into the resolved target cell of every
    /// row the condition selects, and reports how many rows were touched.
    #[verifier::loop_isolation(false)]
    fn execute_update(&mut self, s: UpdateStatement) -> (r: ExecOutcome)
        ensures
            final(self)@ == spec_execute_update(old(self)@, s@).0,
            r@ == spec_execute_update(old(self)@, s@).1,
    {
        let ghost db0 = self@;
        let ti = match find_table_index(&self.tables, &s.table_name) {
            None => {
                return ExecOutcome::TableNotFound;
            },
            Some(ti) => ti,
        };
        match &s.set_clause.value {
            Value::Int(_) => {},
            Value::Str(_) => {},
            _ => {
                return ExecOutcome::InvalidValues;
            },
        }
        let ghost scond = s.condition.deep_view();
        let ghost sv = s.set_clause.value@;
        let set_ix = resolve_column(&self.tables[ti].1.columns, &s.set_clause.column);
        let cond_ix: usize = match &s.condition {
            Some(c) => resolve_column(&self.tables[ti].1.columns, &c.column),
            None => 0,
        };
        let (name, table) = self.tables.remove(ti);
        let Table { rows, columns } = table;
        let ghost crows = rows.deep_view();
        let ghost ccols = columns.deep_view();
        assert(set_ix as int == spec_resolve_column(ccols, s.set_clause.column@));
        let mut new_rows: Vec<Vec<Value>> = Vec::new();
        let mut count: usize = 0;
        assert(count as int == spec_update_count(ccols, crows.take(0), set_ix as int, scond));
        let mut k: usize = 0;
        while k < rows.len()
            invariant
                k <= rows.len(),
                count <= k,
                new_rows@.len() == k,
                forall|m: int|
                    0 <= m < k ==> new_rows.deep_view()[m] == spec_updated_row(
                        ccols,
                        crows[m],
                        set_ix as int,
                        sv,
                        scond,
                    ),
                count as int == spec_update_count(ccols, crows.take(k as int), set_ix as int, scond),
            decreases rows.len() - k,
        {
            let row = &rows[k];
            let cond_holds = match &s.condition {
                Some(c) => cond_ix < row.len() && value_eq(&row[cond_ix], &c.value),
                None => true,
            };
            assert(cond_holds == spec_cond_holds(ccols, crows[k as int], scond));
            let applies = cond_holds && set_ix < row.len();
            if applies {
                let mut nr: Vec<Value> = Vec::new();
                let mut j: usize = 0;
                while j < row.len()
                    invariant
                        j <= row.len(),
                        nr@.len() == j,
                        forall|m: int|
                            0 <= m < j ==> nr.deep_view()[m] == (if m == set_ix as int {
                                sv
                            } else {
                                crows[k as int][m]
                            }),
                    decreases row.len() - j,
                {
                    let ghost nr0 = nr.deep_view();
                    if j == set_ix {
                        nr.push(value_copy(&s.set_clause.value));
                        assert(nr.deep_view() =~= nr0.push(sv));
                    } else {
                        nr.push(value_copy(&row[j]));
                        assert(nr.deep_view() =~= nr0.push(crows[k as int][j as int]));
                    }
                    j += 1;
                }
                assert(nr.deep_view() =~= crows[k as int].update(set_ix as int, sv));
                let ghost nrs0 = new_rows.deep_view();
                new_rows.push(nr);
                assert(new_rows.deep_view() =~= nrs0.push(
                    crows[k as int].update(set_ix as int, sv),
                ));
                count += 1;
            } else {
                let ghost nrs0 = new_rows.deep_view();
                new_rows.push(copy_row(row));
                assert(new_rows.deep_view() =~= nrs0.push(crows[k as int]));
            }
            proof {
                assert(crows.take(k + 1 as int).drop_last() =~= crows.take(k as int));
                assert(crows.take(k + 1 as int).last() == crows[k as int]);
            }
            k += 1;
        }
        assert(crows.take(rows.len() as int) =~= crows);
        let ghost expected_rows = Seq::new(
            crows.len(),
            |r: int| spec_updated_row(ccols, crows[r], set_ix as int, sv, scond),
        );
        assert(new_rows.deep_view() =~= expected_rows);
        self.tables.insert(ti, (name, Table { rows: new_rows, columns }));
        assert(self@.tables =~= db0.tables.update(
            ti as int,
            (db0.tables[ti as int].0, SpecTable { rows: expected_rows, columns: ccols }),
        ));
        ExecOutcome::Updated { count }
    }

    /// SELECT: renders headers and one line of cells per stored row; the
    /// store is never mutated.
    #[verifier::loop_isolation(false)]
    fn execute_select(&self, s: &SelectStatement) -> (r: ExecOutcome)
        ensures
            r@ == spec_execute_select(self@, s@),
    {
        let ti = match find_table_index(&self.tables, &s.table_name) {
            None => {
                return ExecOutcome::TableNotFound;
            },
            Some(ti) => ti,
        };
        let table = &self.tables[ti].1;
        let ghost ct = self@.tables[ti as int].1;
        let nrows = table.rows.len();
        if nrows == 0 {
            return ExecOutcome::EmptyTable;
        }
        let star = s.values.len() == 1 && matches!(&s.values[0], Value::Star);
        if star {
            let headers = if table.columns.len() > 0 {
                copy_strings(&table.columns)
            } else {
                let w = table.rows[0].len();
                let mut hs: Vec<String> = Vec::new();
                let mut j: usize = 0;
                while j < w
                    invariant
                        j <= w,
                        hs@.len() == j,
                        forall|m: int|
                            0 <= m < j ==> hs.deep_view()[m] == seq!['c', 'o', 'l']
                                + spec_nat_str(m),
                    decreases w - j,
                {
                    let ghost hs0 = hs.deep_view();
                    hs.push(make_col_name(j as u64));
                    assert(hs.deep_view() =~= hs0.push(seq!['c', 'o', 'l'] + spec_nat_str(j as int)));
                    j += 1;
                }
                assert(hs.deep_view() =~= spec_synth_headers(ct.rows[0].len()));
                hs
            };
            let mut out: Vec<Vec<String>> = Vec::new();
            let mut k: usize = 0;
            while k < nrows
                invariant
                    k <= nrows,
                    out@.len() == k,
                    forall|m: int|
                        0 <= m < k ==> out.deep_view()[m] == spec_render_row_all(ct.rows[m]),
                decreases nrows - k,
            {
                let row = &table.rows[k];
                let mut line: Vec<String> = Vec::new();
                let mut j: usize = 0;
                while j < row.len()
                    invariant
                        j <= row.len(),
                        line@.len() == j,
                        forall|m: int|
                            0 <= m < j ==> line.deep_view()[m] == spec_render_value(
                                ct.rows[k as int][m],
                            ),
                    decreases row.len() - j,
                {
                    let ghost line0 = line.deep_view();
                    line.push(render_value(&row[j]));
                    assert(line.deep_view() =~= line0.push(
                        spec_render_value(ct.rows[k as int][j as int]),
                    ));
                    j += 1;
                }
                assert(line.deep_view() =~= spec_render_row_all(ct.rows[k as int]));
                let ghost out0 = out.deep_view();
                out.push(line);
                assert(out.deep_view() =~= out0.push(spec_render_row_all(ct.rows[k as int])));
                k += 1;
            }
            assert(out.deep_view() =~= Seq::new(
                ct.rows.len(),
                |r: int| spec_render_row_all(ct.rows[r]),
            ));
            ExecOutcome::Selected { headers, rows: out }
        } else {
            let ghost svals = s.values.deep_view();
            let mut names: Vec<String> = Vec::new();
            assert(names.deep_view() =~= spec_proj_names(svals.take(0)));
            let mut k: usize = 0;
            while k < s.values.len()
                invariant
                    k <= svals.len(),
                    names.deep_view() == spec_proj_names(svals.take(k as int)),
                decreases s.values.len() - k,
            {
                let ghost names0 = names.deep_view();
                match &s.values[k] {
                    Value::Identifier(n) => {
                        names.push(n.clone());
                        assert(names.deep_view() =~= names0.push(n@));
                    },
                    _ => {},
                }
                proof {
                    assert(svals.take(k + 1 as int).drop_last() =~= svals.take(k as int));
                    assert(svals.take(k + 1 as int).last() == svals[k as int]);
                }
                k += 1;
            }
            assert(svals.take(s.values.len() as int) =~= svals);
            let ghost cnames = spec_proj_names(svals);
            assert(names.deep_view() == cnames);
            let mut headers: Vec<String> = Vec::new();
            let mut j: usize = 0;
            while j < names.len()
                invariant
                    j <= names.len(),
                    headers@.len() == j,
                    forall|m: int|
                        0 <= m < j ==> headers.deep_view()[m] == spec_header_for(
                            ct.columns,
                            cnames[m],
                        ),
                decreases names.len() - j,
            {
                let ghost hdr0 = headers.deep_view();
                assert(names.deep_view()[j as int] == names@[j as int]@);
                headers.push(header_for(&table.columns, &names[j]));
                assert(headers.deep_view() =~= hdr0.push(
                    spec_header_for(ct.columns, cnames[j as int]),
                ));
                j += 1;
            }
            assert(headers.deep_view() =~= Seq::new(
                cnames.len(),
                |m: int| spec_header_for(ct.columns, cnames[m]),
            ));
            let mut out: Vec<Vec<String>> = Vec::new();
            let mut k: usize = 0;
            while k < nrows
                invariant
                    k <= nrows,
                    out@.len() == k,
                    forall|m: int|
                        0 <= m < k ==> out.deep_view()[m] == Seq::new(
                            cnames.len(),
                            |j: int| spec_cell_for(ct.columns, ct.rows[m], cnames[j]),
                        ),
                decreases nrows - k,
            {
                let row = &table.rows[k];
                let mut line: Vec<String> = Vec::new();
                let mut j: usize = 0;
                while j < names.len()
                    invariant
                        j <= names.len(),
                        line@.len() == j,
                        forall|m: int|
                            0 <= m < j ==> line.deep_view()[m] == spec_cell_for(
                                ct.columns,
                                ct.rows[k as int],
                                cnames[m],
                            ),
                    decreases names.len() - j,
                {
                    let ghost line0 = line.deep_view();
                    assert(names.deep_view()[j as int] == names@[j as int]@);
                    line.push(cell_for(&table.columns, row, &names[j]));
                    assert(line.deep_view() =~= line0.push(
                        spec_cell_for(ct.columns, ct.rows[k as int], cnames[j as int]),
                    ));
                    j += 1;
                }
                assert(line.deep_view() =~= Seq::new(
                    cnames.len(),
                    |j: int| spec_cell_for(ct.columns, ct.rows[k as int], cnames[j]),
                ));
                let ghost out0 = out.deep_view();
                out.push(line);
                assert(out.deep_view() =~= out0.push(
                    Seq::new(
                        cnames.len(),
                        |j: int| spec_cell_for(ct.columns, ct.rows[k as int], cnames[j]),
                    ),
                ));
                k += 1;
            }
            assert(out.deep_view() =~= Seq::new(
                ct.rows.len(),
                |r: int|
                    Seq::new(
                        cnames.len(),
                        |j: int| spec_cell_for(ct.columns, ct.rows[r], cnames[j]),
                    ),
            ));
            ExecOutcome::Selected { headers, rows: out }
        }
    }
}

} // verus!
