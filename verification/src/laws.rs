//! Engine-wide laws, proved once and for all inputs: the positional
//! projection fallback, the exactness of DELETE, the harmlessness of a
//! missing table and of an empty DELETE condition.  The snapshot round-trip
//! law stands beside the codec as `codec::lemma_restore_of_snapshot`.

use vstd::prelude::*;
use crate::value::{SpecValue, spec_render_value};
use crate::ast::{SpecColumnValue, SpecSelectStatement, SpecDeleteStatement, SpecUpdateStatement, SpecStatement};
use crate::executor::{
    SpecDatabase, SpecOutcome, spec_execute, spec_execute_select, spec_execute_delete,
    spec_execute_update, spec_update_applies, spec_update_count, spec_find_table, spec_kept_rows,
    spec_row_matches, spec_col_position, spec_col_positional, spec_resolve_column,
};
use crate::codec::spec_snapshot;
use crate::digits::digits_val;

verus! {

/// Exact value-and-type equality: an integer cell never equals a text
/// literal, even when the text spells the same number.
pub proof fn lemma_value_type_sensitive(i: int, s: Seq<char>)
    ensures
        SpecValue::Int(i) != SpecValue::Str(s),
{
}

/// No surviving row of a DELETE matches its condition.
pub proof fn lemma_kept_rows_no_match(
    cols: Seq<Seq<char>>,
    rows: Seq<Seq<SpecValue>>,
    cond: SpecColumnValue,
)
    ensures
        forall|r: int|
            0 <= r < spec_kept_rows(cols, rows, cond).len() ==> !spec_row_matches(
                cols,
                #[trigger] spec_kept_rows(cols, rows, cond)[r],
                cond,
            ),
    decreases rows.len(),
{
    if rows.len() > 0 {
        lemma_kept_rows_no_match(cols, rows.drop_last(), cond);
        let rest = spec_kept_rows(cols, rows.drop_last(), cond);
        let kept = spec_kept_rows(cols, rows, cond);
        if !spec_row_matches(cols, rows.last(), cond) {
            assert(kept == rest.push(rows.last()));
            assert(forall|r: int| 0 <= r < rest.len() ==> kept[r] == #[trigger] rest[r]);
        }
    }
}

/// DELETE exactness: with a condition, exactly the rows whose resolved
/// cell equals the literal are removed; the survivors keep their order,
/// none of them matches, every other table is untouched, and the count is
/// the number of removed rows.
pub proof fn lemma_delete_exactness(db: SpecDatabase, s: SpecDeleteStatement, ti: int)
    requires
        spec_find_table(db, s.table_name) == Some(ti),
        0 <= ti < db.tables.len(),
        s.condition is Some,
    ensures
        ({
            let t = db.tables[ti].1;
            let cond = s.condition->0;
            let kept = spec_kept_rows(t.columns, t.rows, cond);
            let (db2, o) = spec_execute_delete(db, s);
            &&& db2.tables.len() == db.tables.len()
            &&& db2.tables[ti].1.rows == kept
            &&& db2.tables[ti].1.columns == t.columns
            &&& db2.tables[ti].0 == db.tables[ti].0
            &&& forall|j: int|
                0 <= j < db.tables.len() && j != ti ==> db2.tables[j] == #[trigger] db.tables[j]
            &&& forall|r: int|
                0 <= r < kept.len() ==> !spec_row_matches(t.columns, #[trigger] kept[r], cond)
            &&& o == SpecOutcome::Deleted { count: t.rows.len() - kept.len() }
        }),
{
    let t = db.tables[ti].1;
    let cond = s.condition->0;
    lemma_kept_rows_no_match(t.columns, t.rows, cond);
}

/// UPDATE scoping: with a condition, exactly the rows whose resolved cell
/// equals the literal (and whose target cell exists) take the new value;
/// every other row, and every other table, is untouched, and the count is
/// the number of rows written.
pub proof fn lemma_update_scoping(db: SpecDatabase, s: SpecUpdateStatement, ti: int)
    requires
        spec_find_table(db, s.table_name) == Some(ti),
        0 <= ti < db.tables.len(),
        crate::value::spec_value_stored(s.set_clause.value),
    ensures
        ({
            let t = db.tables[ti].1;
            let set_ix = spec_resolve_column(t.columns, s.set_clause.column);
            let (db2, o) = spec_execute_update(db, s);
            let new_rows = db2.tables[ti].1.rows;
            &&& db2.tables.len() == db.tables.len()
            &&& new_rows.len() == t.rows.len()
            &&& db2.tables[ti].1.columns == t.columns
            &&& db2.tables[ti].0 == db.tables[ti].0
            &&& forall|j: int|
                0 <= j < db.tables.len() && j != ti ==> db2.tables[j] == #[trigger] db.tables[j]
            &&& forall|r: int|
                0 <= r < t.rows.len() && spec_update_applies(t.columns, t.rows[r], set_ix, s.condition)
                    ==> #[trigger] new_rows[r] == t.rows[r].update(set_ix, s.set_clause.value)
            &&& forall|r: int|
                0 <= r < t.rows.len() && !spec_update_applies(t.columns, t.rows[r], set_ix, s.condition)
                    ==> #[trigger] new_rows[r] == t.rows[r]
            &&& o == SpecOutcome::Updated {
                count: spec_update_count(t.columns, t.rows, set_ix, s.condition),
            }
        }),
{
}

/// A statement that names an absent table (other than CREATE or INSERT,
/// which create it) reports the miss and leaves the database unchanged —
/// byte for byte in its snapshot form.
pub proof fn lemma_missing_table_no_op(db: SpecDatabase, stmt: SpecStatement)
    requires
        match stmt {
            SpecStatement::Select(s) => spec_find_table(db, s.table_name) is None,
            SpecStatement::Update(s) => spec_find_table(db, s.table_name) is None,
            SpecStatement::Delete(s) => spec_find_table(db, s.table_name) is None,
            _ => false,
        },
    ensures
        spec_execute(db, stmt).0 == db,
        spec_execute(db, stmt).1 == SpecOutcome::TableNotFound,
        spec_snapshot(spec_execute(db, stmt).0) == spec_snapshot(db),
{
}

/// DELETE with an empty condition performs zero removals: the database is
/// unchanged (deliberately asymmetric with UPDATE, where an empty
/// condition selects every row).
pub proof fn lemma_delete_empty_condition(db: SpecDatabase, s: SpecDeleteStatement)
    requires
        s.condition is None,
        spec_find_table(db, s.table_name) is Some,
    ensures
        spec_execute(db, SpecStatement::Delete(s)).0 == db,
        spec_execute(db, SpecStatement::Delete(s)).1 == SpecOutcome::NothingToDelete,
        spec_snapshot(spec_execute(db, SpecStatement::Delete(s)).0) == spec_snapshot(db),
{
}

/// Positional fallback: `SELECT col1 FROM t` on a table with no declared
/// columns and rows at least two cells wide yields the second cell of
/// every row, under the requested name as header.
pub proof fn lemma_positional_fallback(db: SpecDatabase, s: SpecSelectStatement, ti: int)
    requires
        spec_find_table(db, s.table_name) == Some(ti),
        0 <= ti < db.tables.len(),
        db.tables[ti].1.columns.len() == 0,
        db.tables[ti].1.rows.len() > 0,
        forall|r: int|
            0 <= r < db.tables[ti].1.rows.len() ==> (#[trigger] db.tables[ti].1.rows[r]).len()
                >= 2,
        s.values == seq![SpecValue::Identifier(seq!['c', 'o', 'l', '1'])],
    ensures
        ({
            let t = db.tables[ti].1;
            let out = spec_execute_select(db, s);
            &&& out matches SpecOutcome::Selected { headers, rows }
            &&& out->Selected_headers == seq![seq!['c', 'o', 'l', '1']]
            &&& out->Selected_rows.len() == t.rows.len()
            &&& forall|r: int|
                0 <= r < t.rows.len() ==> out->Selected_rows[r] == seq![
                    spec_render_value(#[trigger] t.rows[r][1]),
                ]
        }),
{
    let t = db.tables[ti].1;
    let name = seq!['c', 'o', 'l', '1'];
    assert(s.values.len() == 1);
    assert(s.values[0] == SpecValue::Identifier(name));
    assert(!(s.values[0] is Star));
    let names = crate::executor::spec_proj_names(s.values);
    assert(s.values.drop_last() =~= Seq::<SpecValue>::empty());
    assert(s.values.last() == SpecValue::Identifier(name));
    assert(crate::executor::spec_proj_names(Seq::<SpecValue>::empty())
        =~= Seq::<Seq<char>>::empty());
    assert(names =~= seq![name]);
    assert(spec_col_position(t.columns, name) is None);
    assert(name.subrange(0, 3) =~= seq!['c', 'o', 'l']);
    assert(digits_val(name.subrange(3, 4)) == 1) by {
        assert(name.subrange(3, 4).drop_last() =~= Seq::<char>::empty());
        assert(name.subrange(3, 4).last() == '1');
        assert(digits_val(Seq::<char>::empty()) == 0);
        assert(crate::digits::digit_val('1') == 1);
    }
    assert(spec_col_positional(name) == Some(1int));
    assert(spec_resolve_column(t.columns, name) == 1);
    let out = spec_execute_select(db, s);
    assert(out matches SpecOutcome::Selected { headers, rows });
    assert(out->Selected_headers =~= seq![name]);
    assert forall|r: int| 0 <= r < t.rows.len() implies out->Selected_rows[r] == seq![
        spec_render_value(t.rows[r][1]),
    ] by {
        assert(out->Selected_rows[r] =~= seq![spec_render_value(t.rows[r][1])]);
    }
}

} // verus!
