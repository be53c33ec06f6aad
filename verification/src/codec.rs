//! The persistence snapshot: the whole database as one byte buffer, and the
//! exact inverse.  Every count and length is eight little-endian bytes; text
//! is UTF-8 with a byte-length prefix; a cell is a one-byte tag and its
//! payload.  Restoring bytes that are not a well-formed snapshot yields an
//! empty database.

use vstd::prelude::*;
use vstd::bytes::{
    spec_u64_to_le_bytes, spec_u64_from_le_bytes, lemma_auto_spec_u64_to_from_le_bytes,
    u64_to_le_bytes, u64_from_le_bytes,
};
use vstd::slice::{slice_subrange, slice_to_vec};
use vstd::utf8::{
    encode_utf8, decode_utf8, valid_utf8, encode_utf8_valid_utf8, encode_utf8_decode_utf8,
};
use crate::value::{Value, SpecValue};
use crate::executor::{
    Table, SpecTable, Database, SpecDatabase, spec_db_wf,
};
use crate::text::string_from_utf8;

verus! {

/// The offset that maps a 32-bit signed integer into `[0, 2^32)`.
pub open spec fn int_offset() -> int {
    0x8000_0000
}

/// Eight little-endian bytes of a non-negative count.
pub open spec fn enc_u64(n: int) -> Seq<u8> {
    spec_u64_to_le_bytes(n as u64)
}

/// A byte-length prefix, then the UTF-8 bytes of the text.
pub open spec fn enc_str(s: Seq<char>) -> Seq<u8> {
    enc_u64(encode_utf8(s).len() as int) + encode_utf8(s)
}

/// One cell: a tag byte, then its payload.  Only integers and text are ever
/// stored, so only their tags decode; the remaining tags mark the
/// statement-only variants and are rejected by the decoder.
pub open spec fn enc_value(v: SpecValue) -> Seq<u8> {
    match v {
        SpecValue::Int(i) => seq![1u8] + enc_u64(i + int_offset()),
        SpecValue::Str(s) => seq![2u8] + enc_str(s),
        SpecValue::Star => seq![3u8],
        SpecValue::Identifier(s) => seq![4u8] + enc_str(s),
    }
}

/// The cells of one row, in order.
pub open spec fn enc_values(vs: Seq<SpecValue>) -> Seq<u8>
    decreases vs.len(),
{
    if vs.len() == 0 {
        Seq::empty()
    } else {
        enc_value(vs[0]) + enc_values(vs.drop_first())
    }
}

/// One row: a cell count, then the cells.
pub open spec fn enc_row(row: Seq<SpecValue>) -> Seq<u8> {
    enc_u64(row.len() as int) + enc_values(row)
}

/// The column names, in order.
pub open spec fn enc_strs(ss: Seq<Seq<char>>) -> Seq<u8>
    decreases ss.len(),
{
    if ss.len() == 0 {
        Seq::empty()
    } else {
        enc_str(ss[0]) + enc_strs(ss.drop_first())
    }
}

/// The rows, in order.
pub open spec fn enc_rows(rows: Seq<Seq<SpecValue>>) -> Seq<u8>
    decreases rows.len(),
{
    if rows.len() == 0 {
        Seq::empty()
    } else {
        enc_row(rows[0]) + enc_rows(rows.drop_first())
    }
}

/// One table: column count, columns, row count, rows.
pub open spec fn enc_table(t: SpecTable) -> Seq<u8> {
    enc_u64(t.columns.len() as int) + enc_strs(t.columns) + enc_u64(t.rows.len() as int)
        + enc_rows(t.rows)
}

/// The named tables, in order.
pub open spec fn enc_tables(ts: Seq<(Seq<char>, SpecTable)>) -> Seq<u8>
    decreases ts.len(),
{
    if ts.len() == 0 {
        Seq::empty()
    } else {
        enc_str(ts[0].0) + enc_table(ts[0].1) + enc_tables(ts.drop_first())
    }
}

/// The whole snapshot: a table count, then each named table.
pub open spec fn spec_snapshot(db: SpecDatabase) -> Seq<u8> {
    enc_u64(db.tables.len() as int) + enc_tables(db.tables)
}

/// Reads eight little-endian bytes at `pos`.
pub open spec fn dec_u64(b: Seq<u8>, pos: int) -> Option<(int, int)> {
    if 0 <= pos && pos + 8 <= b.len() {
        Some((spec_u64_from_le_bytes(b.subrange(pos, pos + 8)) as int, pos + 8))
    } else {
        None
    }
}

/// Reads a length-prefixed UTF-8 text at `pos`.
pub open spec fn dec_str(b: Seq<u8>, pos: int) -> Option<(Seq<char>, int)> {
    match dec_u64(b, pos) {
        None => None,
        Some((len, p)) => if p + len <= b.len() && valid_utf8(b.subrange(p, p + len)) {
            Some((decode_utf8(b.subrange(p, p + len)), p + len))
        } else {
            None
        },
    }
}

/// Reads one cell at `pos`: only stored values (integer, text) decode.
pub open spec fn dec_value(b: Seq<u8>, pos: int) -> Option<(SpecValue, int)> {
    if 0 <= pos && pos < b.len() {
        if b[pos] == 1u8 {
            match dec_u64(b, pos + 1) {
                Some((n, p)) => if n < 0x1_0000_0000 {
                    Some((SpecValue::Int(n - int_offset()), p))
                } else {
                    None
                },
                None => None,
            }
        } else if b[pos] == 2u8 {
            match dec_str(b, pos + 1) {
                Some((s, p)) => Some((SpecValue::Str(s), p)),
                None => None,
            }
        } else {
            None
        }
    } else {
        None
    }
}

/// Reads `n` cells at `pos`.
pub open spec fn dec_values(b: Seq<u8>, pos: int, n: nat) -> Option<(Seq<SpecValue>, int)>
    decreases n,
{
    if n == 0 {
        Some((Seq::empty(), pos))
    } else {
        match dec_value(b, pos) {
            Some((v, p)) => match dec_values(b, p, (n - 1) as nat) {
                Some((vs, p2)) => Some((seq![v] + vs, p2)),
                None => None,
            },
            None => None,
        }
    }
}

/// Reads one row at `pos`.
pub open spec fn dec_row(b: Seq<u8>, pos: int) -> Option<(Seq<SpecValue>, int)> {
    match dec_u64(b, pos) {
        Some((n, p)) => dec_values(b, p, n as nat),
        None => None,
    }
}

/// Reads `n` texts at `pos`.
pub open spec fn dec_strs(b: Seq<u8>, pos: int, n: nat) -> Option<(Seq<Seq<char>>, int)>
    decreases n,
{
    if n == 0 {
        Some((Seq::empty(), pos))
    } else {
        match dec_str(b, pos) {
            Some((s, p)) => match dec_strs(b, p, (n - 1) as nat) {
                Some((ss, p2)) => Some((seq![s] + ss, p2)),
                None => None,
            },
            None => None,
        }
    }
}

/// Reads `n` rows at `pos`.
pub open spec fn dec_rows(b: Seq<u8>, pos: int, n: nat) -> Option<(Seq<Seq<SpecValue>>, int)>
    decreases n,
{
    if n == 0 {
        Some((Seq::empty(), pos))
    } else {
        match dec_row(b, pos) {
            Some((r, p)) => match dec_rows(b, p, (n - 1) as nat) {
                Some((rs, p2)) => Some((seq![r] + rs, p2)),
                None => None,
            },
            None => None,
        }
    }
}

/// Reads one table at `pos`.
pub open spec fn dec_table(b: Seq<u8>, pos: int) -> Option<(SpecTable, int)> {
    match dec_u64(b, pos) {
        None => None,
        Some((ncols, p1)) => match dec_strs(b, p1, ncols as nat) {
            None => None,
            Some((cols, p2)) => match dec_u64(b, p2) {
                None => None,
                Some((nrows, p3)) => match dec_rows(b, p3, nrows as nat) {
                    None => None,
                    Some((rows, p4)) => Some((SpecTable { rows, columns: cols }, p4)),
                },
            },
        },
    }
}

/// Reads `n` named tables at `pos`.
pub open spec fn dec_tables(b: Seq<u8>, pos: int, n: nat) -> Option<
    (Seq<(Seq<char>, SpecTable)>, int),
>
    decreases n,
{
    if n == 0 {
        Some((Seq::empty(), pos))
    } else {
        match dec_str(b, pos) {
            None => None,
            Some((name, p1)) => match dec_table(b, p1) {
                None => None,
                Some((t, p2)) => match dec_tables(b, p2, (n - 1) as nat) {
                    Some((ts, p3)) => Some((seq![(name, t)] + ts, p3)),
                    None => None,
                },
            },
        }
    }
}

/// The database a byte buffer restores to: the decoded store, provided the
/// whole buffer is consumed and the result is well formed.
pub open spec fn spec_restore(b: Seq<u8>) -> Option<SpecDatabase> {
    match dec_u64(b, 0) {
        None => None,
        Some((n, p)) => match dec_tables(b, p, n as nat) {
            None => None,
            Some((ts, p2)) => if p2 == b.len() && spec_db_wf(SpecDatabase { tables: ts }) {
                Some(SpecDatabase { tables: ts })
            } else {
                None
            },
        },
    }
}

/// Text whose UTF-8 encoding fits a length prefix.
pub open spec fn spec_str_ok(s: Seq<char>) -> bool {
    encode_utf8(s).len() <= u64::MAX
}

/// A storable value whose encoding decodes back: an integer in 32-bit
/// signed range, or text with a bounded encoding.
pub open spec fn spec_value_ok(v: SpecValue) -> bool {
    match v {
        SpecValue::Int(i) => i32::MIN <= i <= i32::MAX,
        SpecValue::Str(s) => spec_str_ok(s),
        _ => false,
    }
}

/// A row whose encoding decodes back.
pub open spec fn spec_enc_row_ok(row: Seq<SpecValue>) -> bool {
    row.len() <= u64::MAX && forall|i: int| 0 <= i < row.len() ==> spec_value_ok(#[trigger] row[i])
}

/// A table whose encoding decodes back.
pub open spec fn spec_enc_table_ok(t: SpecTable) -> bool {
    &&& t.columns.len() <= u64::MAX
    &&& forall|i: int| 0 <= i < t.columns.len() ==> spec_str_ok(#[trigger] t.columns[i])
    &&& t.rows.len() <= u64::MAX
    &&& forall|i: int| 0 <= i < t.rows.len() ==> spec_enc_row_ok(#[trigger] t.rows[i])
}

/// A database whose snapshot decodes back; every value built from the
/// executable types satisfies these bounds, which only rule out
/// mathematical models too large for any machine.
pub open spec fn spec_snapshot_bounded(db: SpecDatabase) -> bool {
    &&& db.tables.len() <= u64::MAX
    &&& forall|i: int| 0 <= i < db.tables.len() ==> spec_str_ok((#[trigger] db.tables[i]).0)
    &&& forall|i: int| 0 <= i < db.tables.len() ==> spec_enc_table_ok((#[trigger] db.tables[i]).1)
}

pub proof fn lemma_enc_values_snoc(vs: Seq<SpecValue>, x: SpecValue)
    ensures
        enc_values(vs.push(x)) == enc_values(vs) + enc_value(x),
    decreases vs.len(),
{
    if vs.len() == 0 {
        assert(vs.push(x)[0] == x);
        assert(vs.push(x).drop_first() =~= Seq::<SpecValue>::empty());
        assert(enc_values(vs.push(x)) == enc_value(x) + enc_values(vs.push(x).drop_first()));
        assert(enc_values(vs.push(x)) =~= enc_values(vs) + enc_value(x));
    } else {
        assert(vs.push(x)[0] == vs[0]);
        assert(vs.push(x).drop_first() =~= vs.drop_first().push(x));
        lemma_enc_values_snoc(vs.drop_first(), x);
        assert(enc_values(vs.push(x)) == enc_value(vs[0]) + enc_values(vs.drop_first().push(x)));
        assert(enc_values(vs.push(x)) =~= enc_values(vs) + enc_value(x));
    }
}

pub proof fn lemma_enc_strs_snoc(ss: Seq<Seq<char>>, x: Seq<char>)
    ensures
        enc_strs(ss.push(x)) == enc_strs(ss) + enc_str(x),
    decreases ss.len(),
{
    if ss.len() == 0 {
        assert(ss.push(x)[0] == x);
        assert(ss.push(x).drop_first() =~= Seq::<Seq<char>>::empty());
        assert(enc_strs(ss.push(x)) == enc_str(x) + enc_strs(ss.push(x).drop_first()));
        assert(enc_strs(ss.push(x)) =~= enc_strs(ss) + enc_str(x));
    } else {
        assert(ss.push(x)[0] == ss[0]);
        assert(ss.push(x).drop_first() =~= ss.drop_first().push(x));
        lemma_enc_strs_snoc(ss.drop_first(), x);
        assert(enc_strs(ss.push(x)) == enc_str(ss[0]) + enc_strs(ss.drop_first().push(x)));
        assert(enc_strs(ss.push(x)) =~= enc_strs(ss) + enc_str(x));
    }
}

pub proof fn lemma_enc_rows_snoc(rs: Seq<Seq<SpecValue>>, x: Seq<SpecValue>)
    ensures
        enc_rows(rs.push(x)) == enc_rows(rs) + enc_row(x),
    decreases rs.len(),
{
    if rs.len() == 0 {
        assert(rs.push(x)[0] == x);
        assert(rs.push(x).drop_first() =~= Seq::<Seq<SpecValue>>::empty());
        assert(enc_rows(rs.push(x)) == enc_row(x) + enc_rows(rs.push(x).drop_first()));
        assert(enc_rows(rs.push(x)) =~= enc_rows(rs) + enc_row(x));
    } else {
        assert(rs.push(x)[0] == rs[0]);
        assert(rs.push(x).drop_first() =~= rs.drop_first().push(x));
        lemma_enc_rows_snoc(rs.drop_first(), x);
        assert(enc_rows(rs.push(x)) == enc_row(rs[0]) + enc_rows(rs.drop_first().push(x)));
        assert(enc_rows(rs.push(x)) =~= enc_rows(rs) + enc_row(x));
    }
}

pub proof fn lemma_enc_tables_snoc(ts: Seq<(Seq<char>, SpecTable)>, x: (Seq<char>, SpecTable))
    ensures
        enc_tables(ts.push(x)) == enc_tables(ts) + enc_str(x.0) + enc_table(x.1),
    decreases ts.len(),
{
    if ts.len() == 0 {
        assert(ts.push(x)[0] == x);
        assert(ts.push(x).drop_first() =~= Seq::<(Seq<char>, SpecTable)>::empty());
        assert(enc_tables(ts.push(x)) == enc_str(x.0) + enc_table(x.1) + enc_tables(
            ts.push(x).drop_first(),
        ));
        assert(enc_tables(ts.push(x)) =~= enc_tables(ts) + enc_str(x.0) + enc_table(x.1));
    } else {
        assert(ts.push(x)[0] == ts[0]);
        assert(ts.push(x).drop_first() =~= ts.drop_first().push(x));
        lemma_enc_tables_snoc(ts.drop_first(), x);
        assert(enc_tables(ts.push(x)) == enc_str(ts[0].0) + enc_table(ts[0].1) + enc_tables(
            ts.drop_first().push(x),
        ));
        assert(enc_tables(ts.push(x)) =~= enc_tables(ts) + enc_str(x.0) + enc_table(x.1));
    }
}

pub proof fn lemma_dec_u64_of_enc(b: Seq<u8>, pos: int, n: int)
    requires
        0 <= n <= u64::MAX,
        0 <= pos,
        pos + 8 <= b.len(),
        b.subrange(pos, pos + 8) == enc_u64(n),
    ensures
        dec_u64(b, pos) == Some((n, pos + 8)),
{
    lemma_auto_spec_u64_to_from_le_bytes();
}

pub proof fn lemma_dec_str_of_enc(b: Seq<u8>, pos: int, s: Seq<char>)
    requires
        spec_str_ok(s),
        0 <= pos,
        pos + enc_str(s).len() <= b.len(),
        b.subrange(pos, pos + enc_str(s).len()) == enc_str(s),
    ensures
        dec_str(b, pos) == Some((s, pos + enc_str(s).len())),
{
    lemma_auto_spec_u64_to_from_le_bytes();
    let u = encode_utf8(s);
    let l = u.len() as int;
    assert(b.subrange(pos, pos + 8) =~= enc_u64(l)) by {
        assert(forall|k: int|
            0 <= k < 8 ==> b.subrange(pos, pos + enc_str(s).len())[k] == #[trigger] b.subrange(
                pos,
                pos + 8,
            )[k]);
    }
    lemma_dec_u64_of_enc(b, pos, l);
    assert(b.subrange(pos + 8, pos + 8 + l) =~= u) by {
        assert(forall|k: int|
            0 <= k < l ==> b.subrange(pos, pos + enc_str(s).len())[8 + k] == #[trigger] b.subrange(
                pos + 8,
                pos + 8 + l,
            )[k]);
    }
    encode_utf8_valid_utf8(s);
    encode_utf8_decode_utf8(s);
}

pub proof fn lemma_dec_value_of_enc(b: Seq<u8>, pos: int, v: SpecValue)
    requires
        spec_value_ok(v),
        0 <= pos,
        pos + enc_value(v).len() <= b.len(),
        b.subrange(pos, pos + enc_value(v).len()) == enc_value(v),
    ensures
        dec_value(b, pos) == Some((v, pos + enc_value(v).len())),
{
    lemma_auto_spec_u64_to_from_le_bytes();
    let e = enc_value(v);
    assert(b[pos] == e[0]) by {
        assert(b.subrange(pos, pos + e.len())[0] == b[pos]);
    }
    match v {
        SpecValue::Int(i) => {
            assert(b[pos] == 1u8);
            assert(b.subrange(pos + 1, pos + 9) =~= enc_u64(i + int_offset())) by {
                assert(forall|k: int|
                    0 <= k < 8 ==> b.subrange(pos, pos + e.len())[1 + k] == #[trigger] b.subrange(
                        pos + 1,
                        pos + 9,
                    )[k]);
            }
            lemma_dec_u64_of_enc(b, pos + 1, i + int_offset());
        },
        SpecValue::Str(s) => {
            assert(b[pos] == 2u8);
            assert(b.subrange(pos + 1, pos + 1 + enc_str(s).len()) =~= enc_str(s)) by {
                assert(forall|k: int|
                    0 <= k < enc_str(s).len() ==> b.subrange(pos, pos + e.len())[1 + k]
                        == #[trigger] b.subrange(pos + 1, pos + 1 + enc_str(s).len())[k]);
            }
            lemma_dec_str_of_enc(b, pos + 1, s);
        },
        _ => {},
    }
}

pub proof fn lemma_dec_values_of_enc(b: Seq<u8>, pos: int, vs: Seq<SpecValue>)
    requires
        forall|i: int| 0 <= i < vs.len() ==> spec_value_ok(#[trigger] vs[i]),
        0 <= pos,
        pos + enc_values(vs).len() <= b.len(),
        b.subrange(pos, pos + enc_values(vs).len()) == enc_values(vs),
    ensures
        dec_values(b, pos, vs.len()) == Some((vs, pos + enc_values(vs).len())),
    decreases vs.len(),
{
    lemma_auto_spec_u64_to_from_le_bytes();
    if vs.len() > 0 {
        let e0 = enc_value(vs[0]);
        let rest = enc_values(vs.drop_first());
        assert(enc_values(vs) == e0 + rest);
        assert(b.subrange(pos, pos + e0.len()) =~= e0) by {
            assert(forall|k: int|
                0 <= k < e0.len() ==> b.subrange(pos, pos + enc_values(vs).len())[k]
                    == #[trigger] b.subrange(pos, pos + e0.len())[k]);
        }
        lemma_dec_value_of_enc(b, pos, vs[0]);
        assert(b.subrange(pos + e0.len(), pos + e0.len() + rest.len()) =~= rest) by {
            assert(forall|k: int|
                0 <= k < rest.len() ==> b.subrange(pos, pos + enc_values(vs).len())[e0.len() + k]
                    == #[trigger] b.subrange(pos + e0.len(), pos + e0.len() + rest.len())[k]);
        }
        lemma_dec_values_of_enc(b, pos + e0.len(), vs.drop_first());
        assert(seq![vs[0]] + vs.drop_first() =~= vs);
    }
}

pub proof fn lemma_dec_strs_of_enc(b: Seq<u8>, pos: int, ss: Seq<Seq<char>>)
    requires
        forall|i: int| 0 <= i < ss.len() ==> spec_str_ok(#[trigger] ss[i]),
        0 <= pos,
        pos + enc_strs(ss).len() <= b.len(),
        b.subrange(pos, pos + enc_strs(ss).len()) == enc_strs(ss),
    ensures
        dec_strs(b, pos, ss.len()) == Some((ss, pos + enc_strs(ss).len())),
    decreases ss.len(),
{
    lemma_auto_spec_u64_to_from_le_bytes();
    if ss.len() > 0 {
        let e0 = enc_str(ss[0]);
        let rest = enc_strs(ss.drop_first());
        assert(enc_strs(ss) == e0 + rest);
        assert(b.subrange(pos, pos + e0.len()) =~= e0) by {
            assert(forall|k: int|
                0 <= k < e0.len() ==> b.subrange(pos, pos + enc_strs(ss).len())[k] == #[trigger] b.subrange(
                    pos,
                    pos + e0.len(),
                )[k]);
        }
        lemma_dec_str_of_enc(b, pos, ss[0]);
        assert(b.subrange(pos + e0.len(), pos + e0.len() + rest.len()) =~= rest) by {
            assert(forall|k: int|
                0 <= k < rest.len() ==> b.subrange(pos, pos + enc_strs(ss).len())[e0.len() + k]
                    == #[trigger] b.subrange(pos + e0.len(), pos + e0.len() + rest.len())[k]);
        }
        lemma_dec_strs_of_enc(b, pos + e0.len(), ss.drop_first());
        assert(seq![ss[0]] + ss.drop_first() =~= ss);
    }
}

pub proof fn lemma_dec_row_of_enc(b: Seq<u8>, pos: int, row: Seq<SpecValue>)
    requires
        spec_enc_row_ok(row),
        0 <= pos,
        pos + enc_row(row).len() <= b.len(),
        b.subrange(pos, pos + enc_row(row).len()) == enc_row(row),
    ensures
        dec_row(b, pos) == Some((row, pos + enc_row(row).len())),
{
    lemma_auto_spec_u64_to_from_le_bytes();
    assert(b.subrange(pos, pos + 8) =~= enc_u64(row.len() as int)) by {
        assert(forall|k: int|
            0 <= k < 8 ==> b.subrange(pos, pos + enc_row(row).len())[k] == #[trigger] b.subrange(
                pos,
                pos + 8,
            )[k]);
    }
    lemma_dec_u64_of_enc(b, pos, row.len() as int);
    let rest = enc_values(row);
    assert(b.subrange(pos + 8, pos + 8 + rest.len()) =~= rest) by {
        assert(forall|k: int|
            0 <= k < rest.len() ==> b.subrange(pos, pos + enc_row(row).len())[8 + k]
                == #[trigger] b.subrange(pos + 8, pos + 8 + rest.len())[k]);
    }
    lemma_dec_values_of_enc(b, pos + 8, row);
}

pub proof fn lemma_dec_rows_of_enc(b: Seq<u8>, pos: int, rs: Seq<Seq<SpecValue>>)
    requires
        forall|i: int| 0 <= i < rs.len() ==> spec_enc_row_ok(#[trigger] rs[i]),
        0 <= pos,
        pos + enc_rows(rs).len() <= b.len(),
        b.subrange(pos, pos + enc_rows(rs).len()) == enc_rows(rs),
    ensures
        dec_rows(b, pos, rs.len()) == Some((rs, pos + enc_rows(rs).len())),
    decreases rs.len(),
{
    lemma_auto_spec_u64_to_from_le_bytes();
    if rs.len() > 0 {
        let e0 = enc_row(rs[0]);
        let rest = enc_rows(rs.drop_first());
        assert(enc_rows(rs) == e0 + rest);
        assert(b.subrange(pos, pos + e0.len()) =~= e0) by {
            assert(forall|k: int|
                0 <= k < e0.len() ==> b.subrange(pos, pos + enc_rows(rs).len())[k] == #[trigger] b.subrange(
                    pos,
                    pos + e0.len(),
                )[k]);
        }
        lemma_dec_row_of_enc(b, pos, rs[0]);
        assert(b.subrange(pos + e0.len(), pos + e0.len() + rest.len()) =~= rest) by {
            assert(forall|k: int|
                0 <= k < rest.len() ==> b.subrange(pos, pos + enc_rows(rs).len())[e0.len() + k]
                    == #[trigger] b.subrange(pos + e0.len(), pos + e0.len() + rest.len())[k]);
        }
        lemma_dec_rows_of_enc(b, pos + e0.len(), rs.drop_first());
        assert(seq![rs[0]] + rs.drop_first() =~= rs);
    }
}

pub proof fn lemma_dec_table_of_enc(b: Seq<u8>, pos: int, t: SpecTable)
    requires
        spec_enc_table_ok(t),
        0 <= pos,
        pos + enc_table(t).len() <= b.len(),
        b.subrange(pos, pos + enc_table(t).len()) == enc_table(t),
    ensures
        dec_table(b, pos) == Some((t, pos + enc_table(t).len())),
{
    lemma_auto_spec_u64_to_from_le_bytes();
    let e = enc_table(t);
    let cs = enc_strs(t.columns);
    let rs = enc_rows(t.rows);
    let p1 = pos + 8;
    let p2 = p1 + cs.len();
    let p3 = p2 + 8;
    assert(b.subrange(pos, p1) =~= enc_u64(t.columns.len() as int)) by {
        assert(forall|k: int|
            0 <= k < 8 ==> b.subrange(pos, pos + e.len())[k] == #[trigger] b.subrange(pos, p1)[k]);
    }
    lemma_dec_u64_of_enc(b, pos, t.columns.len() as int);
    assert(b.subrange(p1, p2) =~= cs) by {
        assert(forall|k: int|
            0 <= k < cs.len() ==> b.subrange(pos, pos + e.len())[8 + k] == #[trigger] b.subrange(p1, p2)[k]);
    }
    lemma_dec_strs_of_enc(b, p1, t.columns);
    assert(b.subrange(p2, p3) =~= enc_u64(t.rows.len() as int)) by {
        assert(forall|k: int|
            0 <= k < 8 ==> b.subrange(pos, pos + e.len())[8 + cs.len() + k] == #[trigger] b.subrange(
                p2,
                p3,
            )[k]);
    }
    lemma_dec_u64_of_enc(b, p2, t.rows.len() as int);
    assert(b.subrange(p3, p3 + rs.len()) =~= rs) by {
        assert(forall|k: int|
            0 <= k < rs.len() ==> b.subrange(pos, pos + e.len())[16 + cs.len() + k] == #[trigger] b.subrange(
                p3,
                p3 + rs.len(),
            )[k]);
    }
    lemma_dec_rows_of_enc(b, p3, t.rows);
}

pub proof fn lemma_dec_tables_of_enc(b: Seq<u8>, pos: int, ts: Seq<(Seq<char>, SpecTable)>)
    requires
        forall|i: int| 0 <= i < ts.len() ==> spec_str_ok((#[trigger] ts[i]).0),
        forall|i: int| 0 <= i < ts.len() ==> spec_enc_table_ok((#[trigger] ts[i]).1),
        0 <= pos,
        pos + enc_tables(ts).len() <= b.len(),
        b.subrange(pos, pos + enc_tables(ts).len()) == enc_tables(ts),
    ensures
        dec_tables(b, pos, ts.len()) == Some((ts, pos + enc_tables(ts).len())),
    decreases ts.len(),
{
    lemma_auto_spec_u64_to_from_le_bytes();
    if ts.len() > 0 {
        let e0 = enc_str(ts[0].0);
        let e1 = enc_table(ts[0].1);
        let rest = enc_tables(ts.drop_first());
        assert(enc_tables(ts) == e0 + e1 + rest);
        assert(b.subrange(pos, pos + e0.len()) =~= e0) by {
            assert(forall|k: int|
                0 <= k < e0.len() ==> b.subrange(pos, pos + enc_tables(ts).len())[k]
                    == #[trigger] b.subrange(pos, pos + e0.len())[k]);
        }
        lemma_dec_str_of_enc(b, pos, ts[0].0);
        assert(b.subrange(pos + e0.len(), pos + e0.len() + e1.len()) =~= e1) by {
            assert(forall|k: int|
                0 <= k < e1.len() ==> b.subrange(pos, pos + enc_tables(ts).len())[e0.len() + k]
                    == #[trigger] b.subrange(pos + e0.len(), pos + e0.len() + e1.len())[k]);
        }
        lemma_dec_table_of_enc(b, pos + e0.len(), ts[0].1);
        let pr = pos + e0.len() + e1.len();
        assert(b.subrange(pr, pr + rest.len()) =~= rest) by {
            assert(forall|k: int|
                0 <= k < rest.len() ==> b.subrange(pos, pos + enc_tables(ts).len())[e0.len()
                    + e1.len() + k] == #[trigger] b.subrange(pr, pr + rest.len())[k]);
        }
        lemma_dec_tables_of_enc(b, pr, ts.drop_first());
        assert(seq![ts[0]] + ts.drop_first() =~= ts);
    }
}

/// Appends eight little-endian bytes.
fn write_u64(out: &mut Vec<u8>, v: u64)
    ensures
        final(out)@ == old(out)@ + enc_u64(v as int),
{
    let mut piece = u64_to_le_bytes(v);
    out.append(&mut piece);
}

/// Appends a length-prefixed UTF-8 text.
fn write_str(out: &mut Vec<u8>, s: &String)
    ensures
        final(out)@ == old(out)@ + enc_str(s@),
{
    let bytes = s.as_str().as_bytes();
    write_u64(out, bytes.len() as u64);
    let mut piece = slice_to_vec(bytes);
    out.append(&mut piece);
    assert(out@ =~= old(out)@ + enc_str(s@));
}

/// Appends one tagged cell.
fn write_value(out: &mut Vec<u8>, v: &Value)
    ensures
        final(out)@ == old(out)@ + enc_value(v@),
{
    match v {
        Value::Int(i) => {
            out.push(1u8);
            let n: u64 = ((*i as i64) + 0x8000_0000i64) as u64;
            write_u64(out, n);
            assert(out@ =~= old(out)@ + enc_value(v@));
        },
        Value::Str(s) => {
            out.push(2u8);
            write_str(out, s);
            assert(out@ =~= old(out)@ + enc_value(v@));
        },
        Value::Star => {
            out.push(3u8);
            assert(out@ =~= old(out)@ + enc_value(v@));
        },
        Value::Identifier(s) => {
            out.push(4u8);
            write_str(out, s);
            assert(out@ =~= old(out)@ + enc_value(v@));
        },
    }
}

/// Appends one row: its cell count, then its cells.
#[verifier::loop_isolation(false)]
fn write_row(out: &mut Vec<u8>, row: &Vec<Value>)
    ensures
        final(out)@ == old(out)@ + enc_row(row.deep_view()),
{
    let ghost rv = row.deep_view();
    write_u64(out, row.len() as u64);
    let mut k: usize = 0;
    while k < row.len()
        invariant
            k <= row.len(),
            out@ == old(out)@ + enc_u64(rv.len() as int) + enc_values(rv.take(k as int)),
        decreases row.len() - k,
    {
        write_value(out, &row[k]);
        proof {
            assert(row[k as int]@ == rv[k as int]);
            lemma_enc_values_snoc(rv.take(k as int), rv[k as int]);
            assert(rv.take(k + 1 as int) =~= rv.take(k as int).push(rv[k as int]));
            assert(out@ =~= old(out)@ + enc_u64(rv.len() as int) + enc_values(
                rv.take(k + 1 as int),
            ));
        }
        k += 1;
    }
    assert(rv.take(row.len() as int) =~= rv);
    assert(out@ =~= old(out)@ + enc_row(rv));
}

/// Appends one table: column count, columns, row count, rows.
#[verifier::loop_isolation(false)]
fn write_table(out: &mut Vec<u8>, t: &Table)
    ensures
        final(out)@ == old(out)@ + enc_table(t@),
{
    let ghost cols = t@.columns;
    let ghost rows = t@.rows;
    write_u64(out, t.columns.len() as u64);
    let mut k: usize = 0;
    while k < t.columns.len()
        invariant
            k <= t.columns.len(),
            out@ == old(out)@ + enc_u64(cols.len() as int) + enc_strs(cols.take(k as int)),
        decreases t.columns.len() - k,
    {
        write_str(out, &t.columns[k]);
        proof {
            assert(t.columns[k as int]@ == cols[k as int]);
            lemma_enc_strs_snoc(cols.take(k as int), cols[k as int]);
            assert(cols.take(k + 1 as int) =~= cols.take(k as int).push(cols[k as int]));
            assert(out@ =~= old(out)@ + enc_u64(cols.len() as int) + enc_strs(
                cols.take(k + 1 as int),
            ));
        }
        k += 1;
    }
    assert(cols.take(t.columns.len() as int) =~= cols);
    let ghost mid = out@;
    write_u64(out, t.rows.len() as u64);
    let mut k: usize = 0;
    while k < t.rows.len()
        invariant
            k <= t.rows.len(),
            out@ == mid + enc_u64(rows.len() as int) + enc_rows(rows.take(k as int)),
        decreases t.rows.len() - k,
    {
        write_row(out, &t.rows[k]);
        proof {
            assert(t.rows[k as int].deep_view() == rows[k as int]);
            lemma_enc_rows_snoc(rows.take(k as int), rows[k as int]);
            assert(rows.take(k + 1 as int) =~= rows.take(k as int).push(rows[k as int]));
            assert(out@ =~= mid + enc_u64(rows.len() as int) + enc_rows(rows.take(k + 1 as int)));
        }
        k += 1;
    }
    assert(rows.take(t.rows.len() as int) =~= rows);
    assert(out@ =~= old(out)@ + enc_table(t@));
}

/// Reads eight little-endian bytes at `pos`, matching `dec_u64`.
fn read_u64(bytes: &Vec<u8>, pos: usize) -> (r: Option<(u64, usize)>)
    ensures
        match r {
            Some(vp) => dec_u64(bytes@, pos as int) == Some((vp.0 as int, vp.1 as int)) && vp.1
                <= bytes.len(),
            None => dec_u64(bytes@, pos as int) is None,
        },
{
    if bytes.len() < 8 || pos > bytes.len() - 8 {
        return None;
    }
    let sl = slice_subrange(bytes.as_slice(), pos, pos + 8);
    let v = u64_from_le_bytes(sl);
    Some((v, pos + 8))
}

/// Reads a length-prefixed UTF-8 text at `pos`, matching `dec_str`.
fn read_string(bytes: &Vec<u8>, pos: usize) -> (r: Option<(String, usize)>)
    ensures
        match r {
            Some(sp) => dec_str(bytes@, pos as int) == Some((sp.0@, sp.1 as int)) && sp.1
                <= bytes.len(),
            None => dec_str(bytes@, pos as int) is None,
        },
{
    let (len64, p) = match read_u64(bytes, pos) {
        Some(x) => x,
        None => {
            return None;
        },
    };
    if len64 > (bytes.len() - p) as u64 {
        return None;
    }
    let len = len64 as usize;
    let sl = slice_subrange(bytes.as_slice(), p, p + len);
    let piece = slice_to_vec(sl);
    match string_from_utf8(piece) {
        Some(s) => Some((s, p + len)),
        None => None,
    }
}

/// Reads one tagged cell at `pos`, matching `dec_value`.
fn read_value(bytes: &Vec<u8>, pos: usize) -> (r: Option<(Value, usize)>)
    ensures
        match r {
            Some(vp) => dec_value(bytes@, pos as int) == Some((vp.0@, vp.1 as int)) && vp.1
                <= bytes.len(),
            None => dec_value(bytes@, pos as int) is None,
        },
{
    if pos >= bytes.len() {
        return None;
    }
    let tag = bytes[pos];
    if tag == 1 {
        match read_u64(bytes, pos + 1) {
            Some((n, p)) => if n < 0x1_0000_0000u64 {
                let i = ((n as i64) - 0x8000_0000i64) as i32;
                Some((Value::Int(i), p))
            } else {
                None
            },
            None => None,
        }
    } else if tag == 2 {
        match read_string(bytes, pos + 1) {
            Some((s, p)) => Some((Value::Str(s), p)),
            None => None,
        }
    } else {
        None
    }
}

/// Reads `n` cells at `pos`, matching `dec_values`.
#[verifier::loop_isolation(false)]
fn read_values(bytes: &Vec<u8>, pos: usize, n: u64) -> (r: Option<(Vec<Value>, usize)>)
    requires
        pos <= bytes.len(),
    ensures
        match r {
            Some(rp) => dec_values(bytes@, pos as int, n as nat) == Some(
                (rp.0.deep_view(), rp.1 as int),
            ) && rp.1 <= bytes.len(),
            None => dec_values(bytes@, pos as int, n as nat) is None,
        },
{
    let mut vals: Vec<Value> = Vec::new();
    let mut p = pos;
    let mut k: u64 = 0;
    assert(vals.deep_view() =~= Seq::<SpecValue>::empty());
    while k < n
        invariant
            k <= n,
            p <= bytes.len(),
            match dec_values(bytes@, p as int, (n - k) as nat) {
                Some(d) => dec_values(bytes@, pos as int, n as nat) == Some(
                    (vals.deep_view() + d.0, d.1),
                ),
                None => dec_values(bytes@, pos as int, n as nat) is None,
            },
        decreases n - k,
    {
        match read_value(bytes, p) {
            Some((v, p2)) => {
                let ghost old_vals = vals.deep_view();
                let ghost vv = v@;
                vals.push(v);
                assert(vals.deep_view() =~= old_vals.push(vv));
                p = p2;
                k += 1;
                proof {
                    match dec_values(bytes@, p as int, (n - k) as nat) {
                        Some(d) => {
                            assert(old_vals + (seq![vv] + d.0) =~= vals.deep_view() + d.0);
                        },
                        None => {},
                    }
                }
            },
            None => {
                return None;
            },
        }
    }
    assert(vals.deep_view() + Seq::<SpecValue>::empty() =~= vals.deep_view());
    Some((vals, p))
}

/// Reads `n` texts at `pos`, matching `dec_strs`.
#[verifier::loop_isolation(false)]
fn read_columns(bytes: &Vec<u8>, pos: usize, n: u64) -> (r: Option<(Vec<String>, usize)>)
    requires
        pos <= bytes.len(),
    ensures
        match r {
            Some(rp) => dec_strs(bytes@, pos as int, n as nat) == Some(
                (rp.0.deep_view(), rp.1 as int),
            ) && rp.1 <= bytes.len(),
            None => dec_strs(bytes@, pos as int, n as nat) is None,
        },
{
    let mut cols: Vec<String> = Vec::new();
    let mut p = pos;
    let mut k: u64 = 0;
    assert(cols.deep_view() =~= Seq::<Seq<char>>::empty());
    while k < n
        invariant
            k <= n,
            p <= bytes.len(),
            match dec_strs(bytes@, p as int, (n - k) as nat) {
                Some(d) => dec_strs(bytes@, pos as int, n as nat) == Some(
                    (cols.deep_view() + d.0, d.1),
                ),
                None => dec_strs(bytes@, pos as int, n as nat) is None,
            },
        decreases n - k,
    {
        match read_string(bytes, p) {
            Some((s, p2)) => {
                let ghost old_cols = cols.deep_view();
                let ghost sv = s@;
                cols.push(s);
                assert(cols.deep_view() =~= old_cols.push(sv));
                p = p2;
                k += 1;
                proof {
                    match dec_strs(bytes@, p as int, (n - k) as nat) {
                        Some(d) => {
                            assert(old_cols + (seq![sv] + d.0) =~= cols.deep_view() + d.0);
                        },
                        None => {},
                    }
                }
            },
            None => {
                return None;
            },
        }
    }
    assert(cols.deep_view() + Seq::<Seq<char>>::empty() =~= cols.deep_view());
    Some((cols, p))
}

/// Reads one row at `pos`, matching `dec_row`.
fn read_row(bytes: &Vec<u8>, pos: usize) -> (r: Option<(Vec<Value>, usize)>)
    ensures
        match r {
            Some(rp) => dec_row(bytes@, pos as int) == Some((rp.0.deep_view(), rp.1 as int))
                && rp.1 <= bytes.len(),
            None => dec_row(bytes@, pos as int) is None,
        },
{
    let (n, p) = match read_u64(bytes, pos) {
        Some(x) => x,
        None => {
            return None;
        },
    };
    read_values(bytes, p, n)
}

/// Reads `n` rows at `pos`, matching `dec_rows`.
#[verifier::loop_isolation(false)]
fn read_rows(bytes: &Vec<u8>, pos: usize, n: u64) -> (r: Option<(Vec<Vec<Value>>, usize)>)
    requires
        pos <= bytes.len(),
    ensures
        match r {
            Some(rp) => dec_rows(bytes@, pos as int, n as nat) == Some(
                (rp.0.deep_view(), rp.1 as int),
            ) && rp.1 <= bytes.len(),
            None => dec_rows(bytes@, pos as int, n as nat) is None,
        },
{
    let mut rows: Vec<Vec<Value>> = Vec::new();
    let mut p = pos;
    let mut k: u64 = 0;
    assert(rows.deep_view() =~= Seq::<Seq<SpecValue>>::empty());
    while k < n
        invariant
            k <= n,
            p <= bytes.len(),
            match dec_rows(bytes@, p as int, (n - k) as nat) {
                Some(d) => dec_rows(bytes@, pos as int, n as nat) == Some(
                    (rows.deep_view() + d.0, d.1),
                ),
                None => dec_rows(bytes@, pos as int, n as nat) is None,
            },
        decreases n - k,
    {
        match read_row(bytes, p) {
            Some((row, p2)) => {
                let ghost old_rows = rows.deep_view();
                let ghost rv = row.deep_view();
                rows.push(row);
                assert(rows.deep_view() =~= old_rows.push(rv));
                p = p2;
                k += 1;
                proof {
                    match dec_rows(bytes@, p as int, (n - k) as nat) {
                        Some(d) => {
                            assert(old_rows + (seq![rv] + d.0) =~= rows.deep_view() + d.0);
                        },
                        None => {},
                    }
                }
            },
            None => {
                return None;
            },
        }
    }
    assert(rows.deep_view() + Seq::<Seq<SpecValue>>::empty() =~= rows.deep_view());
    Some((rows, p))
}

/// Reads one table at `pos`, matching `dec_table`.
fn read_table(bytes: &Vec<u8>, pos: usize) -> (r: Option<(Table, usize)>)
    ensures
        match r {
            Some(rp) => dec_table(bytes@, pos as int) == Some((rp.0@, rp.1 as int)) && rp.1
                <= bytes.len(),
            None => dec_table(bytes@, pos as int) is None,
        },
{
    let (ncols, p1) = match read_u64(bytes, pos) {
        Some(x) => x,
        None => {
            return None;
        },
    };
    let (columns, p2) = match read_columns(bytes, p1, ncols) {
        Some(x) => x,
        None => {
            return None;
        },
    };
    let (nrows, p3) = match read_u64(bytes, p2) {
        Some(x) => x,
        None => {
            return None;
        },
    };
    let (rows, p4) = match read_rows(bytes, p3, nrows) {
        Some(x) => x,
        None => {
            return None;
        },
    };
    Some((Table { rows, columns }, p4))
}

/// Reads `n` named tables at `pos`, matching `dec_tables`.
#[verifier::loop_isolation(false)]
fn read_tables(bytes: &Vec<u8>, pos: usize, n: u64) -> (r: Option<
    (Vec<(String, Table)>, usize),
>)
    requires
        pos <= bytes.len(),
    ensures
        match r {
            Some(rp) => dec_tables(bytes@, pos as int, n as nat) == Some(
                (rp.0.deep_view(), rp.1 as int),
            ) && rp.1 <= bytes.len(),
            None => dec_tables(bytes@, pos as int, n as nat) is None,
        },
{
    let mut ts: Vec<(String, Table)> = Vec::new();
    let mut p = pos;
    let mut k: u64 = 0;
    assert(ts.deep_view() =~= Seq::<(Seq<char>, SpecTable)>::empty());
    while k < n
        invariant
            k <= n,
            p <= bytes.len(),
            match dec_tables(bytes@, p as int, (n - k) as nat) {
                Some(d) => dec_tables(bytes@, pos as int, n as nat) == Some(
                    (ts.deep_view() + d.0, d.1),
                ),
                None => dec_tables(bytes@, pos as int, n as nat) is None,
            },
        decreases n - k,
    {
        let (name, p1) = match read_string(bytes, p) {
            Some(x) => x,
            None => {
                return None;
            },
        };
        let (table, p2) = match read_table(bytes, p1) {
            Some(x) => x,
            None => {
                return None;
            },
        };
        let ghost old_ts = ts.deep_view();
        let ghost entry = (name@, table@);
        ts.push((name, table));
        assert(ts.deep_view() =~= old_ts.push(entry));
        p = p2;
        k += 1;
        proof {
            match dec_tables(bytes@, p as int, (n - k) as nat) {
                Some(d) => {
                    assert(old_ts + (seq![entry] + d.0) =~= ts.deep_view() + d.0);
                },
                None => {},
            }
        }
    }
    assert(ts.deep_view() + Seq::<(Seq<char>, SpecTable)>::empty() =~= ts.deep_view());
    Some((ts, p))
}

impl Database {
    /// The whole store as one byte buffer, matching `spec_snapshot`.
    #[verifier::loop_isolation(false)]
    pub fn snapshot(&self) -> (r: Vec<u8>)
        ensures
            r@ == spec_snapshot(self@),
    {
        let ghost ts = self@.tables;
        let mut out: Vec<u8> = Vec::new();
        write_u64(&mut out, self.tables.len() as u64);
        let mut k: usize = 0;
        while k < self.tables.len()
            invariant
                k <= self.tables.len(),
                out@ == enc_u64(ts.len() as int) + enc_tables(ts.take(k as int)),
            decreases self.tables.len() - k,
        {
            write_str(&mut out, &self.tables[k].0);
            write_table(&mut out, &self.tables[k].1);
            proof {
                assert(self.tables[k as int].0@ == ts[k as int].0);
                assert(self.tables[k as int].1@ == ts[k as int].1);
                lemma_enc_tables_snoc(ts.take(k as int), ts[k as int]);
                assert(ts.take(k + 1 as int) =~= ts.take(k as int).push(ts[k as int]));
                assert(out@ =~= enc_u64(ts.len() as int) + enc_tables(ts.take(k + 1 as int)));
            }
            k += 1;
        }
        assert(ts.take(self.tables.len() as int) =~= ts);
        assert(out@ =~= spec_snapshot(self@));
        out
    }

    /// Restores a store from snapshot bytes, matching `spec_restore`; bytes
    /// that are not a well-formed snapshot yield an empty database.
    pub fn restore(bytes: &Vec<u8>) -> (r: Database)
        ensures
            match spec_restore(bytes@) {
                Some(d) => r@ == d,
                None => r@.tables == Seq::<(Seq<char>, SpecTable)>::empty(),
            },
            r.wf(),
    {
        let (n, p) = match read_u64(bytes, 0) {
            Some(x) => x,
            None => {
                return Database::new();
            },
        };
        match read_tables(bytes, p, n) {
            Some((tables, p2)) => {
                if p2 == bytes.len() {
                    let db = Database { tables };
                    if crate::executor::check_db_wf(&db) {
                        db
                    } else {
                        Database::new()
                    }
                } else {
                    Database::new()
                }
            },
            None => Database::new(),
        }
    }
}

/// The snapshot round-trip: restoring the snapshot of any well-formed
/// database yields that database exactly — same table names, column lists
/// and row contents, in the same order.
pub proof fn lemma_restore_of_snapshot(db: SpecDatabase)
    requires
        spec_db_wf(db),
        spec_snapshot_bounded(db),
    ensures
        spec_restore(spec_snapshot(db)) == Some(db),
{
    lemma_auto_spec_u64_to_from_le_bytes();
    let b = spec_snapshot(db);
    let ets = enc_tables(db.tables);
    assert(b.subrange(0, 8) =~= enc_u64(db.tables.len() as int));
    lemma_dec_u64_of_enc(b, 0, db.tables.len() as int);
    assert(b.subrange(8, 8 + ets.len() as int) =~= ets);
    lemma_dec_tables_of_enc(b, 8, db.tables);
}

} // verus!
