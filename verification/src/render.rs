//! Output rendering: a header row and cell rows laid out as a bordered
//! text table, one line per string.  Column widths are the widest entry of
//! each column, measured in characters.

use vstd::prelude::*;
use vstd::string::StrSliceExecFns;

verus! {

/// `n` copies of one character.
pub open spec fn ch_repeat(c: char, n: int) -> Seq<char> {
    if n <= 0 {
        Seq::empty()
    } else {
        Seq::new(n as nat, |i: int| c)
    }
}

/// The widest cell of column `i` among the rows; a row without that column
/// contributes nothing.
pub open spec fn spec_rows_max(rows: Seq<Seq<Seq<char>>>, i: int) -> int
    decreases rows.len(),
{
    if rows.len() == 0 {
        0
    } else {
        let rest = spec_rows_max(rows.drop_last(), i);
        let cur = if 0 <= i < rows.last().len() {
            rows.last()[i].len() as int
        } else {
            0
        };
        if cur > rest {
            cur
        } else {
            rest
        }
    }
}

/// The width of column `i`: its header or its widest cell.
pub open spec fn spec_col_width(headers: Seq<Seq<char>>, rows: Seq<Seq<Seq<char>>>, i: int) -> int {
    let m = spec_rows_max(rows, i);
    if headers[i].len() as int > m {
        headers[i].len() as int
    } else {
        m
    }
}

/// All column widths.
pub open spec fn spec_widths(headers: Seq<Seq<char>>, rows: Seq<Seq<Seq<char>>>) -> Seq<int> {
    Seq::new(headers.len(), |i: int| spec_col_width(headers, rows, i))
}

/// The horizontal border from column `j` on: `--- +` per column, each dash
/// run two wider than its column.
pub open spec fn spec_sep_from(widths: Seq<int>, j: int) -> Seq<char>
    decreases widths.len() - j,
    when 0 <= j
{
    if j >= widths.len() {
        Seq::empty()
    } else {
        ch_repeat('-', widths[j] + 2) + seq!['+'] + spec_sep_from(widths, j + 1)
    }
}

/// The horizontal border.
pub open spec fn spec_sep_line(widths: Seq<int>) -> Seq<char> {
    seq!['+'] + spec_sep_from(widths, 0)
}

/// One cell, padded to its column: a space, the text, spaces out to the
/// width plus one, and the closing bar.
pub open spec fn spec_padded_cell(cell: Seq<char>, w: int) -> Seq<char> {
    seq![' '] + cell + ch_repeat(' ', w - cell.len() + 1) + seq!['|']
}

/// The cells of one line from position `j` on; a line stops at its own
/// width or at the column count, whichever comes first.
pub open spec fn spec_line_from(cells: Seq<Seq<char>>, widths: Seq<int>, j: int) -> Seq<char>
    decreases cells.len() - j,
    when 0 <= j
{
    if j >= cells.len() || j >= widths.len() {
        Seq::empty()
    } else {
        spec_padded_cell(cells[j], widths[j]) + spec_line_from(cells, widths, j + 1)
    }
}

/// One rendered line of cells.
pub open spec fn spec_row_line(cells: Seq<Seq<char>>, widths: Seq<int>) -> Seq<char> {
    seq!['|'] + spec_line_from(cells, widths, 0)
}

/// The whole rendered table: border, header line, border, one line per
/// row, border.
pub open spec fn spec_render_table(headers: Seq<Seq<char>>, rows: Seq<Seq<Seq<char>>>) -> Seq<
    Seq<char>,
> {
    let widths = spec_widths(headers, rows);
    seq![spec_sep_line(widths), spec_row_line(headers, widths), spec_sep_line(widths)] + Seq::new(
        rows.len(),
        |r: int| spec_row_line(rows[r], widths),
    ) + seq![spec_sep_line(widths)]
}

/// Appends `n` copies of one character.
#[verifier::loop_isolation(false)]
fn push_repeat(s: &mut String, c: char, n: u128)
    ensures
        final(s)@ == old(s)@ + ch_repeat(c, n as int),
{
    let mut k: u128 = 0;
    while k < n
        invariant
            k <= n,
            s@ == old(s)@ + ch_repeat(c, k as int),
        decreases n - k,
    {
        s.push(c);
        assert(s@ =~= old(s)@ + ch_repeat(c, k + 1 as int));
        k += 1;
    }
}

/// The width of column `i`, matching `spec_col_width`.
#[verifier::loop_isolation(false)]
fn col_width(headers: &Vec<String>, rows: &Vec<Vec<String>>, i: usize) -> (r: u128)
    requires
        i < headers.len(),
    ensures
        r == spec_col_width(headers.deep_view(), rows.deep_view(), i as int),
        r <= usize::MAX as u128,
{
    let ghost rv = rows.deep_view();
    let mut w: u128 = headers[i].as_str().unicode_len() as u128;
    assert(headers.deep_view()[i as int] == headers@[i as int]@);
    let mut k: usize = 0;
    while k < rows.len()
        invariant
            k <= rows.len(),
            w <= usize::MAX as u128,
            w == ({
                let m = spec_rows_max(rv.take(k as int), i as int);
                if headers.deep_view()[i as int].len() as int > m {
                    headers.deep_view()[i as int].len() as int
                } else {
                    m
                }
            }),
        decreases rows.len() - k,
    {
        let row = &rows[k];
        proof {
            assert(rv.take(k + 1 as int).drop_last() =~= rv.take(k as int));
            assert(rv.take(k + 1 as int).last() == rv[k as int]);
        }
        if i < row.len() {
            let cl = row[i].as_str().unicode_len() as u128;
            assert(cl == rv[k as int][i as int].len());
            if cl > w {
                w = cl;
            }
        }
        k += 1;
    }
    assert(rv.take(rows.len() as int) =~= rv);
    w
}

/// Renders a header row and cell rows as bordered text lines, matching
/// `spec_render_table`.
#[verifier::loop_isolation(false)]
pub fn render_table(headers: &Vec<String>, rows: &Vec<Vec<String>>) -> (r: Vec<String>)
    ensures
        r.deep_view() == spec_render_table(headers.deep_view(), rows.deep_view()),
{
    let ghost hv = headers.deep_view();
    let ghost rv = rows.deep_view();
    let ghost widths = spec_widths(hv, rv);
    let cols = headers.len();

    let mut sep = String::new();
    sep.push('+');
    let mut j: usize = 0;
    while j < cols
        invariant
            j <= cols,
            spec_sep_line(widths) == sep@ + spec_sep_from(widths, j as int),
        decreases cols - j,
    {
        let w = col_width(headers, rows, j);
        assert(w == widths[j as int]);
        push_repeat(&mut sep, '-', w + 2);
        sep.push('+');
        assert(spec_sep_line(widths) =~= sep@ + spec_sep_from(widths, j + 1 as int));
        j += 1;
    }
    assert(spec_sep_from(widths, cols as int) =~= Seq::<char>::empty());
    assert(sep@ =~= spec_sep_line(widths));

    let mut header_line = String::new();
    header_line.push('|');
    let mut j: usize = 0;
    while j < cols
        invariant
            j <= cols,
            spec_row_line(hv, widths) == header_line@ + spec_line_from(hv, widths, j as int),
        decreases cols - j,
    {
        let w = col_width(headers, rows, j);
        assert(w == widths[j as int]);
        let h = &headers[j];
        let hlen = h.as_str().unicode_len() as u128;
        assert(hlen == hv[j as int].len());
        assert(hlen <= w);
        header_line.push(' ');
        header_line.append(h.as_str());
        push_repeat(&mut header_line, ' ', w - hlen + 1);
        header_line.push('|');
        assert(spec_row_line(hv, widths) =~= header_line@ + spec_line_from(
            hv,
            widths,
            j + 1 as int,
        ));
        j += 1;
    }
    assert(spec_line_from(hv, widths, cols as int) =~= Seq::<char>::empty());
    assert(header_line@ =~= spec_row_line(hv, widths));

    let mut out: Vec<String> = Vec::new();
    out.push(sep.clone());
    out.push(header_line);
    out.push(sep.clone());
    assert(out.deep_view() =~= seq![
        spec_sep_line(widths),
        spec_row_line(hv, widths),
        spec_sep_line(widths),
    ]);
    let ghost head_part = out.deep_view();

    let mut k: usize = 0;
    while k < rows.len()
        invariant
            k <= rows.len(),
            out@.len() == 3 + k,
            out.deep_view() == head_part + Seq::new(
                k as nat,
                |r: int| spec_row_line(rv[r], widths),
            ),
        decreases rows.len() - k,
    {
        let row = &rows[k];
        let ghost cells = rv[k as int];
        let mut line = String::new();
        line.push('|');
        let mut j: usize = 0;
        while j < row.len() && j < cols
            invariant
                j <= row.len(),
                j <= cols,
                spec_row_line(cells, widths) == line@ + spec_line_from(cells, widths, j as int),
            decreases row.len() - j,
        {
            let w = col_width(headers, rows, j);
            assert(w == widths[j as int]);
            let c = &row[j];
            let cl = c.as_str().unicode_len() as u128;
            assert(cl == cells[j as int].len());
            assert(cl <= w) by {
                assert(spec_rows_max(rv, j as int) >= cells[j as int].len()) by {
                    lemma_rows_max_bound(rv, j as int, k as int);
                }
            }
            line.push(' ');
            line.append(c.as_str());
            push_repeat(&mut line, ' ', w - cl + 1);
            line.push('|');
            assert(spec_row_line(cells, widths) =~= line@ + spec_line_from(
                cells,
                widths,
                j + 1 as int,
            ));
            j += 1;
        }
        assert(spec_line_from(cells, widths, j as int) =~= Seq::<char>::empty());
        assert(line@ =~= spec_row_line(cells, widths));
        let ghost out0 = out.deep_view();
        out.push(line);
        assert(out.deep_view() =~= out0.push(spec_row_line(cells, widths)));
        assert(out.deep_view() =~= head_part + Seq::new(
            (k + 1) as nat,
            |r: int| spec_row_line(rv[r], widths),
        ));
        k += 1;
    }
    let ghost out1 = out.deep_view();
    out.push(sep);
    assert(out.deep_view() =~= out1.push(spec_sep_line(widths)));
    assert(out.deep_view() =~= spec_render_table(hv, rv));
    out
}

/// A cell of column `i` in any row never exceeds that column's maximum.
proof fn lemma_rows_max_bound(rows: Seq<Seq<Seq<char>>>, i: int, k: int)
    requires
        0 <= k < rows.len(),
        0 <= i < rows[k].len(),
    ensures
        spec_rows_max(rows, i) >= rows[k][i].len(),
    decreases rows.len(),
{
    if k + 1 < rows.len() {
        lemma_rows_max_bound(rows.drop_last(), i, k);
        assert(rows.drop_last()[k] == rows[k]);
    }
}

} // verus!
