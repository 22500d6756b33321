//! What an aligned table looks like, as a function of its rows.
//!
//! Everything here is ghost code: the executable writer is held to these
//! definitions, and callers reason with them.

use vstd::prelude::*;
use crate::width::display_width;

verus! {

/// A row as contracts see it: the bytes of each field, in order.
pub type Row = Seq<Seq<u8>>;

/// A table as contracts see it: its rows, in order.
pub type Rows = Seq<Row>;

/// The padding byte.
pub const SPACE: u8 = 0x20;

/// The byte that ends every line.
pub const NEWLINE: u8 = 0x0a;

/// The larger of two widths.
pub open spec fn wider(a: nat, b: nat) -> nat {
    if a >= b {
        a
    } else {
        b
    }
}

/// The width of column `col`: the largest display width among the fields
/// that `rows` hold at that index, and zero where no row reaches it.
pub open spec fn column_width(rows: Rows, col: int) -> nat
    decreases rows.len(),
{
    if rows.len() == 0 {
        0
    } else {
        let earlier = column_width(rows.drop_last(), col);
        let row = rows.last();
        if 0 <= col < row.len() {
            wider(earlier, display_width(row[col]))
        } else {
            earlier
        }
    }
}

/// The number of columns: the length of the longest row.
pub open spec fn column_count(rows: Rows) -> nat
    decreases rows.len(),
{
    if rows.len() == 0 {
        0
    } else {
        wider(column_count(rows.drop_last()), rows.last().len())
    }
}

/// The display units that a cell of column `col` takes up when another field
/// follows it on the line: the column's width, raised to `min_width`, plus
/// `pad`.
pub open spec fn cell_span(rows: Rows, col: int, min_width: nat, pad: nat) -> nat {
    wider(column_width(rows, col), min_width) + pad
}

/// The number of spaces that follow `field` in a cell of `span` units.
pub open spec fn fill(field: Seq<u8>, span: nat) -> nat {
    if span >= display_width(field) {
        (span - display_width(field)) as nat
    } else {
        0
    }
}

/// A run of `n` spaces.
pub open spec fn spaces(n: nat) -> Seq<u8> {
    Seq::new(n, |i: int| SPACE)
}

/// A field followed by the spaces that bring it to `span` units.
pub open spec fn padded_cell(field: Seq<u8>, span: nat) -> Seq<u8> {
    field + spaces(fill(field, span))
}

/// The bytes of a line that stand before its field `k`: the fields before
/// `k`, each padded to the span of its column.
pub open spec fn line_prefix(
    rows: Rows,
    row: Row,
    k: int,
    min_width: nat,
    pad: nat,
) -> Seq<u8>
    decreases k,
{
    if k <= 0 {
        Seq::empty()
    } else {
        line_prefix(rows, row, k - 1, min_width, pad) + padded_cell(
            row[k - 1],
            cell_span(rows, k - 1, min_width, pad),
        )
    }
}

/// The line of one row: every field but the last is padded, the last stands
/// bare, and a newline closes the line. A row without fields is a bare
/// newline.
pub open spec fn line(rows: Rows, row: Row, min_width: nat, pad: nat) -> Seq<u8> {
    if row.len() == 0 {
        seq![NEWLINE]
    } else {
        line_prefix(rows, row, row.len() - 1, min_width, pad) + row.last() + seq![NEWLINE]
    }
}

/// The lines of the first `k` rows, one after another.
pub open spec fn lines_before(rows: Rows, k: int, min_width: nat, pad: nat) -> Seq<u8>
    decreases k,
{
    if k <= 0 {
        Seq::empty()
    } else {
        lines_before(rows, k - 1, min_width, pad) + line(rows, rows[k - 1], min_width, pad)
    }
}

/// The whole table: the line of each row, in order.
pub open spec fn rendered(rows: Rows, min_width: nat, pad: nat) -> Seq<u8> {
    lines_before(rows, rows.len() as int, min_width, pad)
}

/// Appending a row raises the width of the columns it reaches and leaves the
/// others alone.
pub proof fn lemma_column_width_push(rows: Rows, row: Row, col: int)
    ensures
        column_width(rows.push(row), col) == if 0 <= col < row.len() {
            wider(column_width(rows, col), display_width(row[col]))
        } else {
            column_width(rows, col)
        },
{
    assert(rows.push(row).drop_last() =~= rows);
}

/// Appending a row raises the column count to its length, if that is more.
pub proof fn lemma_column_count_push(rows: Rows, row: Row)
    ensures
        column_count(rows.push(row)) == wider(column_count(rows), row.len()),
{
    assert(rows.push(row).drop_last() =~= rows);
}

/// No row is longer than the column count.
pub proof fn lemma_column_count_bounds(rows: Rows, r: int)
    requires
        0 <= r < rows.len(),
    ensures
        rows[r].len() <= column_count(rows),
    decreases rows.len(),
{
    if r < rows.len() - 1 {
        lemma_column_count_bounds(rows.drop_last(), r);
    }
}

/// A column that no row reaches has width zero.
pub proof fn lemma_column_width_unreached(rows: Rows, col: int)
    requires
        col < 0 || col >= column_count(rows),
    ensures
        column_width(rows, col) == 0,
    decreases rows.len(),
{
    if rows.len() > 0 {
        lemma_column_width_unreached(rows.drop_last(), col);
    }
}

/// A column is at least as wide as each field in it.
pub proof fn lemma_column_width_covers(rows: Rows, r: int, col: int)
    requires
        0 <= r < rows.len(),
        0 <= col < rows[r].len(),
    ensures
        display_width(rows[r][col]) <= column_width(rows, col),
    decreases rows.len(),
{
    if r < rows.len() - 1 {
        lemma_column_width_covers(rows.drop_last(), r, col);
    }
}

/// A column of positive width is exactly as wide as one of its fields.
pub proof fn lemma_column_width_attained(rows: Rows, col: int) -> (r: int)
    requires
        column_width(rows, col) > 0,
    ensures
        0 <= r < rows.len(),
        0 <= col < rows[r].len(),
        display_width(rows[r][col]) == column_width(rows, col),
    decreases rows.len(),
{
    let row = rows.last();
    if 0 <= col < row.len() && display_width(row[col]) >= column_width(rows.drop_last(), col) {
        rows.len() - 1
    } else {
        lemma_column_width_attained(rows.drop_last(), col)
    }
}

} // verus!
