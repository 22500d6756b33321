//! The columns of a table: every field of a column starts at the same offset
//! on its line.
//!
//! Offsets are counted in display units, in which fields are measured. On
//! lines of text that is the display width of what stands before the field.
//! Counted in bytes, two lines agree exactly where their earlier fields take
//! equally many bytes beyond their width: always, where every field is as wide
//! as it is long, as plain ASCII is.

use vstd::prelude::*;
use vstd::utf8::*;
use crate::layout::{
    cell_span, fill, lemma_column_width_covers, line, line_prefix, spaces, Row, Rows,
};
use crate::width::{display_width, lemma_ascii_width, lemma_text_concat, lemma_width_within_len};

verus! {

/// The display units that stand before field `k` on the line of `row`: each
/// earlier field and the spaces behind it.
pub open spec fn units_before(
    rows: Rows,
    row: Row,
    k: int,
    min_width: nat,
    pad: nat,
) -> nat
    decreases k,
{
    if k <= 0 {
        0
    } else {
        units_before(rows, row, k - 1, min_width, pad) + display_width(row[k - 1]) + fill(
            row[k - 1],
            cell_span(rows, k - 1, min_width, pad),
        )
    }
}

/// The offset at which column `k` starts: the spans of the columns before it.
pub open spec fn column_offset(rows: Rows, k: int, min_width: nat, pad: nat) -> nat
    decreases k,
{
    if k <= 0 {
        0
    } else {
        column_offset(rows, k - 1, min_width, pad) + cell_span(rows, k - 1, min_width, pad)
    }
}

/// The bytes that the fields of `row` before `k` take beyond their display
/// width: three for a code point of four bytes, none for ASCII.
pub open spec fn excess_bytes(row: Row, k: int) -> nat
    decreases k,
{
    if k <= 0 {
        0
    } else {
        excess_bytes(row, k - 1) + (row[k - 1].len() - display_width(row[k - 1])) as nat
    }
}

/// The fields of `row` before `k` are each as wide as they are long.
pub open spec fn measured_in_bytes(row: Row, k: int) -> bool {
    forall|j: int| 0 <= j < k ==> display_width(#[trigger] row[j]) == row[j].len()
}

/// A padded cell of a table's own row fills the span of its column exactly:
/// no field is wider than its column.
pub proof fn lemma_cell_fills_span(
    rows: Rows,
    r: int,
    k: int,
    min_width: nat,
    pad: nat,
)
    requires
        0 <= r < rows.len(),
        0 <= k < rows[r].len(),
    ensures
        display_width(rows[r][k]) + fill(rows[r][k], cell_span(rows, k, min_width, pad))
            == cell_span(rows, k, min_width, pad),
        fill(rows[r][k], cell_span(rows, k, min_width, pad)) >= pad,
{
    lemma_column_width_covers(rows, r, k);
}

/// On the line of every row, field `k` starts at the offset of column `k`.
pub proof fn lemma_field_starts_at_column(
    rows: Rows,
    r: int,
    k: int,
    min_width: nat,
    pad: nat,
)
    requires
        0 <= r < rows.len(),
        0 <= k <= rows[r].len(),
    ensures
        units_before(rows, rows[r], k, min_width, pad) == column_offset(rows, k, min_width, pad),
    decreases k,
{
    if k > 0 {
        lemma_field_starts_at_column(rows, r, k - 1, min_width, pad);
        lemma_cell_fills_span(rows, r, k - 1, min_width, pad);
    }
}

/// Columns align: two rows that both have a field `k` start it at the same
/// offset.
pub proof fn lemma_columns_align(
    rows: Rows,
    a: int,
    b: int,
    k: int,
    min_width: nat,
    pad: nat,
)
    requires
        0 <= a < rows.len(),
        0 <= b < rows.len(),
        0 <= k < rows[a].len(),
        k < rows[b].len(),
    ensures
        units_before(rows, rows[a], k, min_width, pad) == units_before(
            rows,
            rows[b],
            k,
            min_width,
            pad,
        ),
{
    lemma_field_starts_at_column(rows, a, k, min_width, pad);
    lemma_field_starts_at_column(rows, b, k, min_width, pad);
}

/// The bytes that stand before field `k` on a line are the display units
/// before it and the excess bytes of the earlier fields.
pub proof fn lemma_bytes_before(rows: Rows, row: Row, k: int, min_width: nat, pad: nat)
    requires
        0 <= k <= row.len(),
    ensures
        line_prefix(rows, row, k, min_width, pad).len() == units_before(
            rows,
            row,
            k,
            min_width,
            pad,
        ) + excess_bytes(row, k),
    decreases k,
{
    if k > 0 {
        lemma_bytes_before(rows, row, k - 1, min_width, pad);
        lemma_width_within_len(row[k - 1]);
    }
}

/// Fields that are as wide as they are long have no excess bytes.
pub proof fn lemma_no_excess(row: Row, k: int)
    requires
        measured_in_bytes(row, k),
    ensures
        excess_bytes(row, k) == 0,
    decreases k,
{
    if k > 0 {
        lemma_no_excess(row, k - 1);
        assert(display_width(row[k - 1]) == row[k - 1].len());
    }
}

/// Columns align byte for byte exactly where the earlier fields have the same
/// excess: two rows that both have a field `k` start it at the same byte of
/// their lines if and only if their fields before `k` take equally many bytes
/// beyond their display width.
pub proof fn lemma_columns_align_in_bytes(
    rows: Rows,
    a: int,
    b: int,
    k: int,
    min_width: nat,
    pad: nat,
)
    requires
        0 <= a < rows.len(),
        0 <= b < rows.len(),
        0 <= k < rows[a].len(),
        k < rows[b].len(),
    ensures
        excess_bytes(rows[a], k) == excess_bytes(rows[b], k) <==> line_prefix(
            rows,
            rows[a],
            k,
            min_width,
            pad,
        ).len() == line_prefix(rows, rows[b], k, min_width, pad).len(),
        measured_in_bytes(rows[a], k) && measured_in_bytes(rows[b], k) ==> line_prefix(
            rows,
            rows[a],
            k,
            min_width,
            pad,
        ).len() == line_prefix(rows, rows[b], k, min_width, pad).len(),
{
    lemma_bytes_before(rows, rows[a], k, min_width, pad);
    lemma_bytes_before(rows, rows[b], k, min_width, pad);
    lemma_columns_align(rows, a, b, k, min_width, pad);
    if measured_in_bytes(rows[a], k) && measured_in_bytes(rows[b], k) {
        lemma_no_excess(rows[a], k);
        lemma_no_excess(rows[b], k);
    }
}

/// What stands before field `j` opens what stands before field `k`, for
/// `j <= k`.
pub proof fn lemma_prefix_extends(
    rows: Rows,
    row: Row,
    j: int,
    k: int,
    min_width: nat,
    pad: nat,
)
    requires
        0 <= j <= k,
    ensures
        line_prefix(rows, row, j, min_width, pad).len() <= line_prefix(
            rows,
            row,
            k,
            min_width,
            pad,
        ).len(),
        line_prefix(rows, row, k, min_width, pad).subrange(
            0,
            line_prefix(rows, row, j, min_width, pad).len() as int,
        ) == line_prefix(rows, row, j, min_width, pad),
    decreases k - j,
{
    let short = line_prefix(rows, row, j, min_width, pad);
    if j == k {
        assert(short.subrange(0, short.len() as int) =~= short);
    } else {
        lemma_prefix_extends(rows, row, j, k - 1, min_width, pad);
        let mid = line_prefix(rows, row, k - 1, min_width, pad);
        let long = line_prefix(rows, row, k, min_width, pad);
        assert(long.subrange(0, short.len() as int) =~= mid.subrange(0, short.len() as int));
    }
}

/// Field `k` stands on its line, whole, right behind what `line_prefix` says
/// stands before it.
pub proof fn lemma_field_in_line(
    rows: Rows,
    row: Row,
    k: int,
    min_width: nat,
    pad: nat,
)
    requires
        0 <= k < row.len(),
    ensures
        ({
            let start = line_prefix(rows, row, k, min_width, pad).len() as int;
            let whole = line(rows, row, min_width, pad);
            &&& start + row[k].len() < whole.len()
            &&& whole.subrange(start, start + row[k].len()) == row[k]
        }),
{
    let start = line_prefix(rows, row, k, min_width, pad).len() as int;
    let whole = line(rows, row, min_width, pad);
    let last: int = row.len() - 1;
    if k == last {
        assert(whole.subrange(start, start + row[k].len()) =~= row[k]);
    } else {
        let next = line_prefix(rows, row, k + 1, min_width, pad);
        let body = line_prefix(rows, row, last, min_width, pad);
        lemma_prefix_extends(rows, row, k + 1, last, min_width, pad);
        assert(next.subrange(start, start + row[k].len()) =~= row[k]);
        assert(body.subrange(0, next.len() as int).subrange(start, start + row[k].len())
            =~= body.subrange(start, start + row[k].len()));
        assert(whole.subrange(start, start + row[k].len()) =~= body.subrange(
            start,
            start + row[k].len(),
        ));
    }
}

/// The fields of `row` before `k` are all text.
pub open spec fn all_text(row: Row, k: int) -> bool {
    forall|j: int| 0 <= j < k ==> valid_utf8(#[trigger] row[j])
}

/// Where the fields before `k` are text, what stands before field `k` on the
/// line is text too, and exactly as wide as the display units counted before
/// it.
pub proof fn lemma_width_before(rows: Rows, row: Row, k: int, min_width: nat, pad: nat)
    requires
        0 <= k <= row.len(),
        all_text(row, k),
    ensures
        valid_utf8(line_prefix(rows, row, k, min_width, pad)),
        display_width(line_prefix(rows, row, k, min_width, pad)) == units_before(
            rows,
            row,
            k,
            min_width,
            pad,
        ),
    decreases k,
{
    if k > 0 {
        let before = line_prefix(rows, row, k - 1, min_width, pad);
        let field = row[k - 1];
        let gap = spaces(fill(field, cell_span(rows, k - 1, min_width, pad)));
        lemma_width_before(rows, row, k - 1, min_width, pad);
        assert(valid_utf8(field));
        lemma_ascii_width(gap);
        lemma_text_concat(field, gap);
        lemma_text_concat(before, field + gap);
    }
}

/// Columns of text align on the page: two rows that both have a field `k`,
/// and whose earlier fields are text, have the same display width standing
/// before it on their lines.
pub proof fn lemma_columns_align_on_display(
    rows: Rows,
    a: int,
    b: int,
    k: int,
    min_width: nat,
    pad: nat,
)
    requires
        0 <= a < rows.len(),
        0 <= b < rows.len(),
        0 <= k < rows[a].len(),
        k < rows[b].len(),
        all_text(rows[a], k),
        all_text(rows[b], k),
    ensures
        display_width(line_prefix(rows, rows[a], k, min_width, pad)) == display_width(
            line_prefix(rows, rows[b], k, min_width, pad),
        ),
{
    lemma_width_before(rows, rows[a], k, min_width, pad);
    lemma_width_before(rows, rows[b], k, min_width, pad);
    lemma_columns_align(rows, a, b, k, min_width, pad);
}

} // verus!
