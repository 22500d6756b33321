//! The lines of a table: how many there are, where each one stands, and how
//! each one ends.

use vstd::prelude::*;
use crate::layout::{
    cell_span, line, line_prefix, lines_before, padded_cell, rendered, Row, Rows, NEWLINE, SPACE,
};

verus! {

/// How often `byte` occurs in `bytes`.
pub open spec fn occurrences(bytes: Seq<u8>, byte: u8) -> nat
    decreases bytes.len(),
{
    if bytes.len() == 0 {
        0
    } else {
        occurrences(bytes.drop_last(), byte) + if bytes.last() == byte {
            1nat
        } else {
            0nat
        }
    }
}

/// No field of `rows` holds `byte`.
pub open spec fn fields_free_of(rows: Rows, byte: u8) -> bool {
    forall|r: int, k: int, i: int|
        0 <= r < rows.len() && 0 <= k < rows[r].len() && 0 <= i < rows[r][k].len()
            ==> #[trigger] rows[r][k][i] != byte
}

/// Occurrences add up over a concatenation.
pub proof fn lemma_occurrences_concat(a: Seq<u8>, b: Seq<u8>, byte: u8)
    ensures
        occurrences(a + b, byte) == occurrences(a, byte) + occurrences(b, byte),
    decreases b.len(),
{
    if b.len() == 0 {
        assert(a + b =~= a);
    } else {
        lemma_occurrences_concat(a, b.drop_last(), byte);
        assert((a + b).drop_last() =~= a + b.drop_last());
    }
}

/// A byte that is nowhere in a sequence occurs in it zero times.
pub proof fn lemma_occurrences_absent(bytes: Seq<u8>, byte: u8)
    requires
        forall|i: int| 0 <= i < bytes.len() ==> bytes[i] != byte,
    ensures
        occurrences(bytes, byte) == 0,
    decreases bytes.len(),
{
    if bytes.len() > 0 {
        lemma_occurrences_absent(bytes.drop_last(), byte);
    }
}

/// The padded cells of a row whose fields hold no newline hold none either.
proof fn lemma_prefix_without_newline(
    rows: Rows,
    r: int,
    k: int,
    min_width: nat,
    pad: nat,
)
    requires
        fields_free_of(rows, NEWLINE),
        0 <= r < rows.len(),
        0 <= k <= rows[r].len(),
    ensures
        occurrences(line_prefix(rows, rows[r], k, min_width, pad), NEWLINE) == 0,
    decreases k,
{
    if k > 0 {
        let before = line_prefix(rows, rows[r], k - 1, min_width, pad);
        let field = rows[r][k - 1];
        let cell = padded_cell(field, cell_span(rows, k - 1, min_width, pad));
        lemma_prefix_without_newline(rows, r, k - 1, min_width, pad);
        assert forall|i: int| 0 <= i < cell.len() implies cell[i] != NEWLINE by {
            if i < field.len() {
                assert(cell[i] == rows[r][k - 1][i]);
            } else {
                assert(cell[i] == SPACE);
            }
        }
        lemma_occurrences_absent(cell, NEWLINE);
        lemma_occurrences_concat(before, cell, NEWLINE);
    }
}

/// The line of a row whose fields hold no newline holds exactly one: its last
/// byte.
pub proof fn lemma_line_has_one_newline(
    rows: Rows,
    r: int,
    min_width: nat,
    pad: nat,
)
    requires
        fields_free_of(rows, NEWLINE),
        0 <= r < rows.len(),
    ensures
        occurrences(line(rows, rows[r], min_width, pad), NEWLINE) == 1,
{
    let row = rows[r];
    let end = seq![NEWLINE];
    assert(occurrences(end, NEWLINE) == 1) by {
        assert(end.drop_last() =~= Seq::<u8>::empty());
        assert(occurrences(end.drop_last(), NEWLINE) == 0);
    }
    if row.len() > 0 {
        let before = line_prefix(rows, row, row.len() - 1, min_width, pad);
        lemma_prefix_without_newline(rows, r, row.len() - 1, min_width, pad);
        assert forall|i: int| 0 <= i < row.last().len() implies row.last()[i] != NEWLINE by {
            assert(row.last()[i] == rows[r][row.len() - 1][i]);
        }
        lemma_occurrences_absent(row.last(), NEWLINE);
        lemma_occurrences_concat(before, row.last(), NEWLINE);
        lemma_occurrences_concat(before + row.last(), end, NEWLINE);
    }
}

/// The first `k` lines of a table whose fields hold no newline hold `k`
/// newlines.
proof fn lemma_newlines_before(rows: Rows, k: int, min_width: nat, pad: nat)
    requires
        fields_free_of(rows, NEWLINE),
        0 <= k <= rows.len(),
    ensures
        occurrences(lines_before(rows, k, min_width, pad), NEWLINE) == k,
    decreases k,
{
    if k > 0 {
        lemma_newlines_before(rows, k - 1, min_width, pad);
        lemma_line_has_one_newline(rows, k - 1, min_width, pad);
        lemma_occurrences_concat(
            lines_before(rows, k - 1, min_width, pad),
            line(rows, rows[k - 1], min_width, pad),
            NEWLINE,
        );
    }
}

/// One line per row: a table whose fields hold no newline of their own comes
/// out with exactly as many newlines as it has rows.
pub proof fn lemma_one_line_per_row(rows: Rows, min_width: nat, pad: nat)
    requires
        fields_free_of(rows, NEWLINE),
    ensures
        occurrences(rendered(rows, min_width, pad), NEWLINE) == rows.len(),
{
    lemma_newlines_before(rows, rows.len() as int, min_width, pad);
}

/// A table without rows comes out as no bytes at all.
pub proof fn lemma_no_rows_no_output(rows: Rows, min_width: nat, pad: nat)
    requires
        rows.len() == 0,
    ensures
        rendered(rows, min_width, pad) == Seq::<u8>::empty(),
{
}

/// Nothing trails the last field: every line ends with a newline, and on the
/// line of a row with fields the bytes right before that newline are the bytes
/// of the row's last field. The line of a row without fields is the newline
/// alone.
pub proof fn lemma_line_ends_with_last_field(
    rows: Rows,
    row: Row,
    min_width: nat,
    pad: nat,
)
    ensures
        line(rows, row, min_width, pad).len() > 0,
        line(rows, row, min_width, pad).last() == NEWLINE,
        row.len() == 0 ==> line(rows, row, min_width, pad) == seq![NEWLINE],
        row.len() > 0 ==> ({
            let whole = line(rows, row, min_width, pad);
            &&& whole.len() >= row.last().len() + 1
            &&& whole.subrange(whole.len() - 1 - row.last().len(), whole.len() - 1) == row.last()
        }),
{
    if row.len() > 0 {
        let whole = line(rows, row, min_width, pad);
        assert(whole.subrange(whole.len() - 1 - row.last().len(), whole.len() - 1)
            =~= row.last());
    }
}

/// The lines before row `r` are the lines before row `r + 1` without the last
/// of them, so the line of row `r` stands in the output right where the lines
/// before it end.
pub proof fn lemma_line_in_output(rows: Rows, r: int, min_width: nat, pad: nat)
    requires
        0 <= r < rows.len(),
    ensures
        ({
            let start = lines_before(rows, r, min_width, pad).len() as int;
            let whole = line(rows, rows[r], min_width, pad);
            &&& start + whole.len() <= rendered(rows, min_width, pad).len()
            &&& rendered(rows, min_width, pad).subrange(start, start + whole.len()) == whole
        }),
{
    lemma_lines_extend(rows, r + 1, rows.len() as int, min_width, pad);
    let start = lines_before(rows, r, min_width, pad).len() as int;
    let whole = line(rows, rows[r], min_width, pad);
    let upto = lines_before(rows, r + 1, min_width, pad);
    assert(upto.subrange(start, start + whole.len()) =~= whole);
    assert(rendered(rows, min_width, pad).subrange(start, start + whole.len()) =~= upto.subrange(
        start,
        start + whole.len(),
    ));
}

/// The lines of the first `j` rows open the lines of the first `k`, for
/// `j <= k`.
pub proof fn lemma_lines_extend(rows: Rows, j: int, k: int, min_width: nat, pad: nat)
    requires
        0 <= j <= k,
    ensures
        lines_before(rows, j, min_width, pad).len() <= lines_before(rows, k, min_width, pad).len(),
        lines_before(rows, k, min_width, pad).subrange(
            0,
            lines_before(rows, j, min_width, pad).len() as int,
        ) == lines_before(rows, j, min_width, pad),
    decreases k - j,
{
    let short = lines_before(rows, j, min_width, pad);
    if j == k {
        assert(short.subrange(0, short.len() as int) =~= short);
    } else {
        lemma_lines_extend(rows, j, k - 1, min_width, pad);
        let mid = lines_before(rows, k - 1, min_width, pad);
        let long = lines_before(rows, k, min_width, pad);
        assert(long.subrange(0, short.len() as int) =~= mid.subrange(0, short.len() as int));
    }
}

} // verus!
