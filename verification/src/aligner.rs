//! The column aligner: rows go in one at a time, the finished table comes out
//! once.

use vstd::prelude::*;
use crate::layout::{
    cell_span, column_count, column_width, fill, lemma_column_count_bounds,
    lemma_column_count_push, lemma_column_width_covers, lemma_column_width_push,
    lemma_column_width_unreached, line, line_prefix, lines_before, padded_cell, rendered, spaces,
    wider, Rows, NEWLINE, SPACE,
};
use crate::lines::{fields_free_of, lemma_one_line_per_row, occurrences};
use crate::width::{display_width, field_width};

verus! {

/// Where an aligner stands in its life.
#[derive(Clone, Copy, Debug, PartialEq, Eq, Structural)]
pub enum Phase {
    /// Rows are being collected; nothing has been emitted.
    Buffering,
    /// The table has been emitted and its rows are gone.
    Flushed,
}

/// A call that the aligner's phase does not allow.
#[derive(Clone, Copy, Debug, PartialEq, Eq, Structural)]
pub enum UsageError {
    /// The table has already been flushed.
    AlreadyFlushed,
}

/// What an aligner is, to its callers.
pub struct AlignerView {
    /// The floor under every column's width.
    pub min_width: nat,
    /// The spaces added after every padded cell.
    pub pad: nat,
    /// The rows buffered so far, oldest first.
    pub rows: Rows,
    /// The phase.
    pub phase: Phase,
}

/// Buffers rows, keeps the running width of every column, and emits the whole
/// table on `flush`.
pub struct Aligner {
    min_width: usize,
    pad: usize,
    buffer: Buffer,
    phase: Phase,
}

/// The buffered rows and the running width of every column.
struct Buffer {
    rows: Vec<Vec<Vec<u8>>>,
    widths: Vec<usize>,
}

/// `widths` is the width table of `rows`: one entry per column, each the
/// column's width.
spec fn tracks(widths: Seq<usize>, rows: Rows) -> bool {
    &&& widths.len() == column_count(rows)
    &&& forall|c: int| 0 <= c < widths.len() ==> widths[c] == #[trigger] column_width(rows, c)
}

impl View for Aligner {
    type V = AlignerView;

    closed spec fn view(&self) -> AlignerView {
        AlignerView {
            min_width: self.min_width as nat,
            pad: self.pad as nat,
            rows: self.buffer.rows.deep_view(),
            phase: self.phase,
        }
    }
}

/// Two runs of spaces, one after the other, are one run.
proof fn lemma_spaces_join(a: nat, b: nat)
    ensures
        spaces(a) + spaces(b) == spaces(a + b),
{
    assert(spaces(a) + spaces(b) =~= spaces(a + b));
}

/// Appends `n` spaces.
fn push_spaces(out: &mut Vec<u8>, n: usize)
    ensures
        final(out)@ == old(out)@ + spaces(n as nat),
{
    let mut i: usize = 0;
    while i < n
        invariant
            i <= n,
            out@ == old(out)@ + spaces(i as nat),
        decreases n - i,
    {
        out.push(SPACE);
        i += 1;
        assert(out@ =~= old(out)@ + spaces(i as nat));
    }
}

/// Appends the bytes of `field`.
fn push_field(out: &mut Vec<u8>, field: &Vec<u8>)
    ensures
        final(out)@ == old(out)@ + field@,
{
    out.extend_from_slice(field.as_slice());
    assert(out@ =~= old(out)@ + field@);
}

impl Buffer {
    /// The width table is that of the rows.
    spec fn consistent(&self) -> bool {
        tracks(self.widths@, self.rows.deep_view())
    }

    /// A buffer without rows.
    fn new() -> (buffer: Buffer)
        ensures
            buffer.consistent(),
            buffer.rows.deep_view() == Rows::empty(),
    {
        let rows: Vec<Vec<Vec<u8>>> = Vec::new();
        assert(rows.deep_view() =~= Seq::empty());
        Buffer { rows, widths: Vec::new() }
    }

    /// Appends `row` and brings the width table up to date.
    fn record(&mut self, row: Vec<Vec<u8>>)
        requires
            old(self).consistent(),
        ensures
            final(self).consistent(),
            final(self).rows.deep_view() == old(self).rows.deep_view().push(row.deep_view()),
    {
        let ghost before = self.rows.deep_view();
        let ghost fields = row.deep_view();
        let mut i: usize = 0;
        while i < row.len()
            invariant
                i <= row.len(),
                fields == row.deep_view(),
                before == self.rows.deep_view(),
                self.widths.len() == wider(column_count(before), i as nat),
                forall|c: int|
                    0 <= c < self.widths.len() ==> self.widths[c] == if c < i {
                        wider(column_width(before, c), display_width(fields[c]))
                    } else {
                        column_width(before, c)
                    },
            decreases row.len() - i,
        {
            let w: usize = field_width(row[i].as_slice());
            assert(fields[i as int] == row[i as int]@);
            if i < self.widths.len() {
                if w > self.widths[i] {
                    self.widths[i] = w;
                }
            } else {
                proof {
                    lemma_column_width_unreached(before, i as int);
                }
                self.widths.push(w);
            }
            i += 1;
        }
        self.rows.push(row);
        proof {
            assert(self.rows.deep_view() =~= before.push(fields));
            lemma_column_count_push(before, fields);
            assert forall|c: int| 0 <= c < self.widths.len() implies self.widths[c]
                == #[trigger] column_width(before.push(fields), c) by {
                lemma_column_width_push(before, fields, c);
            }
        }
    }

    /// Emits the line of every row.
    fn emit(&self, min_width: usize, pad: usize) -> (out: Vec<u8>)
        requires
            self.consistent(),
        ensures
            out@ == rendered(self.rows.deep_view(), min_width as nat, pad as nat),
    {
        let rows = &self.rows;
        let widths = &self.widths;
        let ghost table = rows.deep_view();
        let ghost mw = min_width as nat;
        let ghost pd = pad as nat;
        let mut out: Vec<u8> = Vec::new();
        let mut r: usize = 0;
        while r < rows.len()
            invariant
                r <= rows.len(),
                table == rows.deep_view(),
                tracks(widths@, table),
                mw == min_width,
                pd == pad,
                out@ == lines_before(table, r as int, mw, pd),
            decreases rows.len() - r,
        {
            let row = &rows[r];
            let ghost fields = table[r as int];
            let ghost done = out@;
            assert(fields == row.deep_view());
            proof {
                lemma_column_count_bounds(table, r as int);
            }
            if row.len() > 0 {
                let last: usize = row.len() - 1;
                let mut k: usize = 0;
                while k < last
                    invariant
                        k <= last,
                        last + 1 == row.len(),
                        0 <= r < table.len(),
                        fields == row.deep_view(),
                        fields == table[r as int],
                        row.len() <= widths.len(),
                        tracks(widths@, table),
                        mw == min_width,
                        pd == pad,
                        out@ == done + line_prefix(table, fields, k as int, mw, pd),
                    decreases last - k,
                {
                    let field = &row[k];
                    let w: usize = field_width(field.as_slice());
                    let column: usize = if widths[k] >= min_width {
                        widths[k]
                    } else {
                        min_width
                    };
                    proof {
                        assert(fields[k as int] == field@);
                        lemma_column_width_covers(table, r as int, k as int);
                        assert(widths[k as int] == column_width(table, k as int));
                    }
                    push_field(&mut out, field);
                    push_spaces(&mut out, column - w);
                    push_spaces(&mut out, pad);
                    proof {
                        let span = cell_span(table, k as int, mw, pd);
                        assert(fill(field@, span) == (column - w) + pad);
                        lemma_spaces_join((column - w) as nat, pd);
                        assert(out@ =~= done + line_prefix(table, fields, k as int, mw, pd)
                            + padded_cell(field@, span));
                        assert(out@ =~= done + line_prefix(table, fields, k as int + 1, mw, pd));
                    }
                    k += 1;
                }
                push_field(&mut out, &row[last]);
                assert(fields.last() == row[last as int]@);
            }
            out.push(NEWLINE);
            proof {
                assert(out@ =~= done + line(table, fields, mw, pd));
            }
            r += 1;
        }
        out
    }
}

impl Aligner {
    #[verifier::type_invariant]
    spec fn well_formed(&self) -> bool {
        &&& self.buffer.consistent()
        &&& self.phase == Phase::Flushed ==> self.buffer.rows.deep_view().len() == 0
    }

    /// An empty table that will be laid out with the given floor and padding.
    pub fn new(min_width: usize, pad: usize) -> (aligner: Aligner)
        ensures
            aligner@ == (AlignerView {
                min_width: min_width as nat,
                pad: pad as nat,
                rows: Seq::empty(),
                phase: Phase::Buffering,
            }),
    {
        Aligner { min_width, pad, buffer: Buffer::new(), phase: Phase::Buffering }
    }

    /// The phase the aligner is in.
    pub fn phase(&self) -> (phase: Phase)
        ensures
            phase == self@.phase,
    {
        self.phase
    }

    /// The floor under every column's width.
    pub fn min_width(&self) -> (min_width: usize)
        ensures
            min_width == self@.min_width,
    {
        self.min_width
    }

    /// The spaces added after every padded cell.
    pub fn pad(&self) -> (pad: usize)
        ensures
            pad == self@.pad,
    {
        self.pad
    }

    /// The number of rows buffered.
    pub fn row_count(&self) -> (count: usize)
        ensures
            count == self@.rows.len(),
    {
        self.buffer.rows.len()
    }

    /// The number of columns: the length of the longest row buffered.
    pub fn column_count(&self) -> (count: usize)
        ensures
            count == column_count(self@.rows),
    {
        proof {
            use_type_invariant(self);
        }
        self.buffer.widths.len()
    }

    /// The running width of column `col`, if any buffered row reaches it.
    pub fn column_width(&self, col: usize) -> (width: Option<usize>)
        ensures
            col < column_count(self@.rows) ==> (width matches Some(w) && w == column_width(
                self@.rows,
                col as int,
            )),
            col >= column_count(self@.rows) ==> width is None,
    {
        proof {
            use_type_invariant(self);
        }
        if col < self.buffer.widths.len() {
            Some(self.buffer.widths[col])
        } else {
            None
        }
    }

    /// Appends a row to the table. Nothing is emitted.
    ///
    /// Once the table has been flushed the row is refused and nothing changes.
    pub fn write(&mut self, row: Vec<Vec<u8>>) -> (res: Result<(), UsageError>)
        ensures
            old(self)@.phase == Phase::Buffering ==> res is Ok && final(self)@ == (AlignerView {
                rows: old(self)@.rows.push(row.deep_view()),
                ..old(self)@
            }),
            old(self)@.phase == Phase::Flushed ==> res == Err::<(), UsageError>(
                UsageError::AlreadyFlushed,
            ) && final(self)@ == old(self)@,
    {
        proof {
            use_type_invariant(&*self);
        }
        match self.phase {
            Phase::Flushed => Err(UsageError::AlreadyFlushed),
            Phase::Buffering => {
                // The buffer is taken out while it changes, so that the
                // aligner is well-formed at every step.
                let mut buffer = Buffer::new();
                core::mem::swap(&mut self.buffer, &mut buffer);
                buffer.record(row);
                self.buffer = buffer;
                Ok(())
            },
        }
    }

    /// Emits the table and discards it: the line of every buffered row, laid
    /// out with the final width of every column.
    ///
    /// A table is flushed once. A second call is refused: it returns no bytes
    /// and changes nothing.
    ///
    /// A table without rows is emitted as no bytes. A table whose fields hold
    /// no newline of their own is emitted with one newline per row.
    pub fn flush(&mut self) -> (res: Result<Vec<u8>, UsageError>)
        ensures
            old(self)@.phase == Phase::Buffering ==> (res matches Ok(out) && out@ == rendered(
                old(self)@.rows,
                old(self)@.min_width,
                old(self)@.pad,
            )) && final(self)@ == (AlignerView {
                rows: Seq::empty(),
                phase: Phase::Flushed,
                ..old(self)@
            }),
            old(self)@.phase == Phase::Flushed ==> res == Err::<Vec<u8>, UsageError>(
                UsageError::AlreadyFlushed,
            ) && final(self)@ == old(self)@,
            final(self)@.phase == Phase::Flushed,
            res matches Ok(out) ==> (old(self)@.rows.len() == 0 ==> out@.len() == 0),
            res matches Ok(out) ==> (fields_free_of(old(self)@.rows, NEWLINE) ==> occurrences(
                out@,
                NEWLINE,
            ) == old(self)@.rows.len()),
    {
        proof {
            use_type_invariant(&*self);
            if fields_free_of(self@.rows, NEWLINE) {
                lemma_one_line_per_row(self@.rows, self@.min_width, self@.pad);
            }
        }
        match self.phase {
            Phase::Flushed => Err(UsageError::AlreadyFlushed),
            Phase::Buffering => {
                let out = self.buffer.emit(self.min_width, self.pad);
                self.buffer = Buffer::new();
                self.phase = Phase::Flushed;
                Ok(out)
            },
        }
    }
}

} // verus!
