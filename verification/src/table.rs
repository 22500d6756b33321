//! From rows to a finished table in one call.

use std::borrow::Cow;
use vstd::prelude::*;
use vstd::slice::*;
use crate::aligner::{Aligner, AlignerView, Phase, UsageError};
use crate::condense::{
    condense, condensed, lemma_condensed_brings_only_marker, lemma_condensed_width, MARKER,
};
use crate::layout::{rendered, Row, Rows, NEWLINE};
use crate::lines::{fields_free_of, lemma_one_line_per_row, occurrences};
use crate::width::display_width;

verus! {

/// How a table is laid out.
#[derive(Clone, Copy, Debug, PartialEq, Eq, Structural)]
pub struct Options {
    /// The floor under every column's width.
    pub min_width: usize,
    /// The spaces added after every padded cell.
    pub pad: usize,
    /// The widest a field may be before it is cut down, if fields are to be
    /// cut down at all.
    pub condense: Option<usize>,
}

impl Default for Options {
    /// Columns at least two wide, two spaces apart, fields left whole.
    fn default() -> (options: Options)
        ensures
            options == (Options { min_width: 2, pad: 2, condense: None }),
    {
        Options { min_width: 2, pad: 2, condense: None }
    }
}

/// A row with every field condensed.
pub open spec fn condensed_row(row: Row, limit: Option<usize>) -> Row {
    Seq::new(row.len(), |k: int| condensed(row[k], limit))
}

/// A table with every field condensed.
pub open spec fn condensed_rows(rows: Rows, limit: Option<usize>) -> Rows {
    Seq::new(rows.len(), |r: int| condensed_row(rows[r], limit))
}

/// Condensing changes neither the number of rows nor the length of any row,
/// and under a limit it leaves no field wider than the limit.
pub proof fn lemma_condensed_rows(rows: Rows, limit: Option<usize>)
    ensures
        condensed_rows(rows, limit).len() == rows.len(),
        forall|r: int|
            0 <= r < rows.len() ==> (#[trigger] condensed_rows(rows, limit)[r]).len()
                == rows[r].len(),
        limit is None ==> condensed_rows(rows, limit) == rows,
        limit matches Some(n) ==> forall|r: int, k: int|
            0 <= r < rows.len() && 0 <= k < rows[r].len() ==> display_width(
                #[trigger] condensed_rows(rows, limit)[r][k],
            ) <= n,
{
    if let Some(n) = limit {
        assert forall|r: int, k: int| 0 <= r < rows.len() && 0 <= k < rows[r].len() implies
            display_width(#[trigger] condensed_rows(rows, limit)[r][k]) <= n by {
            lemma_condensed_width(rows[r][k], n);
        }
    } else {
        assert forall|r: int| 0 <= r < rows.len() implies #[trigger] condensed_rows(rows, limit)[r]
            == rows[r] by {
            assert(condensed_rows(rows, limit)[r] =~= rows[r]);
        }
        assert(condensed_rows(rows, limit) =~= rows);
    }
}

/// Condensing brings no byte into a table but the marker: a byte that is not
/// the marker and is in no field is in no condensed field either.
pub proof fn lemma_condensed_rows_free_of(rows: Rows, limit: Option<usize>, byte: u8)
    requires
        byte != MARKER,
        fields_free_of(rows, byte),
    ensures
        fields_free_of(condensed_rows(rows, limit), byte),
{
    let after = condensed_rows(rows, limit);
    assert forall|r: int, k: int, i: int|
        0 <= r < after.len() && 0 <= k < after[r].len() && 0 <= i < after[r][k].len()
        implies #[trigger] after[r][k][i] != byte by {
        assert forall|j: int| 0 <= j < rows[r][k].len() implies rows[r][k][j] != byte by {}
        lemma_condensed_brings_only_marker(rows[r][k], limit, byte);
    }
}

/// The bytes of a `Cow`, owned.
fn into_bytes<'a>(field: Cow<'a, [u8]>) -> (bytes: Vec<u8>)
    ensures
        bytes@ == field@,
{
    match field {
        Cow::Borrowed(bytes) => slice_to_vec(bytes),
        Cow::Owned(bytes) => bytes,
    }
}

/// Condenses every field of a row.
fn condense_row(row: &Vec<Vec<u8>>, limit: Option<usize>) -> (fields: Vec<Vec<u8>>)
    ensures
        fields.deep_view() == condensed_row(row.deep_view(), limit),
{
    let mut fields: Vec<Vec<u8>> = Vec::new();
    let mut k: usize = 0;
    while k < row.len()
        invariant
            k <= row.len(),
            fields.len() == k,
            forall|j: int| 0 <= j < k ==> fields[j]@ == condensed(row[j]@, limit),
        decreases row.len() - k,
    {
        let field = condense(Cow::Borrowed(row[k].as_slice()), limit);
        fields.push(into_bytes(field));
        k += 1;
    }
    proof {
        let wanted = condensed_row(row.deep_view(), limit);
        assert forall|j: int| 0 <= j < row.len() implies fields.deep_view()[j] == wanted[j] by {
            assert(row.deep_view()[j] == row[j]@);
            assert(fields.deep_view()[j] == fields[j]@);
        }
        assert(fields.deep_view() =~= wanted);
    }
    fields
}

/// Lays out a table: condenses every field as `options` say, buffers every
/// row, and returns the aligned lines.
///
/// No rows give no output. Rows whose fields, once condensed, hold no newline
/// of their own give one line each; so do rows whose fields held none to
/// begin with.
pub fn run(rows: &Vec<Vec<Vec<u8>>>, options: &Options) -> (out: Vec<u8>)
    ensures
        out@ == rendered(
            condensed_rows(rows.deep_view(), options.condense),
            options.min_width as nat,
            options.pad as nat,
        ),
        rows.len() == 0 ==> out@.len() == 0,
        fields_free_of(condensed_rows(rows.deep_view(), options.condense), NEWLINE) ==> occurrences(
            out@,
            NEWLINE,
        ) == rows.len(),
        fields_free_of(rows.deep_view(), NEWLINE) ==> occurrences(out@, NEWLINE) == rows.len(),
{
    let ghost table = condensed_rows(rows.deep_view(), options.condense);
    proof {
        if fields_free_of(rows.deep_view(), NEWLINE) {
            lemma_condensed_rows_free_of(rows.deep_view(), options.condense, NEWLINE);
        }
        if fields_free_of(table, NEWLINE) {
            lemma_one_line_per_row(table, options.min_width as nat, options.pad as nat);
        }
    }
    let mut aligner = Aligner::new(options.min_width, options.pad);
    let mut r: usize = 0;
    assert(table.take(0) =~= Seq::empty());
    while r < rows.len()
        invariant
            r <= rows.len(),
            table == condensed_rows(rows.deep_view(), options.condense),
            aligner@ == (AlignerView {
                min_width: options.min_width as nat,
                pad: options.pad as nat,
                rows: table.take(r as int),
                phase: Phase::Buffering,
            }),
        decreases rows.len() - r,
    {
        let fields = condense_row(&rows[r], options.condense);
        assert(rows.deep_view()[r as int] == rows[r as int].deep_view());
        let written: Result<(), UsageError> = aligner.write(fields);
        assert(written is Ok);
        assert(table.take(r as int).push(table[r as int]) =~= table.take(r as int + 1));
        r += 1;
    }
    assert(table.take(r as int) =~= table);
    match aligner.flush() {
        Ok(out) => out,
        Err(_) => unreached(),
    }
}

} // verus!
