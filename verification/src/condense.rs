//! Condensing: bounding the display width of a field.
//!
//! A field wider than the limit is cut at a unit boundary and closed with a
//! one-unit marker, the tilde `~`, so that the result is exactly as wide as the
//! limit and can be told from a field that merely fits. The unit is the one
//! that the field is measured in: the code point for well-formed UTF-8, the
//! byte for anything else. A limit of zero leaves no room for the marker:
//! every field that holds anything is then cut to nothing.

use std::borrow::Cow;
use vstd::prelude::*;
use vstd::slice::*;
use vstd::string::*;
use vstd::utf8::*;
use crate::width::{display_width, lemma_ascii_width, lemma_text_concat, lemma_width_within_len};

verus! {

/// The byte that closes a field that was cut short.
pub const MARKER: u8 = 0x7e;

/// The first `units` display units of a field.
pub open spec fn head(field: Seq<u8>, units: int) -> Seq<u8> {
    if valid_utf8(field) {
        encode_utf8(decode_utf8(field).take(units))
    } else {
        field.take(units)
    }
}

/// What follows the first `units` display units of a field.
pub open spec fn tail(field: Seq<u8>, units: int) -> Seq<u8> {
    if valid_utf8(field) {
        encode_utf8(decode_utf8(field).skip(units))
    } else {
        field.skip(units)
    }
}

/// A field cut down to `limit` units, the last of them the marker.
pub open spec fn truncated(field: Seq<u8>, limit: usize) -> Seq<u8> {
    if limit == 0 {
        Seq::empty()
    } else {
        head(field, limit - 1).push(MARKER)
    }
}

/// A field after condensing: itself where no limit is set or where it fits,
/// else cut down to the limit.
pub open spec fn condensed(field: Seq<u8>, limit: Option<usize>) -> Seq<u8> {
    match limit {
        None => field,
        Some(n) => if display_width(field) <= n {
            field
        } else {
            truncated(field, n)
        },
    }
}

/// Encoding a text piece by piece gives the encoding of the whole.
pub proof fn lemma_encode_concat(a: Seq<char>, b: Seq<char>)
    ensures
        encode_utf8(a + b) == encode_utf8(a) + encode_utf8(b),
    decreases a.len(),
{
    if a.len() == 0 {
        assert(a + b =~= b);
        assert(encode_utf8(a) + encode_utf8(b) =~= encode_utf8(b));
    } else {
        lemma_encode_concat(a.drop_first(), b);
        assert((a + b).drop_first() =~= a.drop_first() + b);
        assert((a + b)[0] == a[0]);
        assert(encode_utf8(a + b) =~= encode_utf8(a) + encode_utf8(b));
    }
}

/// A cut at a unit boundary loses nothing: head and tail make up the field.
pub proof fn lemma_head_tail(field: Seq<u8>, units: int)
    requires
        0 <= units <= display_width(field),
    ensures
        head(field, units) + tail(field, units) == field,
{
    if valid_utf8(field) {
        let text = decode_utf8(field);
        lemma_encode_concat(text.take(units), text.skip(units));
        assert(text.take(units) + text.skip(units) =~= text);
        decode_utf8_encode_utf8(field);
    } else {
        assert(field.take(units) + field.skip(units) =~= field);
    }
}

/// The marker alone is a text of one code point.
pub proof fn lemma_marker_is_one_unit()
    ensures
        valid_utf8(seq![MARKER]),
        display_width(seq![MARKER]) == 1,
{
    lemma_ascii_width(seq![MARKER]);
}

/// The head of a field is as wide as was asked for.
pub proof fn lemma_head_width(field: Seq<u8>, units: int)
    requires
        0 <= units <= display_width(field),
    ensures
        valid_utf8(field) ==> valid_utf8(head(field, units)) && decode_utf8(head(field, units))
            == decode_utf8(field).take(units),
        valid_utf8(field) ==> display_width(head(field, units)) == units,
        !valid_utf8(field) ==> head(field, units).len() == units,
{
    if valid_utf8(field) {
        let kept = decode_utf8(field).take(units);
        encode_utf8_valid_utf8(kept);
        encode_utf8_decode_utf8(kept);
    }
}

/// A text with the marker behind it is a text, one code point longer.
pub proof fn lemma_marked_text(text: Seq<u8>)
    requires
        valid_utf8(text),
    ensures
        valid_utf8(text.push(MARKER)),
        display_width(text.push(MARKER)) == display_width(text) + 1,
{
    lemma_marker_is_one_unit();
    lemma_text_concat(text, seq![MARKER]);
    assert(text.push(MARKER) =~= text + seq![MARKER]);
}

/// A field that was cut down is never wider than the limit. Where the field
/// is text the result is text, exactly as wide as the limit; where it is not,
/// the result is exactly as long as the limit.
pub proof fn lemma_truncated_width(field: Seq<u8>, limit: usize)
    requires
        display_width(field) > limit,
    ensures
        display_width(truncated(field, limit)) <= limit,
        valid_utf8(field) ==> valid_utf8(truncated(field, limit)) && display_width(
            truncated(field, limit),
        ) == limit,
        !valid_utf8(field) ==> truncated(field, limit).len() == limit,
{
    if limit == 0 {
        assert(valid_utf8(Seq::<u8>::empty()));
        assert(decode_utf8(Seq::<u8>::empty()).len() == 0);
    } else {
        let kept = head(field, limit - 1);
        lemma_head_width(field, limit - 1);
        if valid_utf8(field) {
            lemma_marked_text(kept);
        } else {
            lemma_width_within_len(kept.push(MARKER));
        }
    }
}

/// Condensing to a limit leaves no field wider than the limit.
pub proof fn lemma_condensed_width(field: Seq<u8>, limit: usize)
    ensures
        display_width(condensed(field, Some(limit))) <= limit,
{
    if display_width(field) > limit {
        lemma_truncated_width(field, limit);
    }
}

/// Condensing brings in no byte but the marker: a byte that is not the marker
/// and is nowhere in a field is nowhere in the condensed field either.
pub proof fn lemma_condensed_brings_only_marker(field: Seq<u8>, limit: Option<usize>, byte: u8)
    requires
        byte != MARKER,
        forall|i: int| 0 <= i < field.len() ==> field[i] != byte,
    ensures
        forall|i: int|
            0 <= i < condensed(field, limit).len() ==> condensed(field, limit)[i] != byte,
{
    if let Some(n) = limit {
        if display_width(field) > n && n > 0 {
            let kept = head(field, n - 1);
            lemma_head_tail(field, n - 1);
            assert forall|i: int| 0 <= i < kept.len() implies kept[i] != byte by {
                assert(kept[i] == (kept + tail(field, n - 1))[i]);
            }
        }
    }
}

/// The bytes that a `Cow` holds or borrows.
fn bytes_of<'b, 'a>(field: &'b Cow<'a, [u8]>) -> (bytes: &'b [u8])
    ensures
        bytes@ == field@,
{
    match field {
        Cow::Borrowed(bytes) => bytes,
        Cow::Owned(bytes) => bytes.as_slice(),
    }
}

/// Cuts `field` down to `limit` units where it is wider, and says `None`
/// where it fits.
pub fn shorten(field: &[u8], limit: usize) -> (cut: Option<Vec<u8>>)
    ensures
        display_width(field@) <= limit <==> cut is None,
        cut matches Some(bytes) ==> bytes@ == truncated(field@, limit),
{
    match core::str::from_utf8(field) {
        Ok(text) => {
            proof {
                encode_utf8_decode_utf8(text@);
            }
            if text.unicode_len() <= limit {
                None
            } else if limit == 0 {
                Some(Vec::new())
            } else {
                let kept = text.substring_char(0, limit - 1);
                let mut bytes = kept.as_bytes_vec();
                bytes.push(MARKER);
                Some(bytes)
            }
        },
        Err(_) => {
            if field.len() <= limit {
                None
            } else if limit == 0 {
                Some(Vec::new())
            } else {
                let mut bytes = slice_to_vec(slice_subrange(field, 0, limit - 1));
                bytes.push(MARKER);
                Some(bytes)
            }
        },
    }
}

/// Condenses a field.
///
/// Without a limit, and where the field is no wider than the limit, the field
/// comes back as it went in, borrowed if it was borrowed. A wider field comes
/// back cut down to the limit, its last unit the marker.
pub fn condense<'a>(field: Cow<'a, [u8]>, limit: Option<usize>) -> (out: Cow<'a, [u8]>)
    ensures
        out@ == condensed(field@, limit),
        out@ == field@ ==> out == field,
        limit matches Some(n) ==> display_width(out@) <= n,
{
    match limit {
        None => field,
        Some(n) => {
            proof {
                lemma_condensed_width(field@, n);
            }
            match shorten(bytes_of(&field), n) {
                None => field,
                Some(bytes) => {
                    proof {
                        lemma_truncated_width(field@, n);
                    }
                    Cow::Owned(bytes)
                },
            }
        },
    }
}

} // verus!
