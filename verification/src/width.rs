//! Display width of a field.
//!
//! A field is a byte string that is usually, but not always, text. Its display
//! width is the number of code points it holds when it is well-formed UTF-8,
//! and the number of bytes otherwise.

use vstd::prelude::*;
use vstd::string::*;
use vstd::utf8::*;

verus! {

/// `core::str::Utf8Error`, carried through unread.
#[verifier::external_type_specification]
#[verifier::external_body]
pub struct ExUtf8Error(core::str::Utf8Error);

/// `core::str::from_utf8` accepts a slice exactly when its bytes are
/// well-formed UTF-8, and the string slice it hands back is made of the very
/// same bytes.
pub assume_specification[ core::str::from_utf8 ](v: &[u8]) -> (res: Result<
    &str,
    core::str::Utf8Error,
>)
    ensures
        res.is_ok() <==> valid_utf8(v@),
        res matches Ok(s) ==> s.spec_bytes() == v@,
;

/// The display width of a field: code points for text, bytes for anything else.
pub open spec fn display_width(field: Seq<u8>) -> nat {
    if valid_utf8(field) {
        decode_utf8(field).len()
    } else {
        field.len()
    }
}

/// Measures a field.
pub fn field_width(field: &[u8]) -> (w: usize)
    ensures
        w == display_width(field@),
{
    match core::str::from_utf8(field) {
        Ok(s) => {
            proof {
                encode_utf8_decode_utf8(s@);
            }
            s.unicode_len()
        },
        Err(_) => field.len(),
    }
}

/// No field is wider than it is long: a code point takes a byte at least.
pub proof fn lemma_width_within_len(field: Seq<u8>)
    ensures
        display_width(field) <= field.len(),
    decreases field.len(),
{
    if valid_utf8(field) && field.len() > 0 {
        lemma_width_within_len(pop_first_scalar(field));
    }
}

/// A field of ASCII bytes is text, and as wide as it is long.
pub proof fn lemma_ascii_width(field: Seq<u8>)
    requires
        forall|i: int| 0 <= i < field.len() ==> field[i] < 0x80,
    ensures
        valid_utf8(field),
        display_width(field) == field.len(),
    decreases field.len(),
{
    if field.len() > 0 {
        let first: u8 = field[0];
        let rest = pop_first_scalar(field);
        assert(first & 0x7f == first) by (bit_vector)
            requires
                first < 0x80,
        ;
        assert(rest =~= field.subrange(1, field.len() as int));
        lemma_ascii_width(rest);
    }
}

/// Two texts, one after the other, are a text, with the code points of both.
pub proof fn lemma_text_concat(a: Seq<u8>, b: Seq<u8>)
    requires
        valid_utf8(a),
        valid_utf8(b),
    ensures
        valid_utf8(a + b),
        decode_utf8(a + b) == decode_utf8(a) + decode_utf8(b),
        display_width(a + b) == display_width(a) + display_width(b),
{
    let whole = a + b;
    let at = a.len() as int;
    valid_utf8_concat(a, b);
    if b.len() == 0 {
        assert(whole =~= a);
        assert(decode_utf8(a) + decode_utf8(b) =~= decode_utf8(a));
    } else {
        assert(whole[at] == b[0]);
        assert(valid_first_scalar(b));
        is_char_boundary_iff_not_is_continuation_byte(whole, at);
        decode_utf8_split(whole, at);
        assert(whole.subrange(0, at) =~= a);
        assert(whole.subrange(at, whole.len() as int) =~= b);
    }
}

} // verus!
