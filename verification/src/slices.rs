//! Slices of a text by byte offsets.

use vstd::prelude::*;
use vstd::string::*;
use vstd::utf8::*;

verus! {

/// The text of bytes `a..b` of a text.
pub open spec fn slice_text(text: Seq<char>, a: int, b: int) -> Seq<char> {
    decode_utf8(encode_utf8(text).subrange(a, b))
}

/// Whether bytes `a..b` of a text are whole characters of it.
pub open spec fn is_span(text: Seq<char>, a: int, b: int) -> bool {
    let bytes = encode_utf8(text);
    &&& 0 <= a <= b <= bytes.len()
    &&& is_char_boundary(bytes, a)
    &&& is_char_boundary(bytes, b)
}

/// The start and the end of a text enclose whole characters.
pub proof fn lemma_whole_span(text: Seq<char>)
    ensures
        is_span(text, 0, encode_utf8(text).len() as int),
        slice_text(text, 0, encode_utf8(text).len() as int) == text,
{
    let bytes = encode_utf8(text);
    encode_utf8_valid_utf8(text);
    encode_utf8_decode_utf8(text);
    is_char_boundary_start_end_of_seq(bytes);
    assert(bytes.subrange(0, bytes.len() as int) =~= bytes);
}

/// A byte that continues no character begins one.
pub proof fn lemma_boundary(text: Seq<char>, i: int)
    requires
        0 <= i < encode_utf8(text).len(),
        !is_continuation_byte(encode_utf8(text)[i]),
    ensures
        is_char_boundary(encode_utf8(text), i),
{
    encode_utf8_valid_utf8(text);
    is_char_boundary_iff_not_is_continuation_byte(encode_utf8(text), i);
}

proof fn lemma_boundary_in_prefix(bytes: Seq<u8>, a: int, b: int)
    requires
        valid_utf8(bytes),
        0 <= a <= b <= bytes.len(),
        is_char_boundary(bytes, a),
        is_char_boundary(bytes, b),
    ensures
        valid_utf8(bytes.subrange(0, b)),
        is_char_boundary(bytes.subrange(0, b), a),
{
    valid_utf8_split(bytes, b);
    let prefix = bytes.subrange(0, b);
    if a == b {
        is_char_boundary_start_end_of_seq(prefix);
    } else {
        is_char_boundary_iff_not_is_continuation_byte(bytes, a);
        is_char_boundary_iff_not_is_continuation_byte(prefix, a);
        assert(prefix[a] == bytes[a]);
    }
}

/// Bytes `a..b` of a text.
pub fn slice<'a>(text: &'a str, a: usize, b: usize) -> (r: &'a str)
    requires
        is_span(text@, a as int, b as int),
    ensures
        r@ == slice_text(text@, a as int, b as int),
        encode_utf8(r@) == encode_utf8(text@).subrange(a as int, b as int),
{
    let ghost bytes = encode_utf8(text@);
    proof {
        encode_utf8_valid_utf8(text@);
        lemma_boundary_in_prefix(bytes, a as int, b as int);
    }
    let (prefix, _) = text.split_at(b);
    let (_, r) = prefix.split_at(a);
    proof {
        assert(bytes.subrange(0, b as int).subrange(a as int, b as int) =~= bytes.subrange(
            a as int,
            b as int,
        ));
        encode_utf8_decode_utf8(r@);
    }
    r
}

} // verus!
