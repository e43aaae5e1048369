//! The stored form of a string: the length of its UTF-8 bytes as a
//! variable-width integer, then the bytes themselves.

use crate::varint::{
    varint, varint_capacity_of_widths, varint_parse_of_cut_varint, varint_parse_of_varint,
    varint_parse_usize,
};
use vstd::prelude::*;
use vstd::utf8::{
    decode_utf8, encode_utf8, encode_utf8_decode_utf8, encode_utf8_valid_utf8, valid_utf8,
};

verus! {

/// The bytes that stand for `text`.
pub open spec fn text_encoding(text: Seq<char>) -> Seq<u8> {
    varint(encode_utf8(text).len()) + encode_utf8(text)
}

/// A string whose UTF-8 form is short enough for its length to be written
/// as a `usize`. Every string in memory is.
pub open spec fn text_storable(text: Seq<char>) -> bool {
    encode_utf8(text).len() <= usize::MAX
}

/// Reads one string from the front of `bytes` and gives it with the bytes
/// that follow it. It fails when the length cannot be read, when fewer bytes
/// follow than the length announces, or when they are not UTF-8.
pub open spec fn text_parse(bytes: Seq<u8>) -> Option<(Seq<char>, Seq<u8>)> {
    match varint_parse_usize(bytes) {
        Some((len, rest)) => {
            if len <= rest.len() && valid_utf8(rest.take(len as int)) {
                Some((decode_utf8(rest.take(len as int)), rest.skip(len as int)))
            } else {
                None
            }
        },
        None => None,
    }
}

/// Reading what was written gives the string back and leaves what followed.
pub proof fn text_parse_of_encoding(text: Seq<char>, rest: Seq<u8>)
    requires
        text_storable(text),
    ensures
        text_parse(text_encoding(text) + rest) == Some((text, rest)),
{
    let body = encode_utf8(text);
    let len = body.len();
    assert(text_encoding(text) + rest =~= varint(len) + (body + rest));
    varint_capacity_of_widths();
    if usize::BITS == 64 {
        varint_parse_of_varint(len, body + rest, 10, 1);
    } else {
        varint_parse_of_varint(len, body + rest, 5, 15);
    }
    assert((body + rest).take(len as int) =~= body);
    assert((body + rest).skip(len as int) =~= rest);
    encode_utf8_valid_utf8(text);
    encode_utf8_decode_utf8(text);
}

/// A stored string that lost bytes at its end cannot be read.
pub proof fn text_parse_of_cut_encoding(text: Seq<char>, cut: int)
    requires
        text_storable(text),
        0 <= cut < text_encoding(text).len(),
    ensures
        text_parse(text_encoding(text).take(cut)) is None,
{
    let body = encode_utf8(text);
    let len = body.len();
    let head = varint(len);
    if cut < head.len() {
        assert(text_encoding(text).take(cut) =~= head.take(cut));
        if usize::BITS == 64 {
            varint_parse_of_cut_varint(len, cut, 10, 1);
        } else {
            varint_parse_of_cut_varint(len, cut, 5, 15);
        }
    } else {
        let kept = body.take(cut - head.len());
        assert(text_encoding(text).take(cut) =~= head + kept);
        varint_capacity_of_widths();
        if usize::BITS == 64 {
            varint_parse_of_varint(len, kept, 10, 1);
        } else {
            varint_parse_of_varint(len, kept, 5, 15);
        }
    }
}

} // verus!
