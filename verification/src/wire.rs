//! The calls into `postcard`, which writes and reads the single values of a
//! snapshot. What is stated of them here is taken on trust.

use crate::text::{text_encoding, text_parse};
use crate::varint::{varint, varint_parse_u64};
use vstd::prelude::*;

verus! {

/// The error of `postcard`. Nothing is read from it.
#[verifier::external_type_specification]
#[verifier::external_body]
pub struct ExWireError(postcard::Error);

/// `postcard::to_allocvec` on a `u64`. It writes the number seven bits at a
/// time, low group first, into a vector that grows as needed, so it does not
/// fail.
#[verifier::external_body]
pub(crate) fn write_u64(value: u64) -> (r: Result<Vec<u8>, postcard::Error>)
    ensures
        r is Ok,
        r->Ok_0@ == varint(value as nat),
{
    postcard::to_allocvec(&value)
}

/// `postcard::take_from_bytes` for a `u64`. It reads up to ten bytes until
/// one has its high bit clear, refuses a tenth byte above 1, and hands back
/// the number with the bytes it did not use.
#[verifier::external_body]
pub(crate) fn read_u64<'a>(bytes: &'a [u8]) -> (r: Result<(u64, &'a [u8]), postcard::Error>)
    ensures
        match r {
            Ok((value, rest)) => varint_parse_u64(bytes@) == Some((value as nat, rest@)),
            Err(_) => varint_parse_u64(bytes@) is None,
        },
{
    postcard::take_from_bytes::<u64>(bytes)
}

/// `postcard::to_allocvec` on a `str`. It writes the number of UTF-8 bytes
/// as a variable-width integer and then the bytes, into a vector that grows
/// as needed, so it does not fail.
#[verifier::external_body]
pub(crate) fn write_text(text: &str) -> (r: Result<Vec<u8>, postcard::Error>)
    ensures
        r is Ok,
        r->Ok_0@ == text_encoding(text@),
{
    postcard::to_allocvec(text)
}

/// `postcard::take_from_bytes` for a `String`. It reads a length as wide as
/// `usize`, takes that many bytes, refuses them unless they are UTF-8, and
/// hands back the string with the bytes it did not use.
#[verifier::external_body]
pub(crate) fn read_text<'a>(bytes: &'a [u8]) -> (r: Result<(String, &'a [u8]), postcard::Error>)
    ensures
        match r {
            Ok((text, rest)) => text_parse(bytes@) == Some((text@, rest@)),
            Err(_) => text_parse(bytes@) is None,
        },
{
    postcard::take_from_bytes::<String>(bytes)
}

} // verus!
