//! What a type needs to be kept in a snapshot set: a total order, and a
//! stored form that can be read back.

use crate::error::StorageError;
use crate::order::{
    bytes_precede, bytes_precede_connected, bytes_precede_irreflexive, bytes_precede_transitive,
    precedes,
};
use crate::text::{
    text_encoding, text_parse, text_parse_of_cut_encoding, text_parse_of_encoding, text_storable,
};
use crate::varint::{
    varint, varint_capacity_of_widths, varint_parse_bounds, varint_parse_of_cut_varint,
    varint_parse_of_varint, varint_parse_u64,
};
use crate::wire::{read_text, read_u64, write_text, write_u64};
use vstd::prelude::*;
use vstd::utf8::{encode_utf8, encode_utf8_decode_utf8};

verus! {

/// An element of a snapshot set. Its view is the value that the set's
/// contracts speak of.
pub trait Element: View + Sized {
    /// The strict total order by which a set ranks its elements.
    spec fn ranks_before(a: Self::V, b: Self::V) -> bool;

    /// The values that fit the stored form. Every value in memory does.
    spec fn storable(v: Self::V) -> bool;

    /// The bytes that stand for `v` in a snapshot.
    spec fn encoding(v: Self::V) -> Seq<u8>;

    /// Reads one value from the front of `bytes` and gives it with the bytes
    /// that follow it, or nothing where no value can be read.
    spec fn parse(bytes: Seq<u8>) -> Option<(Self::V, Seq<u8>)>;

    /// No value ranks before itself.
    proof fn order_irreflexive(a: Self::V)
        ensures
            !Self::ranks_before(a, a),
    ;

    /// The order is transitive.
    proof fn order_transitive(a: Self::V, b: Self::V, c: Self::V)
        requires
            Self::ranks_before(a, b),
            Self::ranks_before(b, c),
        ensures
            Self::ranks_before(a, c),
    ;

    /// Of two different values one ranks before the other.
    proof fn order_connected(a: Self::V, b: Self::V)
        ensures
            a == b || Self::ranks_before(a, b) || Self::ranks_before(b, a),
    ;

    /// Reading what was written gives the value back and leaves what
    /// followed.
    proof fn parse_of_encoding(v: Self::V, rest: Seq<u8>)
        requires
            Self::storable(v),
        ensures
            Self::parse(Self::encoding(v) + rest) == Some((v, rest)),
    ;

    /// A stored value that lost bytes at its end cannot be read.
    proof fn parse_of_cut_encoding(v: Self::V, cut: int)
        requires
            Self::storable(v),
            0 <= cut < Self::encoding(v).len(),
        ensures
            Self::parse(Self::encoding(v).take(cut)) is None,
    ;

    /// Whether `self` ranks before `other`.
    fn before(&self, other: &Self) -> (b: bool)
        ensures
            b == Self::ranks_before(self@, other@),
    ;

    /// The stored form of `self`.
    fn encode(&self) -> (bytes: Vec<u8>)
        ensures
            bytes@ == Self::encoding(self@),
            Self::storable(self@),
    ;

    /// Reads one element from the front of `bytes` and gives it with the
    /// bytes that follow it.
    fn decode<'a>(bytes: &'a [u8]) -> (r: Result<(Self, &'a [u8]), StorageError>)
        ensures
            match r {
                Ok((element, rest)) => Self::parse(bytes@) == Some((element@, rest@)),
                Err(e) => e == StorageError::CorruptData && Self::parse(bytes@) is None,
            },
    ;
}

/// Numbers rank by size and are stored as variable-width integers.
impl Element for u64 {
    open spec fn ranks_before(a: u64, b: u64) -> bool {
        a < b
    }

    open spec fn storable(v: u64) -> bool {
        true
    }

    open spec fn encoding(v: u64) -> Seq<u8> {
        varint(v as nat)
    }

    open spec fn parse(bytes: Seq<u8>) -> Option<(u64, Seq<u8>)> {
        match varint_parse_u64(bytes) {
            Some((value, rest)) => Some((value as u64, rest)),
            None => None,
        }
    }

    proof fn order_irreflexive(a: u64) {
    }

    proof fn order_transitive(a: u64, b: u64, c: u64) {
    }

    proof fn order_connected(a: u64, b: u64) {
    }

    proof fn parse_of_encoding(v: u64, rest: Seq<u8>) {
        varint_capacity_of_widths();
        varint_parse_of_varint(v as nat, rest, 10, 1);
    }

    proof fn parse_of_cut_encoding(v: u64, cut: int) {
        varint_parse_of_cut_varint(v as nat, cut, 10, 1);
    }

    fn before(&self, other: &u64) -> (b: bool) {
        *self < *other
    }

    fn encode(&self) -> (bytes: Vec<u8>) {
        write_u64(*self).unwrap()
    }

    fn decode<'a>(bytes: &'a [u8]) -> (r: Result<(u64, &'a [u8]), StorageError>) {
        match read_u64(bytes) {
            Ok((value, rest)) => {
                proof {
                    varint_capacity_of_widths();
                    varint_parse_bounds(bytes@, 10, 1);
                }
                Ok((value, rest))
            },
            Err(_) => Err(StorageError::CorruptData),
        }
    }
}

/// Strings rank by their UTF-8 bytes, as `str` does, and are stored as
/// their length followed by those bytes.
impl Element for String {
    open spec fn ranks_before(a: Seq<char>, b: Seq<char>) -> bool {
        bytes_precede(encode_utf8(a), encode_utf8(b))
    }

    open spec fn storable(v: Seq<char>) -> bool {
        text_storable(v)
    }

    open spec fn encoding(v: Seq<char>) -> Seq<u8> {
        text_encoding(v)
    }

    open spec fn parse(bytes: Seq<u8>) -> Option<(Seq<char>, Seq<u8>)> {
        text_parse(bytes)
    }

    proof fn order_irreflexive(a: Seq<char>) {
        bytes_precede_irreflexive(encode_utf8(a));
    }

    proof fn order_transitive(a: Seq<char>, b: Seq<char>, c: Seq<char>) {
        bytes_precede_transitive(encode_utf8(a), encode_utf8(b), encode_utf8(c));
    }

    proof fn order_connected(a: Seq<char>, b: Seq<char>) {
        bytes_precede_connected(encode_utf8(a), encode_utf8(b));
        encode_utf8_decode_utf8(a);
        encode_utf8_decode_utf8(b);
    }

    proof fn parse_of_encoding(v: Seq<char>, rest: Seq<u8>) {
        text_parse_of_encoding(v, rest);
    }

    proof fn parse_of_cut_encoding(v: Seq<char>, cut: int) {
        text_parse_of_cut_encoding(v, cut);
    }

    fn before(&self, other: &String) -> (b: bool) {
        precedes(self.as_str().as_bytes(), other.as_str().as_bytes())
    }

    fn encode(&self) -> (bytes: Vec<u8>) {
        let text = self.as_str();
        let bytes = write_text(text).unwrap();
        assert(text_storable(self@)) by {
            assert(bytes.len() == bytes@.len());
        }
        bytes
    }

    fn decode<'a>(bytes: &'a [u8]) -> (r: Result<(String, &'a [u8]), StorageError>) {
        match read_text(bytes) {
            Ok((text, rest)) => Ok((text, rest)),
            Err(_) => Err(StorageError::CorruptData),
        }
    }
}

} // verus!
