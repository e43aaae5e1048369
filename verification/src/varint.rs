//! The variable-width unsigned integers of the snapshot format.
//!
//! A number is written seven bits at a time, least significant group first.
//! Every byte but the last has its high bit set.

use vstd::prelude::*;

verus! {

/// The bytes that stand for `n`.
pub open spec fn varint(n: nat) -> Seq<u8>
    decreases n,
{
    if n < 128 {
        seq![n as u8]
    } else {
        seq![(128 + n % 128) as u8] + varint(n / 128)
    }
}

/// How many numbers a reader can tell apart that accepts at most `limit`
/// bytes and, in the last of them, a value of at most `last_max`.
pub open spec fn varint_capacity(limit: nat, last_max: nat) -> nat
    decreases limit,
{
    if limit <= 1 {
        last_max + 1
    } else {
        128 * varint_capacity((limit - 1) as nat, last_max)
    }
}

/// Reads one number from the front of `bytes` and gives it with the bytes
/// that follow it. Reading stops at the first byte whose high bit is clear.
/// It fails when the bytes end before that, when more than `limit` bytes
/// would be needed, or when the `limit`-th byte is above `last_max`.
///
/// Padded forms are read as well: `[0x80, 0x00]` is zero.
pub open spec fn varint_parse_within(bytes: Seq<u8>, limit: nat, last_max: nat) -> Option<
    (nat, Seq<u8>),
>
    decreases limit,
{
    if limit == 0 || bytes.len() == 0 {
        None
    } else if bytes[0] < 128 {
        if limit == 1 && bytes[0] > last_max {
            None
        } else {
            Some((bytes[0] as nat, bytes.skip(1)))
        }
    } else {
        match varint_parse_within(bytes.skip(1), (limit - 1) as nat, last_max) {
            Some((high, rest)) => Some(((bytes[0] - 128) as nat + 128 * high, rest)),
            None => None,
        }
    }
}

/// Reads a 64-bit number: at most ten bytes, the tenth at most 1.
pub open spec fn varint_parse_u64(bytes: Seq<u8>) -> Option<(nat, Seq<u8>)> {
    varint_parse_within(bytes, 10, 1)
}

/// Reads a number as wide as `usize`: ten bytes and a last byte of at most 1
/// on a 64-bit machine, five bytes and a last byte of at most 15 on a 32-bit
/// one.
pub open spec fn varint_parse_usize(bytes: Seq<u8>) -> Option<(nat, Seq<u8>)> {
    if usize::BITS == 64 {
        varint_parse_within(bytes, 10, 1)
    } else {
        varint_parse_within(bytes, 5, 15)
    }
}

/// Ten bytes with a last byte of at most 1 hold exactly the 64-bit numbers,
/// five bytes with a last byte of at most 15 exactly the 32-bit ones.
pub proof fn varint_capacity_of_widths()
    ensures
        varint_capacity(10, 1) == 0x1_0000_0000_0000_0000,
        varint_capacity(5, 15) == 0x1_0000_0000,
{
    reveal_with_fuel(varint_capacity, 11);
}

/// Reading what was written gives the number back and leaves what followed.
pub proof fn varint_parse_of_varint(n: nat, rest: Seq<u8>, limit: nat, last_max: nat)
    requires
        last_max < 128,
        n < varint_capacity(limit, last_max),
        limit >= 1,
    ensures
        varint_parse_within(varint(n) + rest, limit, last_max) == Some((n, rest)),
    decreases n,
{
    let bytes = varint(n) + rest;
    if n < 128 {
        assert(bytes[0] == n as u8);
        assert(bytes.skip(1) =~= rest);
    } else {
        assert(limit >= 2);
        let tail = varint(n / 128);
        assert(bytes[0] == (128 + n % 128) as u8);
        assert(bytes.skip(1) =~= tail + rest);
        varint_parse_of_varint(n / 128, rest, (limit - 1) as nat, last_max);
    }
}

/// Every reader can tell at least one number apart.
pub proof fn varint_capacity_positive(limit: nat, last_max: nat)
    ensures
        varint_capacity(limit, last_max) >= last_max + 1,
    decreases limit,
{
    if limit > 1 {
        varint_capacity_positive((limit - 1) as nat, last_max);
    }
}

/// A number that was read is within the reader's capacity, and what is left
/// is a proper tail of the input.
pub proof fn varint_parse_bounds(bytes: Seq<u8>, limit: nat, last_max: nat)
    requires
        last_max < 128,
    ensures
        match varint_parse_within(bytes, limit, last_max) {
            Some((value, rest)) => {
                &&& value < varint_capacity(limit, last_max)
                &&& rest.len() < bytes.len()
                &&& bytes.len() - rest.len() <= limit
                &&& rest == bytes.skip(bytes.len() - rest.len())
            },
            None => true,
        },
    decreases limit,
{
    if limit == 0 || bytes.len() == 0 {
    } else if bytes[0] < 128 {
        varint_capacity_positive((limit - 1) as nat, last_max);
    } else {
        varint_parse_bounds(bytes.skip(1), (limit - 1) as nat, last_max);
        match varint_parse_within(bytes.skip(1), (limit - 1) as nat, last_max) {
            Some((high, rest)) => {
                assert(bytes.skip(1).skip(bytes.skip(1).len() - rest.len()) =~= bytes.skip(
                    bytes.len() - rest.len(),
                ));
            },
            None => {},
        }
    }
}

/// An encoding that lost bytes at its end cannot be read.
pub proof fn varint_parse_of_cut_varint(n: nat, cut: int, limit: nat, last_max: nat)
    requires
        0 <= cut < varint(n).len(),
    ensures
        varint_parse_within(varint(n).take(cut), limit, last_max) is None,
    decreases n,
{
    let bytes = varint(n).take(cut);
    if n < 128 {
        assert(bytes.len() == 0);
    } else if cut == 0 {
        assert(bytes.len() == 0);
    } else if limit == 0 {
    } else {
        let tail = varint(n / 128);
        assert(bytes[0] == (128 + n % 128) as u8);
        assert(bytes.skip(1) =~= tail.take(cut - 1));
        varint_parse_of_cut_varint(n / 128, cut - 1, (limit - 1) as nat, last_max);
    }
}

} // verus!
