//! The snapshot format: the number of elements as a variable-width integer,
//! then the stored form of each element, one after the other.

use crate::element::Element;
use crate::ascending::{ascending, ascending_same_values};
use crate::varint::{
    varint, varint_capacity_of_widths, varint_parse_of_cut_varint, varint_parse_of_varint,
    varint_parse_u64,
};
use vstd::prelude::*;

verus! {

/// The stored forms of `items`, one after the other.
pub open spec fn items_encoding<T: Element>(items: Seq<T::V>) -> Seq<u8>
    decreases items.len(),
{
    if items.len() == 0 {
        Seq::empty()
    } else {
        T::encoding(items[0]) + items_encoding::<T>(items.drop_first())
    }
}

/// The snapshot of `items`.
pub open spec fn snapshot_of<T: Element>(items: Seq<T::V>) -> Seq<u8> {
    varint(items.len()) + items_encoding::<T>(items)
}

/// Reads `count` values from the front of `bytes` and gives them, in the
/// order in which they stand there, with the bytes that follow them.
pub open spec fn items_parse<T: Element>(bytes: Seq<u8>, count: nat) -> Option<
    (Seq<T::V>, Seq<u8>),
>
    decreases count,
{
    if count == 0 {
        Some((Seq::empty(), bytes))
    } else {
        match T::parse(bytes) {
            Some((first, rest)) => match items_parse::<T>(rest, (count - 1) as nat) {
                Some((others, left)) => Some((seq![first] + others, left)),
                None => None,
            },
            None => None,
        }
    }
}

/// The outcome of a reading that went on after `read` had been read: the
/// values of both, and what the second left.
pub open spec fn read_after<T: Element>(
    read: Seq<T::V>,
    more: Option<(Seq<T::V>, Seq<u8>)>,
) -> Option<(Seq<T::V>, Seq<u8>)> {
    match more {
        Some((items, left)) => Some((read + items, left)),
        None => None,
    }
}

/// The values that the snapshot `bytes` holds, in the order in which they
/// stand there. There are none where `bytes` is no snapshot: where the count
/// cannot be read, where one of the values it announces cannot be read, or
/// where bytes are left after the last of them.
pub open spec fn snapshot_items<T: Element>(bytes: Seq<u8>) -> Option<Seq<T::V>> {
    match varint_parse_u64(bytes) {
        Some((count, rest)) => match items_parse::<T>(rest, count) {
            Some((items, left)) => if left.len() == 0 {
                Some(items)
            } else {
                None
            },
            None => None,
        },
        None => None,
    }
}

/// Whether the set `set` is what the snapshot `bytes` holds: `bytes` can be
/// read, and `set` is the ascending arrangement of the values in it.
pub open spec fn restores<T: Element>(bytes: Seq<u8>, set: Seq<T::V>) -> bool {
    &&& ascending::<T>(set)
    &&& snapshot_items::<T>(bytes) matches Some(items) && set.to_set() == items.to_set()
}

/// Whether every value of `items` fits the stored form.
pub open spec fn all_storable<T: Element>(items: Seq<T::V>) -> bool {
    forall|i: int| 0 <= i < items.len() ==> T::storable(#[trigger] items[i])
}

/// The stored forms of a sequence with one more value at its end are those
/// of the sequence, followed by that of the value.
pub proof fn items_encoding_push<T: Element>(items: Seq<T::V>, v: T::V)
    ensures
        items_encoding::<T>(items.push(v)) == items_encoding::<T>(items) + T::encoding(v),
    decreases items.len(),
{
    let longer = items.push(v);
    if items.len() == 0 {
        assert(longer.drop_first() =~= Seq::<T::V>::empty());
        assert(items_encoding::<T>(longer.drop_first()) =~= Seq::<u8>::empty());
        assert(items_encoding::<T>(longer) =~= T::encoding(v));
        assert(items_encoding::<T>(items) + T::encoding(v) =~= T::encoding(v));
    } else {
        assert(longer.drop_first() =~= items.drop_first().push(v));
        items_encoding_push::<T>(items.drop_first(), v);
        assert(items_encoding::<T>(longer) =~= items_encoding::<T>(items) + T::encoding(v));
    }
}

/// Reading as many values as were written gives them back and leaves what
/// followed.
pub proof fn items_parse_of_encoding<T: Element>(items: Seq<T::V>, rest: Seq<u8>)
    requires
        all_storable::<T>(items),
    ensures
        items_parse::<T>(items_encoding::<T>(items) + rest, items.len()) == Some((items, rest)),
    decreases items.len(),
{
    if items.len() == 0 {
        assert(items_encoding::<T>(items) + rest =~= rest);
        assert(items =~= Seq::<T::V>::empty());
    } else {
        let first = items[0];
        let others = items.drop_first();
        let tail = items_encoding::<T>(others) + rest;
        assert(items_encoding::<T>(items) + rest =~= T::encoding(first) + tail);
        assert(T::storable(items[0]));
        T::parse_of_encoding(first, tail);
        assert(all_storable::<T>(others)) by {
            assert forall|i: int| 0 <= i < others.len() implies T::storable(
                #[trigger] others[i],
            ) by {
                assert(T::storable(items[i + 1]));
            }
        }
        items_parse_of_encoding::<T>(others, rest);
        assert(seq![first] + others =~= items);
    }
}

/// Reading `count` values after `read` is reading one value and then the
/// remaining ones after `read` and that value.
pub proof fn items_parse_step<T: Element>(read: Seq<T::V>, bytes: Seq<u8>, count: nat)
    requires
        count > 0,
    ensures
        read_after::<T>(read, items_parse::<T>(bytes, count)) == match T::parse(bytes) {
            Some((first, rest)) => read_after::<T>(
                read.push(first),
                items_parse::<T>(rest, (count - 1) as nat),
            ),
            None => None,
        },
{
    match T::parse(bytes) {
        Some((first, rest)) => {
            match items_parse::<T>(rest, (count - 1) as nat) {
                Some((others, left)) => {
                    assert(read + (seq![first] + others) =~= read.push(first) + others);
                },
                None => {},
            }
        },
        None => {},
    }
}

/// Stored values that lost bytes at their end cannot all be read.
pub proof fn items_parse_of_cut_encoding<T: Element>(items: Seq<T::V>, cut: int)
    requires
        all_storable::<T>(items),
        0 <= cut < items_encoding::<T>(items).len(),
    ensures
        items_parse::<T>(items_encoding::<T>(items).take(cut), items.len()) is None,
    decreases items.len(),
{
    if items.len() > 0 {
        let first = items[0];
        let others = items.drop_first();
        let head = T::encoding(first);
        let tail = items_encoding::<T>(others);
        let kept = items_encoding::<T>(items).take(cut);
        assert(T::storable(items[0]));
        if cut < head.len() {
            assert(kept =~= head.take(cut));
            T::parse_of_cut_encoding(first, cut);
        } else {
            assert(kept =~= head + tail.take(cut - head.len()));
            T::parse_of_encoding(first, tail.take(cut - head.len()));
            assert(all_storable::<T>(others)) by {
                assert forall|i: int| 0 <= i < others.len() implies T::storable(
                    #[trigger] others[i],
                ) by {
                    assert(T::storable(items[i + 1]));
                }
            }
            items_parse_of_cut_encoding::<T>(others, cut - head.len());
        }
    }
}

/// What a snapshot holds are the values it was made of, in their order.
pub proof fn snapshot_items_of_snapshot<T: Element>(items: Seq<T::V>)
    requires
        all_storable::<T>(items),
        items.len() <= u64::MAX,
    ensures
        snapshot_items::<T>(snapshot_of::<T>(items)) == Some(items),
{
    let body = items_encoding::<T>(items);
    varint_capacity_of_widths();
    varint_parse_of_varint(items.len(), body, 10, 1);
    assert(body + Seq::<u8>::empty() =~= body);
    items_parse_of_encoding::<T>(items, Seq::empty());
}

/// Storing a set and reading it back gives the same set, with the same
/// elements in the same order, and no other.
pub proof fn restore_of_snapshot<T: Element>(saved: Seq<T::V>)
    requires
        ascending::<T>(saved),
        all_storable::<T>(saved),
        saved.len() <= u64::MAX,
    ensures
        restores::<T>(snapshot_of::<T>(saved), saved),
        forall|loaded: Seq<T::V>| #[trigger]
            restores::<T>(snapshot_of::<T>(saved), loaded) ==> loaded == saved,
{
    snapshot_items_of_snapshot::<T>(saved);
    assert forall|loaded: Seq<T::V>| #[trigger]
        restores::<T>(snapshot_of::<T>(saved), loaded) implies loaded == saved by {
        ascending_same_values::<T>(loaded, saved);
    }
}

/// The snapshot depends on what the set holds and on nothing else: two sets
/// with the same elements have the same snapshot, byte for byte.
pub proof fn same_values_same_snapshot<T: Element>(a: Seq<T::V>, b: Seq<T::V>)
    requires
        ascending::<T>(a),
        ascending::<T>(b),
        a.to_set() == b.to_set(),
    ensures
        snapshot_of::<T>(a) == snapshot_of::<T>(b),
{
    ascending_same_values::<T>(a, b);
}

/// A snapshot that lost bytes at its end, be it a single one, is no
/// snapshot: nothing can be restored from it.
pub proof fn cut_snapshot_unreadable<T: Element>(items: Seq<T::V>, cut: int)
    requires
        all_storable::<T>(items),
        items.len() <= u64::MAX,
        0 <= cut < snapshot_of::<T>(items).len(),
    ensures
        snapshot_items::<T>(snapshot_of::<T>(items).take(cut)) is None,
        forall|set: Seq<T::V>| !#[trigger] restores::<T>(snapshot_of::<T>(items).take(cut), set),
{
    let head = varint(items.len());
    let body = items_encoding::<T>(items);
    let kept = snapshot_of::<T>(items).take(cut);
    if cut < head.len() {
        assert(kept =~= head.take(cut));
        varint_parse_of_cut_varint(items.len(), cut, 10, 1);
    } else {
        assert(kept =~= head + body.take(cut - head.len()));
        varint_capacity_of_widths();
        varint_parse_of_varint(items.len(), body.take(cut - head.len()), 10, 1);
        items_parse_of_cut_encoding::<T>(items, cut - head.len());
    }
}

} // verus!
