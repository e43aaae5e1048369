//! The set itself: unique elements, held in ascending order.

use crate::ascending::{ascending, insert_keeps_ascending, remove_keeps_ascending};
use crate::element::Element;
use crate::error::{IoFailure, StorageError};
use crate::snapshot::{
    all_storable, items_encoding, items_encoding_push, items_parse, items_parse_step, read_after,
    restore_of_snapshot, restores, snapshot_items, snapshot_of,
};
use crate::varint::{varint, varint_parse_u64};
use crate::wire::{read_u64, write_u64};
use vstd::prelude::*;

verus! {

/// An ordered set of unique elements. Its view is the sequence of its
/// elements' values in ascending order.
#[derive(Debug)]
pub struct SnapshotSet<T: Element> {
    items: Vec<T>,
}

impl<T: Element> View for SnapshotSet<T> {
    type V = Seq<T::V>;

    closed spec fn view(&self) -> Seq<T::V> {
        self.items@.map_values(|e: T| e@)
    }
}

impl<T: Element> SnapshotSet<T> {
    #[verifier::type_invariant]
    spec fn well_formed(self) -> bool {
        ascending::<T>(self@)
    }

    /// The empty set.
    pub fn new() -> (set: Self)
        ensures
            set@ == Seq::<T::V>::empty(),
    {
        let set = SnapshotSet { items: Vec::new() };
        assert(set@ =~= Seq::<T::V>::empty());
        set
    }

    /// The number of elements.
    pub fn len(&self) -> (n: usize)
        ensures
            n == self@.len(),
            ascending::<T>(self@),
    {
        proof {
            use_type_invariant(self);
        }
        self.items.len()
    }

    /// Whether the set holds nothing.
    pub fn is_empty(&self) -> (empty: bool)
        ensures
            empty == (self@.len() == 0),
    {
        self.items.len() == 0
    }

    /// The element at place `index` of the ascending order, the smallest
    /// being at place 0.
    pub fn get(&self, index: usize) -> (r: Option<&T>)
        ensures
            match r {
                Some(e) => index < self@.len() && e@ == self@[index as int],
                None => index >= self@.len(),
            },
    {
        if index < self.items.len() {
            Some(&self.items[index])
        } else {
            None
        }
    }

    /// Where `e` stands or would stand, found by halving: the first place
    /// whose element does not rank before `e`, and whether `e` is there.
    fn locate(&self, e: &T) -> (r: (usize, bool))
        ensures
            r.0 <= self@.len(),
            forall|i: int| 0 <= i < r.0 ==> T::ranks_before(#[trigger] self@[i], e@),
            r.1 ==> r.0 < self@.len() && self@[r.0 as int] == e@,
            !r.1 && r.0 < self@.len() ==> T::ranks_before(e@, self@[r.0 as int]),
            r.1 == self@.contains(e@),
    {
        proof {
            use_type_invariant(self);
        }
        let mut low: usize = 0;
        let mut high: usize = self.items.len();
        while low < high
            invariant
                low <= high <= self@.len(),
                self@.len() == self.items@.len(),
                ascending::<T>(self@),
                forall|i: int| 0 <= i < low ==> T::ranks_before(#[trigger] self@[i], e@),
                forall|i: int| high <= i < self@.len() ==> !T::ranks_before(#[trigger] self@[i], e@),
            decreases high - low,
        {
            let mid: usize = low + (high - low) / 2;
            if self.items[mid].before(e) {
                assert forall|i: int| 0 <= i < mid + 1 implies T::ranks_before(
                    #[trigger] self@[i],
                    e@,
                ) by {
                    if i < mid {
                        assert(T::ranks_before(self@[i], self@[mid as int]));
                        T::order_transitive(self@[i], self@[mid as int], e@);
                    }
                }
                low = mid + 1;
            } else {
                assert forall|i: int| mid <= i < self@.len() implies !T::ranks_before(
                    #[trigger] self@[i],
                    e@,
                ) by {
                    if i > mid && T::ranks_before(self@[i], e@) {
                        assert(T::ranks_before(self@[mid as int], self@[i]));
                        T::order_transitive(self@[mid as int], self@[i], e@);
                    }
                }
                high = mid;
            }
        }
        let found = low < self.items.len() && !e.before(&self.items[low]);
        proof {
            let at = low as int;
            if at < self@.len() {
                T::order_connected(self@[at], e@);
            }
            if !found {
                assert forall|i: int| 0 <= i < self@.len() implies self@[i] != e@ by {
                    T::order_irreflexive(e@);
                    if i > at {
                        assert(T::ranks_before(self@[at], self@[i]));
                        if self@[i] == e@ {
                            T::order_transitive(e@, self@[at], e@);
                        }
                    }
                }
            }
        }
        (low, found)
    }

    /// Whether `e` is in the set.
    pub fn contains(&self, e: &T) -> (found: bool)
        ensures
            found == self@.contains(e@),
    {
        self.locate(e).1
    }

    /// Adds `e` unless it is there already, and tells whether the set
    /// changed.
    pub fn insert(&mut self, e: T) -> (changed: bool)
        ensures
            changed == !old(self)@.contains(e@),
            !changed ==> final(self)@ == old(self)@,
            final(self)@.to_set() == old(self)@.to_set().insert(e@),
            final(self)@.len() == old(self)@.len() + if changed { 1int } else { 0 },
            ascending::<T>(final(self)@),
    {
        proof {
            use_type_invariant(&*self);
        }
        let (at, found) = self.locate(&e);
        if found {
            assert(self@.to_set().insert(e@) =~= self@.to_set());
            return false;
        }
        let ghost before = self@;
        let ghost value = e@;
        let mut items: Vec<T> = Vec::new();
        assert(items@.map_values(|e: T| e@) =~= Seq::<T::V>::empty());
        std::mem::swap(&mut items, &mut self.items);
        items.insert(at, e);
        proof {
            assert(items@.map_values(|e: T| e@) =~= before.insert(at as int, value));
            insert_keeps_ascending::<T>(before, at as int, value);
        }
        self.items = items;
        true
    }

    /// Takes `e` out if it is there, and tells whether the set changed.
    pub fn remove(&mut self, e: &T) -> (changed: bool)
        ensures
            changed == old(self)@.contains(e@),
            !changed ==> final(self)@ == old(self)@,
            final(self)@.to_set() == old(self)@.to_set().remove(e@),
            final(self)@.len() == old(self)@.len() - if changed { 1int } else { 0 },
            ascending::<T>(final(self)@),
    {
        proof {
            use_type_invariant(&*self);
        }
        let (at, found) = self.locate(e);
        if !found {
            assert(self@.to_set().remove(e@) =~= self@.to_set());
            return false;
        }
        let ghost before = self@;
        let mut items: Vec<T> = Vec::new();
        assert(items@.map_values(|e: T| e@) =~= Seq::<T::V>::empty());
        std::mem::swap(&mut items, &mut self.items);
        items.remove(at);
        proof {
            assert(items@.map_values(|e: T| e@) =~= before.remove(at as int));
            remove_keeps_ascending::<T>(before, at as int);
        }
        self.items = items;
        true
    }

    /// The snapshot of the set: the number of its elements, then each
    /// element's stored form, in ascending order. The set can be restored
    /// from it, and every element of it fits the stored form.
    pub fn snapshot(&self) -> (bytes: Vec<u8>)
        ensures
            bytes@ == snapshot_of::<T>(self@),
            restores::<T>(bytes@, self@),
            all_storable::<T>(self@),
    {
        proof {
            use_type_invariant(self);
        }
        let count: usize = self.items.len();
        let mut bytes: Vec<u8> = write_u64(count as u64).unwrap();
        let mut at: usize = 0;
        proof {
            assert(self@.take(0) =~= Seq::<T::V>::empty());
            assert(bytes@ =~= varint(count as nat) + items_encoding::<T>(self@.take(0)));
        }
        while at < count
            invariant
                at <= count,
                count == self.items@.len(),
                count == self@.len(),
                bytes@ == varint(count as nat) + items_encoding::<T>(self@.take(at as int)),
                all_storable::<T>(self@.take(at as int)),
            decreases count - at,
        {
            let mut piece: Vec<u8> = self.items[at].encode();
            proof {
                let written = self@.take(at as int);
                items_encoding_push::<T>(written, self@[at as int]);
                assert(self@.take(at + 1) =~= written.push(self@[at as int]));
                assert(varint(count as nat) + items_encoding::<T>(written) + piece@ =~= varint(
                    count as nat,
                ) + (items_encoding::<T>(written) + piece@));
            }
            bytes.append(&mut piece);
            at += 1;
        }
        proof {
            assert(self@.take(count as int) =~= self@);
            restore_of_snapshot::<T>(self@);
        }
        bytes
    }

    /// The set that the snapshot `bytes` holds. The elements are put in
    /// ascending order, whatever their order in `bytes`, and one that stands
    /// there twice is kept once. `bytes` is refused as corrupt where it is
    /// no snapshot.
    pub fn restore(bytes: &[u8]) -> (r: Result<Self, StorageError>)
        ensures
            match r {
                Ok(set) => restores::<T>(bytes@, set@),
                Err(e) => e == StorageError::CorruptData && snapshot_items::<T>(bytes@) is None,
            },
    {
        let (count, body) = match read_u64(bytes) {
            Ok(pair) => pair,
            Err(_) => {
                return Err(StorageError::CorruptData);
            },
        };
        let mut set: SnapshotSet<T> = SnapshotSet::new();
        let mut rest: &[u8] = body;
        let mut done: u64 = 0;
        let ghost mut read: Seq<T::V> = Seq::empty();
        proof {
            match items_parse::<T>(body@, count as nat) {
                Some((items, left)) => {
                    assert(read + items =~= items);
                },
                None => {},
            }
        }
        while done < count
            invariant
                done <= count,
                varint_parse_u64(bytes@) == Some((count as nat, body@)),
                items_parse::<T>(body@, count as nat) == read_after::<T>(
                    read,
                    items_parse::<T>(rest@, (count - done) as nat),
                ),
                set@.to_set() == read.to_set(),
            decreases count - done,
        {
            proof {
                items_parse_step::<T>(read, rest@, (count - done) as nat);
            }
            match T::decode(rest) {
                Ok((e, after)) => {
                    proof {
                        push_adds_to_values::<T>(read, e@);
                        read = read.push(e@);
                    }
                    set.insert(e);
                    rest = after;
                },
                Err(_) => {
                    return Err(StorageError::CorruptData);
                },
            }
            done += 1;
        }
        if rest.len() != 0 {
            return Err(StorageError::CorruptData);
        }
        proof {
            use_type_invariant(&set);
            assert(read + Seq::<T::V>::empty() =~= read);
        }
        Ok(set)
    }

    /// The set stored in a file, from what reading the whole file gave: the
    /// set that the bytes hold, or the failure to read them. Bytes that are
    /// no snapshot are refused as corrupt.
    pub fn load(read: Result<Vec<u8>, IoFailure>) -> (r: Result<Self, StorageError>)
        ensures
            match (read, r) {
                (Ok(bytes), Ok(set)) => restores::<T>(bytes@, set@),
                (Ok(bytes), Err(e)) => e == StorageError::CorruptData && snapshot_items::<T>(
                    bytes@,
                ) is None,
                (Err(failure), Err(e)) => e == StorageError::Io(failure),
                (Err(_), Ok(_)) => false,
            },
    {
        match read {
            Ok(bytes) => Self::restore(bytes.as_slice()),
            Err(failure) => Err(StorageError::Io(failure)),
        }
    }
}

/// The values of a sequence with `v` at its end are those of the sequence
/// and `v`.
proof fn push_adds_to_values<T: Element>(s: Seq<T::V>, v: T::V)
    ensures
        s.push(v).to_set() == s.to_set().insert(v),
{
    let t = s.push(v);
    assert forall|x: T::V| t.to_set().contains(x) <==> s.to_set().insert(v).contains(x) by {
        if s.contains(x) {
            let k = choose|k: int| 0 <= k < s.len() && s[k] == x;
            assert(t[k] == x);
        }
        if x == v {
            assert(t[s.len() as int] == x);
        }
    }
    assert(t.to_set() =~= s.to_set().insert(v));
}

} // verus!
