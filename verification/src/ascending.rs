//! Ascending sequences: the order in which a set holds its elements.

use crate::element::Element;
use vstd::prelude::*;

verus! {

/// Whether every value of `s` ranks before all that follow it. Such a
/// sequence holds no value twice.
pub open spec fn ascending<T: Element>(s: Seq<T::V>) -> bool {
    forall|i: int, j: int| 0 <= i < j < s.len() ==> #[trigger] T::ranks_before(s[i], s[j])
}

/// Putting `v` into an ascending sequence, after all that rank before it and
/// before one that it ranks before, gives an ascending sequence that holds
/// `v` besides what was there. `v` was not there.
pub proof fn insert_keeps_ascending<T: Element>(s: Seq<T::V>, at: int, v: T::V)
    requires
        ascending::<T>(s),
        0 <= at <= s.len(),
        forall|i: int| 0 <= i < at ==> T::ranks_before(#[trigger] s[i], v),
        at < s.len() ==> T::ranks_before(v, s[at]),
    ensures
        ascending::<T>(s.insert(at, v)),
        !s.contains(v),
        s.insert(at, v).to_set() == s.to_set().insert(v),
{
    let t = s.insert(at, v);
    assert forall|i: int| at <= i < s.len() implies T::ranks_before(v, #[trigger] s[i]) by {
        if i > at {
            assert(T::ranks_before(s[at], s[i]));
            T::order_transitive(v, s[at], s[i]);
        }
    }
    assert forall|i: int, j: int| 0 <= i < j < t.len() implies #[trigger] T::ranks_before(
        t[i],
        t[j],
    ) by {
        if j < at {
            assert(T::ranks_before(s[i], s[j]));
        } else if j == at {
            assert(T::ranks_before(s[i], v));
        } else if i < at {
            assert(T::ranks_before(s[i], s[j - 1]));
        } else if i == at {
            assert(T::ranks_before(v, s[j - 1]));
        } else {
            assert(T::ranks_before(s[i - 1], s[j - 1]));
        }
    }
    T::order_irreflexive(v);
    assert forall|i: int| 0 <= i < s.len() implies s[i] != v by {
        if i < at {
            assert(T::ranks_before(s[i], v));
        } else {
            assert(T::ranks_before(v, s[i]));
        }
    }
    assert forall|x: T::V| t.to_set().contains(x) <==> s.to_set().insert(v).contains(x) by {
        if t.contains(x) {
            let k = choose|k: int| 0 <= k < t.len() && t[k] == x;
            if k < at {
                assert(s[k] == x);
            } else if k > at {
                assert(s[k - 1] == x);
            }
        }
        if s.contains(x) {
            let k = choose|k: int| 0 <= k < s.len() && s[k] == x;
            if k < at {
                assert(t[k] == x);
            } else {
                assert(t[k + 1] == x);
            }
        }
        if x == v {
            assert(t[at] == x);
        }
    }
    assert(t.to_set() =~= s.to_set().insert(v));
}

/// Taking the value at place `at` out of an ascending sequence gives an
/// ascending sequence that holds what was there but that value.
pub proof fn remove_keeps_ascending<T: Element>(s: Seq<T::V>, at: int)
    requires
        ascending::<T>(s),
        0 <= at < s.len(),
    ensures
        ascending::<T>(s.remove(at)),
        s.remove(at).to_set() == s.to_set().remove(s[at]),
{
    let t = s.remove(at);
    assert forall|i: int, j: int| 0 <= i < j < t.len() implies #[trigger] T::ranks_before(
        t[i],
        t[j],
    ) by {
        if j < at {
            assert(T::ranks_before(s[i], s[j]));
        } else if i < at {
            assert(T::ranks_before(s[i], s[j + 1]));
        } else {
            assert(T::ranks_before(s[i + 1], s[j + 1]));
        }
    }
    T::order_irreflexive(s[at]);
    assert forall|x: T::V| t.to_set().contains(x) <==> s.to_set().remove(s[at]).contains(x) by {
        if t.contains(x) {
            let k = choose|k: int| 0 <= k < t.len() && t[k] == x;
            if k < at {
                assert(s[k] == x);
                assert(T::ranks_before(s[k], s[at]));
            } else {
                assert(s[k + 1] == x);
                assert(T::ranks_before(s[at], s[k + 1]));
            }
        }
        if s.contains(x) && x != s[at] {
            let k = choose|k: int| 0 <= k < s.len() && s[k] == x;
            if k < at {
                assert(t[k] == x);
            } else {
                assert(t[k - 1] == x);
            }
        }
    }
    assert(t.to_set() =~= s.to_set().remove(s[at]));
}

/// Two ascending sequences that hold the same values are the same
/// sequence: a set has one ascending arrangement.
pub proof fn ascending_same_values<T: Element>(a: Seq<T::V>, b: Seq<T::V>)
    requires
        ascending::<T>(a),
        ascending::<T>(b),
        a.to_set() == b.to_set(),
    ensures
        a == b,
    decreases a.len(),
{
    if a.len() == 0 || b.len() == 0 {
        if a.len() > 0 {
            assert(a.to_set().contains(a[0]));
            assert(b.contains(a[0]));
        }
        if b.len() > 0 {
            assert(b.to_set().contains(b[0]));
            assert(a.contains(b[0]));
        }
        assert(a =~= b);
    } else {
        assert(a.to_set().contains(a[0]));
        assert(b.to_set().contains(b[0]));
        let k = choose|k: int| 0 <= k < b.len() && b[k] == a[0];
        let m = choose|m: int| 0 <= m < a.len() && a[m] == b[0];
        assert(b.contains(a[0]));
        assert(a.contains(b[0]));
        T::order_irreflexive(a[0]);
        if k > 0 {
            assert(T::ranks_before(b[0], b[k]));
            if m > 0 {
                assert(T::ranks_before(a[0], a[m]));
                T::order_transitive(a[0], b[0], a[0]);
            }
        }
        assert(a[0] == b[0]);
        let ra = a.drop_first();
        let rb = b.drop_first();
        assert forall|x: T::V| ra.to_set().contains(x) <==> rb.to_set().contains(x) by {
            T::order_irreflexive(x);
            if ra.contains(x) {
                let i = choose|i: int| 0 <= i < ra.len() && ra[i] == x;
                assert(a[i + 1] == x);
                assert(T::ranks_before(a[0], a[i + 1]));
                assert(a.to_set().contains(x));
                let j = choose|j: int| 0 <= j < b.len() && b[j] == x;
                assert(b.contains(x));
                assert(rb[j - 1] == x);
            }
            if rb.contains(x) {
                let i = choose|i: int| 0 <= i < rb.len() && rb[i] == x;
                assert(b[i + 1] == x);
                assert(T::ranks_before(b[0], b[i + 1]));
                assert(b.to_set().contains(x));
                let j = choose|j: int| 0 <= j < a.len() && a[j] == x;
                assert(a.contains(x));
                assert(ra[j - 1] == x);
            }
        }
        assert(ra.to_set() =~= rb.to_set());
        assert(ascending::<T>(ra)) by {
            assert forall|i: int, j: int| 0 <= i < j < ra.len() implies #[trigger] T::ranks_before(
                ra[i],
                ra[j],
            ) by {
                assert(T::ranks_before(a[i + 1], a[j + 1]));
            }
        }
        assert(ascending::<T>(rb)) by {
            assert forall|i: int, j: int| 0 <= i < j < rb.len() implies #[trigger] T::ranks_before(
                rb[i],
                rb[j],
            ) by {
                assert(T::ranks_before(b[i + 1], b[j + 1]));
            }
        }
        ascending_same_values::<T>(ra, rb);
        assert(a =~= seq![a[0]] + ra);
        assert(b =~= seq![b[0]] + rb);
    }
}

} // verus!
