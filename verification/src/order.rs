//! The dictionary order of byte strings, by which strings are ranked.

use vstd::prelude::*;

verus! {

/// Whether `a` comes before `b`: at the first place where they differ `a`
/// has the smaller byte, or `a` ends there and `b` goes on.
pub open spec fn bytes_precede(a: Seq<u8>, b: Seq<u8>) -> bool
    decreases a.len(),
{
    if b.len() == 0 {
        false
    } else if a.len() == 0 {
        true
    } else if a[0] != b[0] {
        a[0] < b[0]
    } else {
        bytes_precede(a.skip(1), b.skip(1))
    }
}

/// Nothing comes before itself.
pub proof fn bytes_precede_irreflexive(a: Seq<u8>)
    ensures
        !bytes_precede(a, a),
    decreases a.len(),
{
    if a.len() > 0 {
        bytes_precede_irreflexive(a.skip(1));
    }
}

/// What comes before something that comes before a third comes before the
/// third.
pub proof fn bytes_precede_transitive(a: Seq<u8>, b: Seq<u8>, c: Seq<u8>)
    requires
        bytes_precede(a, b),
        bytes_precede(b, c),
    ensures
        bytes_precede(a, c),
    decreases a.len(),
{
    if a.len() > 0 && a[0] == b[0] && b[0] == c[0] {
        bytes_precede_transitive(a.skip(1), b.skip(1), c.skip(1));
    }
}

/// Of two different byte strings one comes before the other.
pub proof fn bytes_precede_connected(a: Seq<u8>, b: Seq<u8>)
    ensures
        a == b || bytes_precede(a, b) || bytes_precede(b, a),
    decreases a.len(),
{
    if a.len() == 0 || b.len() == 0 {
        assert(a.len() == 0 && b.len() == 0 ==> a =~= b);
    } else if a[0] == b[0] {
        bytes_precede_connected(a.skip(1), b.skip(1));
        if a.skip(1) == b.skip(1) {
            assert(a =~= seq![a[0]] + a.skip(1));
            assert(b =~= seq![b[0]] + b.skip(1));
        }
    }
}

/// Comparing two byte strings from place `from` on decides their order when
/// they agree before it.
pub proof fn bytes_precede_after_equal(a: Seq<u8>, b: Seq<u8>, from: int)
    requires
        0 <= from < a.len(),
        from < b.len(),
        a[from] == b[from],
    ensures
        bytes_precede(a.skip(from), b.skip(from)) == bytes_precede(
            a.skip(from + 1),
            b.skip(from + 1),
        ),
{
    assert(a.skip(from).skip(1) =~= a.skip(from + 1));
    assert(b.skip(from).skip(1) =~= b.skip(from + 1));
}

/// Whether the bytes of `a` come before those of `b`.
pub fn precedes(a: &[u8], b: &[u8]) -> (before: bool)
    ensures
        before == bytes_precede(a@, b@),
{
    let mut at: usize = 0;
    assert(a@.skip(0) =~= a@ && b@.skip(0) =~= b@);
    while at < a.len() && at < b.len()
        invariant
            at <= a@.len(),
            at <= b@.len(),
            bytes_precede(a@, b@) == bytes_precede(a@.skip(at as int), b@.skip(at as int)),
        decreases a@.len() - at,
    {
        if a[at] != b[at] {
            return a[at] < b[at];
        }
        proof {
            bytes_precede_after_equal(a@, b@, at as int);
        }
        at += 1;
    }
    at < b.len()
}

} // verus!
