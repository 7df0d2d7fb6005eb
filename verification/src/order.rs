//! Lists in strictly ascending order under some order of their members.

use vstd::prelude::*;

verus! {

/// Every member of the list stands before all later ones.
pub open spec fn ascending<T>(s: Seq<T>, before: spec_fn(T, T) -> bool) -> bool {
    forall|i: int, j: int| 0 <= i < j < s.len() ==> before(#[trigger] s[i], #[trigger] s[j])
}

/// Two ascending lists with the same members are the same list, where no
/// two values stand before each other and none before itself.
pub proof fn lemma_ascending_unique<T>(a: Seq<T>, b: Seq<T>, before: spec_fn(T, T) -> bool)
    requires
        forall|x: T, y: T| !(#[trigger] before(x, y) && before(y, x)),
        ascending(a, before),
        ascending(b, before),
        forall|t: T| #![trigger a.contains(t)] #![trigger b.contains(t)] a.contains(t) <==> b.contains(t),
    ensures
        a == b,
    decreases a.len(),
{
    if a.len() == 0 {
        if b.len() > 0 {
            assert(b.contains(b[0]));
            assert(a.contains(b[0]));
        }
        assert(a =~= b);
    } else {
        let x = a.last();
        assert(a.contains(x));
        assert(b.contains(x));
        let i = choose|i: int| 0 <= i < b.len() && b[i] == x;
        let y = b.last();
        assert(b.contains(y));
        assert(a.contains(y));
        let k = choose|k: int| 0 <= k < a.len() && a[k] == y;
        if i < b.len() - 1 {
            assert(before(b[i], b[b.len() - 1]));
            if k < a.len() - 1 {
                assert(before(a[k], a[a.len() - 1]));
            }
            assert(!(before(x, y) && before(y, x)));
        }
        assert(x == y);
        let a0 = a.drop_last();
        let b0 = b.drop_last();
        assert forall|t: T|
            #![trigger a0.contains(t)]
            #![trigger b0.contains(t)]
            a0.contains(t) <==> b0.contains(t) by {
            if a0.contains(t) {
                let m = choose|m: int| 0 <= m < a0.len() && a0[m] == t;
                assert(a[m] == t);
                assert(before(a[m], a[a.len() - 1]));
                assert(!(before(t, x) && before(x, t)));
                assert(a.contains(t));
                assert(b.contains(t));
                let n = choose|n: int| 0 <= n < b.len() && b[n] == t;
                assert(b0[n] == t);
            }
            if b0.contains(t) {
                let m = choose|m: int| 0 <= m < b0.len() && b0[m] == t;
                assert(b[m] == t);
                assert(before(b[m], b[b.len() - 1]));
                assert(!(before(t, y) && before(y, t)));
                assert(b.contains(t));
                assert(a.contains(t));
                let n = choose|n: int| 0 <= n < a.len() && a[n] == t;
                assert(a0[n] == t);
            }
        }
        assert forall|p: int, q: int| 0 <= p < q < a0.len() implies before(
            #[trigger] a0[p],
            #[trigger] a0[q],
        ) by {
            assert(a0[p] == a[p] && a0[q] == a[q]);
        }
        assert forall|p: int, q: int| 0 <= p < q < b0.len() implies before(
            #[trigger] b0[p],
            #[trigger] b0[q],
        ) by {
            assert(b0[p] == b[p] && b0[q] == b[q]);
        }
        lemma_ascending_unique(a0, b0, before);
        assert(a =~= a0.push(x));
        assert(b =~= b0.push(y));
    }
}

} // verus!
