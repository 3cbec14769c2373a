//! Facts about sequences that the other modules share.

use vstd::prelude::*;

verus! {

/// What a sequence holds after a push: what it held, and the new item.
pub proof fn lemma_push_contains<A>(s: Seq<A>, x: A)
    ensures
        forall|a: A|
            #![trigger s.push(x).contains(a)]
            #![trigger s.contains(a)]
            s.push(x).contains(a) <==> (s.contains(a) || a == x),
{
    assert forall|a: A| s.push(x).contains(a) <==> (s.contains(a) || a == x) by {
        if s.contains(a) {
            let p = choose|p: int| 0 <= p < s.len() && s[p] == a;
            assert(s.push(x)[p] == a);
        }
        if a == x {
            assert(s.push(x)[s.len() as int] == a);
        }
        if s.push(x).contains(a) {
            let p = choose|p: int| 0 <= p < s.push(x).len() && s.push(x)[p] == a;
            if p < s.len() {
                assert(s[p] == a);
            }
        }
    }
}

/// A push of an item that the sequence lacks keeps it free of duplicates.
pub proof fn lemma_push_no_duplicates<A>(s: Seq<A>, x: A)
    requires
        s.no_duplicates(),
        !s.contains(x),
    ensures
        s.push(x).no_duplicates(),
{
    assert forall|i: int, j: int|
        0 <= i < s.push(x).len() && 0 <= j < s.push(x).len() && i != j implies s.push(x)[i]
        != s.push(x)[j] by {
        if i < s.len() {
            assert(s.contains(s[i]));
        }
        if j < s.len() {
            assert(s.contains(s[j]));
        }
    }
}

/// What a duplicate-free sequence holds after the item at `i` was taken
/// out: what it held, but for that item.
pub proof fn lemma_remove_contains<A>(s: Seq<A>, i: int)
    requires
        s.no_duplicates(),
        0 <= i < s.len(),
    ensures
        s.remove(i).no_duplicates(),
        forall|a: A|
            #![trigger s.remove(i).contains(a)]
            #![trigger s.contains(a)]
            s.remove(i).contains(a) <==> (s.contains(a) && a != s[i]),
{
    let r = s.remove(i);
    assert forall|p: int, q: int| 0 <= p < r.len() && 0 <= q < r.len() && p != q implies r[p]
        != r[q] by {
        let pp = if p < i { p } else { p + 1 };
        let qq = if q < i { q } else { q + 1 };
        assert(r[p] == s[pp] && r[q] == s[qq]);
    }
    assert forall|a: A| r.contains(a) <==> (s.contains(a) && a != s[i]) by {
        if r.contains(a) {
            let p = choose|p: int| 0 <= p < r.len() && r[p] == a;
            let pp = if p < i { p } else { p + 1 };
            assert(s[pp] == a);
        }
        if s.contains(a) && a != s[i] {
            let p = choose|p: int| 0 <= p < s.len() && s[p] == a;
            let pp = if p < i { p } else { p - 1 };
            assert(r[pp] == a);
        }
    }
}

} // verus!
