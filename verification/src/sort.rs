//! Sorting by text.

use crate::text::{before, before_irreflexive, before_total, before_transitive, text_before};
use vstd::prelude::*;

verus! {

/// Whether position `i` comes before position `j` in a stable sort of `keys`.
pub open spec fn precedes(keys: Seq<String>, i: int, j: int) -> bool {
    before(keys[i]@, keys[j]@) || (keys[i]@ == keys[j]@ && i < j)
}

/// Whether the positions in `o` ascend.
pub open spec fn ordered(keys: Seq<String>, o: Seq<usize>) -> bool {
    forall|a: int, b: int|
        0 <= a < b < o.len() ==> precedes(keys, #[trigger] o[a] as int, #[trigger] o[b] as int)
}

/// Whether `o` lists the positions of `keys` in the order of a stable sort.
pub open spec fn is_order(keys: Seq<String>, o: Seq<usize>) -> bool {
    &&& o.len() == keys.len()
    &&& ordered(keys, o)
    &&& forall|x: usize| #[trigger] o.contains(x) <==> x < keys.len()
}

proof fn precedes_is_transitive(keys: Seq<String>, i: int, j: int, k: int)
    requires
        precedes(keys, i, j),
        precedes(keys, j, k),
    ensures
        precedes(keys, i, k),
{
    if before(keys[i]@, keys[j]@) && before(keys[j]@, keys[k]@) {
        before_transitive(keys[i]@, keys[j]@, keys[k]@);
    }
}

/// Whether position `i` comes before position `j`.
fn comes_first(keys: &Vec<String>, i: usize, j: usize) -> (r: bool)
    requires
        i < keys@.len(),
        j < keys@.len(),
        i != j,
    ensures
        r == precedes(keys@, i as int, j as int),
        !r ==> precedes(keys@, j as int, i as int),
{
    proof {
        before_total(keys@[i as int]@, keys@[j as int]@);
        before_irreflexive(keys@[i as int]@);
        if before(keys@[i as int]@, keys@[j as int]@) && before(keys@[j as int]@, keys@[i as int]@) {
            before_transitive(keys@[i as int]@, keys@[j as int]@, keys@[i as int]@);
        }
    }
    if text_before(keys[i].as_str(), keys[j].as_str()) {
        true
    } else if text_before(keys[j].as_str(), keys[i].as_str()) {
        false
    } else {
        i < j
    }
}

/// Merges two ascending lists of positions that share none.
fn merge(keys: &Vec<String>, a: &Vec<usize>, b: &Vec<usize>) -> (r: Vec<usize>)
    requires
        ordered(keys@, a@),
        ordered(keys@, b@),
        forall|x: usize| #[trigger] a@.contains(x) ==> x < keys@.len(),
        forall|x: usize| #[trigger] b@.contains(x) ==> x < keys@.len(),
        forall|x: usize| #[trigger] a@.contains(x) ==> !b@.contains(x),
        a@.len() + b@.len() <= usize::MAX,
    ensures
        ordered(keys@, r@),
        r@.len() == a@.len() + b@.len(),
        forall|x: usize| #[trigger] r@.contains(x) <==> a@.contains(x) || b@.contains(x),
{
    let mut r: Vec<usize> = Vec::new();
    let mut i: usize = 0;
    let mut j: usize = 0;
    while i < a.len() || j < b.len()
        invariant
            i <= a@.len(),
            j <= b@.len(),
            r@.len() == i + j,
            ordered(keys@, a@),
            ordered(keys@, b@),
            forall|x: usize| #[trigger] a@.contains(x) ==> x < keys@.len(),
            forall|x: usize| #[trigger] b@.contains(x) ==> x < keys@.len(),
            forall|x: usize| #[trigger] a@.contains(x) ==> !b@.contains(x),
            ordered(keys@, r@),
            forall|p: int, q: int|
                0 <= p < r@.len() && i <= q < a@.len() ==> precedes(
                    keys@,
                    #[trigger] r@[p] as int,
                    #[trigger] a@[q] as int,
                ),
            forall|p: int, q: int|
                0 <= p < r@.len() && j <= q < b@.len() ==> precedes(
                    keys@,
                    #[trigger] r@[p] as int,
                    #[trigger] b@[q] as int,
                ),
            forall|p: int|
                0 <= p < r@.len() ==> a@.contains(#[trigger] r@[p]) || b@.contains(r@[p]),
            forall|q: int| 0 <= q < i ==> r@.contains(#[trigger] a@[q]),
            forall|q: int| 0 <= q < j ==> r@.contains(#[trigger] b@[q]),
        decreases a@.len() - i + b@.len() - j,
    {
        let ghost was = r@;
        if i < a.len() {
            assert(a@.contains(a@[i as int]));
        }
        if j < b.len() {
            assert(b@.contains(b@[j as int]));
        }
        let from_a = if i >= a.len() {
            false
        } else if j >= b.len() {
            true
        } else {
            comes_first(keys, a[i], b[j])
        };
        if from_a {
            r.push(a[i]);
            proof {
                pushed_keeps(was, a@[i as int]);
                assert forall|p: int, q: int|
                    0 <= p < r@.len() && j <= q < b@.len() implies precedes(
                    keys@,
                    #[trigger] r@[p] as int,
                    #[trigger] b@[q] as int,
                ) by {
                    if p == was.len() && q > j {
                        precedes_is_transitive(
                            keys@,
                            a@[i as int] as int,
                            b@[j as int] as int,
                            b@[q] as int,
                        );
                    }
                }
            }
            i = i + 1;
        } else {
            r.push(b[j]);
            proof {
                pushed_keeps(was, b@[j as int]);
                assert forall|p: int, q: int|
                    0 <= p < r@.len() && i <= q < a@.len() implies precedes(
                    keys@,
                    #[trigger] r@[p] as int,
                    #[trigger] a@[q] as int,
                ) by {
                    if p == was.len() && q > i {
                        precedes_is_transitive(
                            keys@,
                            b@[j as int] as int,
                            a@[i as int] as int,
                            a@[q] as int,
                        );
                    }
                }
            }
            j = j + 1;
        }
    }
    proof {
        assert forall|x: usize| #[trigger] r@.contains(x) <==> a@.contains(x) || b@.contains(x) by {
            if r@.contains(x) {
                let p = choose|p: int| 0 <= p < r@.len() && r@[p] == x;
                assert(a@.contains(r@[p]) || b@.contains(r@[p]));
            }
            if a@.contains(x) {
                let q = choose|q: int| 0 <= q < a@.len() && a@[q] == x;
                assert(r@.contains(a@[q]));
            }
            if b@.contains(x) {
                let q = choose|q: int| 0 <= q < b@.len() && b@[q] == x;
                assert(r@.contains(b@[q]));
            }
        }
    }
    r
}

/// Pushing keeps what is there and adds one.
proof fn pushed_keeps(s: Seq<usize>, x: usize)
    ensures
        s.push(x).contains(x),
        forall|y: usize| s.contains(y) ==> #[trigger] s.push(x).contains(y),
{
    assert(s.push(x)[s.len() as int] == x);
    assert forall|y: usize| s.contains(y) implies #[trigger] s.push(x).contains(y) by {
        let i = choose|i: int| 0 <= i < s.len() && s[i] == y;
        assert(s.push(x)[i] == y);
    }
}

/// The positions `from..to`, in order.
fn sort_range(keys: &Vec<String>, from: usize, to: usize) -> (r: Vec<usize>)
    requires
        from <= to <= keys@.len(),
    ensures
        ordered(keys@, r@),
        r@.len() == to - from,
        forall|x: usize| #[trigger] r@.contains(x) <==> from <= x < to,
    decreases to - from,
{
    if to - from == 0 {
        return Vec::new();
    }
    if to - from == 1 {
        let mut r: Vec<usize> = Vec::new();
        r.push(from);
        assert(r@[0] == from);
        assert forall|x: usize| #[trigger] r@.contains(x) implies from <= x < to by {
            let i = choose|i: int| 0 <= i < r@.len() && r@[i] == x;
        }
        return r;
    }
    let mid: usize = from + (to - from) / 2;
    let a = sort_range(keys, from, mid);
    let b = sort_range(keys, mid, to);
    merge(keys, &a, &b)
}

/// The positions of `keys` in the order of a stable sort.
pub fn order(keys: &Vec<String>) -> (r: Vec<usize>)
    ensures
        is_order(keys@, r@),
{
    sort_range(keys, 0, keys.len())
}

} // verus!
