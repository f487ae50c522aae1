//! Sorting of numbers.
use vstd::prelude::*;

verus! {

broadcast use vstd::seq_lib::group_to_multiset_ensures;

/// Whether the numbers ascend.
pub open spec fn ascending(s: Seq<u32>) -> bool {
    forall|i: int, j: int| 0 <= i < j < s.len() ==> #[trigger] s[i] <= #[trigger] s[j]
}

/// Whether the numbers ascend and none occurs twice.
pub open spec fn strictly_ascending(s: Seq<u32>) -> bool {
    forall|i: int, j: int| 0 <= i < j < s.len() ==> #[trigger] s[i] < #[trigger] s[j]
}

proof fn lemma_take_push(s: Seq<u32>, i: int)
    requires
        0 <= i < s.len(),
    ensures
        s.take(i + 1) == s.take(i).push(s[i]),
        s.take(i + 1).to_multiset() == s.take(i).to_multiset().insert(s[i]),
{
    assert(s.take(i + 1) =~= s.take(i).push(s[i]));
}

/// Merges two ascending lists into one.
fn merge(a: &Vec<u32>, b: &Vec<u32>) -> (r: Vec<u32>)
    requires
        ascending(a@),
        ascending(b@),
    ensures
        ascending(r@),
        r@.to_multiset() == a@.to_multiset().add(b@.to_multiset()),
{
    let mut out: Vec<u32> = Vec::new();
    let mut i: usize = 0;
    let mut j: usize = 0;
    proof {
        assert(a@.take(0) =~= Seq::<u32>::empty());
        assert(b@.take(0) =~= Seq::<u32>::empty());
        assert(out@.to_multiset() =~= a@.take(0).to_multiset().add(b@.take(0).to_multiset()));
    }
    while i < a.len() || j < b.len()
        invariant
            ascending(a@),
            ascending(b@),
            i <= a@.len(),
            j <= b@.len(),
            ascending(out@),
            forall|k: int, m: int|
                0 <= k < out@.len() && i <= m < a@.len() ==> #[trigger] out@[k]
                    <= #[trigger] a@[m],
            forall|k: int, m: int|
                0 <= k < out@.len() && j <= m < b@.len() ==> #[trigger] out@[k]
                    <= #[trigger] b@[m],
            out@.to_multiset() == a@.take(i as int).to_multiset().add(
                b@.take(j as int).to_multiset(),
            ),
        decreases a@.len() - i + b@.len() - j,
    {
        let ghost before = out@;
        if j == b.len() || (i < a.len() && a[i] <= b[j]) {
            proof {
                lemma_take_push(a@, i as int);
            }
            out.push(a[i]);
            proof {
                assert(out@.to_multiset() =~= a@.take(i + 1).to_multiset().add(
                    b@.take(j as int).to_multiset(),
                ));
                assert forall|k: int, m: int|
                    0 <= k < out@.len() && j <= m < b@.len() implies #[trigger] out@[k]
                    <= #[trigger] b@[m] by {
                    if k == before.len() {
                        assert(b@[j as int] <= b@[m]) by {
                            if m > j {
                                assert(b@[j as int] <= b@[m]);
                            }
                        }
                    }
                }
            }
            i += 1;
        } else {
            proof {
                lemma_take_push(b@, j as int);
            }
            out.push(b[j]);
            proof {
                assert(out@.to_multiset() =~= a@.take(i as int).to_multiset().add(
                    b@.take(j + 1).to_multiset(),
                ));
                assert forall|k: int, m: int|
                    0 <= k < out@.len() && i <= m < a@.len() implies #[trigger] out@[k]
                    <= #[trigger] a@[m] by {
                    if k == before.len() {
                        if m > i {
                            assert(a@[i as int] <= a@[m]);
                        }
                    }
                }
            }
            j += 1;
        }
    }
    assert(a@.take(i as int) =~= a@);
    assert(b@.take(j as int) =~= b@);
    out
}

/// Sorts numbers.
pub fn sort_numbers(v: Vec<u32>) -> (r: Vec<u32>)
    ensures
        ascending(r@),
        r@.to_multiset() == v@.to_multiset(),
    decreases v@.len(),
{
    if v.len() <= 1 {
        return v;
    }
    let mid: usize = v.len() / 2;
    let mut a: Vec<u32> = Vec::new();
    let mut b: Vec<u32> = Vec::new();
    let mut i: usize = 0;
    assert(v@.take(0) =~= Seq::<u32>::empty());
    assert(a@.to_multiset().add(b@.to_multiset()) =~= v@.take(0).to_multiset());
    while i < v.len()
        invariant
            i <= v@.len(),
            0 < mid < v@.len(),
            a@.len() == if i <= mid {
                i as nat
            } else {
                mid as nat
            },
            b@.len() == i - a@.len(),
            a@.to_multiset().add(b@.to_multiset()) == v@.take(i as int).to_multiset(),
        decreases v@.len() - i,
    {
        proof {
            lemma_take_push(v@, i as int);
        }
        if i < mid {
            a.push(v[i]);
        } else {
            b.push(v[i]);
        }
        assert(a@.to_multiset().add(b@.to_multiset()) =~= v@.take(i + 1).to_multiset());
        i += 1;
    }
    assert(v@.take(i as int) =~= v@);
    let x = sort_numbers(a);
    let y = sort_numbers(b);
    merge(&x, &y)
}

/// Two strictly ascending lists of the same numbers are the same list.
pub proof fn law_strictly_ascending_is_determined(a: Seq<u32>, b: Seq<u32>)
    requires
        strictly_ascending(a),
        strictly_ascending(b),
        a.to_set() == b.to_set(),
    ensures
        a == b,
    decreases a.len(),
{
    if a.len() == 0 {
        if b.len() > 0 {
            assert(b.to_set().contains(b[0]));
            assert(a.to_set().contains(b[0]));
        }
        assert(a =~= b);
    } else {
        assert(a.to_set().contains(a.last())) by {
            assert(a[a.len() - 1] == a.last());
        }
        assert(b.contains(a.last()));
        let i = choose|i: int| 0 <= i < b.len() && b[i] == a.last();
        assert(b.to_set().contains(b.last())) by {
            assert(b[b.len() - 1] == b.last());
        }
        assert(a.contains(b.last()));
        let j = choose|j: int| 0 <= j < a.len() && a[j] == b.last();
        assert(a.last() == b.last()) by {
            if i < b.len() - 1 {
                assert(b[i] < b[b.len() - 1]);
            }
            if j < a.len() - 1 {
                assert(a[j] < a[a.len() - 1]);
            }
        }
        let x = a.drop_last();
        let y = b.drop_last();
        assert forall|n: u32| x.to_set().contains(n) == y.to_set().contains(n) by {
            if x.contains(n) {
                let k = choose|k: int| 0 <= k < x.len() && x[k] == n;
                assert(a[k] == n && a[k] < a[a.len() - 1]);
                assert(a.to_set().contains(n));
                assert(b.contains(n));
                let m = choose|m: int| 0 <= m < b.len() && b[m] == n;
                assert(m < b.len() - 1);
                assert(y[m] == n);
            }
            if y.contains(n) {
                let k = choose|k: int| 0 <= k < y.len() && y[k] == n;
                assert(b[k] == n && b[k] < b[b.len() - 1]);
                assert(b.to_set().contains(n));
                assert(a.contains(n));
                let m = choose|m: int| 0 <= m < a.len() && a[m] == n;
                assert(m < a.len() - 1);
                assert(x[m] == n);
            }
        }
        assert(x.to_set() =~= y.to_set());
        law_strictly_ascending_is_determined(x, y);
        assert(a =~= x.push(a.last()));
        assert(b =~= y.push(b.last()));
    }
}

} // verus!
