//! Sorting by a total preorder that each sortable type states.
use vstd::prelude::*;

verus! {

/// A type ordered by a key: `key_le` is a total preorder and `le` decides it.
pub trait KeyOrder: Sized {
    spec fn key_le(&self, other: &Self) -> bool;

    proof fn lemma_key_le_total(a: &Self, b: &Self)
        ensures
            a.key_le(b) || b.key_le(a),
    ;

    proof fn lemma_key_le_trans(a: &Self, b: &Self, c: &Self)
        requires
            a.key_le(b),
            b.key_le(c),
        ensures
            a.key_le(c),
    ;

    fn le(&self, other: &Self) -> (r: bool)
        ensures
            r == self.key_le(other),
    ;
}

/// Every earlier element is ordered before every later one.
pub open spec fn sorted_by_key<T: KeyOrder>(s: Seq<T>) -> bool {
    forall|i: int, j: int| #![trigger s[i], s[j]] 0 <= i < j < s.len() ==> s[i].key_le(&s[j])
}

/// Insertion sort: the result holds the same elements, ordered by key.
pub fn sort_by_key_order<T: KeyOrder>(v: Vec<T>) -> (r: Vec<T>)
    ensures
        sorted_by_key(r@),
        r@.to_multiset() == v@.to_multiset(),
{
    broadcast use vstd::seq_lib::group_to_multiset_ensures;

    let ghost orig = v@;
    let mut rest = v;
    let mut out: Vec<T> = Vec::new();
    while rest.len() > 0
        invariant
            sorted_by_key(out@),
            out@.to_multiset().add(rest@.to_multiset()) == orig.to_multiset(),
        decreases rest.len(),
    {
        let ghost before = rest@;
        let x = rest.pop().unwrap();
        assert(before == rest@.push(x));
        let mut j: usize = 0;
        while j < out.len() && out[j].le(&x)
            invariant
                j <= out.len(),
                forall|k: int| 0 <= k < j ==> (#[trigger] out@[k]).key_le(&x),
            decreases out.len() - j,
        {
            j = j + 1;
        }
        proof {
            if j < out.len() {
                T::lemma_key_le_total(&out@[j as int], &x);
                assert forall|k: int| j <= k < out@.len() implies x.key_le(&#[trigger] out@[k]) by {
                    if k > j {
                        T::lemma_key_le_trans(&x, &out@[j as int], &out@[k]);
                    }
                }
            }
        }
        let ghost old_out = out@;
        out.insert(j, x);
        assert(out@ == old_out.insert(j as int, x));
        assert forall|a: int, b: int| 0 <= a < b < out@.len() implies #[trigger] out@[a].key_le(
            &#[trigger] out@[b],
        ) by {
            if b < j {
            } else if a < j && b == j {
            } else if a < j && b > j {
                assert(out@[b] == old_out[b - 1]);
            } else if a == j {
                assert(out@[b] == old_out[b - 1]);
            } else {
                assert(out@[a] == old_out[a - 1]);
                assert(out@[b] == old_out[b - 1]);
            }
        }
        proof {
            vstd::seq_lib::to_multiset_insert(old_out, j as int, x);
            vstd::seq_lib::to_multiset_build(rest@, x);
            assert(before.to_multiset() == rest@.to_multiset().insert(x));
            assert(out@.to_multiset().add(rest@.to_multiset()) =~= old_out.to_multiset().add(
                before.to_multiset(),
            ));
        }
    }
    out
}

} // verus!
