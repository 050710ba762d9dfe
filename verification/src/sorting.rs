//! Ordering rows by a key of character codes, ascending or descending.
use vstd::prelude::*;

use vstd::multiset::Multiset;

use crate::text::{codes_le, codes_le_exec, lemma_codes_le_total, lemma_codes_le_transitive};

verus! {

broadcast use {vstd::seq_lib::group_to_multiset_ensures, vstd::multiset::group_multiset_axioms};

/// `a` may stand before `b` in the chosen direction.
pub open spec fn in_order(a: Seq<u32>, b: Seq<u32>, descending: bool) -> bool {
    if descending {
        codes_le(b, a)
    } else {
        codes_le(a, b)
    }
}

/// Every element stands before every later one, compared by `key`.
pub open spec fn sorted_by<T>(s: Seq<T>, key: spec_fn(T) -> Seq<u32>, descending: bool) -> bool {
    forall|i: int, j: int| 0 <= i < j < s.len() ==> in_order(key(s[i]), key(s[j]), descending)
}

proof fn lemma_in_order_total(a: Seq<u32>, b: Seq<u32>, descending: bool)
    ensures
        in_order(a, b, descending) || in_order(b, a, descending),
{
    lemma_codes_le_total(a, b);
}

proof fn lemma_in_order_transitive(a: Seq<u32>, b: Seq<u32>, c: Seq<u32>, descending: bool)
    requires
        in_order(a, b, descending),
        in_order(b, c, descending),
    ensures
        in_order(a, c, descending),
{
    if descending {
        lemma_codes_le_transitive(c, b, a);
    } else {
        lemma_codes_le_transitive(a, b, c);
    }
}

fn in_order_exec(a: &Vec<u32>, b: &Vec<u32>, descending: bool) -> (r: bool)
    ensures
        r == in_order(a@, b@, descending),
{
    if descending {
        codes_le_exec(b, a)
    } else {
        codes_le_exec(a, b)
    }
}

/// Sorts `items` by `key`, given the key of each item in `keys`; equal keys keep no particular order.
pub fn sort_by_codes<T>(
    items: Vec<T>,
    keys: Vec<Vec<u32>>,
    Ghost(key): Ghost<spec_fn(T) -> Seq<u32>>,
    descending: bool,
) -> (r: Vec<T>)
    requires
        items.len() == keys.len(),
        forall|i: int| 0 <= i < items.len() ==> #[trigger] keys@[i]@ == key(items@[i]),
    ensures
        r@.to_multiset() == items@.to_multiset(),
        sorted_by(r@, key, descending),
{
    let ghost original = items@;
    let mut rest = items;
    let mut rest_keys = keys;
    let mut out: Vec<T> = Vec::new();
    let mut out_keys: Vec<Vec<u32>> = Vec::new();
    while rest.len() > 0
        invariant
            rest.len() == rest_keys.len(),
            out.len() == out_keys.len(),
            forall|i: int| 0 <= i < rest.len() ==> #[trigger] rest_keys@[i]@ == key(rest@[i]),
            forall|i: int| 0 <= i < out.len() ==> #[trigger] out_keys@[i]@ == key(out@[i]),
            out@.to_multiset().add(rest@.to_multiset()) == original.to_multiset(),
            sorted_by(out@, key, descending),
        decreases rest.len(),
    {
        let ghost before = rest@;
        let item = rest.pop().unwrap();
        let item_key = rest_keys.pop().unwrap();
        assert(before =~= rest@.push(item));
        let mut p: usize = 0;
        while p < out.len() && in_order_exec(&out_keys[p], &item_key, descending)
            invariant
                p <= out.len() == out_keys.len(),
                forall|i: int| 0 <= i < out.len() ==> #[trigger] out_keys@[i]@ == key(out@[i]),
                forall|q: int| 0 <= q < p ==> in_order(#[trigger] key(out@[q]), item_key@, descending),
            decreases out.len() - p,
        {
            p = p + 1;
        }
        proof {
            if p < out.len() {
                lemma_in_order_total(key(out@[p as int]), item_key@, descending);
                assert forall|q: int| p <= q < out.len() implies in_order(
                    item_key@,
                    #[trigger] key(out@[q]),
                    descending,
                ) by {
                    if q > p {
                        lemma_in_order_transitive(
                            item_key@,
                            key(out@[p as int]),
                            key(out@[q]),
                            descending,
                        );
                    }
                }
            }
        }
        let ghost out_before = out@;
        out.insert(p, item);
        out_keys.insert(p, item_key);
        proof {
            vstd::seq_lib::to_multiset_insert(out_before, p as int, item);
            vstd::seq_lib::to_multiset_build(rest@, item);
            assert forall|i: int, j: int| 0 <= i < j < out@.len() implies in_order(
                key(out@[i]),
                key(out@[j]),
                descending,
            ) by {
                if j < p {
                    assert(out@[i] == out_before[i] && out@[j] == out_before[j]);
                } else if j == p {
                    assert(out@[i] == out_before[i]);
                } else if i == p {
                    assert(out@[j] == out_before[j - 1]);
                } else if i < p {
                    assert(out@[i] == out_before[i] && out@[j] == out_before[j - 1]);
                    lemma_in_order_transitive(key(out@[i]), item_key@, key(out@[j]), descending);
                } else {
                    assert(out@[i] == out_before[i - 1] && out@[j] == out_before[j - 1]);
                }
            }
            assert forall|i: int| 0 <= i < out.len() implies #[trigger] out_keys@[i]@ == key(
                out@[i],
            ) by {
                if i < p {
                    assert(out@[i] == out_before[i]);
                } else if i > p {
                    assert(out@[i] == out_before[i - 1]);
                }
            }
        }
    }
    assert(rest@.to_multiset() =~= Multiset::empty());
    out
}


/// One more element of `s` passes through `p` exactly when it satisfies it.
pub proof fn lemma_filter_take_step<A>(s: Seq<A>, p: spec_fn(A) -> bool, i: int)
    requires
        0 <= i < s.len(),
    ensures
        s.take(i + 1).filter(p) == if p(s[i]) {
            s.take(i).filter(p).push(s[i])
        } else {
            s.take(i).filter(p)
        },
{
    reveal(Seq::filter);
    assert(s.take(i + 1).drop_last() =~= s.take(i));
}


/// No two elements of `s` share a key.
pub open spec fn distinct_by<A>(s: Seq<A>, key: spec_fn(A) -> Seq<char>) -> bool {
    forall|i: int, j: int| 0 <= i < j < s.len() ==> key(s[i]) != key(s[j])
}

/// Keeping some elements of a sequence keeps their keys distinct.
pub proof fn lemma_filter_distinct<A>(s: Seq<A>, p: spec_fn(A) -> bool, key: spec_fn(A) -> Seq<char>)
    requires
        distinct_by(s, key),
    ensures
        distinct_by(s.filter(p), key),
    decreases s.len(),
{
    reveal(Seq::filter);
    if s.len() > 0 {
        let init = s.drop_last();
        assert(distinct_by(init, key)) by {
            assert forall|i: int, j: int| 0 <= i < j < init.len() implies key(init[i]) != key(
                init[j],
            ) by {
                assert(init[i] == s[i]);
                assert(init[j] == s[j]);
            }
        }
        lemma_filter_distinct(init, p, key);
        if p(s.last()) {
            let f = init.filter(p);
            assert forall|i: int, j: int|
                0 <= i < j < f.push(s.last()).len() implies key(f.push(s.last())[i]) != key(
                f.push(s.last())[j],
            ) by {
                if j == f.len() {
                    assert(f.contains(f[i]));
                    init.lemma_filter_contains_rev(p, f[i]);
                    let k = choose|k: int| 0 <= k < init.len() && init[k] == f[i];
                    assert(s[k] == f[i]);
                    assert(key(s[k]) != key(s[s.len() - 1]));
                } else {
                    assert(f.push(s.last())[i] == f[i] && f.push(s.last())[j] == f[j]);
                }
            }
        }
    }
}

} // verus!
