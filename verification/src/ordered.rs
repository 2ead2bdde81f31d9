//! Reading an ordered map out in the order of its keys.

use std::collections::BTreeMap;
use vstd::prelude::*;
use vstd::std_specs::cmp::OrdSpec;

verus! {

/// Whether `keys` ascend strictly.
pub open spec fn ascending(keys: Seq<u64>) -> bool {
    forall|i: int, j: int| 0 <= i < j < keys.len() ==> keys[i] < keys[j]
}

/// Whether `r` holds the values of `m`, each once, in ascending order of the
/// keys they are entered under.
pub open spec fn in_key_order<V>(m: Map<u64, V>, r: Seq<V>) -> bool {
    exists|keys: Seq<u64>|
        ascending(keys) && keys.to_set() == m.dom() && r == keys.map(|i: int, k: u64| m[k])
}

/// Two strictly ascending sequences that hold the same keys agree up to any
/// index that both have.
pub proof fn lemma_ascending_agree(a: Seq<u64>, b: Seq<u64>, i: int)
    requires
        ascending(a),
        ascending(b),
        a.to_set() == b.to_set(),
        0 <= i < a.len(),
        i < b.len(),
    ensures
        forall|j: int| 0 <= j <= i ==> a[j] == b[j],
    decreases i,
{
    if i > 0 {
        lemma_ascending_agree(a, b, i - 1);
    }
    assert(b.to_set().contains(a[i])) by {
        assert(a.contains(a[i]));
    }
    assert(b.contains(a[i]));
    let ja = choose|j: int| 0 <= j < b.len() && b[j] == a[i];
    assert(a.to_set().contains(b[i])) by {
        assert(b.contains(b[i]));
    }
    assert(a.contains(b[i]));
    let jb = choose|j: int| 0 <= j < a.len() && a[j] == b[i];
    if ja < i {
        assert(a[ja] == b[ja]);
    }
    if jb < i {
        assert(a[jb] == b[jb]);
    }
}

/// Two strictly ascending sequences that hold the same keys are one.
pub proof fn lemma_ascending_unique(a: Seq<u64>, b: Seq<u64>)
    requires
        ascending(a),
        ascending(b),
        a.to_set() == b.to_set(),
    ensures
        a == b,
{
    if a.len() < b.len() {
        if a.len() > 0 {
            lemma_ascending_agree(a, b, a.len() - 1);
        }
        let x = b[a.len() as int];
        assert(a.to_set().contains(x)) by {
            assert(b.contains(x));
        }
        assert(a.contains(x));
        let j = choose|j: int| 0 <= j < a.len() && a[j] == x;
        assert(b[j] == a[j]);
    } else if b.len() < a.len() {
        if b.len() > 0 {
            lemma_ascending_agree(b, a, b.len() - 1);
        }
        let x = a[b.len() as int];
        assert(b.to_set().contains(x)) by {
            assert(a.contains(x));
        }
        assert(b.contains(x));
        let j = choose|j: int| 0 <= j < b.len() && b[j] == x;
        assert(a[j] == b[j]);
    } else if a.len() > 0 {
        lemma_ascending_agree(a, b, a.len() - 1);
        assert(a =~= b);
    } else {
        assert(a =~= b);
    }
}

/// A map is read out in the order of its keys in one way only: what is
/// written out of it does not depend on how it was filled.
pub proof fn lemma_key_order_unique<V>(m: Map<u64, V>, r1: Seq<V>, r2: Seq<V>)
    requires
        in_key_order(m, r1),
        in_key_order(m, r2),
    ensures
        r1 == r2,
{
    let k1 = choose|keys: Seq<u64>|
        ascending(keys) && keys.to_set() == m.dom() && r1 == keys.map(|i: int, k: u64| m[k]);
    let k2 = choose|keys: Seq<u64>|
        ascending(keys) && keys.to_set() == m.dom() && r2 == keys.map(|i: int, k: u64| m[k]);
    lemma_ascending_unique(k1, k2);
}

/// The values of `m` in ascending order of their keys.
pub fn values_in_order<V: Copy>(m: &BTreeMap<u64, V>) -> (r: Vec<V>)
    ensures
        in_key_order(m@, r@),
{
    let mut out: Vec<V> = Vec::new();
    let vals = m.values();
    let ghost init = vals;
    for v in it: vals
        invariant
            out@.len() == it.index(),
            forall|i: int| 0 <= i < out@.len() ==> out@[i] == *it.seq()[i],
    {
        out.push(*v);
    }
    proof {
        broadcast use vstd::laws_cmp::group_laws_cmp;

        let keys = choose|key_seq: Seq<u64>|
            {
                &&& vstd::std_specs::btree::increasing_seq(key_seq)
                &&& key_seq.to_set() == m@.dom()
                &&& key_seq.no_duplicates()
                &&& vstd::std_specs::iter::IteratorSpec::remaining(&init) == key_seq.map(
                    |i: int, k: u64| &m@[k],
                )
            };
        vstd::std_specs::btree::axiom_increasing_seq_meaning(keys);
        assert forall|i: int, j: int| 0 <= i < j < keys.len() implies keys[i] < keys[j] by {
            assert(keys[i].cmp_spec(&keys[j]) is Less);
        }
        assert(ascending(keys));
        assert(out@ =~= keys.map(|i: int, k: u64| m@[k]));
    }
    out
}

} // verus!
