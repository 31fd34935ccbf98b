use vstd::multiset::Multiset;
use vstd::prelude::*;

verus! {

/// The changes a block makes to the chain state. Every collection is a
/// mapping held as a list of `(key, value)` pairs.
#[derive(Clone, Debug)]
pub struct StateDiff {
    /// Class hash to the hash of the declared class definition.
    pub declared_classes: Vec<(u128, u128)>,
    /// Contract address to the class hash it was deployed with.
    pub deployed_contracts: Vec<(u128, u128)>,
    /// Contract address to its new nonce.
    pub nonces: Vec<(u128, u128)>,
    /// Contract address to its storage writes (storage key to value).
    pub storage_diffs: Vec<(u128, Vec<(u128, u128)>)>,
}

/// The keys of a list of pairs appear in ascending order.
pub open spec fn keys_sorted<V>(s: Seq<(u128, V)>) -> bool {
    forall|i: int, j: int| 0 <= i < j < s.len() ==> s[i].0 <= s[j].0
}

/// Every mapping of the diff, and every nested storage mapping, is in
/// ascending key order.
pub open spec fn is_normalized(d: StateDiff) -> bool {
    &&& keys_sorted(d.declared_classes@)
    &&& keys_sorted(d.deployed_contracts@)
    &&& keys_sorted(d.nonces@)
    &&& keys_sorted(d.storage_diffs@)
    &&& forall|i: int| 0 <= i < d.storage_diffs@.len() ==> keys_sorted(#[trigger] d.storage_diffs@[i].1@)
}

/// The storage writes as plain sequences.
pub open spec fn storage_view(s: Seq<(u128, Vec<(u128, u128)>)>) -> Seq<(u128, Seq<(u128, u128)>)> {
    s.map_values(|e: (u128, Vec<(u128, u128)>)| (e.0, e.1@))
}

/// Two diffs hold the same pairs in the same order.
pub open spec fn same_diff(a: StateDiff, b: StateDiff) -> bool {
    &&& a.declared_classes@ == b.declared_classes@
    &&& a.deployed_contracts@ == b.deployed_contracts@
    &&& a.nonces@ == b.nonces@
    &&& storage_view(a.storage_diffs@) == storage_view(b.storage_diffs@)
}

/// No key appears twice in a list of pairs.
pub open spec fn keys_unique<V>(s: Seq<(u128, V)>) -> bool {
    forall|i: int, j: int| 0 <= i < s.len() && 0 <= j < s.len() && i != j ==> (#[trigger] s[i]).0 != (#[trigger] s[j]).0
}

/// Every mapping of the diff, nested ones included, has each key once, as a
/// mapping must.
pub open spec fn diff_keys_unique(d: StateDiff) -> bool {
    &&& keys_unique(d.declared_classes@)
    &&& keys_unique(d.deployed_contracts@)
    &&& keys_unique(d.nonces@)
    &&& keys_unique(d.storage_diffs@)
    &&& forall|i: int| 0 <= i < d.storage_diffs@.len() ==> keys_unique(#[trigger] d.storage_diffs@[i].1@)
}

/// The keys of a list of pairs appear in strictly ascending order.
pub open spec fn keys_strictly_sorted<V>(s: Seq<(u128, V)>) -> bool {
    forall|i: int, j: int| 0 <= i < j < s.len() ==> s[i].0 < s[j].0
}

/// Every mapping of the diff, nested ones included, is in strictly ascending
/// key order.
pub open spec fn is_strictly_normalized(d: StateDiff) -> bool {
    &&& keys_strictly_sorted(d.declared_classes@)
    &&& keys_strictly_sorted(d.deployed_contracts@)
    &&& keys_strictly_sorted(d.nonces@)
    &&& keys_strictly_sorted(d.storage_diffs@)
    &&& forall|i: int| 0 <= i < d.storage_diffs@.len() ==> keys_strictly_sorted(#[trigger] d.storage_diffs@[i].1@)
}

proof fn lemma_permutation_keeps_keys_unique<V>(a: Seq<(u128, V)>, b: Seq<(u128, V)>)
    requires
        a.to_multiset() == b.to_multiset(),
        keys_unique(a),
    ensures
        keys_unique(b),
{
    let key = |e: (u128, V)| e.0;
    lemma_map_keeps_permutation(a, b, key);
    let ka = a.map_values(key);
    let kb = b.map_values(key);
    assert(ka.no_duplicates()) by {
        assert forall|i: int, j: int| 0 <= i < ka.len() && 0 <= j < ka.len() && i != j implies ka[i] != ka[j] by {
            assert(a[i].0 != a[j].0);
        }
    }
    ka.lemma_multiset_has_no_duplicates();
    kb.lemma_multiset_has_no_duplicates_conv();
    assert forall|i: int, j: int| 0 <= i < b.len() && 0 <= j < b.len() && i != j implies (#[trigger] b[i]).0 != (#[trigger] b[j]).0 by {
        assert(kb[i] != kb[j]);
    }
}

proof fn lemma_sorted_unique_is_strict<V>(s: Seq<(u128, V)>)
    requires
        keys_sorted(s),
        keys_unique(s),
    ensures
        keys_strictly_sorted(s),
{
    assert forall|i: int, j: int| 0 <= i < j < s.len() implies s[i].0 < s[j].0 by {
        assert(s[i].0 != s[j].0);
    }
}

/// A contract's storage writes as a multiset of pairs, with its address.
pub open spec fn contract_writes(e: (u128, Vec<(u128, u128)>)) -> (u128, Multiset<(u128, u128)>) {
    (e.0, e.1@.to_multiset())
}

/// The storage writes of a diff, regardless of the order of contracts and of
/// the order of each contract's writes.
pub open spec fn storage_contents(s: Seq<(u128, Vec<(u128, u128)>)>) -> Multiset<(u128, Multiset<(u128, u128)>)> {
    s.map_values(|e: (u128, Vec<(u128, u128)>)| contract_writes(e)).to_multiset()
}

proof fn lemma_map_keeps_permutation<A, B>(a: Seq<A>, b: Seq<A>, f: spec_fn(A) -> B)
    requires
        a.to_multiset() == b.to_multiset(),
    ensures
        a.map_values(f).to_multiset() == b.map_values(f).to_multiset(),
    decreases a.len(),
{
    a.to_multiset_ensures();
    b.to_multiset_ensures();
    if a.len() == 0 {
        assert(b.len() == 0);
        assert(a.map_values(f) =~= b.map_values(f));
    } else {
        let x = a.last();
        let a1 = a.drop_last();
        assert(a1.push(x) =~= a);
        a1.to_multiset_ensures();
        assert(a.to_multiset().count(x) > 0) by {
            assert(a.contains(x)) by { assert(a[a.len() - 1] == x); }
        }
        assert(b.contains(x));
        let i = choose|i: int| 0 <= i < b.len() && b[i] == x;
        let b1 = b.remove(i);
        assert(a1.to_multiset() =~= b1.to_multiset()) by {
            assert(a.to_multiset() == a1.to_multiset().insert(x));
            assert(b1.to_multiset() == b.to_multiset().remove(x));
        }
        lemma_map_keeps_permutation(a1, b1, f);
        let ma = a.map_values(f);
        let mb = b.map_values(f);
        assert(ma =~= a1.map_values(f).push(f(x)));
        assert(mb.remove(i) =~= b1.map_values(f));
        a1.map_values(f).to_multiset_ensures();
        mb.to_multiset_ensures();
        assert(mb[i] == f(x));
        assert(mb.remove(i).to_multiset() == mb.to_multiset().remove(f(x)));
        assert(mb.to_multiset().count(f(x)) > 0) by { assert(mb.contains(f(x))); }
        assert(ma.to_multiset() =~= mb.to_multiset());
    }
}

/// Relies on std's `slice::sort_by_key`, a stable sort: the pairs end in
/// ascending key order, none is added or lost, and pairs with equal keys keep
/// their order, so a list that is already sorted is left as it is.
#[verifier::external_body]
fn sort_by_first<V>(v: &mut Vec<(u128, V)>)
    ensures
        keys_sorted(final(v)@),
        final(v)@.to_multiset() == old(v)@.to_multiset(),
        keys_sorted(old(v)@) ==> final(v)@ == old(v)@,
{
    v.sort_by_key(|e| e.0)
}

/// Sorts the storage writes of every contract, keeping the contracts' order.
fn sort_nested(outer: &mut Vec<(u128, Vec<(u128, u128)>)>)
    ensures
        final(outer)@.len() == old(outer)@.len(),
        forall|i: int|
            0 <= i < final(outer)@.len() ==> {
                &&& (#[trigger] final(outer)@[i]).0 == old(outer)@[i].0
                &&& keys_sorted(final(outer)@[i].1@)
                &&& final(outer)@[i].1@.to_multiset() == old(outer)@[i].1@.to_multiset()
            },
        (forall|i: int| 0 <= i < old(outer)@.len() ==> keys_sorted(#[trigger] old(outer)@[i].1@))
            ==> storage_view(final(outer)@) == storage_view(old(outer)@),
{
    let ghost orig = outer@;
    let mut pending: Vec<(u128, Vec<(u128, u128)>)> = Vec::new();
    std::mem::swap(outer, &mut pending);
    let n: usize = pending.len();
    let mut k: usize = 0;
    while k < n
        invariant
            n == orig.len(),
            k <= n,
            pending@ == orig.skip(k as int),
            outer@.len() == k,
            forall|i: int|
                0 <= i < k ==> {
                    &&& (#[trigger] outer@[i]).0 == orig[i].0
                    &&& keys_sorted(outer@[i].1@)
                    &&& outer@[i].1@.to_multiset() == orig[i].1@.to_multiset()
                    &&& keys_sorted(orig[i].1@) ==> outer@[i].1@ == orig[i].1@
                },
        decreases n - k,
    {
        let (address, mut writes) = pending.remove(0);
        sort_by_first(&mut writes);
        outer.push((address, writes));
        k = k + 1;
        assert(pending@ =~= orig.skip(k as int));
    }
    proof {
        if forall|i: int| 0 <= i < orig.len() ==> keys_sorted(#[trigger] orig[i].1@) {
            assert(storage_view(outer@) =~= storage_view(orig));
        }
    }
}

/// Puts every mapping of the diff, and every nested storage mapping, in
/// ascending key order. The diff keeps its contents; a diff already in that
/// order is left unchanged, so sorting twice gives what sorting once gives.
pub fn sort_state_diff(diff: &mut StateDiff)
    ensures
        is_normalized(*final(diff)),
        final(diff).declared_classes@.to_multiset() == old(diff).declared_classes@.to_multiset(),
        final(diff).deployed_contracts@.to_multiset() == old(diff).deployed_contracts@.to_multiset(),
        final(diff).nonces@.to_multiset() == old(diff).nonces@.to_multiset(),
        storage_contents(final(diff).storage_diffs@) == storage_contents(old(diff).storage_diffs@),
        is_normalized(*old(diff)) ==> same_diff(*final(diff), *old(diff)),
        diff_keys_unique(*old(diff)) ==> diff_keys_unique(*final(diff)) && is_strictly_normalized(*final(diff)),
{
    let ghost orig = *diff;
    sort_by_first(&mut diff.declared_classes);
    sort_by_first(&mut diff.deployed_contracts);
    sort_by_first(&mut diff.nonces);
    sort_by_first(&mut diff.storage_diffs);
    let ghost mid = diff.storage_diffs@;
    sort_nested(&mut diff.storage_diffs);
    proof {
        let fin = diff.storage_diffs@;
        let f = |e: (u128, Vec<(u128, u128)>)| contract_writes(e);
        lemma_map_keeps_permutation(orig.storage_diffs@, mid, f);
        assert(fin.map_values(f) =~= mid.map_values(f));
        if is_normalized(orig) {
            assert(mid == orig.storage_diffs@);
        }
        if diff_keys_unique(orig) {
            lemma_permutation_keeps_keys_unique(orig.declared_classes@, diff.declared_classes@);
            lemma_permutation_keeps_keys_unique(orig.deployed_contracts@, diff.deployed_contracts@);
            lemma_permutation_keeps_keys_unique(orig.nonces@, diff.nonces@);
            lemma_permutation_keeps_keys_unique(orig.storage_diffs@, mid);
            assert(keys_unique(fin)) by {
                assert forall|i: int, j: int| 0 <= i < fin.len() && 0 <= j < fin.len() && i != j implies (#[trigger] fin[i]).0 != (#[trigger] fin[j]).0 by {
                    assert(mid[i].0 != mid[j].0);
                }
            }
            assert forall|i: int| 0 <= i < fin.len() implies keys_unique(#[trigger] fin[i].1@) by {
                mid.to_multiset_ensures();
                orig.storage_diffs@.to_multiset_ensures();
                assert(mid.contains(mid[i]));
                assert(mid.to_multiset().count(mid[i]) > 0);
                assert(orig.storage_diffs@.to_multiset().count(mid[i]) > 0);
                assert(orig.storage_diffs@.contains(mid[i]));
                let k = choose|k: int| 0 <= k < orig.storage_diffs@.len() && orig.storage_diffs@[k] == mid[i];
                assert(keys_unique(orig.storage_diffs@[k].1@));
                lemma_permutation_keeps_keys_unique(mid[i].1@, fin[i].1@);
            }
            lemma_sorted_unique_is_strict(diff.declared_classes@);
            lemma_sorted_unique_is_strict(diff.deployed_contracts@);
            lemma_sorted_unique_is_strict(diff.nonces@);
            lemma_sorted_unique_is_strict(fin);
            assert forall|i: int| 0 <= i < fin.len() implies keys_strictly_sorted(#[trigger] fin[i].1@) by {
                lemma_sorted_unique_is_strict(fin[i].1@);
            }
        }
    }
}

/// Two lists of pairs in strictly ascending key order that hold the same
/// pairs are the same list.
pub proof fn lemma_strictly_sorted_permutations_equal<V>(a: Seq<(u128, V)>, b: Seq<(u128, V)>)
    requires
        keys_strictly_sorted(a),
        keys_strictly_sorted(b),
        a.to_multiset() == b.to_multiset(),
    ensures
        a == b,
    decreases a.len(),
{
    a.to_multiset_ensures();
    b.to_multiset_ensures();
    if a.len() == 0 {
        assert(a =~= b);
    } else {
        assert(a.contains(a[0]));
        assert(a.to_multiset().count(a[0]) > 0);
        assert(b.contains(a[0]));
        assert(b.contains(b[0]));
        assert(b.to_multiset().count(b[0]) > 0);
        assert(a.contains(b[0]));
        let p = choose|p: int| 0 <= p < b.len() && b[p] == a[0];
        let q = choose|q: int| 0 <= q < a.len() && a[q] == b[0];
        if p != 0 {
            assert(b[0].0 < b[p].0);
            assert(q == 0 || a[0].0 < a[q].0);
        }
        assert(p == 0);
        let a1 = a.drop_first();
        let b1 = b.drop_first();
        assert(a1 =~= a.remove(0));
        assert(b1 =~= b.remove(0));
        assert(a1.to_multiset() =~= b1.to_multiset());
        lemma_strictly_sorted_permutations_equal(a1, b1);
        assert(a.len() == b.len());
        assert forall|i: int| 0 <= i < a.len() implies a[i] == b[i] by {
            if i > 0 {
                assert(a[i] == a1[i - 1]);
                assert(b[i] == b1[i - 1]);
            }
        }
        assert(a =~= b);
    }
}

/// The normalised form is canonical: two diffs in strictly ascending key
/// order that hold the same pairs in every mapping (nested ones included,
/// each contract with the same storage writes) are the same diff.
pub proof fn lemma_normal_form_is_canonical(d1: StateDiff, d2: StateDiff)
    requires
        is_strictly_normalized(d1),
        is_strictly_normalized(d2),
        d1.declared_classes@.to_multiset() == d2.declared_classes@.to_multiset(),
        d1.deployed_contracts@.to_multiset() == d2.deployed_contracts@.to_multiset(),
        d1.nonces@.to_multiset() == d2.nonces@.to_multiset(),
        storage_contents(d1.storage_diffs@) == storage_contents(d2.storage_diffs@),
    ensures
        same_diff(d1, d2),
{
    lemma_strictly_sorted_permutations_equal(d1.declared_classes@, d2.declared_classes@);
    lemma_strictly_sorted_permutations_equal(d1.deployed_contracts@, d2.deployed_contracts@);
    lemma_strictly_sorted_permutations_equal(d1.nonces@, d2.nonces@);
    let f = |e: (u128, Vec<(u128, u128)>)| contract_writes(e);
    let m1 = d1.storage_diffs@.map_values(f);
    let m2 = d2.storage_diffs@.map_values(f);
    assert(keys_strictly_sorted(m1));
    assert(keys_strictly_sorted(m2));
    lemma_strictly_sorted_permutations_equal(m1, m2);
    let s1 = d1.storage_diffs@;
    let s2 = d2.storage_diffs@;
    assert(s1.len() == s2.len()) by {
        assert(m1.len() == s1.len());
        assert(m2.len() == s2.len());
    }
    assert forall|i: int| 0 <= i < s1.len() implies s1[i].0 == s2[i].0 && s1[i].1@ == s2[i].1@ by {
        assert(m1[i] == m2[i]);
        assert(m1[i] == contract_writes(s1[i]));
        assert(m2[i] == contract_writes(s2[i]));
        lemma_strictly_sorted_permutations_equal(s1[i].1@, s2[i].1@);
    }
    assert(storage_view(s1) =~= storage_view(s2));
}

} // verus!
