//! Helpers over `BTreeMap<ParaId, Vec<AccountId>>`, the shape in which collators are assigned to
//! chains, with their model as a map of sequences.

use vstd::prelude::*;
use std::collections::BTreeMap;
use std::collections::BTreeSet;
use vstd::std_specs::iter::IteratorSpec;
use crate::assignment::{AccountId, ParaId};
use vstd::std_specs::cmp::OrdSpec;

verus! {

/// The assignment map seen as a map from chain to the sequence of its collators.
pub open spec fn seqs(m: Map<ParaId, Vec<AccountId>>) -> Map<ParaId, Seq<AccountId>> {
    Map::new(|k: ParaId| m.dom().contains(k), |k: ParaId| m[k]@)
}

/// The collators of chain `p`, or none when `p` has no entry.
pub open spec fn get_or_empty(m: Map<ParaId, Seq<AccountId>>, p: ParaId) -> Seq<AccountId> {
    if m.dom().contains(p) { m[p] } else { Seq::empty() }
}

/// Membership in a set, as a predicate.
pub open spec fn in_set(s: Set<AccountId>) -> spec_fn(AccountId) -> bool {
    |c: AccountId| s.contains(c)
}

/// Non-membership in a set, as a predicate.
pub open spec fn not_in_set(s: Set<AccountId>) -> spec_fn(AccountId) -> bool {
    |c: AccountId| !s.contains(c)
}

/// Every collator that some chain of `m` holds.
pub open spec fn assigned_set(m: Map<ParaId, Seq<AccountId>>) -> Set<AccountId> {
    Set::new(|c: AccountId| exists|p: ParaId| m.dom().contains(p) && #[trigger] m[p].contains(c))
}

pub proof fn lemma_seqs_insert(m: Map<ParaId, Vec<AccountId>>, p: ParaId, v: Vec<AccountId>)
    ensures
        seqs(m.insert(p, v)) == seqs(m).insert(p, v@),
{
    assert(seqs(m.insert(p, v)) =~= seqs(m).insert(p, v@));
}

pub proof fn lemma_seqs_remove(m: Map<ParaId, Vec<AccountId>>, p: ParaId)
    ensures
        seqs(m.remove(p)) == seqs(m).remove(p),
{
    assert(seqs(m.remove(p)) =~= seqs(m).remove(p));
}

/// The keys of the map, in increasing order.
pub fn map_keys(m: &BTreeMap<ParaId, Vec<AccountId>>) -> (keys: Vec<ParaId>)
    ensures
        keys@.to_set() == m@.dom(),
        keys@.no_duplicates(),
{
    let mut keys: Vec<ParaId> = Vec::new();
    for k in it: m.keys()
        invariant
            keys@ == it.seq().take(it.index() as int).unref(),
            it.seq() == vstd::std_specs::btree::spec_keys_iter(m).remaining(),
    {
        keys.push(*k);
        proof {
            assert(it.seq().take(it.index() as int + 1).unref() =~= keys@);
        }
    }
    proof {
        broadcast use vstd::std_specs::btree::axiom_spec_keys_iter;
        let s = vstd::std_specs::btree::spec_keys_iter(m).remaining();
        assert(keys@ =~= s.unref());
    }
    keys
}

/// Removes the entry of `p` and returns its collators, or an empty list when there was none.
pub fn take_entry(m: &mut BTreeMap<ParaId, Vec<AccountId>>, p: ParaId) -> (v: Vec<AccountId>)
    ensures
        v@ == get_or_empty(seqs(old(m)@), p),
        final(m)@ == old(m)@.remove(p),
{
    match m.remove(&p) {
        Some(v) => v,
        None => Vec::new(),
    }
}

/// A copy of the collators of `p`, or an empty list when there is no entry.
pub fn get_cloned(m: &BTreeMap<ParaId, Vec<AccountId>>, p: ParaId) -> (v: Vec<AccountId>)
    ensures
        v@ == get_or_empty(seqs(m@), p),
{
    match m.get(&p) {
        Some(v) => {
            let r = v.clone();
            assert(r@ =~= v@);
            r
        },
        None => Vec::new(),
    }
}

/// The elements of `v` that belong to `s`, in order.
pub fn filter_in(v: &Vec<AccountId>, s: &BTreeSet<AccountId>) -> (r: Vec<AccountId>)
    ensures
        r@ == v@.filter(in_set(s@)),
{
    let mut r: Vec<AccountId> = Vec::new();
    let mut i: usize = 0;
    while i < v.len()
        invariant
            0 <= i <= v.len(),
            r@ == v@.take(i as int).filter(in_set(s@)),
        decreases v.len() - i,
    {
        proof {
            v@.take(i as int).lemma_filter_push(v@[i as int], in_set(s@));
            assert(v@.take(i as int + 1) =~= v@.take(i as int).push(v@[i as int]));
        }
        if s.contains(&v[i]) {
            r.push(v[i]);
        }
        i = i + 1;
    }
    assert(v@.take(v.len() as int) =~= v@);
    r
}

/// The elements of `v` that do not belong to `s`, in order.
pub fn filter_not_in(v: &Vec<AccountId>, s: &BTreeSet<AccountId>) -> (r: Vec<AccountId>)
    ensures
        r@ == v@.filter(not_in_set(s@)),
{
    let mut r: Vec<AccountId> = Vec::new();
    let mut i: usize = 0;
    while i < v.len()
        invariant
            0 <= i <= v.len(),
            r@ == v@.take(i as int).filter(not_in_set(s@)),
        decreases v.len() - i,
    {
        proof {
            v@.take(i as int).lemma_filter_push(v@[i as int], not_in_set(s@));
            assert(v@.take(i as int + 1) =~= v@.take(i as int).push(v@[i as int]));
        }
        if !s.contains(&v[i]) {
            r.push(v[i]);
        }
        i = i + 1;
    }
    assert(v@.take(v.len() as int) =~= v@);
    r
}

/// The set of the elements of `v`.
pub fn set_of(v: &[AccountId]) -> (s: BTreeSet<AccountId>)
    ensures
        s@ == v@.to_set(),
{
    let mut s: BTreeSet<AccountId> = BTreeSet::new();
    let mut i: usize = 0;
    while i < v.len()
        invariant
            0 <= i <= v.len(),
            s@ == v@.take(i as int).to_set(),
        decreases v.len() - i,
    {
        s.insert(v[i]);
        proof {
            assert(v@.take(i as int + 1) =~= v@.take(i as int).push(v@[i as int]));
            v@.take(i as int).lemma_push_to_set_commute(v@[i as int]);
            assert(s@ =~= v@.take(i as int + 1).to_set());
        }
        i = i + 1;
    }
    assert(v@.take(v.len() as int) =~= v@);
    s
}

/// The set of every collator held by some chain of `m`.
pub fn assigned_collators(m: &BTreeMap<ParaId, Vec<AccountId>>) -> (s: BTreeSet<AccountId>)
    ensures
        s@ == assigned_set(seqs(m@)),
{
    let keys = map_keys(m);
    let mut s: BTreeSet<AccountId> = BTreeSet::new();
    let mut i: usize = 0;
    while i < keys.len()
        invariant
            0 <= i <= keys.len(),
            keys@.to_set() == m@.dom(),
            s@ == Set::new(|c: AccountId| exists|j: int| 0 <= j < i && #[trigger] m@[keys@[j]]@.contains(c)),
        decreases keys.len() - i,
    {
        let k = keys[i];
        assert(keys@.to_set().contains(k));
        let v = m.get(&k).unwrap();
        let mut t: usize = 0;
        let ghost s0 = s@;
        while t < v.len()
            invariant
                0 <= t <= v.len(),
                s@ == s0.union(v@.take(t as int).to_set()),
            decreases v.len() - t,
        {
            s.insert(v[t]);
            proof {
                assert(v@.take(t as int + 1) =~= v@.take(t as int).push(v@[t as int]));
                v@.take(t as int).lemma_push_to_set_commute(v@[t as int]);
                assert(s@ =~= s0.union(v@.take(t as int + 1).to_set()));
            }
            t = t + 1;
        }
        proof {
            assert(v@.take(v.len() as int) =~= v@);
            assert forall|c: AccountId| s@.contains(c) <==> (exists|j: int| 0 <= j < i + 1 && #[trigger] m@[keys@[j]]@.contains(c)) by {
                if s0.contains(c) {
                    let j = choose|j: int| 0 <= j < i && #[trigger] m@[keys@[j]]@.contains(c);
                    assert(0 <= j < i + 1 && m@[keys@[j]]@.contains(c));
                } else if v@.to_set().contains(c) {
                    assert(m@[keys@[i as int]]@.contains(c));
                }
                if exists|j: int| 0 <= j < i + 1 && #[trigger] m@[keys@[j]]@.contains(c) {
                    let j = choose|j: int| 0 <= j < i + 1 && #[trigger] m@[keys@[j]]@.contains(c);
                    if j == i {
                        assert(v@.to_set().contains(c));
                    } else {
                        assert(s0.contains(c));
                    }
                }
            }
            assert(s@ =~= Set::new(|c: AccountId| exists|j: int| 0 <= j < i + 1 && #[trigger] m@[keys@[j]]@.contains(c)));
        }
        i = i + 1;
    }
    proof {
        assert forall|c: AccountId| s@.contains(c) <==> assigned_set(seqs(m@)).contains(c) by {
            if s@.contains(c) {
                let j = choose|j: int| 0 <= j < keys.len() && #[trigger] m@[keys@[j]]@.contains(c);
                assert(keys@.to_set().contains(keys@[j]));
                assert(seqs(m@)[keys@[j]].contains(c));
            }
            if assigned_set(seqs(m@)).contains(c) {
                let p = choose|p: ParaId| seqs(m@).dom().contains(p) && #[trigger] seqs(m@)[p].contains(c);
                assert(keys@.to_set().contains(p));
                let j = choose|j: int| 0 <= j < keys.len() && keys@[j] == p;
                assert(m@[keys@[j]]@.contains(c));
            }
        }
        assert(s@ =~= assigned_set(seqs(m@)));
    }
    s
}

} // verus!

verus! {

/// Keys listed by a map in increasing order are strictly increasing integers.
pub proof fn lemma_increasing_keys(s: Seq<&ParaId>)
    requires
        vstd::std_specs::btree::increasing_seq(s),
    ensures
        forall|i: int, j: int| 0 <= i < j < s.len() ==> *s[i] < *s[j],
{
    broadcast use vstd::std_specs::btree::axiom_increasing_seq_meaning;
    broadcast use vstd::laws_cmp::group_laws_cmp;
    assert forall|i: int, j: int| 0 <= i < j < s.len() implies *s[i] < *s[j] by {
        assert(OrdSpec::cmp_spec(&s[i], &s[j]) is Less);
        assert(OrdSpec::cmp_spec(s[i], s[j]) is Less);
    }
}

/// Removes the collators of `s` from every chain of `m`.
pub fn remove_from_all(m: &mut BTreeMap<ParaId, Vec<AccountId>>, s: &BTreeSet<AccountId>)
    ensures
        seqs(final(m)@) == seqs(old(m)@).map_values(|v: Seq<AccountId>| v.filter(not_in_set(s@))),
{
    let ghost m0 = seqs(m@);
    let keys = map_keys(m);
    let mut i: usize = 0;
    while i < keys.len()
        invariant
            0 <= i <= keys.len(),
            keys@.to_set() == m0.dom(),
            keys@.no_duplicates(),
            seqs(m@).dom() == m0.dom(),
            forall|k: ParaId| #[trigger] seqs(m@).dom().contains(k) ==> seqs(m@)[k] == (if keys@.take(i as int).contains(k) {
                m0[k].filter(not_in_set(s@))
            } else {
                m0[k]
            }),
        decreases keys.len() - i,
    {
        let k = keys[i];
        assert(keys@.to_set().contains(k));
        let ghost before = m@;
        let v = take_entry(m, k);
        let filtered = filter_not_in(&v, s);
        proof {
            lemma_seqs_remove(before, k);
            lemma_seqs_insert(m@, k, filtered);
            assert(keys@.take(i as int + 1) =~= keys@.take(i as int).push(k));
            assert(!keys@.take(i as int).contains(k)) by {
                if keys@.take(i as int).contains(k) {
                    let j = choose|j: int| 0 <= j < keys@.take(i as int).len() && #[trigger] keys@.take(i as int)[j] == k;
                    assert(keys@[j] == keys@[i as int]);
                }
            }
            assert forall|x: ParaId| keys@.take(i as int + 1).contains(x) <==> (keys@.take(i as int).contains(x) || x == k) by {
                vstd::seq_lib::lemma_seq_contains_after_push(keys@.take(i as int), k, x);
            }
        }
        m.insert(k, filtered);
        proof {
            assert(seqs(m@).dom() =~= m0.dom());
        }
        i = i + 1;
    }
    proof {
        assert(keys@.take(keys.len() as int) =~= keys@);
        assert(seqs(m@) =~= m0.map_values(|v: Seq<AccountId>| v.filter(not_in_set(s@))));
    }
}

} // verus!
