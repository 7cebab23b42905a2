//! Properties of the collator assignment algorithm that hold for every input.

use vstd::prelude::*;
use crate::assignment::{
    assign_full_spec, chain_ids, distribute, fill_prefix, kept_old, min_int, needed_prefix, new_collators_pool,
    required_collators, retained, sat_sub, select_chains_spec, select_prefix, sum_counts, sum_min,
    truncate_prefix, truncate_to, AccountId, ChainNumCollators, ParaId,
    prioritize_invulnerables_spec, remove_invulnerables_spec, RemoveInvulnerables, chosen_invulnerables,
    keep_old_base, keep_old_pool, split_from, InvulnerablesFrom, keep_old_selection, keep_old_spec, para_ids_of, with_empty_entries,
};
use crate::maps::{assigned_set, get_or_empty, in_set, not_in_set};

verus! {

proof fn lemma_sum_min_front(s: Seq<ChainNumCollators>)
    requires
        s.len() > 0,
    ensures
        sum_min(s) == s[0].min_collators + sum_min(s.drop_first()),
    decreases s.len(),
{
    if s.len() == 1 {
        assert(s.drop_first() =~= Seq::<ChainNumCollators>::empty());
        assert(s.drop_last() =~= Seq::<ChainNumCollators>::empty());
    } else {
        lemma_sum_min_front(s.drop_last());
        assert(s.drop_last().drop_first() =~= s.drop_first().drop_last());
        assert(s.drop_first().last() == s.last());
    }
}

proof fn lemma_distribute_sum(chosen: Seq<ChainNumCollators>, rem: int)
    requires
        0 <= rem,
    ensures
        sum_counts(distribute(chosen, rem)) <= sum_min(chosen) + rem,
        distribute(chosen, rem).len() == chosen.len(),
    decreases chosen.len(),
{
    if chosen.len() > 0 {
        let cc = chosen[0];
        let extra = min_int(rem, sat_sub(cc.max_collators as int, cc.min_collators as int));
        lemma_distribute_sum(chosen.drop_first(), rem - extra);
        lemma_sum_min_front(chosen);
        let d = distribute(chosen, rem);
        assert(d.drop_first() =~= distribute(chosen.drop_first(), rem - extra));
        assert(d[0].1 == cc.min_collators + extra);
    }
}

/// The chains selected by `select_chains_with_collators` are never given more collators in
/// total than there are, and the first chain (the orchestrator chain) is always among them.
pub proof fn select_chains_never_over_assigns(num_collators: u32, chains: Seq<ChainNumCollators>)
    ensures
        sum_counts(select_chains_spec(num_collators as int, chains)) <= num_collators,
        chains.len() > 0 ==> select_chains_spec(num_collators as int, chains).len() > 0
            && select_chains_spec(num_collators as int, chains)[0].0 == chains[0].para_id,
{
    let r = select_chains_spec(num_collators as int, chains);
    if chains.len() > 0 {
        if num_collators < chains[0].min_collators {
            assert(r.drop_first() =~= Seq::<(ParaId, u32)>::empty());
            assert(sum_counts(r.drop_first()) == 0);
            assert(r[0].1 == num_collators);
        } else {
            crate::assignment::lemma_select_prefix_bounds(chains, num_collators as int, chains.len() as int);
            let chosen = select_prefix(chains, num_collators as int, chains.len() as int).1;
            lemma_distribute_sum(chosen, num_collators - sum_min(chosen));
            assert(chosen[0] == chains[0]);
            assert(sum_min(chosen) <= num_collators);
            assert(sum_counts(r) <= num_collators);
        }
    } else {
        assert(r =~= Seq::<(ParaId, u32)>::empty());
        assert(sum_counts(r) == 0);
    }
}

/// The most collators that chain `c` can be given: its max, or its min when that is larger.
pub open spec fn cap(c: ChainNumCollators) -> int {
    if c.max_collators >= c.min_collators { c.max_collators as int } else { c.min_collators as int }
}

/// Sum of the caps of a list of chains.
pub open spec fn sum_cap(s: Seq<ChainNumCollators>) -> int
    decreases s.len(),
{
    if s.len() == 0 { 0 } else { cap(s[0]) + sum_cap(s.drop_first()) }
}

/// `r` gives collators to the chains of `chains` at the increasing positions `idx`, starting
/// with the first chain: each gets at least its min and at most its cap, a chain below its cap
/// is followed only by chains at their min, and `num` collators are handed out in all, or as
/// many as the caps of those chains add up to when that is fewer.
pub open spec fn takes_in_order(chains: Seq<ChainNumCollators>, num: int, r: Seq<(ParaId, u32)>, idx: Seq<int>) -> bool {
    &&& idx.len() == r.len()
    &&& idx.len() > 0 && idx[0] == 0
    &&& forall|i: int| 0 <= i < idx.len() ==> 0 <= #[trigger] idx[i] < chains.len()
    &&& forall|i: int, j: int| 0 <= i < j < idx.len() ==> #[trigger] idx[i] < #[trigger] idx[j]
    &&& forall|i: int| 0 <= i < r.len() ==> {
        &&& (#[trigger] r[i]).0 == chains[idx[i]].para_id
        &&& chains[idx[i]].min_collators <= r[i].1 <= cap(chains[idx[i]])
    }
    &&& forall|i: int, j: int| 0 <= i < j < r.len() && (#[trigger] r[i]).1 < cap(chains[idx[i]]) ==>
        (#[trigger] r[j]).1 == chains[idx[j]].min_collators
    &&& sum_counts(r) == min_int(num, sum_cap(idx.map_values(|i: int| chains[i])))
}

proof fn lemma_sum_cap_ge_min(s: Seq<ChainNumCollators>)
    ensures
        sum_cap(s) >= sum_min(s),
    decreases s.len(),
{
    if s.len() > 0 {
        lemma_sum_cap_ge_min(s.drop_first());
        lemma_sum_min_front(s);
    }
}

proof fn lemma_distribute_exact(chosen: Seq<ChainNumCollators>, rem: int)
    requires
        0 <= rem,
    ensures
        ({
            let d = distribute(chosen, rem);
            &&& d.len() == chosen.len()
            &&& forall|i: int| 0 <= i < d.len() ==> (#[trigger] d[i]).0 == chosen[i].para_id
                && chosen[i].min_collators <= d[i].1 <= cap(chosen[i])
            &&& forall|i: int, j: int| 0 <= i < j < d.len() && (#[trigger] d[i]).1 < cap(chosen[i]) ==>
                (#[trigger] d[j]).1 == chosen[j].min_collators
            &&& rem == 0 ==> forall|j: int| 0 <= j < d.len() ==> (#[trigger] d[j]).1 == chosen[j].min_collators
            &&& sum_counts(d) == sum_min(chosen) + min_int(rem, sum_cap(chosen) - sum_min(chosen))
        }),
    decreases chosen.len(),
{
    let d = distribute(chosen, rem);
    if chosen.len() == 0 {
        assert(sum_counts(d) == 0);
    } else {
        let cc = chosen[0];
        let rest = chosen.drop_first();
        let extra = min_int(rem, sat_sub(cc.max_collators as int, cc.min_collators as int));
        lemma_distribute_exact(rest, rem - extra);
        lemma_sum_min_front(chosen);
        lemma_sum_cap_ge_min(rest);
        let dr = distribute(rest, rem - extra);
        assert(d.drop_first() =~= dr);
        assert(d[0] == (cc.para_id, (cc.min_collators + extra) as u32));
        assert forall|i: int| 0 <= i < d.len() implies (#[trigger] d[i]).0 == chosen[i].para_id
            && chosen[i].min_collators <= d[i].1 <= cap(chosen[i]) by {
            if i > 0 {
                assert(d[i] == dr[i - 1]);
                assert(chosen[i] == rest[i - 1]);
            }
        }
        assert forall|i: int, j: int| 0 <= i < j < d.len() && (#[trigger] d[i]).1 < cap(chosen[i]) implies
            (#[trigger] d[j]).1 == chosen[j].min_collators by {
            assert(d[j] == dr[j - 1]);
            assert(chosen[j] == rest[j - 1]);
            if i > 0 {
                assert(d[i] == dr[i - 1]);
                assert(chosen[i] == rest[i - 1]);
            } else {
                assert(extra == rem);
                assert(dr[j - 1].1 == rest[j - 1].min_collators);
            }
        }
        assert forall|j: int| rem == 0 && 0 <= j < d.len() implies (#[trigger] d[j]).1 == chosen[j].min_collators by {
            if j > 0 {
                assert(d[j] == dr[j - 1]);
                assert(chosen[j] == rest[j - 1]);
            }
        }
        assert(sum_counts(d) == d[0].1 + sum_counts(dr));
    }
}

/// The positions in `chains` of the chains that the first pass of selection took.
proof fn lemma_select_prefix_indices(chains: Seq<ChainNumCollators>, num: int, k: int) -> (idx: Seq<int>)
    requires
        1 <= k <= chains.len(),
    ensures
        ({
            let chosen = select_prefix(chains, num, k).1;
            &&& idx.len() == chosen.len()
            &&& idx.len() > 0 && idx[0] == 0
            &&& forall|i: int| 0 <= i < idx.len() ==> 0 <= #[trigger] idx[i] < k
            &&& forall|i: int, j: int| 0 <= i < j < idx.len() ==> #[trigger] idx[i] < #[trigger] idx[j]
            &&& chosen == idx.map_values(|i: int| chains[i])
        }),
    decreases k,
{
    if k <= 1 {
        let idx = seq![0int];
        assert(seq![chains[0]] =~= idx.map_values(|i: int| chains[i]));
        idx
    } else {
        let prev = lemma_select_prefix_indices(chains, num, k - 1);
        let (avail, chosen, done) = select_prefix(chains, num, k - 1);
        let cc = chains[k - 1];
        if !done && avail >= cc.min_collators {
            let idx = prev.push(k - 1);
            assert(chosen.push(cc) =~= idx.map_values(|i: int| chains[i]));
            idx
        } else {
            prev
        }
    }
}

/// When there are collators for at least the min of the first chain (the orchestrator chain),
/// `select_chains_with_collators` takes chains in their order, starting with the first: each
/// taken chain gets at least its min and at most its max (or its min when that is larger), a
/// chain below its max is followed only by chains at their min, and all the collators are
/// handed out unless the taken chains are all at their max.
pub proof fn select_chains_takes_chains_in_order(num_collators: u32, chains: Seq<ChainNumCollators>)
    requires
        chains.len() > 0,
        num_collators >= chains[0].min_collators,
    ensures
        exists|idx: Seq<int>| #[trigger] takes_in_order(chains, num_collators as int, select_chains_spec(num_collators as int, chains), idx),
{
    let num = num_collators as int;
    let k = chains.len() as int;
    crate::assignment::lemma_select_prefix_bounds(chains, num, k);
    let chosen = select_prefix(chains, num, k).1;
    let idx = lemma_select_prefix_indices(chains, num, k);
    lemma_distribute_exact(chosen, num - sum_min(chosen));
    let r = select_chains_spec(num, chains);
    assert(r == distribute(chosen, num - sum_min(chosen)));
    assert forall|i: int| 0 <= i < r.len() implies {
        &&& (#[trigger] r[i]).0 == chains[idx[i]].para_id
        &&& chains[idx[i]].min_collators <= r[i].1 <= cap(chains[idx[i]])
    } by {
        assert(chosen[i] == chains[idx[i]]);
    }
    assert forall|i: int, j: int| 0 <= i < j < r.len() && (#[trigger] r[i]).1 < cap(chains[idx[i]]) implies
        (#[trigger] r[j]).1 == chains[idx[j]].min_collators by {
        assert(chosen[i] == chains[idx[i]]);
        assert(chosen[j] == chains[idx[j]]);
    }
    assert(takes_in_order(chains, num, r, idx));
}

/// Whether `x` is one of the first `k` chains of the selection.
pub open spec fn in_prefix(chains: Seq<(ParaId, u32)>, k: int, x: ParaId) -> bool {
    exists|i: int| 0 <= i < k && #[trigger] chains[i].0 == x
}

/// No chain appears twice in the selection.
pub open spec fn distinct_chains(chains: Seq<(ParaId, u32)>) -> bool {
    forall|i: int, j: int| 0 <= i < j < chains.len() ==> #[trigger] chains[i].0 != #[trigger] chains[j].0
}

/// Every collator that some chain of `m` holds belongs to `s`.
pub open spec fn all_in(m: Map<ParaId, Seq<AccountId>>, s: Set<AccountId>) -> bool {
    forall|p: ParaId, c: AccountId| m.dom().contains(p) && #[trigger] m[p].contains(c) ==> s.contains(c)
}

proof fn lemma_truncate_prefix(m: Map<ParaId, Seq<AccountId>>, chains: Seq<(ParaId, u32)>, k: int)
    requires
        0 <= k <= chains.len(),
        distinct_chains(chains),
    ensures
        forall|i: int| 0 <= i < k ==> truncate_prefix(m, chains, k).dom().contains(#[trigger] chains[i].0)
            && truncate_prefix(m, chains, k)[chains[i].0] == truncate_to(get_or_empty(m, chains[i].0), chains[i].1 as int),
        forall|x: ParaId| (forall|i: int| 0 <= i < k ==> #[trigger] chains[i].0 != x) ==>
            truncate_prefix(m, chains, k).dom().contains(x) == m.dom().contains(x)
            && get_or_empty(truncate_prefix(m, chains, k), x) == get_or_empty(m, x),
        truncate_prefix(m, chains, k).dom() == m.dom().union(Set::new(|x: ParaId| in_prefix(chains, k, x))),
    decreases k,
{
    if k > 0 {
        lemma_truncate_prefix(m, chains, k - 1);
        let t0 = truncate_prefix(m, chains, k - 1);
        let p = chains[k - 1].0;
        assert forall|x: ParaId| (forall|i: int| 0 <= i < k - 1 ==> #[trigger] chains[i].0 != x) && x == p implies
            get_or_empty(t0, x) == get_or_empty(m, x) by {}
        assert(forall|i: int| 0 <= i < k - 1 ==> #[trigger] chains[i].0 != p);
        assert(truncate_prefix(m, chains, k).dom() =~= m.dom().union(Set::new(|x: ParaId| in_prefix(chains, k, x)))) by {
            assert forall|x: ParaId| #[trigger] in_prefix(chains, k, x) implies
                (x == p || in_prefix(chains, k - 1, x)) by {
                let i = choose|i: int| 0 <= i < k && #[trigger] chains[i].0 == x;
                if i < k - 1 {
                    assert(chains[i].0 == x);
                }
            }
            assert forall|x: ParaId| #[trigger] in_prefix(chains, k - 1, x) implies in_prefix(chains, k, x) by {
                let i = choose|i: int| 0 <= i < k - 1 && #[trigger] chains[i].0 == x;
                assert(chains[i].0 == x);
            }
            assert(chains[k - 1].0 == p);
            assert(in_prefix(chains, k, p));
        }
    } else {
        assert(truncate_prefix(m, chains, k).dom() =~= m.dom().union(Set::new(|x: ParaId| in_prefix(chains, k, x))));
    }
}

proof fn lemma_fill_prefix(m: Map<ParaId, Seq<AccountId>>, chains: Seq<(ParaId, u32)>, pool: Seq<AccountId>, k: int)
    requires
        0 <= k <= chains.len(),
        distinct_chains(chains),
        !fill_prefix(m, chains, pool, k).2,
    ensures
        forall|i: int| 0 <= i < k ==> {
            let r = fill_prefix(m, chains, pool, k).0;
            let g = get_or_empty(m, #[trigger] chains[i].0);
            &&& r.dom().contains(chains[i].0)
            &&& r[chains[i].0].len() == (if g.len() >= chains[i].1 { g.len() as int } else { chains[i].1 as int })
            &&& r[chains[i].0].take(g.len() as int) == g
        },
        forall|x: ParaId| (forall|i: int| 0 <= i < k ==> #[trigger] chains[i].0 != x) ==>
            fill_prefix(m, chains, pool, k).0.dom().contains(x) == m.dom().contains(x)
            && get_or_empty(fill_prefix(m, chains, pool, k).0, x) == get_or_empty(m, x),
        fill_prefix(m, chains, pool, k).0.dom() == m.dom().union(Set::new(|x: ParaId| in_prefix(chains, k, x))),
    decreases k,
{
    if k > 0 {
        let (m0, pool0, failed) = fill_prefix(m, chains, pool, k - 1);
        assert(!failed);
        lemma_fill_prefix(m, chains, pool, k - 1);
        let p = chains[k - 1].0;
        assert(forall|i: int| 0 <= i < k - 1 ==> #[trigger] chains[i].0 != p);
        let cur = get_or_empty(m0, p);
        assert(cur == get_or_empty(m, p));
        let n = chains[k - 1].1 as int;
        if cur.len() < n {
            assert((cur + pool0.take(n - cur.len())).take(cur.len() as int) =~= cur);
        } else {
            assert(cur.take(cur.len() as int) =~= cur);
        }
        assert(fill_prefix(m, chains, pool, k).0.dom() =~= m.dom().union(Set::new(|x: ParaId| in_prefix(chains, k, x)))) by {
            assert forall|x: ParaId| #[trigger] in_prefix(chains, k, x) implies
                (x == p || in_prefix(chains, k - 1, x)) by {
                let i = choose|i: int| 0 <= i < k && #[trigger] chains[i].0 == x;
                if i < k - 1 {
                    assert(chains[i].0 == x);
                }
            }
            assert forall|x: ParaId| #[trigger] in_prefix(chains, k - 1, x) implies in_prefix(chains, k, x) by {
                let i = choose|i: int| 0 <= i < k - 1 && #[trigger] chains[i].0 == x;
                assert(chains[i].0 == x);
            }
            assert(chains[k - 1].0 == p);
            assert(in_prefix(chains, k, p));
        }
    } else {
        assert(fill_prefix(m, chains, pool, k).0.dom() =~= m.dom().union(Set::new(|x: ParaId| in_prefix(chains, k, x))));
    }
}

proof fn lemma_fill_all_in(m: Map<ParaId, Seq<AccountId>>, chains: Seq<(ParaId, u32)>, pool: Seq<AccountId>, k: int, s: Set<AccountId>)
    requires
        0 <= k <= chains.len(),
        all_in(m, s),
        forall|c: AccountId| pool.contains(c) ==> s.contains(c),
    ensures
        all_in(fill_prefix(m, chains, pool, k).0, s),
        forall|c: AccountId| fill_prefix(m, chains, pool, k).1.contains(c) ==> s.contains(c),
    decreases k,
{
    if k > 0 {
        lemma_fill_all_in(m, chains, pool, k - 1, s);
        let (m0, pool0, failed) = fill_prefix(m, chains, pool, k - 1);
        let p = chains[k - 1].0;
        let n = chains[k - 1].1 as int;
        let cur = get_or_empty(m0, p);
        if !failed && cur.len() < n && pool0.len() >= n - cur.len() {
            let added = pool0.take(n - cur.len());
            assert forall|c: AccountId| (cur + added).contains(c) implies s.contains(c) by {
                let both = cur + added;
                let j = choose|j: int| 0 <= j < both.len() && #[trigger] both[j] == c;
                if j < cur.len() {
                    assert(cur[j] == c);
                    assert(m0[p].contains(c));
                } else {
                    assert(pool0.contains(added[j - cur.len()]));
                }
            }
            assert forall|c: AccountId| pool0.skip(n - cur.len()).contains(c) implies s.contains(c) by {
                let rest = pool0.skip(n - cur.len());
                let j = choose|j: int| 0 <= j < rest.len() && #[trigger] rest[j] == c;
                assert(pool0[j + n - cur.len()] == c);
            }
        }
    }
}

/// `m` has exactly the chains of the selection, each chain has exactly its number of
/// collators, and the old collators of a chain that are still collators come first on it (cut
/// to the chain's number of collators).
pub open spec fn fills_keeping_old_first(
    collators: Seq<AccountId>,
    chains: Seq<(ParaId, u32)>,
    old: Map<ParaId, Seq<AccountId>>,
    m: Map<ParaId, Seq<AccountId>>,
) -> bool {
    &&& m.dom() == chain_ids(chains)
    &&& forall|i: int| 0 <= i < chains.len() ==> {
        let kept = truncate_to(get_or_empty(old, #[trigger] chains[i].0).filter(in_set(collators.to_set())), chains[i].1 as int);
        &&& m[chains[i].0].len() == chains[i].1
        &&& m[chains[i].0].take(kept.len() as int) == kept
    }
}

/// When `assign_full` succeeds on a selection where no chain appears twice, the assignment has
/// exactly the chains of the selection, each chain gets exactly its number of collators, and the
/// old collators of a chain that are still collators stay first on it (cut to the chain's number
/// of collators): old collators have priority over new ones.
pub proof fn assign_full_fills_every_chain_keeping_old_first(
    collators: Seq<AccountId>,
    chains: Seq<(ParaId, u32)>,
    old: Map<ParaId, Seq<AccountId>>,
    pool: Seq<AccountId>,
)
    requires
        distinct_chains(chains),
        assign_full_spec(collators, chains, old, pool) is Ok,
    ensures
        fills_keeping_old_first(collators, chains, old, assign_full_spec(collators, chains, old, pool)->Ok_0),
{
    let ids = chain_ids(chains);
    let r = retained(old, ids, collators.to_set());
    let k = kept_old(collators, chains, old);
    lemma_truncate_prefix(r, chains, chains.len() as int);
    lemma_fill_prefix(k, chains, pool, chains.len() as int);
    let m = fill_prefix(k, chains, pool, chains.len() as int).0;
    assert forall|x: ParaId| r.dom().contains(x) implies in_prefix(chains, chains.len() as int, x) by {
        assert(ids.contains(x));
        let f = |c: (ParaId, u32)| c.0;
        let ms = chains.map_values(f);
        let j = choose|j: int| 0 <= j < ms.len() && #[trigger] ms[j] == x;
        assert(chains[j].0 == x);
    }
    assert forall|x: ParaId| #[trigger] in_prefix(chains, chains.len() as int, x) <==> ids.contains(x) by {
        let f = |c: (ParaId, u32)| c.0;
        if in_prefix(chains, chains.len() as int, x) {
            let i = choose|i: int| 0 <= i < chains.len() && #[trigger] chains[i].0 == x;
            assert(chains.map_values(f)[i] == x);
        }
        if ids.contains(x) {
            let ms = chains.map_values(f);
        let j = choose|j: int| 0 <= j < ms.len() && #[trigger] ms[j] == x;
            assert(chains[j].0 == x);
        }
    }
    assert(m.dom() =~= ids);
    assert forall|i: int| 0 <= i < chains.len() implies {
        let kept = truncate_to(get_or_empty(old, #[trigger] chains[i].0).filter(in_set(collators.to_set())), chains[i].1 as int);
        &&& m[chains[i].0].len() == chains[i].1
        &&& m[chains[i].0].take(kept.len() as int) == kept
    } by {
        let p = chains[i].0;
        assert(ids.contains(p));
        assert(get_or_empty(r, p) == get_or_empty(old, p).filter(in_set(collators.to_set())));
    }
}

/// Every collator that `assign_full` assigns is one of the given collators, whatever order the
/// new collators were shuffled into.
pub proof fn assign_full_assigns_only_collators(
    collators: Seq<AccountId>,
    chains: Seq<(ParaId, u32)>,
    old: Map<ParaId, Seq<AccountId>>,
    pool: Seq<AccountId>,
)
    requires
        pool.to_multiset() == new_collators_pool(collators, chains, old).to_multiset(),
        assign_full_spec(collators, chains, old, pool) is Ok,
    ensures
        all_in(assign_full_spec(collators, chains, old, pool)->Ok_0, collators.to_set()),
{
    broadcast use vstd::seq_lib::group_to_multiset_ensures;
    let s = collators.to_set();
    let ids = chain_ids(chains);
    let r = retained(old, ids, s);
    let k = kept_old(collators, chains, old);
    assert(all_in(r, s)) by {
        assert forall|p: ParaId, c: AccountId| r.dom().contains(p) && #[trigger] r[p].contains(c) implies s.contains(c) by {
            old[p].lemma_filter_contains_rev(in_set(s), c);
        }
    }
    lemma_truncate_prefix_all_in(r, chains, chains.len() as int, s);
    let canon = new_collators_pool(collators, chains, old);
    assert forall|c: AccountId| pool.contains(c) implies s.contains(c) by {
        assert(pool.to_multiset().count(c) > 0);
        assert(canon.contains(c));
        let f = collators.filter(not_in_set(assigned_set(k)));
        let j = choose|j: int| 0 <= j < canon.len() && #[trigger] canon[j] == c;
        let nd = needed_prefix(k, chains, chains.len() as int);
        crate::assignment::lemma_needed_le_required(k, chains, chains.len() as int);
        if f.len() > nd {
            assert(canon == f.take(nd));
            assert(f[j] == c);
        } else {
            assert(canon == f);
            assert(f[j] == c);
        }
        assert(f.contains(c));
        collators.lemma_filter_contains_rev(not_in_set(assigned_set(k)), c);
    }
    lemma_fill_all_in(k, chains, pool, chains.len() as int, s);
}

proof fn lemma_truncate_prefix_all_in(m: Map<ParaId, Seq<AccountId>>, chains: Seq<(ParaId, u32)>, k: int, s: Set<AccountId>)
    requires
        0 <= k <= chains.len(),
        all_in(m, s),
    ensures
        all_in(truncate_prefix(m, chains, k), s),
    decreases k,
{
    if k > 0 {
        lemma_truncate_prefix_all_in(m, chains, k - 1, s);
        let t0 = truncate_prefix(m, chains, k - 1);
        let p = chains[k - 1].0;
        let g = get_or_empty(t0, p);
        let n = chains[k - 1].1 as int;
        assert forall|c: AccountId| truncate_to(g, n).contains(c) implies s.contains(c) by {
            let t = truncate_to(g, n);
            let j = choose|j: int| 0 <= j < t.len() && #[trigger] t[j] == c;
            assert(g[j] == c);
            assert(t0[p].contains(c));
        }
    }
}

/// No collator is assigned twice: neither twice to one chain nor to two chains.
pub open spec fn no_collator_twice(m: Map<ParaId, Seq<AccountId>>) -> bool {
    &&& forall|p: ParaId| m.dom().contains(p) ==> #[trigger] m[p].no_duplicates()
    &&& forall|p: ParaId, q: ParaId, c: AccountId|
        m.dom().contains(p) && m.dom().contains(q) && p != q && #[trigger] m[p].contains(c) ==> !(#[trigger] m[q].contains(c))
}

proof fn lemma_filter_no_duplicates(s: Seq<AccountId>, pred: spec_fn(AccountId) -> bool)
    requires
        s.no_duplicates(),
    ensures
        s.filter(pred).no_duplicates(),
    decreases s.len(),
{
    if s.len() == 0 {
        s.lemma_filter_len(pred);
    } else {
        let init = s.drop_last();
        let last = s.last();
        assert(init.push(last) =~= s);
        lemma_filter_no_duplicates(init, pred);
        init.lemma_filter_push(last, pred);
        if pred(last) {
            let f = init.filter(pred);
            if f.contains(last) {
                init.lemma_filter_contains_rev(pred, last);
                let j = choose|j: int| 0 <= j < init.len() && init[j] == last;
                assert(s[j] == s[s.len() - 1]);
            }
            assert forall|i: int, j: int| 0 <= i < f.push(last).len() && 0 <= j < f.push(last).len() && i != j implies
                f.push(last)[i] != f.push(last)[j] by {
                if i == f.len() {
                    assert(f.contains(f[j]));
                } else if j == f.len() {
                    assert(f.contains(f[i]));
                }
            }
        }
    }
}

proof fn lemma_take_no_duplicates(s: Seq<AccountId>, n: int)
    requires
        s.no_duplicates(),
        0 <= n,
    ensures
        truncate_to(s, n).no_duplicates(),
        forall|c: AccountId| #[trigger] truncate_to(s, n).contains(c) ==> s.contains(c),
{
    if s.len() > n {
        assert forall|c: AccountId| #[trigger] s.take(n).contains(c) implies s.contains(c) by {
            let j = choose|j: int| 0 <= j < s.take(n).len() && s.take(n)[j] == c;
            assert(s.take(n)[j] == s[j]);
            assert(s[j] == c);
        }
    }
}

proof fn lemma_retained_no_collator_twice(old: Map<ParaId, Seq<AccountId>>, ids: Set<ParaId>, s: Set<AccountId>)
    requires
        no_collator_twice(old),
    ensures
        no_collator_twice(retained(old, ids, s)),
{
    let r = retained(old, ids, s);
    assert forall|p: ParaId| r.dom().contains(p) implies #[trigger] r[p].no_duplicates() by {
        lemma_filter_no_duplicates(old[p], in_set(s));
    }
    assert forall|p: ParaId, q: ParaId, c: AccountId|
        r.dom().contains(p) && r.dom().contains(q) && p != q && #[trigger] r[p].contains(c) implies !(#[trigger] r[q].contains(c)) by {
        old[p].lemma_filter_contains_rev(in_set(s), c);
        if r[q].contains(c) {
            old[q].lemma_filter_contains_rev(in_set(s), c);
        }
    }
}

proof fn lemma_truncate_prefix_no_collator_twice(m: Map<ParaId, Seq<AccountId>>, chains: Seq<(ParaId, u32)>, k: int)
    requires
        0 <= k <= chains.len(),
        no_collator_twice(m),
    ensures
        no_collator_twice(truncate_prefix(m, chains, k)),
        assigned_set(truncate_prefix(m, chains, k)).subset_of(assigned_set(m)),
    decreases k,
{
    if k > 0 {
        lemma_truncate_prefix_no_collator_twice(m, chains, k - 1);
        let m0 = truncate_prefix(m, chains, k - 1);
        let p = chains[k - 1].0;
        let g = get_or_empty(m0, p);
        let t = truncate_to(g, chains[k - 1].1 as int);
        let m1 = m0.insert(p, t);
        lemma_take_no_duplicates(g, chains[k - 1].1 as int);
        assert forall|a: ParaId, b: ParaId, c: AccountId|
            m1.dom().contains(a) && m1.dom().contains(b) && a != b && #[trigger] m1[a].contains(c) implies !(#[trigger] m1[b].contains(c)) by {
            if a == p {
                assert(g.contains(c));
                assert(m0[b].contains(c) ==> false);
            } else if b == p {
                if m1[b].contains(c) {
                    assert(g.contains(c));
                }
            }
        }
        assert forall|c: AccountId| assigned_set(m1).contains(c) implies assigned_set(m0).contains(c) by {
            let q = choose|q: ParaId| m1.dom().contains(q) && #[trigger] m1[q].contains(c);
            if q == p {
                assert(g.contains(c));
                assert(m0.dom().contains(p) && m0[p].contains(c));
            } else {
                assert(m0.dom().contains(q) && m0[q].contains(c));
            }
        }
    }
}

/// Filling keeps every collator once, as long as the collators it fills from are distinct and
/// none of them is already assigned; what is left to fill from keeps that property too.
proof fn lemma_fill_no_collator_twice(m: Map<ParaId, Seq<AccountId>>, chains: Seq<(ParaId, u32)>, pool: Seq<AccountId>, k: int)
    requires
        0 <= k <= chains.len(),
        no_collator_twice(m),
        pool.no_duplicates(),
        forall|c: AccountId| #[trigger] pool.contains(c) ==> !assigned_set(m).contains(c),
    ensures
        no_collator_twice(fill_prefix(m, chains, pool, k).0),
        fill_prefix(m, chains, pool, k).1.no_duplicates(),
        forall|c: AccountId| #[trigger] fill_prefix(m, chains, pool, k).1.contains(c) ==> !assigned_set(fill_prefix(m, chains, pool, k).0).contains(c),
    decreases k,
{
    if k > 0 {
        lemma_fill_no_collator_twice(m, chains, pool, k - 1);
        let (m0, pool0, failed) = fill_prefix(m, chains, pool, k - 1);
        let p = chains[k - 1].0;
        let n = chains[k - 1].1 as int;
        let cur = get_or_empty(m0, p);
        if !failed {
            if cur.len() >= n {
                let m1 = m0.insert(p, cur);
                assert forall|c: AccountId| assigned_set(m1).contains(c) implies assigned_set(m0).contains(c) by {
                    let q = choose|q: ParaId| m1.dom().contains(q) && #[trigger] m1[q].contains(c);
                    if q == p {
                        assert(m0.dom().contains(p) && m0[p].contains(c));
                    } else {
                        assert(m0.dom().contains(q) && m0[q].contains(c));
                    }
                }
                assert forall|a: ParaId, b: ParaId, c: AccountId|
                    m1.dom().contains(a) && m1.dom().contains(b) && a != b && #[trigger] m1[a].contains(c) implies !(#[trigger] m1[b].contains(c)) by {
                    if a == p {
                        assert(m0.dom().contains(p) && m0[p].contains(c));
                    } else if b == p && m1[b].contains(c) {
                        assert(m0.dom().contains(p) && m0[p].contains(c));
                    }
                }
            } else if pool0.len() >= n - cur.len() {
                let t = n - cur.len();
                let added = pool0.take(t);
                let rest = pool0.skip(t);
                let new = cur + added;
                let m1 = m0.insert(p, new);
                assert forall|c: AccountId| #[trigger] added.contains(c) implies pool0.contains(c) && !assigned_set(m0).contains(c) by {
                    let j = choose|j: int| 0 <= j < added.len() && added[j] == c;
                    assert(added[j] == pool0[j]);
                    assert(pool0.contains(pool0[j]));
                }
                assert(cur.no_duplicates());
                assert(added.no_duplicates());
                assert forall|i: int, j: int| 0 <= i < cur.len() && 0 <= j < added.len() implies cur[i] != added[j] by {
                    assert(added.contains(added[j]));
                    assert(cur.contains(cur[i]));
                    if cur[i] == added[j] {
                        assert(m0.dom().contains(p) && m0[p].contains(cur[i]));
                    }
                }
                vstd::seq_lib::lemma_no_dup_in_concat(cur, added);
                assert forall|a: ParaId, b: ParaId, c: AccountId|
                    m1.dom().contains(a) && m1.dom().contains(b) && a != b && #[trigger] m1[a].contains(c) implies !(#[trigger] m1[b].contains(c)) by {
                    if a == p {
                        let j = choose|j: int| 0 <= j < new.len() && new[j] == c;
                        if j < cur.len() {
                            assert(cur[j] == c);
                            assert(m0[p].contains(c));
                        } else {
                            assert(added[j - cur.len()] == c);
                            assert(added.contains(c));
                            if m0[b].contains(c) {
                                assert(assigned_set(m0).contains(c));
                            }
                        }
                    } else if b == p && m1[b].contains(c) {
                        let j = choose|j: int| 0 <= j < new.len() && new[j] == c;
                        if j < cur.len() {
                            assert(cur[j] == c);
                            assert(m0[p].contains(c));
                        } else {
                            assert(added[j - cur.len()] == c);
                            assert(added.contains(c));
                            assert(assigned_set(m0).contains(c));
                        }
                    }
                }
                assert forall|c: AccountId| #[trigger] rest.contains(c) implies !assigned_set(m1).contains(c) by {
                    let j = choose|j: int| 0 <= j < rest.len() && rest[j] == c;
                    assert(pool0[j + t] == c);
                    assert(pool0.contains(c));
                    if assigned_set(m1).contains(c) {
                        let q = choose|q: ParaId| m1.dom().contains(q) && #[trigger] m1[q].contains(c);
                        if q == p {
                            let i = choose|i: int| 0 <= i < new.len() && new[i] == c;
                            if i < cur.len() {
                                assert(cur[i] == c);
                                assert(m0.dom().contains(p) && m0[p].contains(c));
                            } else {
                                assert(pool0[i - cur.len()] == c);
                            }
                        } else {
                            assert(m0.dom().contains(q) && m0[q].contains(c));
                        }
                    }
                }
            }
        }
    }
}

/// When the collators are distinct and the old assignment holds no collator twice,
/// `assign_full` never assigns a collator twice, neither to one chain nor to two, whatever
/// order the new collators were shuffled into.
pub proof fn assign_full_assigns_no_collator_twice(
    collators: Seq<AccountId>,
    chains: Seq<(ParaId, u32)>,
    old: Map<ParaId, Seq<AccountId>>,
    pool: Seq<AccountId>,
)
    requires
        collators.no_duplicates(),
        no_collator_twice(old),
        pool.to_multiset() == new_collators_pool(collators, chains, old).to_multiset(),
        assign_full_spec(collators, chains, old, pool) is Ok,
    ensures
        no_collator_twice(assign_full_spec(collators, chains, old, pool)->Ok_0),
{
    broadcast use vstd::seq_lib::group_to_multiset_ensures;
    let s = collators.to_set();
    let r = retained(old, chain_ids(chains), s);
    let k = kept_old(collators, chains, old);
    lemma_retained_no_collator_twice(old, chain_ids(chains), s);
    lemma_truncate_prefix_no_collator_twice(r, chains, chains.len() as int);
    let f = collators.filter(not_in_set(assigned_set(k)));
    let nd = needed_prefix(k, chains, chains.len() as int);
    let canon = new_collators_pool(collators, chains, old);
    lemma_filter_no_duplicates(collators, not_in_set(assigned_set(k)));
    crate::assignment::lemma_needed_le_required(k, chains, chains.len() as int);
    lemma_take_no_duplicates(f, nd);
    canon.lemma_multiset_has_no_duplicates();
    assert forall|c: AccountId| pool.to_multiset().contains(c) implies pool.to_multiset().count(c) == 1 by {}
    pool.lemma_multiset_has_no_duplicates_conv();
    assert forall|c: AccountId| #[trigger] pool.contains(c) implies !assigned_set(k).contains(c) by {
        assert(pool.to_multiset().count(c) > 0);
        assert(canon.contains(c));
        assert(f.contains(c));
        let j = choose|j: int| 0 <= j < f.len() && f[j] == c;
        collators.lemma_filter_pred(not_in_set(assigned_set(k)), j);
    }
    lemma_fill_no_collator_twice(k, chains, pool, chains.len() as int);
}

/// The collators that the first `j` chains keep in `m`, chain after chain.
spec fn kept_concat(m: Map<ParaId, Seq<AccountId>>, chains: Seq<(ParaId, u32)>, j: int) -> Seq<AccountId>
    decreases j,
{
    if j <= 0 {
        Seq::empty()
    } else {
        kept_concat(m, chains, j - 1) + get_or_empty(m, chains[j - 1].0)
    }
}

proof fn lemma_kept_concat_contains(m: Map<ParaId, Seq<AccountId>>, chains: Seq<(ParaId, u32)>, j: int, i: int, c: AccountId)
    requires
        0 <= i < j <= chains.len(),
        get_or_empty(m, chains[i].0).contains(c),
    ensures
        kept_concat(m, chains, j).contains(c),
    decreases j,
{
    let prev = kept_concat(m, chains, j - 1);
    let g = get_or_empty(m, chains[j - 1].0);
    if i < j - 1 {
        lemma_kept_concat_contains(m, chains, j - 1, i, c);
        let a = choose|a: int| 0 <= a < prev.len() && prev[a] == c;
        assert((prev + g)[a] == c);
    } else {
        let a = choose|a: int| 0 <= a < g.len() && g[a] == c;
        assert((prev + g)[prev.len() + a] == c);
    }
}

/// What the first `j` chains still miss and what they keep add up to what they ask for, when
/// none keeps more than it asks for.
proof fn lemma_needed_plus_kept(m: Map<ParaId, Seq<AccountId>>, chains: Seq<(ParaId, u32)>, j: int)
    requires
        0 <= j <= chains.len(),
        forall|i: int| 0 <= i < j ==> get_or_empty(m, #[trigger] chains[i].0).len() <= chains[i].1,
    ensures
        needed_prefix(m, chains, j) + kept_concat(m, chains, j).len() == required_collators(chains.take(j)),
    decreases j,
{
    if j > 0 {
        lemma_needed_plus_kept(m, chains, j - 1);
        assert(chains.take(j).drop_last() =~= chains.take(j - 1));
        assert(get_or_empty(m, chains[j - 1].0).len() <= chains[j - 1].1);
    } else {
        assert(chains.take(0) =~= Seq::<(ParaId, u32)>::empty());
    }
}

proof fn lemma_needed_monotone(m: Map<ParaId, Seq<AccountId>>, chains: Seq<(ParaId, u32)>, j: int, n: int)
    requires
        0 <= j <= n <= chains.len(),
    ensures
        needed_prefix(m, chains, j) <= needed_prefix(m, chains, n),
    decreases n - j,
{
    if j < n {
        lemma_needed_monotone(m, chains, j, n - 1);
    }
}

/// The elements of `s` that are in `a` and those that are not make up all of `s`.
proof fn lemma_filter_split(s: Seq<AccountId>, a: Set<AccountId>)
    ensures
        s.filter(in_set(a)).len() + s.filter(not_in_set(a)).len() == s.len(),
    decreases s.len(),
{
    if s.len() == 0 {
        s.lemma_filter_len(in_set(a));
        s.lemma_filter_len(not_in_set(a));
    } else {
        let init = s.drop_last();
        assert(init.push(s.last()) =~= s);
        lemma_filter_split(init, a);
        init.lemma_filter_push(s.last(), in_set(a));
        init.lemma_filter_push(s.last(), not_in_set(a));
    }
}

/// Filling never runs out when what it fills from covers what the chains miss: each chain,
/// which does not appear twice, takes exactly what it misses.
proof fn lemma_fill_enough(m: Map<ParaId, Seq<AccountId>>, chains: Seq<(ParaId, u32)>, pool: Seq<AccountId>, j: int)
    requires
        0 <= j <= chains.len(),
        distinct_chains(chains),
        pool.len() >= needed_prefix(m, chains, chains.len() as int),
    ensures
        !fill_prefix(m, chains, pool, j).2,
        fill_prefix(m, chains, pool, j).1.len() == pool.len() - needed_prefix(m, chains, j),
    decreases j,
{
    if j > 0 {
        lemma_fill_enough(m, chains, pool, j - 1);
        lemma_fill_prefix(m, chains, pool, j - 1);
        lemma_needed_monotone(m, chains, j, chains.len() as int);
        let p = chains[j - 1].0;
        assert(forall|i: int| 0 <= i < j - 1 ==> #[trigger] chains[i].0 != p);
    }
}

/// `assign_full` fails only for want of collators: when the collators are distinct and no
/// chain appears twice, it fails exactly when the chains ask for more collators in all than
/// there are (or for more than `usize` can count), and then with `NotEnoughCollators`,
/// whatever order the new collators were shuffled into.
pub proof fn assign_full_fails_only_without_enough_collators(
    collators: Seq<AccountId>,
    chains: Seq<(ParaId, u32)>,
    old: Map<ParaId, Seq<AccountId>>,
    pool: Seq<AccountId>,
)
    requires
        collators.no_duplicates(),
        distinct_chains(chains),
        pool.to_multiset() == new_collators_pool(collators, chains, old).to_multiset(),
    ensures
        assign_full_spec(collators, chains, old, pool) is Err <==> (required_collators(chains) > usize::MAX
            || collators.len() < required_collators(chains)),
        assign_full_spec(collators, chains, old, pool) is Err ==> assign_full_spec(collators, chains, old, pool)->Err_0
            == crate::assignment::AssignmentError::NotEnoughCollators,
{
    broadcast use vstd::seq_lib::group_to_multiset_ensures;
    let len = chains.len() as int;
    if !(required_collators(chains) > usize::MAX || collators.len() < required_collators(chains)) {
        let s = collators.to_set();
        let ids = chain_ids(chains);
        let r = retained(old, ids, s);
        let k = kept_old(collators, chains, old);
        lemma_truncate_prefix(r, chains, len);
        assert forall|x: ParaId| r.dom().contains(x) implies in_prefix(chains, len, x) by {
            assert(ids.contains(x));
            let ms = chains.map_values(|c: (ParaId, u32)| c.0);
            let j = choose|j: int| 0 <= j < ms.len() && #[trigger] ms[j] == x;
            assert(chains[j].0 == x);
        }
        assert forall|i: int| 0 <= i < len implies get_or_empty(k, #[trigger] chains[i].0).len() <= chains[i].1 by {
            assert(k.dom().contains(chains[i].0));
        }
        lemma_needed_plus_kept(k, chains, len);
        assert(chains.take(len) =~= chains);
        let a = assigned_set(k);
        let conc = kept_concat(k, chains, len);
        let g = collators.filter(in_set(a));
        let f = collators.filter(not_in_set(a));
        lemma_filter_split(collators, a);
        lemma_filter_no_duplicates(collators, in_set(a));
        g.unique_seq_to_set();
        conc.lemma_cardinality_of_set();
        assert(g.to_set().subset_of(conc.to_set())) by {
            assert forall|c: AccountId| g.to_set().contains(c) implies conc.to_set().contains(c) by {
                let j = choose|j: int| 0 <= j < g.len() && g[j] == c;
                collators.lemma_filter_pred(in_set(a), j);
                let q = choose|q: ParaId| k.dom().contains(q) && #[trigger] k[q].contains(c);
                assert(in_prefix(chains, len, q));
                let i = choose|i: int| 0 <= i < len && #[trigger] chains[i].0 == q;
                lemma_kept_concat_contains(k, chains, len, i, c);
            }
        }
        vstd::set_lib::lemma_len_subset(g.to_set(), conc.to_set());
        let nd = needed_prefix(k, chains, len);
        crate::assignment::lemma_needed_le_required(k, chains, len);
        assert(f.len() >= nd);
        let canon = new_collators_pool(collators, chains, old);
        assert(canon.len() == nd);
        assert(pool.len() == pool.to_multiset().len());
        assert(canon.len() == canon.to_multiset().len());
        assert(pool.len() == nd);
        lemma_fill_enough(k, chains, pool, len);
    }
}

proof fn lemma_removed_no_duplicates<R: RemoveInvulnerables>(s: Seq<AccountId>, n: nat)
    requires
        s.no_duplicates(),
    ensures
        R::removed(s, n).no_duplicates(),
        forall|c: AccountId| #[trigger] R::removed(s, n).contains(c) ==> s.contains(c),
{
    broadcast use vstd::seq_lib::group_to_multiset_ensures;
    broadcast use vstd::multiset::group_multiset_axioms;
    R::lemma_removed_and_left(s, n);
    let r = R::removed(s, n);
    let l = R::left(s, n);
    s.lemma_multiset_has_no_duplicates();
    assert forall|c: AccountId| r.to_multiset().contains(c) implies r.to_multiset().count(c) == 1 by {
        assert(s.to_multiset().count(c) == r.to_multiset().count(c) + l.to_multiset().count(c));
        assert(s.to_multiset().contains(c));
    }
    r.lemma_multiset_has_no_duplicates_conv();
    assert forall|c: AccountId| #[trigger] r.contains(c) implies s.contains(c) by {
        assert(r.to_multiset().count(c) > 0);
        assert(s.to_multiset().count(c) == r.to_multiset().count(c) + l.to_multiset().count(c));
    }
}

proof fn lemma_concat_no_duplicates(a: Seq<AccountId>, b: Seq<AccountId>)
    requires
        a.no_duplicates(),
        b.no_duplicates(),
        forall|c: AccountId| #[trigger] a.contains(c) ==> !b.contains(c),
    ensures
        (a + b).no_duplicates(),
        forall|c: AccountId| #[trigger] (a + b).contains(c) ==> a.contains(c) || b.contains(c),
{
    assert forall|i: int, j: int| 0 <= i < a.len() && 0 <= j < b.len() implies a[i] != b[j] by {
        assert(a.contains(a[i]));
        assert(b.contains(b[j]));
    }
    vstd::seq_lib::lemma_no_dup_in_concat(a, b);
    assert forall|c: AccountId| #[trigger] (a + b).contains(c) implies a.contains(c) || b.contains(c) by {
        let j = choose|j: int| 0 <= j < (a + b).len() && (a + b)[j] == c;
        if j < a.len() {
            assert(a[j] == c);
        } else {
            assert(b[j - a.len()] == c);
        }
    }
}

/// The invulnerables chosen for the orchestrator chain are distinct when the collators are
/// and the old assignment holds no collator twice.
proof fn lemma_chosen_invulnerables_distinct<R: RemoveInvulnerables>(
    collators: Seq<AccountId>,
    orchestrator_chain: ChainNumCollators,
    old: Map<ParaId, Seq<AccountId>>,
)
    requires
        collators.no_duplicates(),
        no_collator_twice(old),
    ensures
        chosen_invulnerables::<R>(collators, orchestrator_chain, old).no_duplicates(),
{
    let n = orchestrator_chain.min_collators as int;
    let p = orchestrator_chain.para_id;
    let g = get_or_empty(old, p);
    let got1 = R::removed(g, n as nat);
    lemma_removed_no_duplicates::<R>(g, n as nat);
    R::lemma_removed_and_left(g, n as nat);
    if got1.len() < n {
        let not_assigned = collators.filter(not_in_set(assigned_set(old)));
        lemma_filter_no_duplicates(collators, not_in_set(assigned_set(old)));
        let r2 = R::removed(not_assigned, (n - got1.len()) as nat);
        lemma_removed_no_duplicates::<R>(not_assigned, (n - got1.len()) as nat);
        assert forall|c: AccountId| #[trigger] got1.contains(c) implies !r2.contains(c) by {
            assert(g.contains(c));
            assert(old.dom().contains(p) && old[p].contains(c));
            if r2.contains(c) {
                assert(not_assigned.contains(c));
                let j = choose|j: int| 0 <= j < not_assigned.len() && not_assigned[j] == c;
                collators.lemma_filter_pred(not_in_set(assigned_set(old)), j);
            }
        }
        lemma_concat_no_duplicates(got1, r2);
        let got2 = got1 + r2;
        if got2.len() < n {
            let others = collators.filter(not_in_set(got2.to_set()));
            lemma_filter_no_duplicates(collators, not_in_set(got2.to_set()));
            let r3 = R::removed(others, (n - got2.len()) as nat);
            lemma_removed_no_duplicates::<R>(others, (n - got2.len()) as nat);
            assert forall|c: AccountId| #[trigger] got2.contains(c) implies !r3.contains(c) by {
                if r3.contains(c) {
                    assert(others.contains(c));
                    let j = choose|j: int| 0 <= j < others.len() && others[j] == c;
                    collators.lemma_filter_pred(not_in_set(got2.to_set()), j);
                }
            }
            lemma_concat_no_duplicates(got2, r3);
        }
    }
}

/// Putting the invulnerables first on the orchestrator chain assigns no collator twice when
/// the collators are distinct and the old assignment holds no collator twice.
proof fn lemma_prioritize_no_collator_twice<R: RemoveInvulnerables>(
    collators: Seq<AccountId>,
    orchestrator_chain: ChainNumCollators,
    old: Map<ParaId, Seq<AccountId>>,
)
    requires
        collators.no_duplicates(),
        no_collator_twice(old),
    ensures
        no_collator_twice(prioritize_invulnerables_spec::<R>(collators, orchestrator_chain, old).1),
{
    let (inv, m) = remove_invulnerables_spec::<R>(collators, orchestrator_chain, old);
    let p = orchestrator_chain.para_id;
    let ni = not_in_set(inv.to_set());
    lemma_chosen_invulnerables_distinct::<R>(collators, orchestrator_chain, old);
    assert forall|q: ParaId| #[trigger] m.dom().contains(q) implies m[q] == old[q].filter(ni) && m[q].no_duplicates()
        && forall|c: AccountId| #[trigger] m[q].contains(c) ==> old[q].contains(c) && !inv.contains(c) by {
        lemma_filter_no_duplicates(old[q], ni);
        assert forall|c: AccountId| #[trigger] m[q].contains(c) implies old[q].contains(c) && !inv.contains(c) by {
            old[q].lemma_filter_contains_rev(ni, c);
            let j = choose|j: int| 0 <= j < m[q].len() && m[q][j] == c;
            old[q].lemma_filter_pred(ni, j);
        }
    }
    assert(no_collator_twice(m));
    if inv.len() > 0 {
        let cur = get_or_empty(m, p);
        let rest = cur.filter(ni);
        let new = inv + rest;
        lemma_filter_no_duplicates(cur, ni);
        assert forall|c: AccountId| #[trigger] rest.contains(c) implies cur.contains(c) && !inv.contains(c) by {
            cur.lemma_filter_contains_rev(ni, c);
            let j = choose|j: int| 0 <= j < rest.len() && rest[j] == c;
            cur.lemma_filter_pred(ni, j);
        }
        lemma_concat_no_duplicates(inv, rest);
        let m1 = m.insert(p, new);
        assert forall|a: ParaId, b: ParaId, c: AccountId|
            m1.dom().contains(a) && m1.dom().contains(b) && a != b && #[trigger] m1[a].contains(c) implies !(#[trigger] m1[b].contains(c)) by {
            if a == p {
                if inv.contains(c) {
                    assert(m[b].contains(c) ==> !inv.contains(c));
                } else {
                    assert(cur.contains(c));
                    assert(m.dom().contains(p));
                }
            } else if b == p && m1[b].contains(c) {
                if inv.contains(c) {
                    assert(m[a].contains(c) ==> !inv.contains(c));
                } else {
                    assert(cur.contains(c));
                    assert(m.dom().contains(p));
                }
            }
        }
    }
}

/// No collator is held twice by the orchestrator chain (`a.0`) and the container chains
/// (`a.1`) together.
pub open spec fn assigned_once(a: (Seq<AccountId>, Map<ParaId, Seq<AccountId>>)) -> bool {
    &&& a.0.no_duplicates()
    &&& no_collator_twice(a.1)
    &&& forall|q: ParaId, c: AccountId| a.1.dom().contains(q) && #[trigger] a.1[q].contains(c) ==> !a.0.contains(c)
}

/// The chains that `keep_old_selection` gives collators to are chains of the list, each once.
proof fn lemma_keep_old_selection_chains(
    collators: Seq<AccountId>,
    orchestrator_chain: ChainNumCollators,
    chains: Seq<ChainNumCollators>,
)
    requires
        para_ids_of(seq![orchestrator_chain] + chains).no_duplicates(),
    ensures
        distinct_chains(keep_old_selection(collators, orchestrator_chain, chains)),
        forall|i: int| 0 <= i < keep_old_selection(collators, orchestrator_chain, chains).len() ==>
            para_ids_of(seq![orchestrator_chain] + chains).contains(#[trigger] keep_old_selection(collators, orchestrator_chain, chains)[i].0),
{
    let full = seq![orchestrator_chain] + chains;
    let ids = para_ids_of(full);
    let num = (collators.len() as u32) as int;
    let sel = keep_old_selection(collators, orchestrator_chain, chains);
    assert(full[0] == orchestrator_chain);
    if num < orchestrator_chain.min_collators {
        assert(sel =~= seq![(orchestrator_chain.para_id, num as u32)]);
        assert(ids[0] == orchestrator_chain.para_id);
    } else {
        select_chains_takes_chains_in_order((collators.len() as u32), full);
        let idx = choose|idx: Seq<int>| #[trigger] takes_in_order(full, num, sel, idx);
        assert forall|i: int, j: int| 0 <= i < j < sel.len() implies #[trigger] sel[i].0 != #[trigger] sel[j].0 by {
            assert(idx[i] < idx[j]);
            assert(sel[i].0 == ids[idx[i]]);
            assert(sel[j].0 == ids[idx[j]]);
        }
        assert forall|i: int| 0 <= i < sel.len() implies ids.contains(#[trigger] sel[i].0) by {
            assert(sel[i].0 == ids[idx[i]]);
        }
    }
}

/// When the collators are distinct, the old assignment holds no collator twice and no chain
/// appears twice, a successful `assign_collators_always_keep_old` gives the orchestrator chain
/// collators, has an entry for exactly the container chains it was given (empty for those left
/// without collators), assigns only given collators, and assigns none of them twice, whatever
/// order the new collators were shuffled into.
pub proof fn keep_old_assigns_every_chain_once<R: RemoveInvulnerables>(
    collators: Seq<AccountId>,
    orchestrator_chain: ChainNumCollators,
    chains: Seq<ChainNumCollators>,
    old: (Seq<AccountId>, Map<ParaId, Seq<AccountId>>),
    pool: Seq<AccountId>,
)
    requires
        collators.no_duplicates(),
        assigned_once(old),
        para_ids_of(seq![orchestrator_chain] + chains).no_duplicates(),
        pool.to_multiset() == keep_old_pool::<R>(collators, orchestrator_chain, chains, old).to_multiset(),
        keep_old_spec::<R>(collators, orchestrator_chain, chains, old, pool) is Ok,
    ensures
        ({
            let a = keep_old_spec::<R>(collators, orchestrator_chain, chains, old, pool)->Ok_0;
            &&& a.0.len() > 0
            &&& a.1.dom() == para_ids_of(chains).to_set()
            &&& assigned_once(a)
            &&& forall|c: AccountId| #[trigger] a.0.contains(c) ==> collators.contains(c)
            &&& all_in(a.1, collators.to_set())
        }),
{
    let s = collators.to_set();
    let full = seq![orchestrator_chain] + chains;
    let ids = para_ids_of(full);
    let o = orchestrator_chain.para_id;
    let sel = keep_old_selection(collators, orchestrator_chain, chains);
    let m0 = old.1.insert(o, old.0);
    assert(no_collator_twice(m0)) by {
        assert forall|a: ParaId, b: ParaId, c: AccountId|
            m0.dom().contains(a) && m0.dom().contains(b) && a != b && #[trigger] m0[a].contains(c) implies !(#[trigger] m0[b].contains(c)) by {
            if a == o {
                assert(old.1[b].contains(c) ==> !old.0.contains(c));
            } else if b == o {
                assert(old.1[a].contains(c));
            }
        }
    }
    let m1 = retained(m0, chain_ids(sel), s);
    lemma_retained_no_collator_twice(m0, chain_ids(sel), s);
    lemma_prioritize_no_collator_twice::<R>(collators, orchestrator_chain, m1);
    let base = keep_old_base::<R>(collators, orchestrator_chain, chains, old);
    lemma_keep_old_selection_chains(collators, orchestrator_chain, chains);
    assert(assign_full_spec(collators, sel, base, pool) is Ok);
    assign_full_assigns_no_collator_twice(collators, sel, base, pool);
    assign_full_fills_every_chain_keeping_old_first(collators, sel, base, pool);
    assign_full_assigns_only_collators(collators, sel, base, pool);
    let m = assign_full_spec(collators, sel, base, pool)->Ok_0;
    let all = with_empty_entries(m, ids);
    assert(ids =~= seq![o] + para_ids_of(chains));
    assert forall|q: ParaId| #[trigger] all.dom().contains(q) <==> ids.contains(q) by {
        if m.dom().contains(q) {
            assert(chain_ids(sel).contains(q));
            let ms = sel.map_values(|c: (ParaId, u32)| c.0);
            let j = choose|j: int| 0 <= j < ms.len() && #[trigger] ms[j] == q;
            assert(sel[j].0 == q);
        }
    }
    assert(no_collator_twice(all)) by {
        assert forall|q: ParaId| all.dom().contains(q) implies #[trigger] all[q].no_duplicates() by {}
        assert forall|a: ParaId, b: ParaId, c: AccountId|
            all.dom().contains(a) && all.dom().contains(b) && a != b && #[trigger] all[a].contains(c) implies !(#[trigger] all[b].contains(c)) by {
            assert(m.dom().contains(a));
        }
    }
    assert(all_in(all, s)) by {
        assert forall|q: ParaId, c: AccountId| all.dom().contains(q) && #[trigger] all[q].contains(c) implies s.contains(c) by {
            assert(m.dom().contains(q));
        }
    }
    let a = keep_old_spec::<R>(collators, orchestrator_chain, chains, old, pool)->Ok_0;
    assert(a.0 == all[o]);
    assert(a.1 == all.remove(o));
    assert(ids.contains(o)) by {
        assert(ids[0] == o);
    }
    let pc = para_ids_of(chains);
    assert(a.1.dom() =~= pc.to_set()) by {
        assert forall|q: ParaId| #[trigger] pc.contains(q) implies q != o && ids.contains(q) by {
            let j = choose|j: int| 0 <= j < pc.len() && pc[j] == q;
            assert(ids[j + 1] == q);
            assert(ids[0] == o);
        }
        assert forall|q: ParaId| #[trigger] ids.contains(q) && q != o implies pc.contains(q) by {
            let j = choose|j: int| 0 <= j < ids.len() && ids[j] == q;
            assert(j != 0);
            assert(pc[j - 1] == q);
        }
        assert forall|q: ParaId| #[trigger] a.1.dom().contains(q) <==> pc.to_set().contains(q) by {
            if pc.contains(q) {
                assert(ids.contains(q));
            }
            if a.1.dom().contains(q) {
                assert(all.dom().contains(q) && q != o);
                assert(ids.contains(q));
            }
        }
    }
}

/// `remove_invulnerables` takes each chosen invulnerable off every chain of the old assignment
/// (even the chain it will go back to) and changes nothing else: the chains stay, and a
/// collator that was not chosen stays where it was, in its order.
pub proof fn remove_invulnerables_takes_only_the_chosen_off<R: RemoveInvulnerables>(
    collators: Seq<AccountId>,
    orchestrator_chain: ChainNumCollators,
    old: Map<ParaId, Seq<AccountId>>,
)
    ensures
        ({
            let (inv, m) = remove_invulnerables_spec::<R>(collators, orchestrator_chain, old);
            &&& m.dom() == old.dom()
            &&& forall|p: ParaId, c: AccountId| m.dom().contains(p) && #[trigger] inv.contains(c) ==> !(#[trigger] m[p].contains(c))
            &&& forall|p: ParaId| #[trigger] m.dom().contains(p) ==> m[p] == old[p].filter(|c: AccountId| !inv.contains(c))
        }),
{
    let (inv, m) = remove_invulnerables_spec::<R>(collators, orchestrator_chain, old);
    let ni = not_in_set(inv.to_set());
    assert(m.dom() =~= old.dom());
    assert forall|p: ParaId, c: AccountId| m.dom().contains(p) && #[trigger] inv.contains(c) implies !(#[trigger] m[p].contains(c)) by {
        if m[p].contains(c) {
            let j = choose|j: int| 0 <= j < m[p].len() && m[p][j] == c;
            old[p].lemma_filter_pred(ni, j);
        }
    }
    assert forall|p: ParaId| #[trigger] m.dom().contains(p) implies m[p] == old[p].filter(|c: AccountId| !inv.contains(c)) by {
        assert(ni =~= (|c: AccountId| !inv.contains(c)));
    }
}

/// Later filling steps leave the entries of the chains already filled as they were.
proof fn lemma_fill_stable(m: Map<ParaId, Seq<AccountId>>, chains: Seq<(ParaId, u32)>, pool: Seq<AccountId>, j: int, l: int, i: int)
    requires
        0 <= i < j <= l <= chains.len(),
        distinct_chains(chains),
        !fill_prefix(m, chains, pool, l).2,
    ensures
        fill_prefix(m, chains, pool, l).0[chains[i].0] == fill_prefix(m, chains, pool, j).0[chains[i].0],
    decreases l - j,
{
    if l > j {
        let (m0, pool0, failed) = fill_prefix(m, chains, pool, l - 1);
        assert(!failed);
        lemma_fill_stable(m, chains, pool, j, l - 1, i);
        assert(chains[i].0 != chains[l - 1].0);
    }
}

/// What is left to fill from after the first `j` chains is what they did not take.
proof fn lemma_fill_rest(m: Map<ParaId, Seq<AccountId>>, chains: Seq<(ParaId, u32)>, pool: Seq<AccountId>, j: int)
    requires
        0 <= j <= chains.len(),
        distinct_chains(chains),
        !fill_prefix(m, chains, pool, j).2,
    ensures
        fill_prefix(m, chains, pool, j).1 == pool.skip(needed_prefix(m, chains, j)),
        needed_prefix(m, chains, j) <= pool.len(),
    decreases j,
{
    if j > 0 {
        let (m0, pool0, failed) = fill_prefix(m, chains, pool, j - 1);
        assert(!failed);
        lemma_fill_rest(m, chains, pool, j - 1);
        lemma_fill_prefix(m, chains, pool, j - 1);
        let p = chains[j - 1].0;
        assert(forall|i: int| 0 <= i < j - 1 ==> #[trigger] chains[i].0 != p);
        let cur = get_or_empty(m0, p);
        assert(cur == get_or_empty(m, p));
        let n = chains[j - 1].1 as int;
        crate::assignment::lemma_needed_le_required(m, chains, j - 1);
        assert(needed_prefix(m, chains, j) == needed_prefix(m, chains, j - 1) + sat_sub(n, cur.len() as int));
        if cur.len() < n {
            assert(pool0.len() >= n - cur.len());
            assert(pool0.skip(n - cur.len()) =~= pool.skip(needed_prefix(m, chains, j)));
        }
    } else {
        assert(pool.skip(0) =~= pool);
    }
}

/// The places each of the first `j` chains gets beyond the old collators it keeps, chain after
/// chain, in the assignment `r`.
pub open spec fn free_slots(r: Map<ParaId, Seq<AccountId>>, kept: Map<ParaId, Seq<AccountId>>, chains: Seq<(ParaId, u32)>, j: int) -> Seq<AccountId>
    decreases j,
{
    if j <= 0 {
        Seq::empty()
    } else {
        free_slots(r, kept, chains, j - 1) + r[chains[j - 1].0].skip(get_or_empty(kept, chains[j - 1].0).len() as int)
    }
}

proof fn lemma_free_slots(m: Map<ParaId, Seq<AccountId>>, chains: Seq<(ParaId, u32)>, pool: Seq<AccountId>, j: int)
    requires
        0 <= j <= chains.len(),
        distinct_chains(chains),
        !fill_prefix(m, chains, pool, chains.len() as int).2,
        forall|i: int| 0 <= i < chains.len() ==> get_or_empty(m, #[trigger] chains[i].0).len() <= chains[i].1,
    ensures
        free_slots(fill_prefix(m, chains, pool, chains.len() as int).0, m, chains, j) == pool.take(needed_prefix(m, chains, j)),
    decreases j,
{
    let len = chains.len() as int;
    if j > 0 {
        lemma_free_slots(m, chains, pool, j - 1);
        lemma_fill_enough_rev(m, chains, pool, j, len);
        lemma_fill_rest(m, chains, pool, j - 1);
        lemma_fill_rest(m, chains, pool, j);
        lemma_fill_prefix(m, chains, pool, j - 1);
        lemma_fill_stable(m, chains, pool, j, len, j - 1);
        let (m0, pool0, failed) = fill_prefix(m, chains, pool, j - 1);
        let p = chains[j - 1].0;
        assert(forall|i: int| 0 <= i < j - 1 ==> #[trigger] chains[i].0 != p);
        let cur = get_or_empty(m0, p);
        assert(cur == get_or_empty(m, p));
        let n = chains[j - 1].1 as int;
        let np0 = needed_prefix(m, chains, j - 1);
        let np1 = needed_prefix(m, chains, j);
        crate::assignment::lemma_needed_le_required(m, chains, j - 1);
        let entry = fill_prefix(m, chains, pool, j).0[p];
        if cur.len() < n {
            assert(entry == cur + pool0.take(n - cur.len()));
            assert(entry.skip(cur.len() as int) =~= pool0.take(n - cur.len()));
            assert(pool.take(np0) + pool.skip(np0).take(n - cur.len()) =~= pool.take(np1));
        } else {
            assert(entry == cur);
            assert(entry.skip(cur.len() as int) =~= Seq::<AccountId>::empty());
            assert(pool.take(np0) + Seq::<AccountId>::empty() =~= pool.take(np1));
        }
    } else {
        assert(pool.take(0) =~= Seq::<AccountId>::empty());
    }
}

proof fn lemma_fill_enough_rev(m: Map<ParaId, Seq<AccountId>>, chains: Seq<(ParaId, u32)>, pool: Seq<AccountId>, j: int, l: int)
    requires
        0 <= j <= l <= chains.len(),
        !fill_prefix(m, chains, pool, l).2,
    ensures
        !fill_prefix(m, chains, pool, j).2,
    decreases l - j,
{
    if j < l {
        lemma_fill_enough_rev(m, chains, pool, j + 1, l);
    }
}

/// When `assign_full` succeeds on a selection where no chain appears twice, the places beyond
/// the old collators each chain keeps, taken chain after chain, are exactly the new collators
/// in the order they were shuffled into: the shuffled collators fill the chains in their order.
pub proof fn assign_full_fills_free_places_in_shuffled_order(
    collators: Seq<AccountId>,
    chains: Seq<(ParaId, u32)>,
    old: Map<ParaId, Seq<AccountId>>,
    pool: Seq<AccountId>,
)
    requires
        distinct_chains(chains),
        pool.to_multiset() == new_collators_pool(collators, chains, old).to_multiset(),
        assign_full_spec(collators, chains, old, pool) is Ok,
    ensures
        free_slots(assign_full_spec(collators, chains, old, pool)->Ok_0, kept_old(collators, chains, old), chains, chains.len() as int)
            == pool,
{
    broadcast use vstd::seq_lib::group_to_multiset_ensures;
    let len = chains.len() as int;
    let s = collators.to_set();
    let r = retained(old, chain_ids(chains), s);
    let k = kept_old(collators, chains, old);
    lemma_truncate_prefix(r, chains, len);
    assert forall|i: int| 0 <= i < len implies get_or_empty(k, #[trigger] chains[i].0).len() <= chains[i].1 by {
        assert(k.dom().contains(chains[i].0));
    }
    lemma_free_slots(k, chains, pool, len);
    let nd = needed_prefix(k, chains, len);
    crate::assignment::lemma_needed_le_required(k, chains, len);
    lemma_fill_rest(k, chains, pool, len);
    let canon = new_collators_pool(collators, chains, old);
    assert(pool.len() == pool.to_multiset().len());
    assert(canon.len() == canon.to_multiset().len());
    assert(canon.len() <= nd);
    assert(pool.take(nd) =~= pool);
}

/// The account ids at or above `min`: those `InvulnerablesFrom<MIN>` treats as invulnerable.
pub open spec fn at_least(min: u64) -> spec_fn(AccountId) -> bool {
    |c: AccountId| c >= min
}

proof fn lemma_split_from_taken(collators: Seq<AccountId>, num: nat, min: u64, k: int)
    requires
        0 <= k <= collators.len(),
    ensures
        split_from(collators, num, min, k).0 == truncate_to(collators.take(k).filter(at_least(min)), num as int),
    decreases k,
{
    if k > 0 {
        lemma_split_from_taken(collators, num, min, k - 1);
        let x = collators[k - 1];
        let f0 = collators.take(k - 1).filter(at_least(min));
        assert(collators.take(k) =~= collators.take(k - 1).push(x));
        collators.take(k - 1).lemma_filter_push(x, at_least(min));
        if x >= min {
            crate::assignment::lemma_truncate_push(f0, x, num as int);
        }
    } else {
        assert(collators.take(0) =~= Seq::<AccountId>::empty());
        Seq::<AccountId>::empty().lemma_filter_len(at_least(min));
        assert(collators.take(0).filter(at_least(min)) =~= Seq::<AccountId>::empty());
    }
}

/// Filtering by `p1` then `q` and by `p2` then `q` agree when `p1` and `p2` agree on every
/// element that `q` keeps.
proof fn lemma_filter_filter_agree(
    s: Seq<AccountId>,
    p1: spec_fn(AccountId) -> bool,
    p2: spec_fn(AccountId) -> bool,
    q: spec_fn(AccountId) -> bool,
)
    requires
        forall|c: AccountId| #[trigger] s.contains(c) && q(c) ==> p1(c) == p2(c),
    ensures
        s.filter(p1).filter(q) == s.filter(p2).filter(q),
    decreases s.len(),
{
    if s.len() == 0 {
        s.lemma_filter_len(p1);
        s.lemma_filter_len(p2);
        assert(s.filter(p1) =~= s);
        assert(s.filter(p2) =~= s);
    } else {
        let init = s.drop_last();
        let x = s.last();
        assert(init.push(x) =~= s);
        assert forall|c: AccountId| #[trigger] init.contains(c) && q(c) implies p1(c) == p2(c) by {
            let j = choose|j: int| 0 <= j < init.len() && init[j] == c;
            assert(s[j] == c);
            assert(s.contains(c));
        }
        lemma_filter_filter_agree(init, p1, p2, q);
        init.lemma_filter_push(x, p1);
        init.lemma_filter_push(x, p2);
        init.filter(p1).lemma_filter_push(x, q);
        init.filter(p2).lemma_filter_push(x, q);
        assert(s.contains(x));
    }
}

/// `R` takes, out of a list, its first invulnerables (those `is_invulnerable` holds of), as
/// many as asked or all there are, in their order.
pub open spec fn takes_first_invulnerables<R: RemoveInvulnerables>(is_invulnerable: spec_fn(AccountId) -> bool) -> bool {
    forall|s: Seq<AccountId>, n: nat| #[trigger] R::removed(s, n) == truncate_to(s.filter(is_invulnerable), n as int)
}

/// `InvulnerablesFrom<MIN>` takes the first account ids at or above `MIN` of a list.
pub proof fn invulnerables_from_takes_the_first_invulnerables<const MIN: u64>()
    ensures
        takes_first_invulnerables::<InvulnerablesFrom<MIN>>(at_least(MIN)),
{
    assert forall|s: Seq<AccountId>, n: nat| #[trigger] InvulnerablesFrom::<MIN>::removed(s, n) == truncate_to(s.filter(at_least(MIN)), n as int) by {
        lemma_split_from_taken(s, n, MIN, s.len() as int);
        assert(s.take(s.len() as int) =~= s);
    }
}

/// When `R` takes the first invulnerables of a list, as many as asked or all there are,
/// `remove_invulnerables` chooses, up to
/// the orchestrator chain's min, the invulnerables already on the orchestrator chain (in their
/// order there), then those assigned to no chain, then those assigned to another chain (both in
/// the order of `collators`); when no collator is assigned twice, none is chosen twice.
pub proof fn remove_invulnerables_chooses_orchestrator_then_unassigned_then_others<R: RemoveInvulnerables>(
    is_invulnerable: spec_fn(AccountId) -> bool,
    collators: Seq<AccountId>,
    orchestrator_chain: ChainNumCollators,
    old: Map<ParaId, Seq<AccountId>>,
)
    requires
        takes_first_invulnerables::<R>(is_invulnerable),
        no_collator_twice(old),
    ensures
        ({
            let o = orchestrator_chain.para_id;
            let on_orchestrator = get_or_empty(old, o).filter(is_invulnerable);
            let unassigned = collators.filter(not_in_set(assigned_set(old))).filter(is_invulnerable);
            let elsewhere = collators.filter(in_set(assigned_set(old.remove(o)))).filter(is_invulnerable);
            let inv = remove_invulnerables_spec::<R>(collators, orchestrator_chain, old).0;
            &&& inv == truncate_to(on_orchestrator + unassigned + elsewhere, orchestrator_chain.min_collators as int)
            &&& collators.no_duplicates() ==> inv.no_duplicates()
        }),
{
    let o = orchestrator_chain.para_id;
    let n = orchestrator_chain.min_collators as int;
    let g = get_or_empty(old, o);
    let a = g.filter(is_invulnerable);
    let not_assigned = collators.filter(not_in_set(assigned_set(old)));
    let b = not_assigned.filter(is_invulnerable);
    let c = collators.filter(in_set(assigned_set(old.remove(o)))).filter(is_invulnerable);
    let inv = chosen_invulnerables::<R>(collators, orchestrator_chain, old);
    assert(R::removed(g, n as nat) == truncate_to(g.filter(is_invulnerable), (n as nat) as int));
    assert(g.take(g.len() as int) =~= g);
    let got1 = truncate_to(a, n);
    if a.len() >= n {
        assert(truncate_to(a + b + c, n) =~= got1);
    } else {
        assert(got1 == a);
        assert(R::removed(not_assigned, (n - a.len()) as nat) == truncate_to(not_assigned.filter(is_invulnerable), ((n - a.len()) as nat) as int));
        assert(not_assigned.take(not_assigned.len() as int) =~= not_assigned);
        let got2 = a + truncate_to(b, n - a.len());
        if b.len() >= n - a.len() {
            assert(truncate_to(a + b + c, n) =~= got2);
        } else {
            assert(got2 == a + b);
            let others = collators.filter(not_in_set(got2.to_set()));
            assert(R::removed(others, (n - got2.len()) as nat) == truncate_to(others.filter(is_invulnerable), ((n - got2.len()) as nat) as int));
            assert(others.take(others.len() as int) =~= others);
            assert forall|x: AccountId| #[trigger] collators.contains(x) && is_invulnerable(x) implies
                not_in_set(got2.to_set())(x) == in_set(assigned_set(old.remove(o)))(x) by {
                let in_g = g.contains(x);
                let in_b = not_assigned.contains(x);
                if in_g {
                    let j = choose|j: int| 0 <= j < g.len() && g[j] == x;
                    g.lemma_filter_contains(is_invulnerable, j);
                    let k = choose|k: int| 0 <= k < a.len() && a[k] == x;
                    assert(got2[k] == x);
                    assert(got2.contains(x));
                    if assigned_set(old.remove(o)).contains(x) {
                        let q = choose|q: ParaId| old.remove(o).dom().contains(q) && #[trigger] old.remove(o)[q].contains(x);
                        assert(old.dom().contains(o) && old[o].contains(x));
                        assert(old[q].contains(x));
                    }
                } else {
                    assert(!a.contains(x)) by {
                        if a.contains(x) {
                            g.lemma_filter_contains_rev(is_invulnerable, x);
                        }
                    }
                    if assigned_set(old).contains(x) {
                        let q = choose|q: ParaId| old.dom().contains(q) && #[trigger] old[q].contains(x);
                        assert(q != o);
                        assert(old.remove(o).dom().contains(q) && old.remove(o)[q].contains(x));
                        assert(!b.contains(x)) by {
                            if b.contains(x) {
                                not_assigned.lemma_filter_contains_rev(is_invulnerable, x);
                                let j = choose|j: int| 0 <= j < not_assigned.len() && not_assigned[j] == x;
                                collators.lemma_filter_pred(not_in_set(assigned_set(old)), j);
                            }
                        }
                        assert(!(a + b).contains(x));
                    } else {
                        let j = choose|j: int| 0 <= j < collators.len() && collators[j] == x;
                        collators.lemma_filter_contains(not_in_set(assigned_set(old)), j);
                        let i = choose|i: int| 0 <= i < not_assigned.len() && not_assigned[i] == x;
                        not_assigned.lemma_filter_contains(is_invulnerable, i);
                        assert((a + b)[a.len() + (choose|k: int| 0 <= k < b.len() && b[k] == x)] == x);
                        if assigned_set(old.remove(o)).contains(x) {
                            let q = choose|q: ParaId| old.remove(o).dom().contains(q) && #[trigger] old.remove(o)[q].contains(x);
                            assert(old[q].contains(x));
                        }
                    }
                }
            }
            lemma_filter_filter_agree(collators, not_in_set(got2.to_set()), in_set(assigned_set(old.remove(o))), is_invulnerable);
            assert(truncate_to(a + b + c, n) =~= got2 + truncate_to(c, n - got2.len()));
        }
    }
    if collators.no_duplicates() {
        lemma_chosen_invulnerables_distinct::<R>(collators, orchestrator_chain, old);
    }
}

/// `prioritize_invulnerables` puts at most `min_collators` invulnerables on the orchestrator
/// chain, and when it puts some, they come first on that chain.
pub proof fn prioritize_invulnerables_is_capped<R: RemoveInvulnerables>(
    collators: Seq<AccountId>,
    orchestrator_chain: ChainNumCollators,
    old: Map<ParaId, Seq<AccountId>>,
)
    ensures
        0 <= prioritize_invulnerables_spec::<R>(collators, orchestrator_chain, old).0 <= orchestrator_chain.min_collators,
        ({
            let (count, m) = prioritize_invulnerables_spec::<R>(collators, orchestrator_chain, old);
            let inv = remove_invulnerables_spec::<R>(collators, orchestrator_chain, old).0;
            count > 0 ==> m[orchestrator_chain.para_id].take(count) == inv
        }),
{
    let n = orchestrator_chain.min_collators as int;
    let g = get_or_empty(old, orchestrator_chain.para_id);
    R::lemma_removed_and_left(g, n as nat);
    let got1 = R::removed(g, n as nat);
    if got1.len() < n {
        let not_assigned = collators.filter(not_in_set(assigned_set(old)));
        R::lemma_removed_and_left(not_assigned, (n - got1.len()) as nat);
        let got2 = got1 + R::removed(not_assigned, (n - got1.len()) as nat);
        if got2.len() < n {
            let others = collators.filter(not_in_set(got2.to_set()));
            R::lemma_removed_and_left(others, (n - got2.len()) as nat);
        }
    }
    let (inv, m) = remove_invulnerables_spec::<R>(collators, orchestrator_chain, old);
    if inv.len() > 0 {
        let rest = get_or_empty(m, orchestrator_chain.para_id).filter(not_in_set(inv.to_set()));
        assert((inv + rest).take(inv.len() as int) =~= inv);
    }
}

proof fn lemma_filter_keeps_all(s: Seq<AccountId>, p: spec_fn(AccountId) -> bool)
    requires
        forall|c: AccountId| #[trigger] s.contains(c) ==> p(c),
    ensures
        s.filter(p) == s,
    decreases s.len(),
{
    if s.len() == 0 {
        s.lemma_filter_len(p);
        assert(s.filter(p) =~= s);
    } else {
        let init = s.drop_last();
        assert(init.push(s.last()) =~= s);
        assert forall|c: AccountId| #[trigger] init.contains(c) implies p(c) by {
            let j = choose|j: int| 0 <= j < init.len() && init[j] == c;
            assert(s[j] == c);
            assert(s.contains(c));
        }
        lemma_filter_keeps_all(init, p);
        init.lemma_filter_push(s.last(), p);
        assert(s.contains(s.last()));
    }
}

/// When `R` takes the first invulnerables of a list, as many as asked or all there are,
/// `prioritize_invulnerables` reports as
/// many invulnerables as the orchestrator chain's min, or all the candidates when there are
/// fewer (those on the orchestrator chain, then those assigned nowhere, then those assigned
/// elsewhere; when the collators are distinct and the old assignment holds only collators,
/// these are all the invulnerables among the collators), puts them first on the orchestrator
/// chain, assigns no collator twice when the collators are distinct, and changes nothing when
/// it finds none.
pub proof fn prioritize_invulnerables_counts_what_it_puts_first<R: RemoveInvulnerables>(
    is_invulnerable: spec_fn(AccountId) -> bool,
    collators: Seq<AccountId>,
    orchestrator_chain: ChainNumCollators,
    old: Map<ParaId, Seq<AccountId>>,
)
    requires
        takes_first_invulnerables::<R>(is_invulnerable),
        no_collator_twice(old),
    ensures
        ({
            let o = orchestrator_chain.para_id;
            let candidates = get_or_empty(old, o).filter(is_invulnerable)
                + collators.filter(not_in_set(assigned_set(old))).filter(is_invulnerable)
                + collators.filter(in_set(assigned_set(old.remove(o)))).filter(is_invulnerable);
            let (count, m) = prioritize_invulnerables_spec::<R>(collators, orchestrator_chain, old);
            &&& count == min_int(orchestrator_chain.min_collators as int, candidates.len() as int)
            &&& collators.no_duplicates() && all_in(old, collators.to_set()) ==>
                count == min_int(orchestrator_chain.min_collators as int, collators.filter(is_invulnerable).len() as int)
            &&& count > 0 ==> m[o].take(count) == candidates.take(count)
            &&& collators.no_duplicates() ==> no_collator_twice(m)
            &&& count == 0 ==> m == old
        }),
{
    remove_invulnerables_chooses_orchestrator_then_unassigned_then_others::<R>(is_invulnerable, collators, orchestrator_chain, old);
    prioritize_invulnerables_is_capped::<R>(collators, orchestrator_chain, old);
    if collators.no_duplicates() {
        lemma_prioritize_no_collator_twice::<R>(collators, orchestrator_chain, old);
        if all_in(old, collators.to_set()) {
            lemma_candidates_are_all_invulnerables(is_invulnerable, collators, orchestrator_chain.para_id, old);
        }
    }
    let (inv, m) = remove_invulnerables_spec::<R>(collators, orchestrator_chain, old);
    if inv.len() == 0 {
        let ni = not_in_set(inv.to_set());
        assert forall|q: ParaId| #[trigger] old.dom().contains(q) implies m[q] == old[q] by {
            lemma_filter_keeps_all(old[q], ni);
        }
        assert(m =~= old);
    }
}

proof fn lemma_filter_mem(s: Seq<AccountId>, p: spec_fn(AccountId) -> bool, x: AccountId)
    ensures
        s.filter(p).contains(x) == (s.contains(x) && p(x)),
{
    if s.filter(p).contains(x) {
        s.lemma_filter_contains_rev(p, x);
        let j = choose|j: int| 0 <= j < s.filter(p).len() && s.filter(p)[j] == x;
        s.lemma_filter_pred(p, j);
    }
    if s.contains(x) && p(x) {
        let j = choose|j: int| 0 <= j < s.len() && s[j] == x;
        s.lemma_filter_contains(p, j);
    }
}

/// Two sequences without duplicates that hold the same elements are as long as each other.
proof fn lemma_same_elements_same_len(a: Seq<AccountId>, b: Seq<AccountId>)
    requires
        a.no_duplicates(),
        b.no_duplicates(),
        forall|x: AccountId| a.contains(x) == b.contains(x),
    ensures
        a.len() == b.len(),
{
    a.unique_seq_to_set();
    b.unique_seq_to_set();
    assert(a.to_set() =~= b.to_set());
}

/// The candidates for the orchestrator chain's invulnerables (those on it, those assigned
/// nowhere, those assigned elsewhere) are all the invulnerables among the collators, once each,
/// when the collators are distinct, the old assignment holds only collators and none twice.
proof fn lemma_candidates_are_all_invulnerables(
    is_invulnerable: spec_fn(AccountId) -> bool,
    collators: Seq<AccountId>,
    o: ParaId,
    old: Map<ParaId, Seq<AccountId>>,
)
    requires
        collators.no_duplicates(),
        no_collator_twice(old),
        all_in(old, collators.to_set()),
    ensures
        get_or_empty(old, o).filter(is_invulnerable).len()
            + collators.filter(not_in_set(assigned_set(old))).filter(is_invulnerable).len()
            + collators.filter(in_set(assigned_set(old.remove(o)))).filter(is_invulnerable).len()
            == collators.filter(is_invulnerable).len(),
{
    let ge = is_invulnerable;
    let g = get_or_empty(old, o);
    let asg = assigned_set(old);
    let e = assigned_set(old.remove(o));
    let f = collators.filter(ge);
    let g1 = f.filter(in_set(asg));
    let a = g.filter(ge);
    let b = collators.filter(not_in_set(asg)).filter(ge);
    let c = collators.filter(in_set(e)).filter(ge);
    lemma_filter_no_duplicates(collators, ge);
    lemma_filter_no_duplicates(f, in_set(asg));
    lemma_filter_no_duplicates(f, not_in_set(asg));
    lemma_filter_no_duplicates(g1, in_set(e));
    lemma_filter_no_duplicates(g1, not_in_set(e));
    lemma_filter_no_duplicates(collators, not_in_set(asg));
    lemma_filter_no_duplicates(collators.filter(not_in_set(asg)), ge);
    lemma_filter_no_duplicates(collators, in_set(e));
    lemma_filter_no_duplicates(collators.filter(in_set(e)), ge);
    if old.dom().contains(o) {
        lemma_filter_no_duplicates(g, ge);
    } else {
        g.lemma_filter_len(ge);
    }
    lemma_filter_split(f, asg);
    lemma_filter_split(g1, e);
    assert forall|x: AccountId| f.filter(not_in_set(asg)).contains(x) == b.contains(x) by {
        lemma_filter_mem(f, not_in_set(asg), x);
        lemma_filter_mem(collators, ge, x);
        lemma_filter_mem(collators.filter(not_in_set(asg)), ge, x);
        lemma_filter_mem(collators, not_in_set(asg), x);
    }
    lemma_same_elements_same_len(f.filter(not_in_set(asg)), b);
    assert forall|x: AccountId| g1.filter(in_set(e)).contains(x) == c.contains(x) by {
        lemma_filter_mem(g1, in_set(e), x);
        lemma_filter_mem(f, in_set(asg), x);
        lemma_filter_mem(collators, ge, x);
        lemma_filter_mem(collators.filter(in_set(e)), ge, x);
        lemma_filter_mem(collators, in_set(e), x);
        if e.contains(x) {
            let q = choose|q: ParaId| old.remove(o).dom().contains(q) && #[trigger] old.remove(o)[q].contains(x);
            assert(old.dom().contains(q) && old[q].contains(x));
        }
    }
    lemma_same_elements_same_len(g1.filter(in_set(e)), c);
    assert forall|x: AccountId| g1.filter(not_in_set(e)).contains(x) == a.contains(x) by {
        lemma_filter_mem(g1, not_in_set(e), x);
        lemma_filter_mem(f, in_set(asg), x);
        lemma_filter_mem(collators, ge, x);
        lemma_filter_mem(g, ge, x);
        if asg.contains(x) && !e.contains(x) {
            let q = choose|q: ParaId| old.dom().contains(q) && #[trigger] old[q].contains(x);
            if q != o {
                assert(old.remove(o).dom().contains(q) && old.remove(o)[q].contains(x));
            }
        }
        if g.contains(x) {
            assert(old.dom().contains(o) && old[o].contains(x));
            assert(collators.to_set().contains(x));
            if e.contains(x) {
                let q = choose|q: ParaId| old.remove(o).dom().contains(q) && #[trigger] old.remove(o)[q].contains(x);
                assert(old[q].contains(x));
            }
        }
    }
    lemma_same_elements_same_len(g1.filter(not_in_set(e)), a);
}

} // verus!
