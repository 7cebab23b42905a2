//! The collator assignment algorithm.

use vstd::prelude::*;
use std::collections::BTreeMap;
use std::collections::BTreeSet;
use crate::maps::{assigned_collators, assigned_set, filter_in, filter_not_in, get_cloned, get_or_empty, in_set, lemma_seqs_insert, lemma_seqs_remove, map_keys, not_in_set, remove_from_all, seqs, set_of, take_entry};
use crate::rng::{maybe_shuffled, SeededRng};
use crate::assignment_laws::{
    all_in, assign_full_assigns_no_collator_twice, assign_full_assigns_only_collators,
    assign_full_fails_only_without_enough_collators, assign_full_fills_every_chain_keeping_old_first,
    assign_full_fills_free_places_in_shuffled_order, assigned_once, distinct_chains, free_slots,
    keep_old_assigns_every_chain_once, no_collator_twice, fills_keeping_old_first,
};

verus! {

/// Identifier of a parachain, parathread or the orchestrator chain.
pub type ParaId = u32;

/// Identifier of a collator account.
pub type AccountId = u64;

/// Errors than can happen during collator assignment
#[derive(Debug, Clone, Copy, PartialEq, Eq, Structural)]
pub enum AssignmentError {
    /// An empty list of collators was passed to `assign_collators_always_keep_old`
    ZeroCollators,
    /// The required number of collators for `assign_full` is greater than the provided number of
    /// collators. Also includes possible overflows in number of collators.
    NotEnoughCollators,
    /// No collators were assigned to orchestrator chain
    EmptyOrchestrator,
}

/// A `ParaId` and a range of collators that need to be assigned to it.
/// This can be a container chain, a parathread, or the orchestrator chain.
#[derive(Debug, Clone, Copy, PartialEq, Eq, Structural)]
pub struct ChainNumCollators {
    pub para_id: ParaId,
    pub min_collators: u32,
    /// This will only be filled if all the other min have been reached
    pub max_collators: u32,
}

/// `a - b`, or 0 when `b > a`.
pub open spec fn sat_sub(a: int, b: int) -> int {
    if a >= b { a - b } else { 0 }
}

pub open spec fn min_int(a: int, b: int) -> int {
    if a <= b { a } else { b }
}

/// State of the first pass of chain selection after looking at the first `k` chains:
/// collators still available, chains selected so far, and whether the pass stopped early.
pub open spec fn select_prefix(chains: Seq<ChainNumCollators>, num: int, k: int) -> (int, Seq<ChainNumCollators>, bool)
    decreases k,
{
    if k <= 1 {
        (sat_sub(num, chains[0].min_collators as int), seq![chains[0]], false)
    } else {
        let (avail, chosen, done) = select_prefix(chains, num, k - 1);
        let cc = chains[k - 1];
        if done {
            (avail, chosen, true)
        } else if avail >= cc.min_collators {
            (avail - cc.min_collators, chosen.push(cc), false)
        } else if avail == 0 {
            (avail, chosen, true)
        } else {
            (avail, chosen, false)
        }
    }
}

/// Sum of the `min_collators` of a list of chains.
pub open spec fn sum_min(chains: Seq<ChainNumCollators>) -> int
    decreases chains.len(),
{
    if chains.len() == 0 { 0 } else { sum_min(chains.drop_last()) + chains.last().min_collators }
}

/// Sum of the collator counts of a selection.
pub open spec fn sum_counts(s: Seq<(ParaId, u32)>) -> int
    decreases s.len(),
{
    if s.len() == 0 { 0 } else { s[0].1 + sum_counts(s.drop_first()) }
}

/// Give every chain its min, then hand out `rem` extra collators in order until each chain
/// reaches its max.
pub open spec fn distribute(chosen: Seq<ChainNumCollators>, rem: int) -> Seq<(ParaId, u32)>
    decreases chosen.len(),
{
    if chosen.len() == 0 {
        seq![]
    } else {
        let cc = chosen[0];
        let extra = min_int(rem, sat_sub(cc.max_collators as int, cc.min_collators as int));
        seq![(cc.para_id, (cc.min_collators + extra) as u32)] + distribute(chosen.drop_first(), rem - extra)
    }
}

/// The chains selected to be assigned collators, with the number of collators of each.
pub open spec fn select_chains_spec(num: int, chains: Seq<ChainNumCollators>) -> Seq<(ParaId, u32)> {
    if chains.len() == 0 {
        seq![]
    } else if num < chains[0].min_collators {
        seq![(chains[0].para_id, num as u32)]
    } else {
        let chosen = select_prefix(chains, num, chains.len() as int).1;
        distribute(chosen, num - sum_min(chosen))
    }
}


/// The chains of a selection.
pub open spec fn chain_ids(chains: Seq<(ParaId, u32)>) -> Set<ParaId> {
    chains.map_values(|c: (ParaId, u32)| c.0).to_set()
}

/// Total number of collators that a selection asks for.
pub open spec fn required_collators(chains: Seq<(ParaId, u32)>) -> int
    decreases chains.len(),
{
    if chains.len() == 0 { 0 } else { required_collators(chains.drop_last()) + chains.last().1 }
}

/// The old assignment without the chains outside `para_ids` and without the collators outside
/// `collators`.
pub open spec fn retained(
    old: Map<ParaId, Seq<AccountId>>,
    para_ids: Set<ParaId>,
    collators: Set<AccountId>,
) -> Map<ParaId, Seq<AccountId>> {
    Map::new(
        |k: ParaId| old.dom().contains(k) && para_ids.contains(k),
        |k: ParaId| old[k].filter(in_set(collators)),
    )
}

/// The first `n` elements of `s`, or all of them when there are fewer.
pub open spec fn truncate_to<A>(s: Seq<A>, n: int) -> Seq<A> {
    if s.len() <= n { s } else { s.take(n) }
}

/// The assignment after the entry of each of the first `k` chains was cut to its number of
/// collators (an absent entry becomes an empty one).
pub open spec fn truncate_prefix(m: Map<ParaId, Seq<AccountId>>, chains: Seq<(ParaId, u32)>, k: int) -> Map<ParaId, Seq<AccountId>>
    decreases k,
{
    if k <= 0 {
        m
    } else {
        let m0 = truncate_prefix(m, chains, k - 1);
        let p = chains[k - 1].0;
        m0.insert(p, truncate_to(get_or_empty(m0, p), chains[k - 1].1 as int))
    }
}

/// How many collators the first `k` chains still miss in `m`.
pub open spec fn needed_prefix(m: Map<ParaId, Seq<AccountId>>, chains: Seq<(ParaId, u32)>, k: int) -> int
    decreases k,
{
    if k <= 0 {
        0
    } else {
        needed_prefix(m, chains, k - 1) + sat_sub(chains[k - 1].1 as int, get_or_empty(m, chains[k - 1].0).len() as int)
    }
}

/// State after filling the first `k` chains from `pool`: the assignment, what is left of the
/// pool, and whether the pool ran out.
pub open spec fn fill_prefix(
    m: Map<ParaId, Seq<AccountId>>,
    chains: Seq<(ParaId, u32)>,
    pool: Seq<AccountId>,
    k: int,
) -> (Map<ParaId, Seq<AccountId>>, Seq<AccountId>, bool)
    decreases k,
{
    if k <= 0 {
        (m, pool, false)
    } else {
        let (m0, pool0, failed) = fill_prefix(m, chains, pool, k - 1);
        let p = chains[k - 1].0;
        let n = chains[k - 1].1 as int;
        let cur = get_or_empty(m0, p);
        if failed {
            (m0, pool0, true)
        } else if cur.len() >= n {
            (m0.insert(p, cur), pool0, false)
        } else if pool0.len() < n - cur.len() {
            (m0, pool0, true)
        } else {
            (m0.insert(p, cur + pool0.take(n - cur.len())), pool0.skip(n - cur.len()), false)
        }
    }
}

/// The old assignment once invalid chains and collators are dropped and every chain is cut to
/// its number of collators.
pub open spec fn kept_old(
    collators: Seq<AccountId>,
    chains: Seq<(ParaId, u32)>,
    old: Map<ParaId, Seq<AccountId>>,
) -> Map<ParaId, Seq<AccountId>> {
    truncate_prefix(retained(old, chain_ids(chains), collators.to_set()), chains, chains.len() as int)
}

/// The collators that will fill the missing places, in priority order: those not already kept,
/// cut to the number of missing places.
pub open spec fn new_collators_pool(
    collators: Seq<AccountId>,
    chains: Seq<(ParaId, u32)>,
    old: Map<ParaId, Seq<AccountId>>,
) -> Seq<AccountId> {
    let m = kept_old(collators, chains, old);
    truncate_to(collators.filter(not_in_set(assigned_set(m))), needed_prefix(m, chains, chains.len() as int))
}

/// Outcome of `assign_full` when the new collators are taken from `pool` in that order.
pub open spec fn assign_full_spec(
    collators: Seq<AccountId>,
    chains: Seq<(ParaId, u32)>,
    old: Map<ParaId, Seq<AccountId>>,
    pool: Seq<AccountId>,
) -> Result<Map<ParaId, Seq<AccountId>>, AssignmentError> {
    if required_collators(chains) > usize::MAX || collators.len() < required_collators(chains) {
        Err(AssignmentError::NotEnoughCollators)
    } else {
        let f = fill_prefix(kept_old(collators, chains, old), chains, pool, chains.len() as int);
        if f.2 {
            Err(AssignmentError::NotEnoughCollators)
        } else {
            Ok(f.0)
        }
    }
}

/// A result of the map type, seen through `seqs`.
pub open spec fn result_seqs(r: Result<BTreeMap<ParaId, Vec<AccountId>>, AssignmentError>) -> Result<Map<ParaId, Seq<AccountId>>, AssignmentError> {
    match r {
        Ok(m) => Ok(seqs(m@)),
        Err(e) => Err(e),
    }
}

proof fn lemma_required_prefix(chains: Seq<(ParaId, u32)>, k: int)
    requires
        0 <= k <= chains.len(),
    ensures
        required_collators(chains.take(k)) <= required_collators(chains),
    decreases chains.len() - k,
{
    if k < chains.len() {
        lemma_required_prefix(chains, k + 1);
        assert(chains.take(k + 1).drop_last() =~= chains.take(k));
    } else {
        assert(chains.take(k) =~= chains);
    }
}

pub proof fn lemma_needed_le_required(m: Map<ParaId, Seq<AccountId>>, chains: Seq<(ParaId, u32)>, k: int)
    requires
        0 <= k <= chains.len(),
    ensures
        0 <= needed_prefix(m, chains, k) <= required_collators(chains.take(k)),
    decreases k,
{
    if k > 0 {
        lemma_needed_le_required(m, chains, k - 1);
        assert(chains.take(k).drop_last() =~= chains.take(k - 1));
    } else {
        assert(chains.take(0) =~= Seq::<(ParaId, u32)>::empty());
    }
}

proof fn lemma_fill_stays_failed(m: Map<ParaId, Seq<AccountId>>, chains: Seq<(ParaId, u32)>, pool: Seq<AccountId>, k: int, j: int)
    requires
        0 <= k <= j,
        fill_prefix(m, chains, pool, k).2,
    ensures
        fill_prefix(m, chains, pool, j).2,
    decreases j - k,
{
    if j > k {
        lemma_fill_stays_failed(m, chains, pool, k, j - 1);
    }
}

/// Cutting a sequence with one more element at its end to `n` elements.
pub proof fn lemma_truncate_push<A>(s: Seq<A>, x: A, n: int)
    requires
        0 <= n,
    ensures
        truncate_to(s.push(x), n) == (if s.len() < n { truncate_to(s, n).push(x) } else { truncate_to(s, n) }),
{
    if s.len() < n {
        assert(truncate_to(s.push(x), n) =~= s.push(x));
    } else if s.len() == n {
        assert(truncate_to(s.push(x), n) =~= s);
    } else {
        assert(truncate_to(s.push(x), n) =~= s.take(n));
    }
}

pub proof fn lemma_select_prefix_bounds(chains: Seq<ChainNumCollators>, num: int, k: int)
    requires
        1 <= k <= chains.len(),
        0 <= num,
    ensures
        ({
            let (avail, chosen, done) = select_prefix(chains, num, k);
            &&& 0 <= avail
            &&& chosen.len() >= 1
            &&& chosen[0] == chains[0]
            &&& chosen.len() <= k
            &&& sum_min(chosen) - chains[0].min_collators + avail == sat_sub(num, chains[0].min_collators as int)
        }),
    decreases k,
{
    if k > 1 {
        lemma_select_prefix_bounds(chains, num, k - 1);
        let (avail, chosen, done) = select_prefix(chains, num, k - 1);
        let cc = chains[k - 1];
        if !done && avail >= cc.min_collators {
            assert(chosen.push(cc).drop_last() =~= chosen);
        }
    } else {
        let s1 = seq![chains[0]];
        assert(s1.drop_last() =~= Seq::<ChainNumCollators>::empty());
        assert(sum_min(s1.drop_last()) == 0);
        assert(s1.last() == chains[0]);
        assert(sum_min(s1) == chains[0].min_collators);
    }
}

/// Once the first pass stops, further chains do not change its state.
proof fn lemma_select_prefix_stays_done(chains: Seq<ChainNumCollators>, num: int, k: int, m: int)
    requires
        1 <= k <= m,
        select_prefix(chains, num, k).2,
    ensures
        select_prefix(chains, num, m) == select_prefix(chains, num, k),
    decreases m - k,
{
    if m > k {
        lemma_select_prefix_stays_done(chains, num, k, m - 1);
    }
}


/// Picks the invulnerable collators out of a list of collators. The runtime decides which
/// collators are invulnerable by implementing this trait.
pub trait RemoveInvulnerables {
    /// The invulnerables that `remove_invulnerables` takes out of `collators` when asked for
    /// `num` of them.
    spec fn removed(collators: Seq<AccountId>, num: nat) -> Seq<AccountId>;

    /// What `remove_invulnerables` leaves of `collators` when asked for `num` invulnerables.
    spec fn left(collators: Seq<AccountId>, num: nat) -> Seq<AccountId>;

    /// At most `num` invulnerables are taken, and every collator is either taken or left.
    proof fn lemma_removed_and_left(collators: Seq<AccountId>, num: nat)
        ensures
            Self::removed(collators, num).len() <= num,
            Self::removed(collators, num).to_multiset().add(Self::left(collators, num).to_multiset())
                == collators.to_multiset(),
    ;

    /// Removes up to `num_invulnerables` invulnerables from `collators` and returns them.
    fn remove_invulnerables(collators: &mut Vec<AccountId>, num_invulnerables: usize) -> (res: Vec<AccountId>)
        ensures
            res@ == Self::removed(old(collators)@, num_invulnerables as nat),
            final(collators)@ == Self::left(old(collators)@, num_invulnerables as nat),
    ;
}

/// Treats every account id at or above `MIN` as invulnerable.
pub struct InvulnerablesFrom<const MIN: u64>;

/// Splits the first `k` collators into the invulnerables taken (at most `num`, the first ones
/// at or above `min`) and the collators left, both in their original order.
pub open spec fn split_from(collators: Seq<AccountId>, num: nat, min: u64, k: int) -> (Seq<AccountId>, Seq<AccountId>)
    decreases k,
{
    if k <= 0 {
        (Seq::empty(), Seq::empty())
    } else {
        let (taken, left) = split_from(collators, num, min, k - 1);
        let x = collators[k - 1];
        if taken.len() < num && x >= min {
            (taken.push(x), left)
        } else {
            (taken, left.push(x))
        }
    }
}

proof fn lemma_split_from(collators: Seq<AccountId>, num: nat, min: u64, k: int)
    requires
        0 <= k <= collators.len(),
    ensures
        split_from(collators, num, min, k).0.len() <= num,
        split_from(collators, num, min, k).0.to_multiset().add(split_from(collators, num, min, k).1.to_multiset())
            == collators.take(k).to_multiset(),
    decreases k,
{
    broadcast use vstd::multiset::group_multiset_axioms;
    if k > 0 {
        lemma_split_from(collators, num, min, k - 1);
        let (taken, left) = split_from(collators, num, min, k - 1);
        let x = collators[k - 1];
        assert(collators.take(k) =~= collators.take(k - 1).push(x));
        broadcast use vstd::seq_lib::group_to_multiset_ensures;
        assert(collators.take(k).to_multiset() =~= collators.take(k - 1).to_multiset().insert(x));
        if taken.len() < num && x >= min {
            assert(taken.push(x).to_multiset() =~= taken.to_multiset().insert(x));
            assert(taken.push(x).to_multiset().add(left.to_multiset()) =~= collators.take(k).to_multiset());
        } else {
            assert(left.push(x).to_multiset() =~= left.to_multiset().insert(x));
            assert(taken.to_multiset().add(left.push(x).to_multiset()) =~= collators.take(k).to_multiset());
        }
    } else {
        assert(collators.take(0) =~= Seq::<AccountId>::empty());
        broadcast use vstd::seq_lib::group_to_multiset_ensures;
        assert(Seq::<AccountId>::empty().to_multiset().add(Seq::<AccountId>::empty().to_multiset()) =~= Seq::<AccountId>::empty().to_multiset());
    }
}

impl<const MIN: u64> RemoveInvulnerables for InvulnerablesFrom<MIN> {
    open spec fn removed(collators: Seq<AccountId>, num: nat) -> Seq<AccountId> {
        split_from(collators, num, MIN, collators.len() as int).0
    }

    open spec fn left(collators: Seq<AccountId>, num: nat) -> Seq<AccountId> {
        split_from(collators, num, MIN, collators.len() as int).1
    }

    proof fn lemma_removed_and_left(collators: Seq<AccountId>, num: nat) {
        lemma_split_from(collators, num, MIN, collators.len() as int);
        assert(collators.take(collators.len() as int) =~= collators);
    }

    fn remove_invulnerables(collators: &mut Vec<AccountId>, num_invulnerables: usize) -> (res: Vec<AccountId>) {
        let mut invulnerables: Vec<AccountId> = Vec::new();
        let mut left: Vec<AccountId> = Vec::new();
        let mut i: usize = 0;
        while i < collators.len()
            invariant
                0 <= i <= collators.len(),
                split_from(collators@, num_invulnerables as nat, MIN, i as int) == (invulnerables@, left@),
            decreases collators.len() - i,
        {
            let x = collators[i];
            if invulnerables.len() < num_invulnerables && x >= MIN {
                invulnerables.push(x);
            } else {
                left.push(x);
            }
            i = i + 1;
        }
        assert(collators@.take(collators@.len() as int) =~= collators@);
        *collators = left;
        invulnerables
    }
}

/// The invulnerables `remove_invulnerables` chooses for the orchestrator chain: first from the
/// chain's old collators, then from the collators assigned nowhere, then from the others.
pub open spec fn chosen_invulnerables<R: RemoveInvulnerables>(
    collators: Seq<AccountId>,
    orchestrator_chain: ChainNumCollators,
    old: Map<ParaId, Seq<AccountId>>,
) -> Seq<AccountId> {
    let n = orchestrator_chain.min_collators as int;
    let got1 = R::removed(get_or_empty(old, orchestrator_chain.para_id), n as nat);
    if got1.len() >= n {
        got1
    } else {
        let not_assigned = collators.filter(not_in_set(assigned_set(old)));
        let got2 = got1 + R::removed(not_assigned, (n - got1.len()) as nat);
        if got2.len() >= n {
            got2
        } else {
            let others = collators.filter(not_in_set(got2.to_set()));
            got2 + R::removed(others, (n - got2.len()) as nat)
        }
    }
}

/// Outcome of `remove_invulnerables`: the chosen invulnerables, and the old assignment with
/// each of them removed from its old chain.
pub open spec fn remove_invulnerables_spec<R: RemoveInvulnerables>(
    collators: Seq<AccountId>,
    orchestrator_chain: ChainNumCollators,
    old: Map<ParaId, Seq<AccountId>>,
) -> (Seq<AccountId>, Map<ParaId, Seq<AccountId>>) {
    let inv = chosen_invulnerables::<R>(collators, orchestrator_chain, old);
    (inv, old.map_values(|v: Seq<AccountId>| v.filter(not_in_set(inv.to_set()))))
}

/// `invulnerables` first, then the other collators of `assigned` in their order.
pub open spec fn with_invulnerables_first(assigned: Seq<AccountId>, invulnerables: Seq<AccountId>) -> Seq<AccountId> {
    invulnerables + assigned.filter(not_in_set(invulnerables.to_set()))
}

/// Outcome of `prioritize_invulnerables`: the number of invulnerables and the new assignment.
pub open spec fn prioritize_invulnerables_spec<R: RemoveInvulnerables>(
    collators: Seq<AccountId>,
    orchestrator_chain: ChainNumCollators,
    old: Map<ParaId, Seq<AccountId>>,
) -> (int, Map<ParaId, Seq<AccountId>>) {
    let (inv, m) = remove_invulnerables_spec::<R>(collators, orchestrator_chain, old);
    let p = orchestrator_chain.para_id;
    if inv.len() == 0 {
        (0, m)
    } else {
        (inv.len() as int, m.insert(p, with_invulnerables_first(get_or_empty(m, p), inv)))
    }
}


/// The collators assigned to the orchestrator chain and to each container chain.
#[derive(Debug, Clone, PartialEq, Eq)]
pub struct AssignedCollators {
    pub orchestrator_chain: Vec<AccountId>,
    pub container_chains: BTreeMap<ParaId, Vec<AccountId>>,
}

impl View for AssignedCollators {
    type V = (Seq<AccountId>, Map<ParaId, Seq<AccountId>>);

    open spec fn view(&self) -> (Seq<AccountId>, Map<ParaId, Seq<AccountId>>) {
        (self.orchestrator_chain@, seqs(self.container_chains@))
    }
}

impl Default for AssignedCollators {
    fn default() -> (r: Self)
        ensures
            r@ == (Seq::<AccountId>::empty(), Map::<ParaId, Seq<AccountId>>::empty()),
    {
        let r = AssignedCollators { orchestrator_chain: Vec::new(), container_chains: BTreeMap::new() };
        assert(seqs(r.container_chains@) =~= Map::<ParaId, Seq<AccountId>>::empty());
        r
    }
}

/// The chains of a list, as a sequence of para ids.
pub open spec fn para_ids_of(chains: Seq<ChainNumCollators>) -> Seq<ParaId> {
    chains.map_values(|c: ChainNumCollators| c.para_id)
}

/// `m` with an empty entry for every chain of `ids` that has none.
pub open spec fn with_empty_entries(m: Map<ParaId, Seq<AccountId>>, ids: Seq<ParaId>) -> Map<ParaId, Seq<AccountId>> {
    Map::new(|k: ParaId| m.dom().contains(k) || ids.contains(k), |k: ParaId| get_or_empty(m, k))
}

/// The chains selected for collators, orchestrator first, when `collators` are available.
pub open spec fn keep_old_selection(
    collators: Seq<AccountId>,
    orchestrator_chain: ChainNumCollators,
    chains: Seq<ChainNumCollators>,
) -> Seq<(ParaId, u32)> {
    select_chains_spec((collators.len() as u32) as int, seq![orchestrator_chain] + chains)
}

/// The old assignment, with the orchestrator chain as one more chain, once invalid entries are
/// dropped and invulnerables are put first on the orchestrator chain.
pub open spec fn keep_old_base<R: RemoveInvulnerables>(
    collators: Seq<AccountId>,
    orchestrator_chain: ChainNumCollators,
    chains: Seq<ChainNumCollators>,
    old: (Seq<AccountId>, Map<ParaId, Seq<AccountId>>),
) -> Map<ParaId, Seq<AccountId>> {
    let m0 = old.1.insert(orchestrator_chain.para_id, old.0);
    let selection = keep_old_selection(collators, orchestrator_chain, chains);
    let m1 = retained(m0, chain_ids(selection), collators.to_set());
    prioritize_invulnerables_spec::<R>(collators, orchestrator_chain, m1).1
}

/// The new collators, in priority order, that `assign_collators_always_keep_old` hands to the
/// chains that miss some.
pub open spec fn keep_old_pool<R: RemoveInvulnerables>(
    collators: Seq<AccountId>,
    orchestrator_chain: ChainNumCollators,
    chains: Seq<ChainNumCollators>,
    old: (Seq<AccountId>, Map<ParaId, Seq<AccountId>>),
) -> Seq<AccountId> {
    new_collators_pool(
        collators,
        keep_old_selection(collators, orchestrator_chain, chains),
        keep_old_base::<R>(collators, orchestrator_chain, chains, old),
    )
}

/// Outcome of `assign_collators_always_keep_old` when the new collators are taken from `pool`.
pub open spec fn keep_old_spec<R: RemoveInvulnerables>(
    collators: Seq<AccountId>,
    orchestrator_chain: ChainNumCollators,
    chains: Seq<ChainNumCollators>,
    old: (Seq<AccountId>, Map<ParaId, Seq<AccountId>>),
    pool: Seq<AccountId>,
) -> Result<(Seq<AccountId>, Map<ParaId, Seq<AccountId>>), AssignmentError> {
    if collators.len() == 0 {
        Err(AssignmentError::ZeroCollators)
    } else {
        let selection = keep_old_selection(collators, orchestrator_chain, chains);
        let base = keep_old_base::<R>(collators, orchestrator_chain, chains, old);
        match assign_full_spec(collators, selection, base, pool) {
            Err(e) => Err(e),
            Ok(m) => {
                let all = with_empty_entries(m, para_ids_of(seq![orchestrator_chain] + chains));
                let orchestrator = all[orchestrator_chain.para_id];
                if orchestrator.len() == 0 {
                    Err(AssignmentError::EmptyOrchestrator)
                } else {
                    Ok((orchestrator, all.remove(orchestrator_chain.para_id)))
                }
            },
        }
    }
}

/// A result of `AssignedCollators`, seen through its view.
pub open spec fn assigned_result_view(r: Result<AssignedCollators, AssignmentError>) -> Result<(Seq<AccountId>, Map<ParaId, Seq<AccountId>>), AssignmentError> {
    match r {
        Ok(a) => Ok(a@),
        Err(e) => Err(e),
    }
}

/// The set of the chains of a selection.
fn chain_id_set(chains: &Vec<(ParaId, u32)>) -> (s: BTreeSet<ParaId>)
    ensures
        s@ == chain_ids(chains@),
{
    let mut s: BTreeSet<ParaId> = BTreeSet::new();
    let mut i: usize = 0;
    while i < chains.len()
        invariant
            0 <= i <= chains.len(),
            s@ == chain_ids(chains@.take(i as int)),
        decreases chains.len() - i,
    {
        s.insert(chains[i].0);
        proof {
            let f = |c: (ParaId, u32)| c.0;
            assert(chains@.take(i as int + 1) =~= chains@.take(i as int).push(chains@[i as int]));
            chains@.take(i as int).lemma_push_map_commute(f, chains@[i as int]);
            chains@.take(i as int).map_values(f).lemma_push_to_set_commute(chains@[i as int].0);
            assert(chains@.take(i as int).push(chains@[i as int]).map_values(f) =~= chains@.take(i as int).map_values(f).push(chains@[i as int].0));
            assert(s@ =~= chain_ids(chains@.take(i as int + 1)));
        }
        i = i + 1;
    }
    assert(chains@.take(chains.len() as int) =~= chains@);
    s
}

/// A copy of the collators of a slice.
fn slice_to_vec(v: &[AccountId]) -> (r: Vec<AccountId>)
    ensures
        r@ == v@,
{
    let mut r: Vec<AccountId> = Vec::new();
    let mut i: usize = 0;
    while i < v.len()
        invariant
            0 <= i <= v.len(),
            r@ == v@.take(i as int),
        decreases v.len() - i,
    {
        r.push(v[i]);
        assert(v@.take(i as int + 1) =~= v@.take(i as int).push(v@[i as int]));
        i = i + 1;
    }
    assert(v@.take(v.len() as int) =~= v@);
    r
}

/// Helper methods to implement collator assignment algorithm
pub struct Assignment;

impl Assignment {
    /// Recompute collator assignment from scratch. If the list of collators and the list of
    /// container chains are shuffled, this returns a random assignment.
    pub fn assign_collators_rotate_all<R: RemoveInvulnerables>(
        collators: Vec<AccountId>,
        orchestrator_chain: ChainNumCollators,
        chains: Vec<ChainNumCollators>,
        shuffle_rng: Option<SeededRng>,
    ) -> (res: Result<AssignedCollators, AssignmentError>)
        ensures
            assigned_result_view(res) == keep_old_spec::<R>(
                collators@, orchestrator_chain, chains@, (Seq::empty(), Map::empty()),
                maybe_shuffled(shuffle_rng, keep_old_pool::<R>(collators@, orchestrator_chain, chains@, (Seq::empty(), Map::empty()))),
            ),
    {
        // This is just the "always_keep_old" algorithm but with an empty "old"
        let old_assigned = AssignedCollators::default();
        Self::assign_collators_always_keep_old::<R>(collators, orchestrator_chain, chains, old_assigned, shuffle_rng)
    }

    /// Assign new collators to missing container_chains.
    /// Old collators always have preference to remain on the same chain.
    /// If there are no missing collators, nothing is changed.
    ///
    /// `chains` should be shuffled or at least rotated on every session to ensure a fair
    /// distribution, because the order of that list affects container chain priority: the first
    /// chain on that list will be the first one to get new collators.
    ///
    /// Similarly, in the `collators` list order means priority, the first collators will be more
    /// likely to get assigned. Collators are shuffled with `shuffle_rng` when needed, once the
    /// list has been cut to the collators that will be used.
    ///
    /// Whatever the generator, when the collators are distinct, no collator was assigned twice
    /// and no chain appears twice, a successful assignment gives the orchestrator chain
    /// collators, has an entry for exactly the container chains given (empty for those left
    /// without collators), and assigns only given collators, each once.
    pub fn assign_collators_always_keep_old<R: RemoveInvulnerables>(
        collators: Vec<AccountId>,
        orchestrator_chain: ChainNumCollators,
        chains: Vec<ChainNumCollators>,
        old_assigned: AssignedCollators,
        shuffle_rng: Option<SeededRng>,
    ) -> (res: Result<AssignedCollators, AssignmentError>)
        ensures
            assigned_result_view(res) == keep_old_spec::<R>(
                collators@, orchestrator_chain, chains@, old_assigned@,
                maybe_shuffled(shuffle_rng, keep_old_pool::<R>(collators@, orchestrator_chain, chains@, old_assigned@)),
            ),
            res is Ok && collators@.no_duplicates() && assigned_once(old_assigned@)
                && para_ids_of(seq![orchestrator_chain] + chains@).no_duplicates() ==> {
                let a = res->Ok_0@;
                &&& a.0.len() > 0
                &&& a.1.dom() == para_ids_of(chains@).to_set()
                &&& assigned_once(a)
                &&& forall|c: AccountId| #[trigger] a.0.contains(c) ==> collators@.contains(c)
                &&& all_in(a.1, collators@.to_set())
            },
    {
        let ghost cs = collators@;
        let ghost ch = chains@;
        let ghost old = old_assigned@;
        let ghost pool = maybe_shuffled(shuffle_rng, keep_old_pool::<R>(cs, orchestrator_chain, ch, old));
        let res = Self::assign_keeping_old::<R>(collators, orchestrator_chain, chains, old_assigned, shuffle_rng);
        proof {
            if res is Ok && cs.no_duplicates() && assigned_once(old) && para_ids_of(seq![orchestrator_chain] + ch).no_duplicates() {
                keep_old_assigns_every_chain_once::<R>(cs, orchestrator_chain, ch, old, pool);
            }
        }
        res
    }

    /// Assigns the collators as `assign_collators_always_keep_old` does.
    fn assign_keeping_old<R: RemoveInvulnerables>(
        collators: Vec<AccountId>,
        orchestrator_chain: ChainNumCollators,
        chains: Vec<ChainNumCollators>,
        old_assigned: AssignedCollators,
        shuffle_rng: Option<SeededRng>,
    ) -> (res: Result<AssignedCollators, AssignmentError>)
        ensures
            assigned_result_view(res) == keep_old_spec::<R>(
                collators@, orchestrator_chain, chains@, old_assigned@,
                maybe_shuffled(shuffle_rng, keep_old_pool::<R>(collators@, orchestrator_chain, chains@, old_assigned@)),
            ),
            keep_old_spec::<R>(
                collators@, orchestrator_chain, chains@, old_assigned@,
                maybe_shuffled(shuffle_rng, keep_old_pool::<R>(collators@, orchestrator_chain, chains@, old_assigned@)),
            ) is Ok ==> maybe_shuffled(shuffle_rng, keep_old_pool::<R>(collators@, orchestrator_chain, chains@, old_assigned@)).to_multiset()
                == keep_old_pool::<R>(collators@, orchestrator_chain, chains@, old_assigned@).to_multiset(),
    {
        let ghost old_view = old_assigned@;
        let ghost chains0 = chains@;
        if collators.len() == 0 {
            proof {
                let pl = keep_old_pool::<R>(collators@, orchestrator_chain, chains0, old_view);
                assert(pl.to_multiset() == pl.to_multiset());
            }
            return Err(AssignmentError::ZeroCollators);
        }
        // The rest of this function mostly treats orchestrator chain as another container chain,
        // so move it into `old_assigned.container_chains`
        let AssignedCollators { orchestrator_chain: old_orchestrator_assigned, container_chains: mut old_map } = old_assigned;
        proof { lemma_seqs_insert(old_map@, orchestrator_chain.para_id, old_orchestrator_assigned); }
        old_map.insert(orchestrator_chain.para_id, old_orchestrator_assigned);
        // Orchestrator chain must be the first one in the list because it always has priority
        let mut chains = chains;
        chains.insert(0, orchestrator_chain);
        assert(chains@ =~= seq![orchestrator_chain] + chains0);
        let mut all_para_ids: Vec<ParaId> = Vec::new();
        let mut i: usize = 0;
        while i < chains.len()
            invariant
                0 <= i <= chains.len(),
                all_para_ids@ == para_ids_of(chains@.take(i as int)),
            decreases chains.len() - i,
        {
            all_para_ids.push(chains[i].para_id);
            assert(para_ids_of(chains@.take(i as int + 1)) =~= para_ids_of(chains@.take(i as int)).push(chains@[i as int].para_id));
            i = i + 1;
        }
        assert(chains@.take(chains.len() as int) =~= chains@);
        let collators_set = set_of(collators.as_slice());
        let chains_with_collators = Self::select_chains_with_collators(#[verifier::truncate] (collators.len() as u32), chains.as_slice());
        let chains_with_collators_set = chain_id_set(&chains_with_collators);
        Self::retain_valid_old_assigned(&mut old_map, &chains_with_collators_set, &collators_set);

        // Ensure the first `min_orchestrator_collators` of orchestrator chain are invulnerables
        Self::prioritize_invulnerables::<R>(collators.as_slice(), orchestrator_chain, &mut old_map);
        let ghost base = seqs(old_map@);
        assert(base == keep_old_base::<R>(collators@, orchestrator_chain, chains0, old_view));

        let new_assigned_chains = Self::assign_full(collators, chains_with_collators, old_map, shuffle_rng);
        let mut new_map = match new_assigned_chains {
            Ok(m) => m,
            Err(e) => {
                return Err(e);
            },
        };
        let ghost full = seqs(new_map@);

        // Add container chains with 0 collators so that they are shown in UI
        let mut i: usize = 0;
        while i < all_para_ids.len()
            invariant
                0 <= i <= all_para_ids.len(),
                seqs(new_map@) == with_empty_entries(full, all_para_ids@.take(i as int)),
            decreases all_para_ids.len() - i,
        {
            let p = all_para_ids[i];
            let ghost before = seqs(new_map@);
            if !new_map.contains_key(&p) {
                let empty: Vec<AccountId> = Vec::new();
                proof { lemma_seqs_insert(new_map@, p, empty); }
                new_map.insert(p, empty);
            }
            proof {
                assert(all_para_ids@.take(i as int + 1) =~= all_para_ids@.take(i as int).push(p));
                assert forall|x: ParaId| all_para_ids@.take(i as int + 1).contains(x) <==> (all_para_ids@.take(i as int).contains(x) || x == p) by {
                    vstd::seq_lib::lemma_seq_contains_after_push(all_para_ids@.take(i as int), p, x);
                }
                let target = with_empty_entries(full, all_para_ids@.take(i as int + 1));
                assert(all_para_ids@.take(i as int + 1)[i as int] == p);
                assert(all_para_ids@.take(i as int + 1).contains(p));
                assert(seqs(new_map@).dom().contains(p));
                assert forall|x: ParaId| #[trigger] seqs(new_map@).dom().contains(x) <==> target.dom().contains(x) by {
                    if x != p {
                        assert(seqs(new_map@).dom().contains(x) == before.dom().contains(x));
                    }
                }
                assert forall|x: ParaId| #[trigger] seqs(new_map@).dom().contains(x) implies seqs(new_map@)[x] == target[x] by {
                    if x != p {
                        assert(seqs(new_map@)[x] == before[x]);
                    } else if !before.dom().contains(p) {
                        assert(!full.dom().contains(p));
                        assert(seqs(new_map@)[x] =~= Seq::<AccountId>::empty());
                    }
                }
                assert(seqs(new_map@) =~= target);
            }
            i = i + 1;
        }
        assert(all_para_ids@.take(all_para_ids.len() as int) =~= all_para_ids@);
        assert(all_para_ids@.contains(orchestrator_chain.para_id)) by {
            assert(all_para_ids@[0] == orchestrator_chain.para_id);
        }

        // The orchestrator chain is taken out of the container chains before returning.
        let ghost before = new_map@;
        let orchestrator_assigned = take_entry(&mut new_map, orchestrator_chain.para_id);
        proof { lemma_seqs_remove(before, orchestrator_chain.para_id); }
        // Sanity check to avoid bricking orchestrator chain
        if orchestrator_assigned.len() == 0 {
            return Err(AssignmentError::EmptyOrchestrator);
        }
        Ok(AssignedCollators { orchestrator_chain: orchestrator_assigned, container_chains: new_map })
    }

    /// Removes invalid entries from `old_assigned`:
    ///
    /// * para ids not in `chains_with_collators`
    /// * collators not in `collators`
    pub fn retain_valid_old_assigned(
        old_assigned: &mut BTreeMap<ParaId, Vec<AccountId>>,
        chains_with_collators: &BTreeSet<ParaId>,
        collators: &BTreeSet<AccountId>,
    )
        ensures
            seqs(final(old_assigned)@) == retained(seqs(old(old_assigned)@), chains_with_collators@, collators@),
    {
        let ghost m0 = seqs(old_assigned@);
        let keys = map_keys(old_assigned);
        let mut result: BTreeMap<ParaId, Vec<AccountId>> = BTreeMap::new();
        let mut i: usize = 0;
        while i < keys.len()
            invariant
                0 <= i <= keys.len(),
                keys@.to_set() == m0.dom(),
                keys@.no_duplicates(),
                m0 == seqs(old_assigned@),
                seqs(result@) == Map::new(
                    |k: ParaId| m0.dom().contains(k) && chains_with_collators@.contains(k) && keys@.take(i as int).contains(k),
                    |k: ParaId| m0[k].filter(in_set(collators@)),
                ),
            decreases keys.len() - i,
        {
            let k = keys[i];
            assert(keys@.to_set().contains(k));
            proof {
                assert(keys@.take(i as int + 1) =~= keys@.take(i as int).push(k));
                assert forall|x: ParaId| keys@.take(i as int + 1).contains(x) <==> (keys@.take(i as int).contains(x) || x == k) by {
                    vstd::seq_lib::lemma_seq_contains_after_push(keys@.take(i as int), k, x);
                }
            }
            let ghost before = seqs(result@);
            if chains_with_collators.contains(&k) {
                let v = old_assigned.get(&k).unwrap();
                let filtered = filter_in(v, collators);
                proof { lemma_seqs_insert(result@, k, filtered); }
                result.insert(k, filtered);
            }
            proof {
                let target = Map::new(
                    |x: ParaId| m0.dom().contains(x) && chains_with_collators@.contains(x) && keys@.take(i as int + 1).contains(x),
                    |x: ParaId| m0[x].filter(in_set(collators@)),
                );
                assert(!keys@.take(i as int).contains(k)) by {
                    if keys@.take(i as int).contains(k) {
                        let j = choose|j: int| 0 <= j < keys@.take(i as int).len() && #[trigger] keys@.take(i as int)[j] == k;
                        assert(keys@[j] == keys@[i as int]);
                    }
                }
                assert(m0.dom().contains(k));
                assert(keys@.take(i as int + 1).contains(k));
                assert forall|x: ParaId| #[trigger] seqs(result@).dom().contains(x) <==> target.dom().contains(x) by {
                    if x != k {
                        assert(seqs(result@).dom().contains(x) == before.dom().contains(x));
                    }
                }
                assert forall|x: ParaId| #[trigger] seqs(result@).dom().contains(x) implies seqs(result@)[x] == target[x] by {
                    if x != k {
                        assert(seqs(result@)[x] == before[x]);
                    }
                }
                assert(seqs(result@) =~= target);
            }
            i = i + 1;
        }
        proof {
            assert(keys@.take(keys.len() as int) =~= keys@);
            assert(seqs(result@) =~= retained(m0, chains_with_collators@, collators@));
        }
        *old_assigned = result;
    }

    /// Insert invulnerables ensuring that they are always the first in the list.
    /// The order of both lists is preserved.
    /// `assigned` may already contain the invulnerables, in that case they are only moved to the
    /// front.
    pub fn insert_invulnerables(assigned: &mut Vec<AccountId>, invulnerables: &[AccountId])
        ensures
            final(assigned)@ == with_invulnerables_first(old(assigned)@, invulnerables@),
    {
        let inv_set = set_of(invulnerables);
        let rest = filter_not_in(assigned, &inv_set);
        let mut new_assigned: Vec<AccountId> = Vec::new();
        let mut i: usize = 0;
        while i < invulnerables.len()
            invariant
                0 <= i <= invulnerables.len(),
                new_assigned@ == invulnerables@.take(i as int),
            decreases invulnerables.len() - i,
        {
            new_assigned.push(invulnerables[i]);
            assert(invulnerables@.take(i as int + 1) =~= invulnerables@.take(i as int).push(invulnerables@[i as int]));
            i = i + 1;
        }
        let mut j: usize = 0;
        while j < rest.len()
            invariant
                0 <= j <= rest.len(),
                new_assigned@ == invulnerables@ + rest@.take(j as int),
            decreases rest.len() - j,
        {
            proof {
                if j == 0 {
                    assert(invulnerables@.take(invulnerables.len() as int) =~= invulnerables@);
                }
            }
            new_assigned.push(rest[j]);
            assert(invulnerables@ + rest@.take(j as int + 1) =~= (invulnerables@ + rest@.take(j as int)).push(rest@[j as int]));
            j = j + 1;
        }
        proof {
            if rest.len() == 0 {
                assert(invulnerables@.take(invulnerables.len() as int) =~= invulnerables@);
            }
            assert(rest@.take(rest.len() as int) =~= rest@);
            assert(new_assigned@ =~= with_invulnerables_first(old(assigned)@, invulnerables@));
        }
        *assigned = new_assigned;
    }

    /// Same as `prioritize_invulnerables` but returns the invulnerables instead of inserting them
    /// into `old_assigned`. Invulnerables are taken from the orchestrator chain's old collators,
    /// then from the collators not assigned anywhere, then from those assigned elsewhere. Every
    /// returned invulnerable is removed from its old chain, even if it will later be assigned to
    /// the same chain.
    pub fn remove_invulnerables<R: RemoveInvulnerables>(
        collators: &[AccountId],
        orchestrator_chain: ChainNumCollators,
        old_assigned: &mut BTreeMap<ParaId, Vec<AccountId>>,
    ) -> (res: Vec<AccountId>)
        ensures
            (res@, seqs(final(old_assigned)@)) == remove_invulnerables_spec::<R>(collators@, orchestrator_chain, seqs(old(old_assigned)@)),
    {
        let min_orchestrator_collators = orchestrator_chain.min_collators as usize;
        let mut orchestrator_old = get_cloned(old_assigned, orchestrator_chain.para_id);
        let mut new_invulnerables = R::remove_invulnerables(&mut orchestrator_old, min_orchestrator_collators);
        if new_invulnerables.len() < min_orchestrator_collators {
            // Not enough invulnerables currently assigned, get rest from new_collators
            let assigned = assigned_collators(old_assigned);
            let collators_vec = slice_to_vec(collators);
            let mut new_collators = filter_not_in(&collators_vec, &assigned);
            let num_missing_invulnerables = min_orchestrator_collators - new_invulnerables.len();
            let mut invulnerables_not_assigned = R::remove_invulnerables(&mut new_collators, num_missing_invulnerables);
            new_invulnerables.append(&mut invulnerables_not_assigned);
            if new_invulnerables.len() < min_orchestrator_collators {
                // Still not enough invulnerables, try to get an invulnerable that is currently
                // assigned somewhere else
                let num_missing_invulnerables = min_orchestrator_collators - new_invulnerables.len();
                let new_invulnerables_set = set_of(new_invulnerables.as_slice());
                let mut others = filter_not_in(&collators_vec, &new_invulnerables_set);
                let mut invulnerables_assigned_elsewhere = R::remove_invulnerables(&mut others, num_missing_invulnerables);
                new_invulnerables.append(&mut invulnerables_assigned_elsewhere);
            }
        }
        // Every chosen invulnerable leaves its old chain, even if it goes back to the same chain.
        let chosen = set_of(new_invulnerables.as_slice());
        remove_from_all(old_assigned, &chosen);
        new_invulnerables
    }

    /// Ensure orchestrator chain has `min_orchestrator` invulnerables. If that's not possible, it
    /// tries to add as many invulnerables as possible.
    ///
    /// Get invulnerables from:
    /// * old_assigned in orchestrator
    /// * new collators
    /// * old_assigned elsewhere
    ///
    /// In that order. Returns the number of invulnerables assigned to the orchestrator chain,
    /// capped to `min_collators`.
    pub fn prioritize_invulnerables<R: RemoveInvulnerables>(
        collators: &[AccountId],
        orchestrator_chain: ChainNumCollators,
        old_assigned: &mut BTreeMap<ParaId, Vec<AccountId>>,
    ) -> (res: usize)
        ensures
            (res as int, seqs(final(old_assigned)@)) == prioritize_invulnerables_spec::<R>(collators@, orchestrator_chain, seqs(old(old_assigned)@)),
    {
        let new_invulnerables = Self::remove_invulnerables::<R>(collators, orchestrator_chain, old_assigned);
        if new_invulnerables.len() > 0 {
            let ghost before = old_assigned@;
            let mut entry = take_entry(old_assigned, orchestrator_chain.para_id);
            Self::insert_invulnerables(&mut entry, new_invulnerables.as_slice());
            proof {
                lemma_seqs_remove(before, orchestrator_chain.para_id);
                lemma_seqs_insert(old_assigned@, orchestrator_chain.para_id, entry);
                assert(seqs(before).remove(orchestrator_chain.para_id).insert(orchestrator_chain.para_id, entry@)
                    =~= seqs(before).insert(orchestrator_chain.para_id, entry@));
            }
            old_assigned.insert(orchestrator_chain.para_id, entry);
        }
        new_invulnerables.len()
    }

    /// Assign collators assuming that the number of collators is greater than or equal to the
    /// required. The order of both container chains and collators is important to ensure
    /// randomness when `old_assigned` is empty.
    ///
    /// * `old_assigned` does not need to be a subset of `collators`: collators are checked and
    ///   removed.
    /// * `old_assigned` does not need to be a subset of `chains`, unused para ids are removed.
    /// * `chains` `num_collators` can be 0. In that case an empty vec is returned for that para id.
    /// * `shuffle` is used to shuffle the list of new collators, once it has been cut to the
    ///   number of missing places, so that a collator with low priority is never assigned instead
    ///   of one with higher priority.
    ///
    /// Returns the collator assignment, or an error if the number of collators is not enough to
    /// fill all the chains, or if the required number of collators overflows a `usize`.
    ///
    /// Whatever the generator: the shuffle only reorders the new collators; the assignment
    /// fails only for want of collators, and, when the collators and the chains are distinct,
    /// exactly then; it assigns only collators, each once when no collator was assigned twice
    /// before; each chain gets its number of collators, its kept old ones first; and the places
    /// beyond those are the shuffled new collators, chain after chain.
    pub fn assign_full(
        collators: Vec<AccountId>,
        chains: Vec<(ParaId, u32)>,
        old_assigned: BTreeMap<ParaId, Vec<AccountId>>,
        shuffle_rng: Option<SeededRng>,
    ) -> (res: Result<BTreeMap<ParaId, Vec<AccountId>>, AssignmentError>)
        ensures
            result_seqs(res) == assign_full_spec(
                collators@,
                chains@,
                seqs(old_assigned@),
                maybe_shuffled(shuffle_rng, new_collators_pool(collators@, chains@, seqs(old_assigned@))),
            ),
            !(required_collators(chains@) > usize::MAX || collators@.len() < required_collators(chains@)) ==>
                maybe_shuffled(shuffle_rng, new_collators_pool(collators@, chains@, seqs(old_assigned@))).to_multiset()
                    == new_collators_pool(collators@, chains@, seqs(old_assigned@)).to_multiset(),
            res is Err ==> res->Err_0 == AssignmentError::NotEnoughCollators,
            collators@.no_duplicates() && distinct_chains(chains@) ==> (res is Err <==> (required_collators(chains@) > usize::MAX
                || collators@.len() < required_collators(chains@))),
            res is Ok ==> all_in(seqs(res->Ok_0@), collators@.to_set()),
            res is Ok && collators@.no_duplicates() && no_collator_twice(seqs(old_assigned@)) ==> no_collator_twice(seqs(res->Ok_0@)),
            res is Ok && distinct_chains(chains@) ==> fills_keeping_old_first(collators@, chains@, seqs(old_assigned@), seqs(res->Ok_0@)),
            res is Ok && distinct_chains(chains@) ==> free_slots(
                seqs(res->Ok_0@),
                kept_old(collators@, chains@, seqs(old_assigned@)),
                chains@,
                chains@.len() as int,
            ) == maybe_shuffled(shuffle_rng, new_collators_pool(collators@, chains@, seqs(old_assigned@))),
    {
        let ghost canon = new_collators_pool(collators@, chains@, seqs(old_assigned@));
        let ghost pool = maybe_shuffled(shuffle_rng, canon);
        let ghost cs = collators@;
        let ghost ch = chains@;
        let ghost old = seqs(old_assigned@);
        let res = Self::fill_chains(collators, chains, old_assigned, shuffle_rng);
        proof {
            if !(required_collators(ch) > usize::MAX || cs.len() < required_collators(ch)) {
                if cs.no_duplicates() && distinct_chains(ch) {
                    assign_full_fails_only_without_enough_collators(cs, ch, old, pool);
                }
            }
            if res is Ok {
                assign_full_assigns_only_collators(cs, ch, old, pool);
                if cs.no_duplicates() && no_collator_twice(old) {
                    assign_full_assigns_no_collator_twice(cs, ch, old, pool);
                }
                if distinct_chains(ch) {
                    assign_full_fills_every_chain_keeping_old_first(cs, ch, old, pool);
                    assign_full_fills_free_places_in_shuffled_order(cs, ch, old, pool);
                }
            }
        }
        res
    }

    /// Fills the chains as `assign_full` does.
    fn fill_chains(
        collators: Vec<AccountId>,
        chains: Vec<(ParaId, u32)>,
        old_assigned: BTreeMap<ParaId, Vec<AccountId>>,
        shuffle_rng: Option<SeededRng>,
    ) -> (res: Result<BTreeMap<ParaId, Vec<AccountId>>, AssignmentError>)
        ensures
            result_seqs(res) == assign_full_spec(
                collators@,
                chains@,
                seqs(old_assigned@),
                maybe_shuffled(shuffle_rng, new_collators_pool(collators@, chains@, seqs(old_assigned@))),
            ),
            !(required_collators(chains@) > usize::MAX || collators@.len() < required_collators(chains@)) ==>
                maybe_shuffled(shuffle_rng, new_collators_pool(collators@, chains@, seqs(old_assigned@))).to_multiset()
                    == new_collators_pool(collators@, chains@, seqs(old_assigned@)).to_multiset(),
    {
        let ghost cs = chains@;
        let ghost old0 = seqs(old_assigned@);
        let ghost shuffled = shuffle_rng is Some;
        let mut kept = old_assigned;
        let mut required: usize = 0;
        let mut i: usize = 0;
        while i < chains.len()
            invariant
                0 <= i <= chains.len(),
                cs == chains@,
                old0 == seqs(old_assigned@),
                shuffled == (shuffle_rng is Some),
                required == required_collators(cs.take(i as int)),
            decreases chains.len() - i,
        {
            proof {
                assert(cs.take(i as int + 1).drop_last() =~= cs.take(i as int));
                lemma_required_prefix(cs, i as int + 1);
            }
            match required.checked_add(chains[i].1 as usize) {
                Some(r) => {
                    required = r;
                },
                None => {
                    proof {
                        let pl = new_collators_pool(collators@, cs, old0);
                        assert(pl.to_multiset() == pl.to_multiset());
                    }
                    return Err(AssignmentError::NotEnoughCollators);
                },
            }
            i = i + 1;
        }
        assert(cs.take(cs.len() as int) =~= cs);
        if collators.len() < required {
            proof {
                let pl = new_collators_pool(collators@, cs, old0);
                assert(pl.to_multiset() == pl.to_multiset());
            }
            return Err(AssignmentError::NotEnoughCollators);
        }

        let para_ids_set = chain_id_set(&chains);
        let collators_set = set_of(collators.as_slice());
        Self::retain_valid_old_assigned(&mut kept, &para_ids_set, &collators_set);
        let ghost m1 = seqs(kept@);

        // Truncate num collators to required
        let mut i: usize = 0;
        while i < chains.len()
            invariant
                0 <= i <= chains.len(),
                cs == chains@,
                old0 == seqs(old_assigned@),
                shuffled == (shuffle_rng is Some),
                seqs(kept@) == truncate_prefix(m1, cs, i as int),
            decreases chains.len() - i,
        {
            let p = chains[i].0;
            let ghost before = kept@;
            let mut entry = take_entry(&mut kept, p);
            entry.truncate(chains[i].1 as usize);
            proof {
                lemma_seqs_remove(before, p);
                lemma_seqs_insert(kept@, p, entry);
                assert(entry@ =~= truncate_to(get_or_empty(seqs(before), p), cs[i as int].1 as int));
                assert(seqs(before).remove(p).insert(p, entry@) =~= seqs(before).insert(p, entry@));
            }
            kept.insert(p, entry);
            i = i + 1;
        }
        let ghost m2 = seqs(kept@);
        assert(m2 == kept_old(collators@, cs, old0));

        // Count number of needed new collators.
        let mut needed_new_collators: usize = 0;
        let mut i: usize = 0;
        while i < chains.len()
            invariant
                0 <= i <= chains.len(),
                cs == chains@,
                old0 == seqs(old_assigned@),
                shuffled == (shuffle_rng is Some),
                m2 == seqs(kept@),
                needed_new_collators == needed_prefix(m2, cs, i as int),
                required == required_collators(cs),
                required <= usize::MAX,
            decreases chains.len() - i,
        {
            proof {
                lemma_needed_le_required(m2, cs, i as int + 1);
                lemma_required_prefix(cs, i as int + 1);
            }
            let p = chains[i].0;
            let len = match kept.get(&p) {
                Some(v) => v.len(),
                None => 0,
            };
            assert(len == get_or_empty(m2, p).len());
            needed_new_collators = needed_new_collators + (chains[i].1 as usize).saturating_sub(len);
            i = i + 1;
        }

        let assigned = assigned_collators(&kept);

        // Keep collators not already assigned, up to the number of missing places.
        let ghost keep = not_in_set(assigned_set(m2));
        let mut new_collators: Vec<AccountId> = Vec::new();
        let mut i: usize = 0;
        while i < collators.len()
            invariant
                0 <= i <= collators.len(),
                assigned@ == assigned_set(m2),
                keep == not_in_set(assigned_set(m2)),
                new_collators@ == truncate_to(collators@.take(i as int).filter(keep), needed_new_collators as int),
            decreases collators.len() - i,
        {
            let c = collators[i];
            proof {
                assert(collators@.take(i as int + 1) =~= collators@.take(i as int).push(c));
                collators@.take(i as int).lemma_filter_push(c, keep);
                lemma_truncate_push(collators@.take(i as int).filter(keep), c, needed_new_collators as int);
            }
            if !assigned.contains(&c) && new_collators.len() < needed_new_collators {
                new_collators.push(c);
            }
            i = i + 1;
        }
        assert(collators@.take(collators.len() as int) =~= collators@);
        let ghost pool0 = new_collators@;
        assert(pool0 == new_collators_pool(collators@, cs, old0));
        let ghost rng0 = shuffle_rng;
        let is_shuffled = shuffle_rng.is_some();
        if let Some(mut rng) = shuffle_rng {
            rng.shuffle(&mut new_collators);
        }
        let ghost pool = new_collators@;
        assert(pool == maybe_shuffled(rng0, pool0));
        assert(rng0 == shuffle_rng);
        assert(shuffled == is_shuffled);
        assert(is_shuffled ==> pool.to_multiset() == pool0.to_multiset());
        assert(!is_shuffled ==> pool == pool0);

        // Fill missing collators
        let mut idx: usize = 0;
        let mut i: usize = 0;
        while i < chains.len()
            invariant
                0 <= i <= chains.len(),
                cs == chains@,
                old0 == seqs(old_assigned@),
                shuffled == (shuffle_rng is Some),
                pool == new_collators@,
                0 <= idx <= pool.len(),
                pool0 == new_collators_pool(collators@, cs, old0),
                !shuffled ==> pool == pool0,
                shuffled ==> pool.to_multiset() == pool0.to_multiset(),
                pool == maybe_shuffled(shuffle_rng, pool0),
                m2 == kept_old(collators@, cs, old0),
                required == required_collators(cs),
                required <= usize::MAX,
                collators.len() >= required,
                fill_prefix(m2, cs, pool, i as int) == (seqs(kept@), pool.skip(idx as int), false),
            decreases chains.len() - i,
        {
            let p = chains[i].0;
            let n = chains[i].1 as usize;
            let ghost before = kept@;
            let ghost idx0 = idx;
            let mut entry = take_entry(&mut kept, p);
            let ghost cur = entry@;
            while entry.len() < n
                invariant
                    idx0 <= idx <= pool.len(),
                    pool == new_collators@,
                    0 <= i < cs.len(),
                    cs == chains@,
                old0 == seqs(old_assigned@),
                shuffled == (shuffle_rng is Some),
                    old0 == seqs(old_assigned@),
                    shuffled == (shuffle_rng is Some),
                    p == cs[i as int].0,
                    n == cs[i as int].1,
                    fill_prefix(m2, cs, pool, i as int) == (seqs(before), pool.skip(idx0 as int), false),
                    cur == get_or_empty(seqs(before), p),
                    pool0 == new_collators_pool(collators@, cs, old0),
                    !shuffled ==> pool == pool0,
                    shuffled ==> pool.to_multiset() == pool0.to_multiset(),
                    pool == maybe_shuffled(shuffle_rng, pool0),
                    m2 == kept_old(collators@, cs, old0),
                    required == required_collators(cs),
                    required <= usize::MAX,
                    collators.len() >= required,
                    entry@ == cur + pool.skip(idx0 as int).take(idx - idx0),
                    entry@.len() == cur.len() + (idx - idx0),
                    entry@.len() <= n || entry@.len() == cur.len(),
                decreases n - entry@.len(),
            {
                if idx >= new_collators.len() {
                    proof {
                        assert(pool.skip(idx0 as int).len() < n - cur.len());
                        lemma_fill_stays_failed(m2, cs, pool, i as int + 1, cs.len() as int);
                        assert(fill_prefix(kept_old(collators@, cs, old0), cs, pool, cs.len() as int).2);
                        assert(!(required_collators(cs) > usize::MAX || collators@.len() < required_collators(cs)));
                        assert(assign_full_spec(collators@, cs, old0, pool) == Err::<Map<ParaId, Seq<AccountId>>, AssignmentError>(AssignmentError::NotEnoughCollators));
                        assert(pool.to_multiset() == pool0.to_multiset() || pool == pool0);
                    }
                    return Err(AssignmentError::NotEnoughCollators);
                }
                proof {
                    assert(pool.skip(idx0 as int).take(idx + 1 - idx0) =~= pool.skip(idx0 as int).take(idx - idx0).push(pool[idx as int]));
                }
                entry.push(new_collators[idx]);
                idx = idx + 1;
            }
            proof {
                lemma_seqs_remove(before, p);
                lemma_seqs_insert(kept@, p, entry);
                if cur.len() < n {
                    assert(entry@.len() == n);
                    assert(pool.skip(idx0 as int).skip(n - cur.len()) =~= pool.skip(idx as int));
                } else {
                    assert(entry@ =~= cur);
                }
                assert(seqs(before).remove(p).insert(p, entry@) =~= seqs(before).insert(p, entry@));
            }
            kept.insert(p, entry);
            i = i + 1;
        }
        proof {
            if shuffled {
                assert(pool.to_multiset() == pool0.to_multiset());
            }
        }
        Ok(kept)
    }

    /// Select which container chains will be assigned collators and how many collators, but do
    /// not specify which collator goes to which chain.
    ///
    /// Each chain has a min and max number of collators. If the number of collators is not
    /// enough to reach the min, no collators are assigned to that chain. The first chain is the
    /// orchestrator chain: it always gets collators, all of them if there are fewer than its min.
    /// Then chains are taken in order while their min can be met, and the remainder fills the max
    /// of the first chain, then the second one, and so on.
    pub fn select_chains_with_collators(
        num_collators: u32,
        chains: &[ChainNumCollators],
    ) -> (res: Vec<(ParaId, u32)>)
        ensures
            res@ == select_chains_spec(num_collators as int, chains@),
    {
        if chains.len() == 0 {
            return Vec::new();
        }
        let ghost cs = chains@;
        let mut available_collators = num_collators;
        let min_orchestrator_collators = chains[0].min_collators;
        available_collators = available_collators.saturating_sub(min_orchestrator_collators);

        let mut container_chains_with_collators: Vec<ChainNumCollators> = Vec::new();
        container_chains_with_collators.push(chains[0]);
        assert(container_chains_with_collators@ =~= seq![cs[0]]);
        let mut i: usize = 1;
        let mut stopped = false;
        while i < chains.len() && !stopped
            invariant
                1 <= i <= chains.len(),
                cs == chains@,
                select_prefix(cs, num_collators as int, i as int) == (
                    available_collators as int,
                    container_chains_with_collators@,
                    stopped,
                ),
            decreases chains.len() - i,
        {
            let cc = chains[i];
            if available_collators >= cc.min_collators {
                available_collators = available_collators - cc.min_collators;
                container_chains_with_collators.push(cc);
            } else if available_collators == 0 {
                stopped = true;
            }
            i = i + 1;
        }
        proof {
            if stopped {
                lemma_select_prefix_stays_done(cs, num_collators as int, i as int, cs.len() as int);
            }
            lemma_select_prefix_bounds(cs, num_collators as int, cs.len() as int);
        }
        let ghost chosen = container_chains_with_collators@;

        let mut required_collators_min: u32 = 0;
        let mut j: usize = 0;
        while j < container_chains_with_collators.len()
            invariant
                0 <= j <= chosen.len(),
                chosen == container_chains_with_collators@,
                required_collators_min == sum_min(chosen.take(j as int)),
                sum_min(chosen) <= u32::MAX,
            decreases chosen.len() - j,
        {
            proof { lemma_sum_min_prefix_le(chosen, j as int + 1); }
            assert(chosen.take(j as int + 1).drop_last() =~= chosen.take(j as int));
            required_collators_min = required_collators_min + container_chains_with_collators[j].min_collators;
            j = j + 1;
        }
        assert(chosen.take(chosen.len() as int) =~= chosen);

        if num_collators < min_orchestrator_collators {
            let mut r: Vec<(ParaId, u32)> = Vec::new();
            r.push((chains[0].para_id, num_collators));
            assert(r@ =~= seq![(cs[0].para_id, num_collators)]);
            r
        } else {
            let mut required_collators_remainder: u32 = num_collators - required_collators_min;
            let mut container_chains_variable: Vec<(ParaId, u32)> = Vec::new();
            let mut k: usize = 0;
            while k < container_chains_with_collators.len()
                invariant
                    0 <= k <= chosen.len(),
                    chosen == container_chains_with_collators@,
                    container_chains_variable@ + distribute(chosen.skip(k as int), required_collators_remainder as int)
                        == distribute(chosen, num_collators - sum_min(chosen)),
                decreases chosen.len() - k,
            {
                let cc = container_chains_with_collators[k];
                let extra = if required_collators_remainder <= cc.max_collators.saturating_sub(cc.min_collators) {
                    required_collators_remainder
                } else {
                    cc.max_collators.saturating_sub(cc.min_collators)
                };
                let num = cc.min_collators + extra;
                required_collators_remainder = required_collators_remainder - extra;
                proof {
                    let rest = chosen.skip(k as int);
                    assert(rest[0] == cc);
                    assert(rest.drop_first() =~= chosen.skip(k as int + 1));
                    let old_var = container_chains_variable@;
                    assert(old_var.push((cc.para_id, num)) + distribute(chosen.skip(k as int + 1), required_collators_remainder as int)
                        =~= old_var + distribute(rest, required_collators_remainder + extra));
                }
                container_chains_variable.push((cc.para_id, num));
                k = k + 1;
            }
            assert(chosen.skip(chosen.len() as int) =~= Seq::<ChainNumCollators>::empty());
            assert(container_chains_variable@ + Seq::<(ParaId, u32)>::empty() =~= container_chains_variable@);
            container_chains_variable
        }
    }
}

proof fn lemma_sum_min_prefix_le(chosen: Seq<ChainNumCollators>, j: int)
    requires
        0 <= j <= chosen.len(),
    ensures
        sum_min(chosen.take(j)) <= sum_min(chosen),
    decreases chosen.len() - j,
{
    if j < chosen.len() {
        lemma_sum_min_prefix_le(chosen, j + 1);
        assert(chosen.take(j + 1).drop_last() =~= chosen.take(j));
    } else {
        assert(chosen.take(j) =~= chosen);
    }
}

} // verus!
