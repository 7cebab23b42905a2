//! The collator assignment pallet: on every session change it computes which collators serve
//! the orchestrator chain and each container chain in the next session.

use vstd::prelude::*;
use std::collections::BTreeMap;
use std::collections::BTreeSet;
use vstd::std_specs::iter::IteratorSpec;
use crate::assignment::{
    min_int, keep_old_pool, keep_old_spec, AccountId, AssignedCollators, Assignment, ChainNumCollators,
    ParaId, RemoveInvulnerables,
};
use crate::maps::{assigned_set, lemma_seqs_insert, map_keys, seqs};
use crate::perthings::{perbill_from_rational, perbill_mul_u32, PERBILL_ONE};
use crate::rng::{maybe_shuffled, shuffled, SeededRng};

verus! {

/// How many cores there are, and which share of them parachains may take.
#[derive(Debug, Clone, Copy, PartialEq, Eq, Structural)]
pub struct CoreAllocationConfiguration {
    pub core_count: u32,
    /// Share of the cores for parachains, in parts per billion.
    pub max_parachain_percentage: u32,
}

/// `a + b`, or `u32::MAX` when it does not fit.
pub open spec fn sat_add_u32(a: int, b: int) -> int {
    if a + b > u32::MAX { u32::MAX as int } else { a + b }
}

/// `a * b`, or `u32::MAX` when it does not fit.
pub open spec fn sat_mul_u32(a: int, b: int) -> int {
    if a * b > u32::MAX { u32::MAX as int } else { a * b }
}

/// Whether there are enough collators to give every chain its min: the orchestrator's min,
/// plus `collators_per_container` for each parachain and `collators_per_parathread` for each
/// parathread, all with saturating arithmetic.
pub open spec fn enough_collators_spec(
    num_bulk: int,
    num_pool: int,
    min_orchestrator_collators: u32,
    number_of_collators: u32,
    collators_per_container: u32,
    collators_per_parathread: u32,
) -> bool {
    number_of_collators >= sat_add_u32(
        sat_add_u32(min_orchestrator_collators as int, sat_mul_u32(collators_per_container as int, (num_bulk as u32) as int)),
        sat_mul_u32(collators_per_parathread as int, (num_pool as u32) as int),
    )
}

/// Rank of a chain by tip: chains without a tip rank lowest.
pub open spec fn tip_rank(tips: Map<ParaId, u128>, p: ParaId) -> int {
    if tips.dom().contains(p) { tips[p] + 1 } else { 0 }
}

/// Where `x` goes in a list already sorted by decreasing tip: after every chain whose tip is at
/// least `x`'s.
pub open spec fn insert_pos(sorted: Seq<ChainNumCollators>, x: ChainNumCollators, tips: Map<ParaId, u128>, i: int) -> int
    decreases sorted.len() - i,
{
    if i < 0 || i >= sorted.len() {
        sorted.len() as int
    } else if tip_rank(tips, sorted[i].para_id) < tip_rank(tips, x.para_id) {
        i
    } else {
        insert_pos(sorted, x, tips, i + 1)
    }
}

/// `chains` sorted by decreasing tip, chains with equal tips keeping their order.
pub open spec fn sort_by_tip(chains: Seq<ChainNumCollators>, tips: Map<ParaId, u128>) -> Seq<ChainNumCollators>
    decreases chains.len(),
{
    if chains.len() == 0 {
        Seq::empty()
    } else {
        let sorted = sort_by_tip(chains.drop_last(), tips);
        sorted.insert(insert_pos(sorted, chains.last(), tips, 0), chains.last())
    }
}

/// The tip of a chain, if it has one.
fn get_tip(tips: &BTreeMap<ParaId, u128>, p: ParaId) -> (r: Option<u128>)
    ensures
        r == (if tips@.dom().contains(p) { Some(tips@[p]) } else { None::<u128> }),
{
    match tips.get(&p) {
        Some(t) => Some(*t),
        None => None,
    }
}

/// Whether chain `a` has a lower tip than chain `b`.
fn lower_tip(tips: &BTreeMap<ParaId, u128>, a: ParaId, b: ParaId) -> (r: bool)
    ensures
        r == (tip_rank(tips@, a) < tip_rank(tips@, b)),
{
    match (get_tip(tips, a), get_tip(tips, b)) {
        (None, None) => false,
        (None, Some(_)) => true,
        (Some(_), None) => false,
        (Some(x), Some(y)) => x < y,
    }
}

/// Sorts chains by decreasing tip; chains with equal tips keep their order.
pub fn sort_chains_by_tip(chains: Vec<ChainNumCollators>, tips: &BTreeMap<ParaId, u128>) -> (r: Vec<ChainNumCollators>)
    ensures
        r@ == sort_by_tip(chains@, tips@),
{
    let mut sorted: Vec<ChainNumCollators> = Vec::new();
    let mut i: usize = 0;
    while i < chains.len()
        invariant
            0 <= i <= chains.len(),
            sorted@ == sort_by_tip(chains@.take(i as int), tips@),
        decreases chains.len() - i,
    {
        let x = chains[i];
        let mut pos: usize = 0;
        while pos < sorted.len() && !lower_tip(tips, sorted[pos].para_id, x.para_id)
            invariant
                0 <= pos <= sorted.len(),
                insert_pos(sorted@, x, tips@, 0) == insert_pos(sorted@, x, tips@, pos as int),
            decreases sorted.len() - pos,
        {
            pos = pos + 1;
        }
        assert(chains@.take(i as int + 1).drop_last() =~= chains@.take(i as int));
        sorted.insert(pos, x);
        i = i + 1;
    }
    assert(chains@.take(chains.len() as int) =~= chains@);
    sorted
}

/// Chains ordered for assignment without a core configuration: parachains, then parathreads,
/// all sorted by tip when there are not enough collators for every chain.
pub open spec fn order_paras_spec(bulk: Seq<ChainNumCollators>, pool: Seq<ChainNumCollators>, enough: bool, tips: Map<ParaId, u128>) -> Seq<ChainNumCollators> {
    if enough { bulk + pool } else { sort_by_tip(bulk + pool, tips) }
}

/// Chains ordered for assignment with a core configuration: parachains sorted by tip (when a
/// tip must be charged) and cut to the parachain cores, then parathreads; when a tip must be
/// charged the whole list is sorted by tip again, so that a tipping parathread comes before a
/// parachain that does not tip.
pub open spec fn order_paras_with_core_config_spec(
    bulk: Seq<ChainNumCollators>,
    pool: Seq<ChainNumCollators>,
    charge_tip: bool,
    max_bulk: int,
    tips: Map<ParaId, u128>,
) -> Seq<ChainNumCollators> {
    let b = if charge_tip { sort_by_tip(bulk, tips) } else { bulk };
    let kept = (if b.len() <= max_bulk { b } else { b.take(max_bulk) }) + pool;
    if charge_tip { sort_by_tip(kept, tips) } else { kept }
}

/// `a * b`, or `u32::MAX` when it does not fit.
fn saturating_mul_u32(a: u32, b: u32) -> (r: u32)
    ensures
        r == sat_mul_u32(a as int, b as int),
{
    match a.checked_mul(b) {
        Some(x) => x,
        None => u32::MAX,
    }
}

fn append_chains(a: &mut Vec<ChainNumCollators>, b: Vec<ChainNumCollators>)
    ensures
        final(a)@ == old(a)@ + b@,
{
    let mut b = b;
    a.append(&mut b);
}

/// Which container chains the assignment should serve, and whether they pay a tip for it.
pub struct CollatorAssignmentPallet {
    /// Para id of the orchestrator chain.
    pub self_para_id: ParaId,
    /// Whether the orchestrator chain gets no collators.
    pub force_empty_orchestrator: bool,
    /// Core configuration, when cores are limited.
    pub core_allocation_configuration: Option<CoreAllocationConfiguration>,
    /// The assignment of the current session.
    pub collator_container_chain: AssignedCollators,
    /// The assignment of the next session, when it differs from the current one.
    pub pending_collator_container_chain: Option<AssignedCollators>,
    /// Randomness taken at the end of the previous session. All zeros disables shuffling.
    pub randomness: [u8; 32],
    /// Ratio of assigned collators to max collators, in parts per billion.
    pub collator_fullness_ratio: Option<u32>,
}

impl CollatorAssignmentPallet {
    /// Whether there are enough collators for every chain to get its min.
    pub fn enough_collators_for_all_chains(
        bulk_paras: &[ChainNumCollators],
        pool_paras: &[ChainNumCollators],
        min_orchestrator_collators: u32,
        number_of_collators: u32,
        collators_per_container: u32,
        collators_per_parathread: u32,
    ) -> (r: bool)
        ensures
            r == enough_collators_spec(
                bulk_paras@.len() as int,
                pool_paras@.len() as int,
                min_orchestrator_collators,
                number_of_collators,
                collators_per_container,
                collators_per_parathread,
            ),
    {
        let nb = #[verifier::truncate] (bulk_paras.len() as u32);
        let np = #[verifier::truncate] (pool_paras.len() as u32);
        number_of_collators >= min_orchestrator_collators
            .saturating_add(saturating_mul_u32(collators_per_container, nb))
            .saturating_add(saturating_mul_u32(collators_per_parathread, np))
    }

    /// Orders parachains then parathreads when cores are limited. A tip is charged when the
    /// parachains exceed their cores or the collators are not enough for every chain; then the
    /// parachains are sorted by tip before those beyond their cores are dropped, and the whole
    /// list is sorted by tip.
    pub fn order_paras_with_core_config(
        bulk_paras: Vec<ChainNumCollators>,
        pool_paras: Vec<ChainNumCollators>,
        core_allocation_configuration: &CoreAllocationConfiguration,
        min_orchestrator_collators: u32,
        number_of_collators: u32,
        collators_per_container: u32,
        collators_per_parathread: u32,
        tips: &BTreeMap<ParaId, u128>,
    ) -> (r: (Vec<ChainNumCollators>, bool))
        requires
            core_allocation_configuration.max_parachain_percentage <= PERBILL_ONE,
        ensures
            ({
                let max_bulk = crate::perthings::mul_nearest_pref_down(
                    core_allocation_configuration.core_count as int,
                    core_allocation_configuration.max_parachain_percentage as int,
                    PERBILL_ONE as int,
                );
                let enough = enough_collators_spec(
                    bulk_paras@.len() as int, pool_paras@.len() as int, min_orchestrator_collators,
                    number_of_collators, collators_per_container, collators_per_parathread,
                );
                let charge = !(bulk_paras@.len() <= max_bulk) || !enough;
                &&& r.1 == charge
                &&& r.0@ == order_paras_with_core_config_spec(bulk_paras@, pool_paras@, charge, max_bulk, tips@)
            }),
    {
        let max_number_of_bulk_paras = perbill_mul_u32(
            core_allocation_configuration.max_parachain_percentage,
            core_allocation_configuration.core_count,
        );
        let enough_cores_for_bulk_paras = bulk_paras.len() <= max_number_of_bulk_paras as usize;
        let enough_collators = Self::enough_collators_for_all_chains(
            bulk_paras.as_slice(),
            pool_paras.as_slice(),
            min_orchestrator_collators,
            number_of_collators,
            collators_per_container,
            collators_per_parathread,
        );
        let should_charge_tip = !enough_cores_for_bulk_paras || !enough_collators;
        let ghost pool = pool_paras@;
        let mut bulk = bulk_paras;
        if should_charge_tip {
            bulk = sort_chains_by_tip(bulk, tips);
        }
        let ghost b = bulk@;
        bulk.truncate(max_number_of_bulk_paras as usize);
        let ghost kept = bulk@;
        assert(kept == (if b.len() <= max_number_of_bulk_paras { b } else { b.take(max_number_of_bulk_paras as int) }));
        append_chains(&mut bulk, pool_paras);
        assert(bulk@ == kept + pool);
        if should_charge_tip {
            bulk = sort_chains_by_tip(bulk, tips);
        }
        (bulk, should_charge_tip)
    }

    /// Orders parachains then parathreads; when there are not enough collators for every chain,
    /// all of them are sorted by tip and a tip is charged.
    pub fn order_paras(
        bulk_paras: Vec<ChainNumCollators>,
        pool_paras: Vec<ChainNumCollators>,
        min_orchestrator_collators: u32,
        number_of_collators: u32,
        collators_per_container: u32,
        collators_per_parathread: u32,
        tips: &BTreeMap<ParaId, u128>,
    ) -> (r: (Vec<ChainNumCollators>, bool))
        ensures
            ({
                let enough = enough_collators_spec(
                    bulk_paras@.len() as int, pool_paras@.len() as int, min_orchestrator_collators,
                    number_of_collators, collators_per_container, collators_per_parathread,
                );
                &&& r.1 == !enough
                &&& r.0@ == order_paras_spec(bulk_paras@, pool_paras@, enough, tips@)
            }),
    {
        let enough_collators_for_all_chain = Self::enough_collators_for_all_chains(
            bulk_paras.as_slice(),
            pool_paras.as_slice(),
            min_orchestrator_collators,
            number_of_collators,
            collators_per_container,
            collators_per_parathread,
        );
        let mut chains = bulk_paras;
        append_chains(&mut chains, pool_paras);
        if !enough_collators_for_all_chain {
            chains = sort_chains_by_tip(chains, tips);
        }
        (chains, !enough_collators_for_all_chain)
    }
}

/// Which session an assignment is asked for.
#[derive(Debug, Clone, Copy, PartialEq, Eq, Structural)]
pub enum ForSession {
    Current,
    Next,
}

/// Rotates all collators every `PERIOD` sessions; a period of 0 disables rotation.
pub struct RotateCollatorsEveryNSessions<const PERIOD: u32>;

impl<const PERIOD: u32> RotateCollatorsEveryNSessions<PERIOD> {
    /// Whether all collators rotate at `session_index`.
    pub fn should_rotate_all_collators(session_index: u32) -> (r: bool)
        ensures
            r == (PERIOD != 0 && session_index % PERIOD == 0),
    {
        if PERIOD == 0 {
            false
        } else {
            session_index % PERIOD == 0
        }
    }
}

/// Total number of collators held by the chains of `m`.
pub open spec fn map_total(m: Map<ParaId, Seq<AccountId>>) -> int
    decreases m.dom().len(),
    when m.dom().finite()
{
    if m.dom().len() == 0 {
        0
    } else {
        let k = m.dom().choose();
        m[k].len() + map_total(m.remove(k))
    }
}

pub proof fn lemma_map_total_nonneg(m: Map<ParaId, Seq<AccountId>>)
    requires
        m.dom().finite(),
    ensures
        map_total(m) >= 0,
    decreases m.dom().len(),
{
    if m.dom().len() > 0 {
        let k = m.dom().choose();
        lemma_map_total_nonneg(m.remove(k));
    }
}

pub proof fn lemma_map_total_remove(m: Map<ParaId, Seq<AccountId>>, k: ParaId)
    requires
        m.dom().finite(),
        m.dom().contains(k),
    ensures
        map_total(m) == m[k].len() + map_total(m.remove(k)),
    decreases m.dom().len(),
{
    let c = m.dom().choose();
    if c != k {
        let mc = m.remove(c);
        let mk = m.remove(k);
        lemma_map_total_remove(mc, k);
        lemma_map_total_remove(mk, c);
        assert(mc.remove(k) =~= mk.remove(c));
    }
}

/// A copy of an assignment.
pub fn copy_assigned(a: &AssignedCollators) -> (r: AssignedCollators)
    ensures
        r@ == a@,
{
    let orchestrator_chain = a.orchestrator_chain.clone();
    assert(orchestrator_chain@ =~= a.orchestrator_chain@);
    let container_chains = a.container_chains.clone();
    AssignedCollators { orchestrator_chain, container_chains }
}

fn same_collators(a: &Vec<AccountId>, b: &Vec<AccountId>) -> (r: bool)
    ensures
        r == (a@ == b@),
{
    if a.len() != b.len() {
        return false;
    }
    let mut i: usize = 0;
    while i < a.len()
        invariant
            0 <= i <= a.len(),
            a.len() == b.len(),
            forall|j: int| 0 <= j < i ==> a@[j] == b@[j],
        decreases a.len() - i,
    {
        if a[i] != b[i] {
            return false;
        }
        i = i + 1;
    }
    assert(a@ =~= b@);
    true
}

/// Whether every chain of `a` is in `b` with the same collators.
fn included(a: &BTreeMap<ParaId, Vec<AccountId>>, b: &BTreeMap<ParaId, Vec<AccountId>>) -> (r: bool)
    ensures
        r == (forall|k: ParaId| #[trigger] seqs(a@).dom().contains(k) ==> seqs(b@).dom().contains(k) && seqs(b@)[k] == seqs(a@)[k]),
{
    let keys = map_keys(a);
    let mut i: usize = 0;
    while i < keys.len()
        invariant
            0 <= i <= keys.len(),
            keys@.to_set() == a@.dom(),
            forall|j: int| 0 <= j < i ==> #[trigger] seqs(b@).dom().contains(keys@[j]) && seqs(b@)[keys@[j]] == seqs(a@)[keys@[j]],
        decreases keys.len() - i,
    {
        let k = keys[i];
        assert(keys@.to_set().contains(k));
        let va = a.get(&k).unwrap();
        match b.get(&k) {
            Some(vb) => {
                if !same_collators(va, vb) {
                    assert(seqs(a@).dom().contains(k) && seqs(b@)[k] != seqs(a@)[k]);
                    return false;
                }
            },
            None => {
                assert(seqs(a@).dom().contains(k) && !seqs(b@).dom().contains(k));
                return false;
            },
        }
        i = i + 1;
    }
    proof {
        assert forall|k: ParaId| #[trigger] seqs(a@).dom().contains(k) implies seqs(b@).dom().contains(k) && seqs(b@)[k] == seqs(a@)[k] by {
            assert(keys@.to_set().contains(k));
            let j = choose|j: int| 0 <= j < keys@.len() && keys@[j] == k;
            assert(seqs(b@).dom().contains(keys@[j]));
        }
    }
    true
}

/// Whether two assignments assign the same collators to the same chains.
pub fn same_assignment(a: &AssignedCollators, b: &AssignedCollators) -> (r: bool)
    ensures
        r == (a@ == b@),
{
    let same_orchestrator = same_collators(&a.orchestrator_chain, &b.orchestrator_chain);
    let ab = included(&a.container_chains, &b.container_chains);
    let ba = included(&b.container_chains, &a.container_chains);
    proof {
        if ab && ba {
            assert(seqs(a.container_chains@) =~= seqs(b.container_chains@));
        }
    }
    same_orchestrator && ab && ba
}

/// The collators of `para_id` in `a`: the orchestrator chain's when `para_id` is `self_para_id`.
pub open spec fn chain_collators(a: (Seq<AccountId>, Map<ParaId, Seq<AccountId>>), self_para_id: ParaId, para_id: ParaId) -> Option<Seq<AccountId>> {
    if para_id == self_para_id {
        Some(a.0)
    } else if a.1.dom().contains(para_id) {
        Some(a.1[para_id])
    } else {
        None
    }
}

/// The assignment of the current session, or of the next one if it is pending.
pub open spec fn assignment_for(pallet: CollatorAssignmentPallet, for_session: ForSession) -> (Seq<AccountId>, Map<ParaId, Seq<AccountId>>) {
    match (for_session, pallet.pending_collator_container_chain) {
        (ForSession::Next, Some(p)) => p@,
        _ => pallet.collator_container_chain@,
    }
}

/// Outcome of a session change.
pub struct SessionChangeOutcome {
    /// New active assignment.
    pub active_assignment: AssignedCollators,
    /// Next session active assignment.
    pub next_assignment: AssignedCollators,
    /// Total number of registered parachains before filtering them out.
    pub num_total_registered_paras: u32,
}

impl CollatorAssignmentPallet {
    /// The assignment of the current session.
    pub fn collator_container_chain(&self) -> (r: AssignedCollators)
        ensures
            r@ == self.collator_container_chain@,
    {
        copy_assigned(&self.collator_container_chain)
    }

    /// The assignment of the next session, when it differs from the current one.
    pub fn pending_collator_container_chain(&self) -> (r: Option<AssignedCollators>)
        ensures
            (r is Some) == (self.pending_collator_container_chain is Some),
            r matches Some(a) ==> a@ == self.pending_collator_container_chain->Some_0@,
    {
        match &self.pending_collator_container_chain {
            Some(p) => Some(copy_assigned(p)),
            None => None,
        }
    }

    /// The author of `slot` on `para_id`: the collators of the current session take turns, one
    /// slot each. None when the chain has no collators.
    pub fn author_for_slot(&self, slot: u64, para_id: ParaId) -> (r: Option<AccountId>)
        ensures
            r == (match chain_collators(self.collator_container_chain@, self.self_para_id, para_id) {
                Some(cs) => if cs.len() == 0 { None } else { Some(cs[(slot % (cs.len() as u64)) as int]) },
                None => None::<AccountId>,
            }),
    {
        let collators: &Vec<AccountId> = if para_id == self.self_para_id {
            &self.collator_container_chain.orchestrator_chain
        } else {
            match self.collator_container_chain.container_chains.get(&para_id) {
                Some(c) => c,
                None => {
                    return None;
                },
            }
        };
        if collators.len() == 0 {
            return None;
        }
        let author_index = slot % (collators.len() as u64);
        Some(collators[author_index as usize])
    }

    /// The container chains of the asked session with their collators, in increasing order of
    /// para id. When no next assignment is pending, the current one stays.
    pub fn container_chains_with_collators(&self, for_session: ForSession) -> (r: Vec<(ParaId, Vec<AccountId>)>)
        ensures
            r@.len() == assignment_for(*self, for_session).1.dom().len(),
            forall|i: int| 0 <= i < r@.len() ==> assignment_for(*self, for_session).1.dom().contains(#[trigger] r@[i].0)
                && r@[i].1@ == assignment_for(*self, for_session).1[r@[i].0],
            forall|p: ParaId| assignment_for(*self, for_session).1.dom().contains(p) ==> exists|i: int| 0 <= i < r@.len() && #[trigger] r@[i].0 == p,
            forall|i: int, j: int| 0 <= i < j < r@.len() ==> r@[i].0 < r@[j].0,
    {
        let chains: &AssignedCollators = match (for_session, &self.pending_collator_container_chain) {
            (ForSession::Next, Some(p)) => p,
            _ => &self.collator_container_chain,
        };
        let m = &chains.container_chains;
        let mut r: Vec<(ParaId, Vec<AccountId>)> = Vec::new();
        for k in it: m.keys()
            invariant
                it.seq() == vstd::std_specs::btree::spec_keys_iter(m).remaining(),
                r@.len() == it.index(),
                forall|i: int| 0 <= i < it.index() ==> #[trigger] r@[i].0 == *it.seq()[i] && m@.dom().contains(r@[i].0)
                    && r@[i].1@ == m@[r@[i].0]@,
        {
            proof {
                broadcast use vstd::std_specs::btree::axiom_spec_keys_iter;
                assert(it.seq().unref().to_set().contains(*k));
            }
            let v = m.get(k).unwrap();
            let c = v.clone();
            assert(c@ =~= v@);
            r.push((*k, c));
        }
        proof {
            broadcast use vstd::std_specs::btree::axiom_spec_keys_iter;
            broadcast use vstd::std_specs::btree::axiom_increasing_seq_meaning;
            broadcast use vstd::laws_cmp::group_laws_cmp;
            let s = vstd::std_specs::btree::spec_keys_iter(m).remaining();
            assert(s.unref().to_set() == m@.dom());
            assert(s.len() == m@.dom().len());
            assert(seqs(m@).dom() =~= m@.dom());
            crate::maps::lemma_increasing_keys(s);
            s.unref().unique_seq_to_set();
            assert forall|p: ParaId| m@.dom().contains(p) implies exists|i: int| 0 <= i < r@.len() && #[trigger] r@[i].0 == p by {
                assert(s.unref().to_set().contains(p));
                let i = choose|i: int| 0 <= i < s.unref().len() && s.unref()[i] == p;
                assert(r@[i].0 == p);
            }
        }
        r
    }

    /// Every collator assigned to a container chain in the asked session, or to the orchestrator
    /// chain in the current session.
    pub fn get_all_collators_assigned_to_chains(&self, for_session: ForSession) -> (r: BTreeSet<AccountId>)
        ensures
            r@ == assigned_set(assignment_for(*self, for_session).1).union(self.collator_container_chain.orchestrator_chain@.to_set()),
    {
        let chains: &AssignedCollators = match (for_session, &self.pending_collator_container_chain) {
            (ForSession::Next, Some(p)) => p,
            _ => &self.collator_container_chain,
        };
        let mut all = crate::maps::assigned_collators(&chains.container_chains);
        let orchestrator = &self.collator_container_chain.orchestrator_chain;
        let ghost base = all@;
        let mut i: usize = 0;
        while i < orchestrator.len()
            invariant
                0 <= i <= orchestrator.len(),
                all@ == base.union(orchestrator@.take(i as int).to_set()),
            decreases orchestrator.len() - i,
        {
            all.insert(orchestrator[i]);
            proof {
                assert(orchestrator@.take(i as int + 1) =~= orchestrator@.take(i as int).push(orchestrator@[i as int]));
                orchestrator@.take(i as int).lemma_push_to_set_commute(orchestrator@[i as int]);
                assert(all@ =~= base.union(orchestrator@.take(i as int + 1).to_set()));
            }
            i = i + 1;
        }
        assert(orchestrator@.take(orchestrator.len() as int) =~= orchestrator@);
        all
    }

    /// The assignment the next one is computed from: the pending one, or the current one.
    pub fn read_assigned_collators(&self) -> (r: AssignedCollators)
        ensures
            r@ == assignment_for(*self, ForSession::Next),
    {
        match &self.pending_collator_container_chain {
            Some(p) => copy_assigned(p),
            None => copy_assigned(&self.collator_container_chain),
        }
    }

    /// Counts the collators assigned to any chain, divides that by `max_collators` and stores the
    /// ratio.
    pub fn store_collator_fullness(&mut self, new_assigned: &AssignedCollators, max_collators: u32)
        ensures
            ({
                let total = new_assigned@.0.len() + map_total(new_assigned@.1);
                let counted = if total > usize::MAX { usize::MAX as int } else { total };
                let as_u32 = (counted as u32) as int;
                let num = if as_u32 > max_collators { max_collators as int } else { as_u32 };
                final(self).collator_fullness_ratio == Some(
                    if max_collators == 0 || num > max_collators { PERBILL_ONE } else { ((num * PERBILL_ONE) / (max_collators as int)) as u32 },
                )
            }),
            final(self).self_para_id == old(self).self_para_id,
            final(self).force_empty_orchestrator == old(self).force_empty_orchestrator,
            final(self).core_allocation_configuration == old(self).core_allocation_configuration,
            final(self).collator_container_chain == old(self).collator_container_chain,
            final(self).pending_collator_container_chain == old(self).pending_collator_container_chain,
            final(self).randomness == old(self).randomness,
    {
        let ghost m = new_assigned@.1;
        let ghost total = new_assigned@.0.len() + map_total(m);
        let mut num_collators: usize = new_assigned.orchestrator_chain.len();
        let keys = map_keys(&new_assigned.container_chains);
        proof {
            assert(m.dom() == new_assigned.container_chains@.dom());
            assert(m.remove_keys(keys@.take(0).to_set()) =~= m);
            lemma_map_total_nonneg(m);
        }
        let mut i: usize = 0;
        while i < keys.len()
            invariant
                0 <= i <= keys.len(),
                keys@.to_set() == m.dom(),
                keys@.no_duplicates(),
                m == new_assigned@.1,
                m.dom() == new_assigned.container_chains@.dom(),
                m.dom().finite(),
                total == new_assigned@.0.len() + map_total(m),
                num_collators == min_int(total - map_total(m.remove_keys(keys@.take(i as int).to_set())), usize::MAX as int),
            decreases keys.len() - i,
        {
            let k = keys[i];
            let ghost rest = m.remove_keys(keys@.take(i as int).to_set());
            proof {
                assert(rest.dom() =~= m.dom().difference(keys@.take(i as int).to_set()));
                vstd::set::axiom_set_difference_finite(m.dom(), keys@.take(i as int).to_set());
                assert(keys@.to_set().contains(k));
                assert(!keys@.take(i as int).contains(k)) by {
                    if keys@.take(i as int).contains(k) {
                        let j = choose|j: int| 0 <= j < keys@.take(i as int).len() && #[trigger] keys@.take(i as int)[j] == k;
                        assert(keys@[j] == keys@[i as int]);
                    }
                }
                assert(rest.dom().contains(k));
                lemma_map_total_remove(rest, k);
                assert(keys@.take(i as int + 1) =~= keys@.take(i as int).push(k));
                keys@.take(i as int).lemma_push_to_set_commute(k);
                assert(rest.remove(k) =~= m.remove_keys(keys@.take(i as int + 1).to_set()));
                lemma_map_total_nonneg(rest.remove(k));
            }
            let len = new_assigned.container_chains.get(&k).unwrap().len();
            num_collators = num_collators.saturating_add(len);
            i = i + 1;
        }
        proof {
            assert(keys@.take(keys.len() as int) =~= keys@);
            assert(m.remove_keys(keys@.to_set()).dom() =~= Set::<ParaId>::empty());
            assert(map_total(m.remove_keys(keys@.to_set())) == 0);
        }
        let mut num = #[verifier::truncate] (num_collators as u32);
        if num > max_collators {
            num = max_collators;
        }
        let ratio = perbill_from_rational(num, max_collators);
        self.collator_fullness_ratio = Some(ratio);
    }
}

/// Events of the pallet.
#[derive(Debug, Clone, Copy, PartialEq, Eq)]
pub enum Event {
    /// A new assignment was computed for `target_session`.
    NewPendingAssignment { random_seed: [u8; 32], full_rotation: bool, target_session: u32 },
}

/// What the rest of the runtime tells the pallet when an assignment is computed.
pub struct AssignmentInputs {
    /// Collators per container chain at the target session.
    pub collators_per_container: u32,
    /// Collators per parathread at the target session.
    pub collators_per_parathread: u32,
    /// Min collators of the orchestrator chain at the target session.
    pub min_orchestrator_collators: u32,
    /// Max collators of the orchestrator chain at the target session.
    pub max_orchestrator_collators: u32,
    /// Number of registered parachains, before the chains without credits are removed.
    pub num_registered_parachains: usize,
    /// Number of registered parathreads, before the chains without credits are removed.
    pub num_registered_parathreads: usize,
    /// The parachains that can produce blocks at the target session.
    pub parachains: Vec<ParaId>,
    /// The parathreads that can produce blocks at the target session.
    pub parathreads: Vec<ParaId>,
    /// Whether all collators rotate at the target session.
    pub full_rotation: bool,
    /// The tip each chain offers, if any.
    pub tips: BTreeMap<ParaId, u128>,
}

/// The assignment computed for the next session, before it is stored.
pub struct AssignmentDecision {
    /// The assignment it was computed from.
    pub old_assigned: AssignedCollators,
    /// The new assignment; the old one when the algorithm failed.
    pub new_assigned: AssignedCollators,
    /// Whether the chains were prioritized by tip.
    pub need_to_charge_tip: bool,
    /// The tip the prioritized chains pay: the lowest tip of the chains that got collators.
    pub maybe_tip: Option<u128>,
    /// The event deposited.
    pub event: Event,
    /// Total number of registered chains, as a weight hint.
    pub num_total_registered_paras: u32,
}

/// Chains with `n` collators each.
pub open spec fn chains_for(ids: Seq<ParaId>, n: u32) -> Seq<ChainNumCollators> {
    ids.map_values(|p: ParaId| ChainNumCollators { para_id: p, min_collators: n, max_collators: n })
}

/// The orchestrator chain as a chain to fill.
pub open spec fn orchestrator_for(pallet: CollatorAssignmentPallet, min: u32, max: u32) -> ChainNumCollators {
    if pallet.force_empty_orchestrator {
        ChainNumCollators { para_id: pallet.self_para_id, min_collators: 0, max_collators: 0 }
    } else {
        ChainNumCollators { para_id: pallet.self_para_id, min_collators: min, max_collators: max }
    }
}

/// The chains in priority order and whether a tip is charged.
pub open spec fn ordered_chains(
    core: Option<CoreAllocationConfiguration>,
    tips: Map<ParaId, u128>,
    min_orchestrator_collators: u32,
    number_of_collators: u32,
    collators_per_container: u32,
    collators_per_parathread: u32,
    parachains: Seq<ParaId>,
    parathreads: Seq<ParaId>,
) -> (Seq<ChainNumCollators>, bool) {
    let bulk = chains_for(parachains, collators_per_container);
    let pool = chains_for(parathreads, collators_per_parathread);
    let enough = enough_collators_spec(
        bulk.len() as int, pool.len() as int, min_orchestrator_collators,
        number_of_collators, collators_per_container, collators_per_parathread,
    );
    match core {
        Some(c) => {
            let max_bulk = crate::perthings::mul_nearest_pref_down(c.core_count as int, c.max_parachain_percentage as int, PERBILL_ONE as int);
            let charge = !(bulk.len() <= max_bulk) || !enough;
            (order_paras_with_core_config_spec(bulk, pool, charge, max_bulk, tips), charge)
        },
        None => (order_paras_spec(bulk, pool, enough, tips), !enough),
    }
}

/// The assignment the algorithm starts from: none when all collators rotate, else the old one.
pub open spec fn start_from(full_rotation: bool, old: (Seq<AccountId>, Map<ParaId, Seq<AccountId>>)) -> (Seq<AccountId>, Map<ParaId, Seq<AccountId>>) {
    if full_rotation { (Seq::empty(), Map::empty()) } else { old }
}

/// The new assignment: what the algorithm gives from `start` with `pool` as the order of new
/// collators, or the old assignment when the algorithm fails.
pub open spec fn outcome<R: RemoveInvulnerables>(
    collators: Seq<AccountId>,
    orchestrator_chain: ChainNumCollators,
    chains: Seq<ChainNumCollators>,
    start: (Seq<AccountId>, Map<ParaId, Seq<AccountId>>),
    old: (Seq<AccountId>, Map<ParaId, Seq<AccountId>>),
    pool: Seq<AccountId>,
) -> (Seq<AccountId>, Map<ParaId, Seq<AccountId>>) {
    match keep_old_spec::<R>(collators, orchestrator_chain, chains, start, pool) {
        Ok(v) => v,
        Err(_) => old,
    }
}

/// The tips of the container chains that got collators.
pub open spec fn tips_of_assigned(m: Map<ParaId, Seq<AccountId>>, tips: Map<ParaId, u128>) -> Set<u128> {
    Set::new(|t: u128| exists|p: ParaId| m.dom().contains(p) && m[p].len() > 0 && tips.dom().contains(p) && #[trigger] tips[p] == t)
}

/// `r` is the least element of `s`, or None when `s` is empty.
pub open spec fn is_least(r: Option<u128>, s: Set<u128>) -> bool {
    match r {
        None => s == Set::<u128>::empty(),
        Some(x) => s.contains(x) && forall|y: u128| #[trigger] s.contains(y) ==> x <= y,
    }
}

/// A seed of zeros only, which disables shuffling.
pub open spec fn zero_seed(seed: [u8; 32]) -> bool {
    forall|i: int| 0 <= i < 32 ==> #[trigger] seed@[i] == 0
}

fn is_zero_seed(seed: &[u8; 32]) -> (r: bool)
    ensures
        r == zero_seed(*seed),
{
    let mut i: usize = 0;
    while i < 32
        invariant
            0 <= i <= 32,
            forall|j: int| 0 <= j < i ==> #[trigger] seed@[j] == 0,
        decreases 32 - i,
    {
        if seed[i] != 0 {
            return false;
        }
        i = i + 1;
    }
    true
}

fn build_chains(ids: &Vec<ParaId>, n: u32) -> (r: Vec<ChainNumCollators>)
    ensures
        r@ == chains_for(ids@, n),
{
    let mut r: Vec<ChainNumCollators> = Vec::new();
    let mut i: usize = 0;
    while i < ids.len()
        invariant
            0 <= i <= ids.len(),
            r@ == chains_for(ids@.take(i as int), n),
        decreases ids.len() - i,
    {
        r.push(ChainNumCollators { para_id: ids[i], min_collators: n, max_collators: n });
        assert(chains_for(ids@.take(i as int + 1), n) =~= chains_for(ids@.take(i as int), n).push(
            ChainNumCollators { para_id: ids@[i as int], min_collators: n, max_collators: n }));
        i = i + 1;
    }
    assert(ids@.take(ids.len() as int) =~= ids@);
    r
}

/// The tips of the chains of `keys` that got collators.
spec fn tips_among(keys: Seq<ParaId>, sm: Map<ParaId, Seq<AccountId>>, tips: Map<ParaId, u128>) -> Set<u128> {
    Set::new(|t: u128| exists|q: ParaId| keys.contains(q) && sm[q].len() > 0
        && tips.dom().contains(q) && #[trigger] tips[q] == t)
}

proof fn lemma_tips_among_push(
    keys: Seq<ParaId>,
    p: ParaId,
    sm: Map<ParaId, Seq<AccountId>>,
    tips: Map<ParaId, u128>,
)
    ensures
        sm[p].len() > 0 && tips.dom().contains(p) ==> tips_among(keys.push(p), sm, tips)
            == tips_among(keys, sm, tips).insert(tips[p]),
        !(sm[p].len() > 0 && tips.dom().contains(p)) ==> tips_among(keys.push(p), sm, tips)
            == tips_among(keys, sm, tips),
{
    let before = tips_among(keys, sm, tips);
    let after = tips_among(keys.push(p), sm, tips);
    assert forall|q: ParaId| keys.push(p).contains(q) <==> (keys.contains(q) || q == p) by {
        vstd::seq_lib::lemma_seq_contains_after_push(keys, p, q);
    }
    if sm[p].len() > 0 && tips.dom().contains(p) {
        assert forall|t: u128| after.contains(t) <==> before.insert(tips[p]).contains(t) by {
            if after.contains(t) {
                let q = choose|q: ParaId| keys.push(p).contains(q) && sm[q].len() > 0
                    && tips.dom().contains(q) && #[trigger] tips[q] == t;
                if q != p {
                    assert(keys.contains(q));
                    assert(before.contains(t));
                }
            }
            if before.contains(t) {
                let q = choose|q: ParaId| keys.contains(q) && sm[q].len() > 0
                    && tips.dom().contains(q) && #[trigger] tips[q] == t;
                assert(keys.push(p).contains(q));
                assert(after.contains(t));
            }
            if t == tips[p] {
                assert(keys.push(p)[keys.len() as int] == p);
                assert(keys.push(p).contains(p));
                assert(after.contains(t));
            }
        }
        assert(after =~= before.insert(tips[p]));
    } else {
        assert forall|t: u128| after.contains(t) <==> before.contains(t) by {
            if after.contains(t) {
                let q = choose|q: ParaId| keys.push(p).contains(q) && sm[q].len() > 0
                    && tips.dom().contains(q) && #[trigger] tips[q] == t;
                assert(q != p);
                assert(keys.contains(q));
                assert(before.contains(t));
            }
            if before.contains(t) {
                let q = choose|q: ParaId| keys.contains(q) && sm[q].len() > 0
                    && tips.dom().contains(q) && #[trigger] tips[q] == t;
                assert(keys.push(p).contains(q));
                assert(after.contains(t));
            }
        }
        assert(after =~= before);
    }
}

/// The lowest tip of the container chains that got collators.
fn min_tip(m: &BTreeMap<ParaId, Vec<AccountId>>, tips: &BTreeMap<ParaId, u128>) -> (r: Option<u128>)
    ensures
        is_least(r, tips_of_assigned(seqs(m@), tips@)),
{
    let keys = map_keys(m);
    let ghost sm = seqs(m@);
    let mut best: Option<u128> = None;
    let mut i: usize = 0;
    proof {
        assert(tips_among(keys@.take(0), sm, tips@) =~= Set::<u128>::empty());
    }
    while i < keys.len()
        invariant
            0 <= i <= keys.len(),
            keys@.to_set() == m@.dom(),
            sm == seqs(m@),
            is_least(best, tips_among(keys@.take(i as int), sm, tips@)),
        decreases keys.len() - i,
    {
        let p = keys[i];
        assert(keys@.to_set().contains(p));
        proof {
            assert(keys@.take(i as int + 1) =~= keys@.take(i as int).push(p));
            lemma_tips_among_push(keys@.take(i as int), p, sm, tips@);
        }
        let v = m.get(&p).unwrap();
        let t = get_tip(tips, p);
        if v.len() > 0 && t.is_some() {
            let tp = t.unwrap();
            best = match best {
                None => Some(tp),
                Some(b) => if tp < b { Some(tp) } else { Some(b) },
            };
        }
        i = i + 1;
    }
    proof {
        assert(keys@.take(keys.len() as int) =~= keys@);
        assert forall|q: ParaId| keys@.contains(q) <==> sm.dom().contains(q) by {
            assert(keys@.to_set().contains(q) == keys@.contains(q));
        }
        assert(tips_among(keys@, sm, tips@) =~= tips_of_assigned(sm, tips@));
    }
    best
}

impl CollatorAssignmentPallet {
    /// Prepares the randomness of the next session when the next block ends the session.
    pub fn prepare_randomness(&mut self, next_block_ends_session: bool, random_seed: [u8; 32])
        ensures
            final(self).randomness == (if next_block_ends_session { random_seed } else { old(self).randomness }),
            final(self).collator_container_chain == old(self).collator_container_chain,
            final(self).pending_collator_container_chain == old(self).pending_collator_container_chain,
            final(self).collator_fullness_ratio == old(self).collator_fullness_ratio,
    {
        if next_block_ends_session {
            self.randomness = random_seed;
        }
    }

    /// Takes the prepared randomness, leaving zeros (which disable shuffling) in its place.
    pub fn take_randomness(&mut self) -> (r: [u8; 32])
        ensures
            r == old(self).randomness,
            zero_seed(final(self).randomness),
            final(self).collator_container_chain == old(self).collator_container_chain,
            final(self).pending_collator_container_chain == old(self).pending_collator_container_chain,
            final(self).collator_fullness_ratio == old(self).collator_fullness_ratio,
    {
        let r = self.randomness;
        self.randomness = [0u8; 32];
        r
    }

    /// Computes the assignment of the target session (the next one). Chains that can produce
    /// blocks are ordered (shuffled with `random_seed` unless it is all zeros, then prioritized
    /// by tip when needed), and the assignment is computed from the pending assignment (or the
    /// current one) keeping old collators where they are; at a full rotation it is computed
    /// anew, as if no collator were assigned. When the algorithm fails the old assignment is
    /// kept.
    pub fn compute_assignment<R: RemoveInvulnerables>(
        &self,
        current_session_index: u32,
        random_seed: [u8; 32],
        collators: Vec<AccountId>,
        inputs: AssignmentInputs,
    ) -> (d: AssignmentDecision)
        requires
            self.core_allocation_configuration matches Some(c) ==> c.max_parachain_percentage <= PERBILL_ONE,
        ensures
            d.old_assigned@ == assignment_for(*self, ForSession::Next),
            d.num_total_registered_paras == ((if inputs.num_registered_parachains + inputs.num_registered_parathreads > usize::MAX {
                usize::MAX as int
            } else {
                inputs.num_registered_parachains + inputs.num_registered_parathreads
            }) as u32),
            d.event == (Event::NewPendingAssignment {
                random_seed,
                full_rotation: inputs.full_rotation,
                target_session: if current_session_index == u32::MAX { u32::MAX } else { (current_session_index + 1) as u32 },
            }),
            is_least(
                d.maybe_tip,
                if d.need_to_charge_tip { tips_of_assigned(d.new_assigned@.1, inputs.tips@) } else { Set::<u128>::empty() },
            ),
            ({
                let orch = orchestrator_for(*self, inputs.min_orchestrator_collators, inputs.max_orchestrator_collators);
                let old = assignment_for(*self, ForSession::Next);
                let start = start_from(inputs.full_rotation, old);
                let n = (collators@.len() as u32);
                let order = |pc: Seq<ParaId>, pt: Seq<ParaId>| ordered_chains(
                    self.core_allocation_configuration, inputs.tips@, inputs.min_orchestrator_collators, n,
                    inputs.collators_per_container, inputs.collators_per_parathread, pc, pt);
                &&& zero_seed(random_seed) ==> {
                    let chains = order(inputs.parachains@, inputs.parathreads@);
                    &&& d.need_to_charge_tip == chains.1
                    &&& d.new_assigned@ == outcome::<R>(collators@, orch, chains.0, start, old,
                        keep_old_pool::<R>(collators@, orch, chains.0, start))
                }
                &&& !zero_seed(random_seed) ==> {
                    let pc = shuffled(random_seed@, Seq::empty(), inputs.parachains@);
                    let pt = shuffled(random_seed@, seq![inputs.parachains@.len() as usize], inputs.parathreads@);
                    let chains = order(pc, pt);
                    let pool = shuffled(
                        random_seed@,
                        seq![inputs.parachains@.len() as usize, inputs.parathreads@.len() as usize],
                        keep_old_pool::<R>(collators@, orch, chains.0, start),
                    );
                    &&& d.need_to_charge_tip == chains.1
                    &&& d.new_assigned@ == outcome::<R>(collators@, orch, chains.0, start, old, pool)
                }
            }),
    {
        let target_session_index = current_session_index.saturating_add(1);
        let num_total_registered_paras = #[verifier::truncate] (inputs.num_registered_parachains.saturating_add(inputs.num_registered_parathreads) as u32);
        let AssignmentInputs {
            collators_per_container,
            collators_per_parathread,
            min_orchestrator_collators,
            max_orchestrator_collators,
            num_registered_parachains: _,
            num_registered_parathreads: _,
            parachains: mut container_chain_ids,
            parathreads: mut parathreads,
            full_rotation,
            tips,
        } = inputs;
        let old_assigned = self.read_assigned_collators();

        let ghost pc0 = container_chain_ids@;
        let ghost pt0 = parathreads@;
        let mut shuffle_collators: Option<SeededRng> = None;
        if !is_zero_seed(&random_seed) {
            let mut rng = SeededRng::new(random_seed);
            rng.shuffle(&mut container_chain_ids);
            rng.shuffle(&mut parathreads);
            assert(rng.lengths() =~= seq![pc0.len() as usize, pt0.len() as usize]);
            shuffle_collators = Some(rng);
        }
        let ghost pc = container_chain_ids@;
        let ghost pt = parathreads@;

        let orchestrator_chain = if self.force_empty_orchestrator {
            ChainNumCollators { para_id: self.self_para_id, min_collators: 0, max_collators: 0 }
        } else {
            ChainNumCollators {
                para_id: self.self_para_id,
                min_collators: min_orchestrator_collators,
                max_collators: max_orchestrator_collators,
            }
        };
        let bulk_paras = build_chains(&container_chain_ids, collators_per_container);
        let pool_paras = build_chains(&parathreads, collators_per_parathread);
        let number_of_collators = #[verifier::truncate] (collators.len() as u32);
        let (chains, need_to_charge_tip) = match &self.core_allocation_configuration {
            Some(core_allocation_configuration) => Self::order_paras_with_core_config(
                bulk_paras,
                pool_paras,
                core_allocation_configuration,
                min_orchestrator_collators,
                number_of_collators,
                collators_per_container,
                collators_per_parathread,
                &tips,
            ),
            None => Self::order_paras(
                bulk_paras,
                pool_paras,
                min_orchestrator_collators,
                number_of_collators,
                collators_per_container,
                collators_per_parathread,
                &tips,
            ),
        };
        let ghost chains_view = chains@;
        let event = Event::NewPendingAssignment {
            random_seed,
            full_rotation,
            target_session: target_session_index,
        };
        let ghost collators_view = collators@;
        let ghost rng_state = shuffle_collators;
        let result = if full_rotation {
            Assignment::assign_collators_rotate_all::<R>(collators, orchestrator_chain, chains, shuffle_collators)
        } else {
            Assignment::assign_collators_always_keep_old::<R>(
                collators,
                orchestrator_chain,
                chains,
                copy_assigned(&old_assigned),
                shuffle_collators,
            )
        };
        let new_assigned = match result {
            Ok(x) => x,
            Err(_) => copy_assigned(&old_assigned),
        };
        let maybe_tip = if !need_to_charge_tip {
            proof {
                assert(Set::<u128>::empty() == Set::<u128>::empty());
            }
            None
        } else {
            min_tip(&new_assigned.container_chains, &tips)
        };
        proof {
            let orch = orchestrator_chain;
            let old = old_assigned@;
            let start = start_from(full_rotation, old);
            if !zero_seed(random_seed) {
                assert(rng_state is Some);
                assert(maybe_shuffled(rng_state, keep_old_pool::<R>(collators_view, orch, chains_view, start)) == shuffled(
                    random_seed@,
                    seq![pc0.len() as usize, pt0.len() as usize],
                    keep_old_pool::<R>(collators_view, orch, chains_view, start),
                ));
            }
        }
        AssignmentDecision {
            old_assigned,
            new_assigned,
            need_to_charge_tip,
            maybe_tip,
            event,
            num_total_registered_paras,
        }
    }

    /// Stores the assignment computed for the next session (after the hooks of the rest of the
    /// runtime had their say on it) and rotates the stored assignments: the pending assignment,
    /// if any, becomes the current one, and the new assignment becomes pending when it differs
    /// from the one it was computed from. At session 0 the new assignment is also current.
    pub fn apply_assignment(
        &mut self,
        current_session_index: u32,
        old_assigned: AssignedCollators,
        new_assigned: AssignedCollators,
        max_collators: u32,
        num_total_registered_paras: u32,
    ) -> (r: SessionChangeOutcome)
        ensures
            final(self).self_para_id == old(self).self_para_id,
            final(self).force_empty_orchestrator == old(self).force_empty_orchestrator,
            final(self).core_allocation_configuration == old(self).core_allocation_configuration,
            final(self).randomness == old(self).randomness,
            ({
                let total = new_assigned@.0.len() + map_total(new_assigned@.1);
                let counted = if total > usize::MAX { usize::MAX as int } else { total };
                let as_u32 = (counted as u32) as int;
                let num = if as_u32 > max_collators { max_collators as int } else { as_u32 };
                final(self).collator_fullness_ratio == Some(
                    if max_collators == 0 || num > max_collators { PERBILL_ONE } else { ((num * PERBILL_ONE) / (max_collators as int)) as u32 },
                )
            }),
            final(self).collator_container_chain@ == (if current_session_index == 0 {
                new_assigned@
            } else {
                match old(self).pending_collator_container_chain {
                    Some(p) => p@,
                    None => old(self).collator_container_chain@,
                }
            }),
            (final(self).pending_collator_container_chain is Some) == (old_assigned@ != new_assigned@),
            final(self).pending_collator_container_chain matches Some(p) ==> p@ == new_assigned@,
            r.active_assignment@ == (if current_session_index == 0 { new_assigned@ } else { old_assigned@ }),
            r.next_assignment@ == new_assigned@,
            r.num_total_registered_paras == num_total_registered_paras,
            current_session_index == 0 ==> r.active_assignment@ == r.next_assignment@
                && final(self).collator_container_chain@ == r.next_assignment@,
    {
        self.store_collator_fullness(&new_assigned, max_collators);
        let old_assigned_changed = !same_assignment(&old_assigned, &new_assigned);
        let pending = self.pending_collator_container_chain.take();
        if let Some(current) = pending {
            self.collator_container_chain = current;
        }
        if old_assigned_changed {
            self.pending_collator_container_chain = Some(copy_assigned(&new_assigned));
        }
        if current_session_index == 0 {
            self.collator_container_chain = copy_assigned(&new_assigned);
            return SessionChangeOutcome {
                active_assignment: copy_assigned(&new_assigned),
                next_assignment: new_assigned,
                num_total_registered_paras,
            };
        }
        SessionChangeOutcome { active_assignment: old_assigned, next_assignment: new_assigned, num_total_registered_paras }
    }
}

} // verus!
