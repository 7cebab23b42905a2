//! Authority bookkeeping: the authority key of each collator per session, and the assignment of
//! authority keys to chains per session.

use vstd::prelude::*;
use std::collections::BTreeMap;
use crate::assignment::{AccountId, AssignedCollators, ParaId};
use crate::maps::{lemma_seqs_insert, map_keys, seqs};

verus! {

/// Identifier of an authority key (the key a collator signs blocks with).
pub type AuthorityId = u64;

/// The key-to-account map built from `authorities`: each pair inserted in order, so a later
/// pair overrides an earlier pair with the same key.
pub open spec fn key_map(authorities: Seq<(AccountId, AuthorityId)>) -> Map<AuthorityId, AccountId>
    decreases authorities.len(),
{
    if authorities.len() == 0 {
        Map::empty()
    } else {
        key_map(authorities.drop_last()).insert(authorities.last().1, authorities.last().0)
    }
}

/// The authority-id mapping as maps.
pub open spec fn mapping_view(m: Map<u32, BTreeMap<AuthorityId, AccountId>>) -> Map<u32, Map<AuthorityId, AccountId>> {
    Map::new(|k: u32| m.dom().contains(k), |k: u32| m[k]@)
}

/// State of the authority mapping pallet.
pub struct AuthorityMapping {
    /// Sessions after which keys should be removed.
    pub session_removal_boundary: u32,
    /// The authority key to account map of each session.
    pub authority_id_mapping: BTreeMap<u32, BTreeMap<AuthorityId, AccountId>>,
}

impl AuthorityMapping {
    /// An empty mapping.
    pub fn new(session_removal_boundary: u32) -> (r: Self)
        ensures
            r.session_removal_boundary == session_removal_boundary,
            mapping_view(r.authority_id_mapping@) == Map::<u32, Map<AuthorityId, AccountId>>::empty(),
    {
        let r = AuthorityMapping { session_removal_boundary, authority_id_mapping: BTreeMap::new() };
        assert(mapping_view(r.authority_id_mapping@) =~= Map::<u32, Map<AuthorityId, AccountId>>::empty());
        r
    }

    /// Records the keys of `session_index`, and forgets those of the session
    /// `session_removal_boundary` sessions earlier (when there is one).
    pub fn initializer_on_new_session(&mut self, session_index: u32, authorities: &[(AccountId, AuthorityId)])
        ensures
            final(self).session_removal_boundary == old(self).session_removal_boundary,
            mapping_view(final(self).authority_id_mapping@) == (if session_index >= old(self).session_removal_boundary {
                mapping_view(old(self).authority_id_mapping@).remove((session_index - old(self).session_removal_boundary) as u32)
            } else {
                mapping_view(old(self).authority_id_mapping@)
            }).insert(session_index, key_map(authorities@)),
    {
        let ghost m0 = mapping_view(self.authority_id_mapping@);
        if let Some(session_index_to_remove) = session_index.checked_sub(self.session_removal_boundary) {
            self.authority_id_mapping.remove(&session_index_to_remove);
            assert(mapping_view(self.authority_id_mapping@) =~= m0.remove(session_index_to_remove));
        }
        let ghost m1 = mapping_view(self.authority_id_mapping@);
        let mut assignation: BTreeMap<AuthorityId, AccountId> = BTreeMap::new();
        let mut i: usize = 0;
        while i < authorities.len()
            invariant
                0 <= i <= authorities.len(),
                assignation@ == key_map(authorities@.take(i as int)),
            decreases authorities.len() - i,
        {
            let (a, b) = authorities[i];
            assignation.insert(b, a);
            assert(authorities@.take(i as int + 1).drop_last() =~= authorities@.take(i as int));
            i = i + 1;
        }
        assert(authorities@.take(authorities.len() as int) =~= authorities@);
        self.authority_id_mapping.insert(session_index, assignation);
        assert(mapping_view(self.authority_id_mapping@) =~= m1.insert(session_index, key_map(authorities@)));
    }

    /// The key-to-account map recorded for `session_index`.
    pub fn authority_id_mapping(&self, session_index: u32) -> (r: Option<&BTreeMap<AuthorityId, AccountId>>)
        ensures
            match r {
                Some(m) => mapping_view(self.authority_id_mapping@).dom().contains(session_index)
                    && m@ == mapping_view(self.authority_id_mapping@)[session_index],
                None => !mapping_view(self.authority_id_mapping@).dom().contains(session_index),
            },
    {
        self.authority_id_mapping.get(&session_index)
    }
}

/// An assignment in which every account is replaced by its key in `keys`.
pub open spec fn mapped_view(
    a: (Seq<AccountId>, Map<ParaId, Seq<AccountId>>),
    keys: Map<AccountId, AuthorityId>,
) -> (Seq<AuthorityId>, Map<ParaId, Seq<AuthorityId>>) {
    (
        a.0.map_values(|c: AccountId| keys[c]),
        a.1.map_values(|v: Seq<AccountId>| v.map_values(|c: AccountId| keys[c])),
    )
}

/// Every account of the assignment has a key in `keys`.
pub open spec fn all_have_keys(a: (Seq<AccountId>, Map<ParaId, Seq<AccountId>>), keys: Map<AccountId, AuthorityId>) -> bool {
    &&& forall|i: int| 0 <= i < a.0.len() ==> keys.dom().contains(#[trigger] a.0[i])
    &&& forall|p: ParaId, i: int| a.1.dom().contains(p) && 0 <= i < a.1[p].len() ==> keys.dom().contains(#[trigger] a.1[p][i])
}

fn map_accounts(v: &Vec<AccountId>, keys: &BTreeMap<AccountId, AuthorityId>) -> (r: Vec<AuthorityId>)
    requires
        forall|i: int| 0 <= i < v@.len() ==> keys@.dom().contains(#[trigger] v@[i]),
    ensures
        r@ == v@.map_values(|c: AccountId| keys@[c]),
{
    let mut r: Vec<AuthorityId> = Vec::new();
    let mut i: usize = 0;
    while i < v.len()
        invariant
            0 <= i <= v.len(),
            forall|j: int| 0 <= j < v@.len() ==> keys@.dom().contains(#[trigger] v@[j]),
            r@ == v@.take(i as int).map_values(|c: AccountId| keys@[c]),
        decreases v.len() - i,
    {
        let k = *keys.get(&v[i]).unwrap();
        r.push(k);
        assert(v@.take(i as int + 1).map_values(|c: AccountId| keys@[c]) =~= v@.take(i as int).map_values(|c: AccountId| keys@[c]).push(keys@[v@[i as int]]));
        i = i + 1;
    }
    assert(v@.take(v.len() as int) =~= v@);
    r
}

/// The assignment with every account replaced by its authority key. Every account
/// must have a key: a missing one is a fault of the runtime.
pub fn map_assignment(a: &AssignedCollators, keys: &BTreeMap<AccountId, AuthorityId>) -> (r: AssignedCollators)
    requires
        all_have_keys(a@, keys@),
    ensures
        r@ == mapped_view(a@, keys@),
{
    let orchestrator_chain = map_accounts(&a.orchestrator_chain, keys);
    let ks = map_keys(&a.container_chains);
    let mut container_chains: BTreeMap<ParaId, Vec<AuthorityId>> = BTreeMap::new();
    let ghost target = mapped_view(a@, keys@).1;
    let mut i: usize = 0;
    while i < ks.len()
        invariant
            0 <= i <= ks.len(),
            ks@.to_set() == a.container_chains@.dom(),
            all_have_keys(a@, keys@),
            target == mapped_view(a@, keys@).1,
            seqs(container_chains@) == target.restrict(ks@.take(i as int).to_set()),
        decreases ks.len() - i,
    {
        let p = ks[i];
        assert(ks@.to_set().contains(p));
        let v = a.container_chains.get(&p).unwrap();
        assert(seqs(a.container_chains@)[p] == v@);
        let mapped = map_accounts(v, keys);
        proof {
            lemma_seqs_insert(container_chains@, p, mapped);
            assert(ks@.take(i as int + 1) =~= ks@.take(i as int).push(p));
            ks@.take(i as int).lemma_push_to_set_commute(p);
        }
        container_chains.insert(p, mapped);
        assert(seqs(container_chains@) =~= target.restrict(ks@.take(i as int + 1).to_set()));
        i = i + 1;
    }
    assert(ks@.take(ks.len() as int) =~= ks@);
    assert(seqs(container_chains@) =~= target);
    AssignedCollators { orchestrator_chain, container_chains }
}

/// The per-session assignments, seen through the view of each assignment.
pub open spec fn assignments_view(m: Map<u32, AssignedCollators>) -> Map<u32, (Seq<AuthorityId>, Map<ParaId, Seq<AuthorityId>>)> {
    Map::new(|k: u32| m.dom().contains(k), |k: u32| m[k]@)
}

/// State of the authority assignment pallet.
pub struct AuthorityAssignment {
    /// The chain assignment of authority keys, per session.
    pub collator_container_chain: BTreeMap<u32, AssignedCollators>,
}

impl AuthorityAssignment {
    /// No assignment yet.
    pub fn new() -> (r: Self)
        ensures
            assignments_view(r.collator_container_chain@) == Map::<u32, (Seq<AuthorityId>, Map<ParaId, Seq<AuthorityId>>)>::empty(),
    {
        let r = AuthorityAssignment { collator_container_chain: BTreeMap::new() };
        assert(assignments_view(r.collator_container_chain@) =~= Map::<u32, (Seq<AuthorityId>, Map<ParaId, Seq<AuthorityId>>)>::empty());
        r
    }

    /// Records the key assignment of the next session. At session 0 it is recorded for sessions
    /// 0 and 1; later, the assignment of the previous session is dropped and the new one is
    /// recorded for the next session.
    pub fn assign_collators(
        &mut self,
        current_session_index: u32,
        queued_id_to_nimbus_map: &BTreeMap<AccountId, AuthorityId>,
        next_collator_assignment: &AssignedCollators,
    )
        requires
            all_have_keys(next_collator_assignment@, queued_id_to_nimbus_map@),
        ensures
            ({
                let next = mapped_view(next_collator_assignment@, queued_id_to_nimbus_map@);
                let m0 = assignments_view(old(self).collator_container_chain@);
                assignments_view(final(self).collator_container_chain@) == (if current_session_index == 0 {
                    m0.insert(0, next).insert(1, next)
                } else {
                    m0.remove((current_session_index - 1) as u32).insert(
                        if current_session_index == u32::MAX { u32::MAX } else { (current_session_index + 1) as u32 },
                        next,
                    )
                })
            }),
    {
        let ghost m0 = assignments_view(self.collator_container_chain@);
        let next_nimbus_assignment = map_assignment(next_collator_assignment, queued_id_to_nimbus_map);
        let ghost next = next_nimbus_assignment@;
        if current_session_index == 0 {
            let copy = AssignedCollators {
                orchestrator_chain: next_nimbus_assignment.orchestrator_chain.clone(),
                container_chains: next_nimbus_assignment.container_chains.clone(),
            };
            assert(copy.orchestrator_chain@ =~= next.0);
            assert(copy@ == next);
            self.collator_container_chain.insert(0, copy);
            self.collator_container_chain.insert(1, next_nimbus_assignment);
            assert(assignments_view(self.collator_container_chain@) =~= m0.insert(0, next).insert(1, next));
            return;
        }
        self.collator_container_chain.remove(&current_session_index.saturating_sub(1));
        self.collator_container_chain.insert(current_session_index.saturating_add(1), next_nimbus_assignment);
        assert(assignments_view(self.collator_container_chain@) =~= m0.remove((current_session_index - 1) as u32).insert(
            if current_session_index == u32::MAX { u32::MAX } else { (current_session_index + 1) as u32 },
            next,
        ));
    }

    /// Called on a new session: records the key assignment of the next session.
    pub fn initializer_on_new_session(
        &mut self,
        current_session_index: u32,
        queued_id_to_nimbus_map: &BTreeMap<AccountId, AuthorityId>,
        next_collator_assignment: &AssignedCollators,
    )
        requires
            all_have_keys(next_collator_assignment@, queued_id_to_nimbus_map@),
        ensures
            ({
                let next = mapped_view(next_collator_assignment@, queued_id_to_nimbus_map@);
                let m0 = assignments_view(old(self).collator_container_chain@);
                assignments_view(final(self).collator_container_chain@) == (if current_session_index == 0 {
                    m0.insert(0, next).insert(1, next)
                } else {
                    m0.remove((current_session_index - 1) as u32).insert(
                        if current_session_index == u32::MAX { u32::MAX } else { (current_session_index + 1) as u32 },
                        next,
                    )
                })
            }),
    {
        self.assign_collators(current_session_index, queued_id_to_nimbus_map, next_collator_assignment)
    }
}

} // verus!
