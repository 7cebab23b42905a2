//! Data preservers: profiles of the nodes that keep the data of container chains (boot nodes and
//! RPC nodes), the deposit held for each profile, and the assignment of profiles to chains.
//!
//! As for any dispatchable of the runtime, a call that fails is rolled back by its caller: the
//! functions below never leave the pallet changed when they fail, and the deposits held or
//! released before the failure are undone with the rest of the call.

use vstd::prelude::*;
use std::collections::{BTreeMap, BTreeSet};
use crate::assignment::{AccountId, ParaId};
use crate::origin::Origin;
use vstd::std_specs::iter::IteratorSpec;

verus! {

/// Identifier of a profile.
pub type ProfileId = u64;

/// Amount of the runtime's currency.
pub type Balance = u128;

/// Which chains a profile may be assigned to.
pub enum ParaIdsFilter {
    AnyParaId,
    Whitelist(BTreeSet<ParaId>),
    Blacklist(BTreeSet<ParaId>),
}

impl ParaIdsFilter {
    /// Whether the filter lets `para_id` through.
    pub open spec fn allows(&self, para_id: ParaId) -> bool {
        match self {
            ParaIdsFilter::AnyParaId => true,
            ParaIdsFilter::Whitelist(list) => list@.contains(para_id),
            ParaIdsFilter::Blacklist(list) => !list@.contains(para_id),
        }
    }

    /// Number of para ids listed by the filter.
    pub open spec fn listed(&self) -> nat {
        match self {
            ParaIdsFilter::AnyParaId => 0,
            ParaIdsFilter::Whitelist(list) => list@.len(),
            ParaIdsFilter::Blacklist(list) => list@.len(),
        }
    }

    /// Number of para ids listed by the filter.
    #[allow(clippy::len_without_is_empty)]
    pub fn len(&self) -> (r: usize)
        ensures
            r == self.listed(),
    {
        broadcast use vstd::std_specs::btree::group_btree_axioms;
        match self {
            ParaIdsFilter::AnyParaId => 0,
            ParaIdsFilter::Whitelist(list) => list.len(),
            ParaIdsFilter::Blacklist(list) => list.len(),
        }
    }

    /// Whether a profile with this filter may be assigned to `para_id`.
    pub fn can_assign(&self, para_id: &ParaId) -> (r: bool)
        ensures
            r == self.allows(*para_id),
    {
        match self {
            ParaIdsFilter::AnyParaId => true,
            ParaIdsFilter::Whitelist(list) => list.contains(para_id),
            ParaIdsFilter::Blacklist(list) => !list.contains(para_id),
        }
    }
}

/// What a profile offers.
#[derive(Debug, Clone, Copy, PartialEq, Eq, Structural)]
pub enum ProfileMode {
    Bootnode,
    Rpc { supports_ethereum_rpcs: bool },
}

/// Data preserver profile. `Req` is the kind of payment the provider asks for.
pub struct Profile<Req> {
    pub url: Vec<u8>,
    pub para_ids: ParaIdsFilter,
    pub mode: ProfileMode,
    pub assignment_request: Req,
}

/// Profile with additional data: the account which created (and manages) the profile, the
/// amount deposited to register it, and its assignment (at most one) with the witness of its
/// payment.
pub struct RegisteredProfile<Req, W> {
    pub account: AccountId,
    pub deposit: Balance,
    pub profile: Profile<Req>,
    pub assignment: Option<(ParaId, W)>,
}

/// Errors of the pallet.
#[derive(Debug, Clone, Copy, PartialEq, Eq, Structural)]
pub enum Error {
    /// This container chain does not have any boot nodes
    NoBootNodes,
    UnknownProfileId,
    NextProfileIdShouldBeAvailable,
    /// Made for `AssignmentProcessor` implementors to report a mismatch between
    /// `ProviderRequest` and `AssignerParameter`.
    AssignmentPaymentRequestParameterMismatch,
    ProfileAlreadyAssigned,
    ProfileNotAssigned,
    ProfileIsNotElligibleForParaId,
    WrongParaId,
    MaxAssignmentsPerParaIdReached,
    CantDeleteAssignedProfile,
}

/// Why a call failed: an error of this pallet, or one of the runtime.
#[derive(Debug, Clone, Copy, PartialEq, Eq, Structural)]
pub enum DispatchError {
    /// The origin may not make this call.
    BadOrigin,
    /// An arithmetic overflow.
    Overflow,
    /// The account cannot pay the deposit.
    FundsUnavailable,
    /// An error of this pallet.
    Module(Error),
    /// Another error of the runtime, by its index.
    Other(u32),
}

/// Events of the pallet.
#[derive(Debug, Clone, Copy, PartialEq, Eq, Structural)]
pub enum Event {
    /// The list of boot nodes changed.
    BootNodesChanged { para_id: ParaId },
    ProfileCreated { account: AccountId, profile_id: ProfileId, deposit: Balance },
    ProfileUpdated { profile_id: ProfileId, old_deposit: Balance, new_deposit: Balance },
    ProfileDeleted { profile_id: ProfileId, released_deposit: Balance },
    AssignmentStarted { profile_id: ProfileId, para_id: ParaId },
    AssignmentStopped { profile_id: ProfileId, para_id: ParaId },
}

/// Why funds are held.
#[derive(Debug, Clone, Copy, PartialEq, Eq, Structural)]
pub enum HoldReason {
    ProfileDeposit,
}

/// The state of an assignment, as the runtime reports it.
#[derive(Debug, Clone, Copy, PartialEq, Eq, Structural)]
pub enum Assignment {
    /// Profile is not currently assigned.
    NotAssigned,
    /// Profile is actively assigned to this ParaId.
    Active(ParaId),
    /// Profile is assigned to this ParaId but is inactive for some reason.
    Inactive(ParaId),
}

/// A call the pallet made to the currency that holds deposits, with what it answered.
pub enum DepositCall {
    Hold { who: AccountId, amount: Balance, result: Result<(), DispatchError> },
    Release { who: AccountId, amount: Balance, result: Result<(), DispatchError> },
}

/// What the currency answered to `c`.
pub open spec fn answer(c: DepositCall) -> Result<(), DispatchError> {
    match c {
        DepositCall::Hold { result, .. } => result,
        DepositCall::Release { result, .. } => result,
    }
}

/// The call `c`, with the answer `r`.
pub open spec fn with_answer(c: DepositCall, r: Result<(), DispatchError>) -> DepositCall {
    match c {
        DepositCall::Hold { who, amount, .. } => DepositCall::Hold { who, amount, result: r },
        DepositCall::Release { who, amount, .. } => DepositCall::Release { who, amount, result: r },
    }
}

/// `after` is `before` with one more call: `call`, whatever the currency answered.
pub open spec fn one_call(before: Seq<DepositCall>, after: Seq<DepositCall>, call: DepositCall) -> bool {
    &&& after.len() == before.len() + 1
    &&& after.drop_last() == before
    &&& after.last() == with_answer(call, answer(after.last()))
}

/// The hold or release that moves a deposit from `old_deposit` to `new_deposit` for `who`.
pub open spec fn deposit_change(who: AccountId, old_deposit: Balance, new_deposit: Balance) -> DepositCall {
    if new_deposit >= old_deposit {
        DepositCall::Hold { who, amount: (new_deposit - old_deposit) as Balance, result: Ok(()) }
    } else {
        DepositCall::Release { who, amount: (old_deposit - new_deposit) as Balance, result: Ok(()) }
    }
}

/// The currency that holds deposits, which the runtime provides.
pub trait DepositCurrency {
    /// Holds `amount` of the free balance of `who`.
    fn hold(&mut self, reason: HoldReason, who: AccountId, amount: Balance) -> Result<(), DispatchError>;

    /// Releases exactly `amount` held from `who`.
    fn release(&mut self, reason: HoldReason, who: AccountId, amount: Balance) -> Result<(), DispatchError>;
}

/// Processes the payment of assignments, which the runtime provides.
pub trait AssignmentProcessor {
    /// The kind of payment a provider accepts.
    type ProviderRequest;
    /// Extra parameter the assigner provides.
    type AssignerParameter;
    /// The successful outcome of an assignment.
    type AssignmentWitness;

    /// Starts the payment of an assignment of `provider`'s profile requested by `assigner`.
    fn try_start_assignment(
        &mut self,
        assigner: AccountId,
        provider: AccountId,
        request: &Self::ProviderRequest,
        extra: Self::AssignerParameter,
    ) -> Result<Self::AssignmentWitness, DispatchError>;

    /// Stops the payment of the assignment whose witness is `witness`.
    fn try_stop_assignment(&mut self, provider: AccountId, witness: &Self::AssignmentWitness) -> Result<(), DispatchError>;
}

/// Who stops an assignment: the root or the manager of the chain, or a signed account.
#[derive(Debug, Clone, Copy, PartialEq, Eq, Structural)]
pub enum StopCaller {
    Privileged,
    Signed(AccountId),
}

/// The profile ids assigned to each chain, as sets.
pub open spec fn assignment_sets(m: Map<ParaId, BTreeSet<ProfileId>>) -> Map<ParaId, Set<ProfileId>> {
    Map::new(|p: ParaId| m.dom().contains(p), |p: ParaId| m[p]@)
}

/// The profile ids assigned to `para_id` (none when it has no entry).
pub open spec fn assigned_to(m: Map<ParaId, Set<ProfileId>>, para_id: ParaId) -> Set<ProfileId> {
    if m.dom().contains(para_id) { m[para_id] } else { Set::empty() }
}

/// State of the data preservers pallet.
pub struct Pallet<Req, W> {
    /// Most profiles assigned to one chain.
    pub max_assignments_per_para_id: u32,
    /// The registered profiles.
    pub profiles: BTreeMap<ProfileId, RegisteredProfile<Req, W>>,
    /// The id of the next profile.
    pub next_profile_id: ProfileId,
    /// The profiles assigned to each chain.
    pub assignments: BTreeMap<ParaId, BTreeSet<ProfileId>>,
    /// Events deposited so far.
    pub events: Vec<Event>,
    /// Every payment start asked of the assignment processor so far, in order: the assigner, the
    /// provider, the provider's request, and the processor's answer.
    pub payment_starts: Ghost<Seq<(AccountId, AccountId, Req, Result<W, DispatchError>)>>,
    /// Every payment stop asked of the assignment processor so far, in order: the provider,
    /// the witness of the assignment, and the processor's answer.
    pub payment_stops: Ghost<Seq<(AccountId, W, Result<(), DispatchError>)>>,
    /// Every hold or release of a deposit asked of the currency so far, in order, with its
    /// answer.
    pub deposit_calls: Ghost<Seq<DepositCall>>,
}

impl<Req, W> Pallet<Req, W> {
    /// The profile ids assigned to each chain.
    pub open spec fn assignment_view(&self) -> Map<ParaId, Set<ProfileId>> {
        assignment_sets(self.assignments@)
    }

    /// The same pallet: same profiles, same assignments, same events.
    pub open spec fn same(&self, other: &Self) -> bool {
        &&& self.max_assignments_per_para_id == other.max_assignments_per_para_id
        &&& self.profiles@ == other.profiles@
        &&& self.next_profile_id == other.next_profile_id
        &&& self.assignment_view() == other.assignment_view()
        &&& self.events@ == other.events@
    }

    /// Why creating a profile at the next id would fail, if it would.
    pub open spec fn create_error(&self) -> Option<DispatchError> {
        if self.next_profile_id == u64::MAX {
            Some(DispatchError::Overflow)
        } else if self.profiles@.contains_key(self.next_profile_id) {
            Some(DispatchError::Module(Error::NextProfileIdShouldBeAvailable))
        } else {
            None
        }
    }

    /// `after` is `before` with `profile` registered at the next id for `account` with `deposit`.
    pub open spec fn created(before: &Self, after: &Self, profile: Profile<Req>, account: AccountId, deposit: Balance) -> bool {
        let id = before.next_profile_id;
        &&& after.max_assignments_per_para_id == before.max_assignments_per_para_id
        &&& after.next_profile_id == id + 1
        &&& after.profiles@ == before.profiles@.insert(
            id,
            RegisteredProfile { account, deposit, profile, assignment: None },
        )
        &&& after.assignment_view() == before.assignment_view()
        &&& after.events@ == before.events@.push(Event::ProfileCreated { account, profile_id: id, deposit })
    }

    /// An empty pallet.
    pub fn new(max_assignments_per_para_id: u32) -> (r: Self)
        ensures
            r.max_assignments_per_para_id == max_assignments_per_para_id,
            r.profiles@ == Map::<ProfileId, RegisteredProfile<Req, W>>::empty(),
            r.next_profile_id == 0,
            r.assignment_view() == Map::<ParaId, Set<ProfileId>>::empty(),
            r.events@ == Seq::<Event>::empty(),
            r.payment_starts@ == Seq::<(AccountId, AccountId, Req, Result<W, DispatchError>)>::empty(),
            r.payment_stops@ == Seq::<(AccountId, W, Result<(), DispatchError>)>::empty(),
            r.deposit_calls@ == Seq::<DepositCall>::empty(),
    {
        let r = Pallet {
            max_assignments_per_para_id,
            profiles: BTreeMap::new(),
            next_profile_id: 0,
            assignments: BTreeMap::new(),
            events: Vec::new(),
            payment_starts: Ghost(Seq::empty()),
            payment_stops: Ghost(Seq::empty()),
            deposit_calls: Ghost(Seq::empty()),
        };
        assert(r.assignment_view() =~= Map::<ParaId, Set<ProfileId>>::empty());
        r
    }

    /// Registers `profile` at the next id, for `account`, with `deposit` held.
    fn do_create_profile(&mut self, profile: Profile<Req>, account: AccountId, deposit: Balance) -> (res: Result<(), DispatchError>)
        ensures
            match old(self).create_error() {
                Some(e) => res == Err::<(), DispatchError>(e) && final(self).same(old(self)),
                None => res is Ok && Self::created(old(self), final(self), profile, account, deposit),
            },
            final(self).deposit_calls@ == old(self).deposit_calls@,
    {
        let id = self.next_profile_id;
        let next = match id.checked_add(1) {
            Some(n) => n,
            None => {
                return Err(DispatchError::Overflow);
            },
        };
        if self.profiles.contains_key(&id) {
            return Err(DispatchError::Module(Error::NextProfileIdShouldBeAvailable));
        }
        self.next_profile_id = next;
        self.profiles.insert(id, RegisteredProfile { account, deposit, profile, assignment: None });
        self.events.push(Event::ProfileCreated { account, profile_id: id, deposit });
        Ok(())
    }

    /// Creates a profile for the signed caller, holding `deposit` (the deposit the runtime asks
    /// for this profile, or why it could not compute it) from the caller.
    pub fn create_profile<C: DepositCurrency>(
        &mut self,
        origin: Origin,
        profile: Profile<Req>,
        deposit: Result<Balance, DispatchError>,
        currency: &mut C,
    ) -> (res: Result<(), DispatchError>)
        ensures
            res is Err ==> final(self).same(old(self)),
            !(origin is Signed) ==> res == Err::<(), DispatchError>(DispatchError::BadOrigin)
                && final(self).deposit_calls@ == old(self).deposit_calls@,
            origin is Signed ==> match deposit {
                Err(e) => res == Err::<(), DispatchError>(e) && final(self).deposit_calls@ == old(self).deposit_calls@,
                Ok(d) => {
                    let held = answer(final(self).deposit_calls@.last());
                    &&& one_call(old(self).deposit_calls@, final(self).deposit_calls@,
                        DepositCall::Hold { who: origin->Signed_0, amount: d, result: Ok(()) })
                    &&& held is Err ==> res == held
                    &&& held is Ok ==> match old(self).create_error() {
                        Some(e) => res == Err::<(), DispatchError>(e),
                        None => res is Ok && Self::created(old(self), final(self), profile, origin->Signed_0, d),
                    }
                },
            },
    {
        let account = match origin {
            Origin::Signed(a) => a,
            _ => {
                return Err(DispatchError::BadOrigin);
            },
        };
        let deposit = match deposit {
            Ok(d) => d,
            Err(e) => {
                return Err(e);
            },
        };
        let held = currency.hold(HoldReason::ProfileDeposit, account, deposit);
        self.deposit_calls = Ghost(self.deposit_calls@.push(DepositCall::Hold { who: account, amount: deposit, result: held }));
        proof {
            assert(self.deposit_calls@.drop_last() =~= old(self).deposit_calls@);
        }
        match held {
            Ok(()) => {},
            Err(e) => {
                return Err(e);
            },
        }
        self.do_create_profile(profile, account, deposit)
    }

    /// Creates a profile for `for_account`, with no deposit, from the root origin.
    pub fn force_create_profile(&mut self, origin: Origin, profile: Profile<Req>, for_account: AccountId) -> (res: Result<(), DispatchError>)
        ensures
            origin != Origin::Root ==> res == Err::<(), DispatchError>(DispatchError::BadOrigin) && final(self).same(old(self)),
            origin == Origin::Root ==> match old(self).create_error() {
                Some(e) => res == Err::<(), DispatchError>(e) && final(self).same(old(self)),
                None => res is Ok && Self::created(old(self), final(self), profile, for_account, 0),
            },
            final(self).deposit_calls@ == old(self).deposit_calls@,
    {
        match origin {
            Origin::Root => self.do_create_profile(profile, for_account, 0),
            _ => Err(DispatchError::BadOrigin),
        }
    }
}

impl<Req, W> Pallet<Req, W> {
    /// `after` is `before` with the profile `id` replaced by `profile` and its deposit by
    /// `deposit`; its owner and assignment stay.
    pub open spec fn updated(before: &Self, after: &Self, id: ProfileId, profile: Profile<Req>, deposit: Balance) -> bool {
        let existing = before.profiles@[id];
        &&& after.max_assignments_per_para_id == before.max_assignments_per_para_id
        &&& after.next_profile_id == before.next_profile_id
        &&& after.profiles@ == before.profiles@.insert(
            id,
            RegisteredProfile { account: existing.account, deposit, profile, assignment: existing.assignment },
        )
        &&& after.assignment_view() == before.assignment_view()
        &&& after.events@ == before.events@.push(
            Event::ProfileUpdated { profile_id: id, old_deposit: existing.deposit, new_deposit: deposit },
        )
    }

    /// `after` is `before` without the profile `id`.
    pub open spec fn deleted(before: &Self, after: &Self, id: ProfileId) -> bool {
        &&& after.max_assignments_per_para_id == before.max_assignments_per_para_id
        &&& after.next_profile_id == before.next_profile_id
        &&& after.profiles@ == before.profiles@.remove(id)
        &&& after.assignment_view() == before.assignment_view()
        &&& after.events@ == before.events@.push(
            Event::ProfileDeleted { profile_id: id, released_deposit: before.profiles@[id].deposit },
        )
    }

    /// What deleting the profile `id` leads to: its deposit is released from its owner, and
    /// the profile is deleted when the currency accepts the release; otherwise the call fails
    /// with the currency's answer.
    pub open spec fn delete_made(before: &Self, after: &Self, id: ProfileId, res: Result<(), DispatchError>) -> bool {
        let existing = before.profiles@[id];
        let released = answer(after.deposit_calls@.last());
        &&& one_call(before.deposit_calls@, after.deposit_calls@,
            DepositCall::Release { who: existing.account, amount: existing.deposit, result: Ok(()) })
        &&& released is Err ==> res == released
        &&& released is Ok ==> res is Ok && Self::deleted(before, after, id)
    }

    /// Replaces the profile `id` and its deposit, keeping its owner and assignment.
    fn replace_profile(&mut self, id: ProfileId, profile: Profile<Req>, deposit: Balance)
        requires
            old(self).profiles@.contains_key(id),
        ensures
            Self::updated(old(self), final(self), id, profile, deposit),
            final(self).deposit_calls@ == old(self).deposit_calls@,
    {
        let existing = self.profiles.remove(&id).unwrap();
        let old_deposit = existing.deposit;
        let RegisteredProfile { account, deposit: _, profile: _, assignment } = existing;
        self.profiles.insert(id, RegisteredProfile { account, deposit, profile, assignment });
        self.events.push(Event::ProfileUpdated { profile_id: id, old_deposit, new_deposit: deposit });
        assert(self.profiles@ =~= old(self).profiles@.insert(
            id,
            RegisteredProfile { account, deposit, profile, assignment },
        ));
    }

    /// Removes the profile `id`.
    fn remove_profile(&mut self, id: ProfileId)
        requires
            old(self).profiles@.contains_key(id),
        ensures
            Self::deleted(old(self), final(self), id),
            final(self).deposit_calls@ == old(self).deposit_calls@,
    {
        let existing = self.profiles.remove(&id).unwrap();
        self.events.push(Event::ProfileDeleted { profile_id: id, released_deposit: existing.deposit });
    }

    /// Updates a profile of the signed caller, holding or releasing the difference between its
    /// deposit and `new_deposit` (the deposit the runtime asks for the new profile, or why it
    /// could not compute it).
    pub fn update_profile<C: DepositCurrency>(
        &mut self,
        origin: Origin,
        profile_id: ProfileId,
        profile: Profile<Req>,
        new_deposit: Result<Balance, DispatchError>,
        currency: &mut C,
    ) -> (res: Result<(), DispatchError>)
        ensures
            res is Err ==> final(self).same(old(self)),
            !(origin is Signed) ==> res == Err::<(), DispatchError>(DispatchError::BadOrigin),
            !(origin is Signed) ==> final(self).deposit_calls@ == old(self).deposit_calls@,
            origin is Signed ==> match new_deposit {
                Err(e) => res == Err::<(), DispatchError>(e) && final(self).deposit_calls@ == old(self).deposit_calls@,
                Ok(d) => if !old(self).profiles@.contains_key(profile_id) {
                    res == Err::<(), DispatchError>(DispatchError::Module(Error::UnknownProfileId))
                        && final(self).deposit_calls@ == old(self).deposit_calls@
                } else if old(self).profiles@[profile_id].account != origin->Signed_0 {
                    res == Err::<(), DispatchError>(DispatchError::BadOrigin)
                        && final(self).deposit_calls@ == old(self).deposit_calls@
                } else {
                    let moved = answer(final(self).deposit_calls@.last());
                    &&& one_call(old(self).deposit_calls@, final(self).deposit_calls@,
                        deposit_change(origin->Signed_0, old(self).profiles@[profile_id].deposit, d))
                    &&& moved is Err ==> res == moved
                    &&& moved is Ok ==> res is Ok && Self::updated(old(self), final(self), profile_id, profile, d)
                },
            },
    {
        let account = match origin {
            Origin::Signed(a) => a,
            _ => {
                return Err(DispatchError::BadOrigin);
            },
        };
        let new_deposit = match new_deposit {
            Ok(d) => d,
            Err(e) => {
                return Err(e);
            },
        };
        let (owner, old_deposit) = match self.profiles.get(&profile_id) {
            Some(existing) => (existing.account, existing.deposit),
            None => {
                return Err(DispatchError::Module(Error::UnknownProfileId));
            },
        };
        if owner != account {
            return Err(DispatchError::BadOrigin);
        }
        let moved = if new_deposit >= old_deposit {
            let amount = new_deposit - old_deposit;
            let r = currency.hold(HoldReason::ProfileDeposit, owner, amount);
            self.deposit_calls = Ghost(self.deposit_calls@.push(DepositCall::Hold { who: owner, amount, result: r }));
            r
        } else {
            let amount = old_deposit - new_deposit;
            let r = currency.release(HoldReason::ProfileDeposit, owner, amount);
            self.deposit_calls = Ghost(self.deposit_calls@.push(DepositCall::Release { who: owner, amount, result: r }));
            r
        };
        proof {
            assert(self.deposit_calls@.drop_last() =~= old(self).deposit_calls@);
        }
        match moved {
            Ok(()) => {},
            Err(e) => {
                return Err(e);
            },
        }
        self.replace_profile(profile_id, profile, new_deposit);
        Ok(())
    }

    /// Updates a profile from the root origin: its deposit is released and the new one is zero.
    pub fn force_update_profile<C: DepositCurrency>(
        &mut self,
        origin: Origin,
        profile_id: ProfileId,
        profile: Profile<Req>,
        currency: &mut C,
    ) -> (res: Result<(), DispatchError>)
        ensures
            res is Err ==> final(self).same(old(self)),
            origin != Origin::Root ==> res == Err::<(), DispatchError>(DispatchError::BadOrigin),
            origin != Origin::Root ==> final(self).deposit_calls@ == old(self).deposit_calls@,
            origin == Origin::Root ==> if !old(self).profiles@.contains_key(profile_id) {
                res == Err::<(), DispatchError>(DispatchError::Module(Error::UnknownProfileId))
                    && final(self).deposit_calls@ == old(self).deposit_calls@
            } else {
                let existing = old(self).profiles@[profile_id];
                let released = answer(final(self).deposit_calls@.last());
                &&& one_call(old(self).deposit_calls@, final(self).deposit_calls@,
                    DepositCall::Release { who: existing.account, amount: existing.deposit, result: Ok(()) })
                &&& released is Err ==> res == released
                &&& released is Ok ==> res is Ok && Self::updated(old(self), final(self), profile_id, profile, 0)
            },
    {
        match origin {
            Origin::Root => {},
            _ => {
                return Err(DispatchError::BadOrigin);
            },
        }
        let (owner, old_deposit) = match self.profiles.get(&profile_id) {
            Some(existing) => (existing.account, existing.deposit),
            None => {
                return Err(DispatchError::Module(Error::UnknownProfileId));
            },
        };
        let released = currency.release(HoldReason::ProfileDeposit, owner, old_deposit);
        self.deposit_calls = Ghost(self.deposit_calls@.push(DepositCall::Release { who: owner, amount: old_deposit, result: released }));
        proof {
            assert(self.deposit_calls@.drop_last() =~= old(self).deposit_calls@);
        }
        match released {
            Ok(()) => {},
            Err(e) => {
                return Err(e);
            },
        }
        self.replace_profile(profile_id, profile, 0);
        Ok(())
    }

    /// Deletes a profile that is not assigned, releasing its deposit. `owner` is the signed
    /// caller, who must own the profile, or None from the root origin.
    fn do_delete_profile<C: DepositCurrency>(
        &mut self,
        profile_id: ProfileId,
        owner: Option<AccountId>,
        currency: &mut C,
    ) -> (res: Result<(), DispatchError>)
        ensures
            res is Err ==> final(self).same(old(self)),
            if !old(self).profiles@.contains_key(profile_id) {
                res == Err::<(), DispatchError>(DispatchError::Module(Error::UnknownProfileId))
            } else if old(self).profiles@[profile_id].assignment is Some {
                res == Err::<(), DispatchError>(DispatchError::Module(Error::CantDeleteAssignedProfile))
            } else if owner is Some && old(self).profiles@[profile_id].account != owner->Some_0 {
                res == Err::<(), DispatchError>(DispatchError::BadOrigin)
            } else {
                Self::delete_made(old(self), final(self), profile_id, res)
            },
            !old(self).profiles@.contains_key(profile_id) || old(self).profiles@[profile_id].assignment is Some
                || (owner is Some && old(self).profiles@[profile_id].account != owner->Some_0)
                ==> final(self).deposit_calls@ == old(self).deposit_calls@,
    {
        let (account, deposit, assigned) = match self.profiles.get(&profile_id) {
            Some(existing) => (existing.account, existing.deposit, existing.assignment.is_some()),
            None => {
                return Err(DispatchError::Module(Error::UnknownProfileId));
            },
        };
        if assigned {
            return Err(DispatchError::Module(Error::CantDeleteAssignedProfile));
        }
        match owner {
            Some(caller) => {
                if account != caller {
                    return Err(DispatchError::BadOrigin);
                }
            },
            None => {},
        }
        let released = currency.release(HoldReason::ProfileDeposit, account, deposit);
        self.deposit_calls = Ghost(self.deposit_calls@.push(DepositCall::Release { who: account, amount: deposit, result: released }));
        proof {
            assert(self.deposit_calls@.drop_last() =~= old(self).deposit_calls@);
        }
        match released {
            Ok(()) => {},
            Err(e) => {
                return Err(e);
            },
        }
        self.remove_profile(profile_id);
        Ok(())
    }

    /// Deletes a profile of the signed caller that is not assigned, releasing its deposit.
    pub fn delete_profile<C: DepositCurrency>(&mut self, origin: Origin, profile_id: ProfileId, currency: &mut C) -> (res: Result<(), DispatchError>)
        ensures
            res is Err ==> final(self).same(old(self)),
            !(origin is Signed) ==> res == Err::<(), DispatchError>(DispatchError::BadOrigin),
            origin is Signed ==> if !old(self).profiles@.contains_key(profile_id) {
                res == Err::<(), DispatchError>(DispatchError::Module(Error::UnknownProfileId))
            } else if old(self).profiles@[profile_id].assignment is Some {
                res == Err::<(), DispatchError>(DispatchError::Module(Error::CantDeleteAssignedProfile))
            } else if old(self).profiles@[profile_id].account != origin->Signed_0 {
                res == Err::<(), DispatchError>(DispatchError::BadOrigin)
            } else {
                Self::delete_made(old(self), final(self), profile_id, res)
            },
            !(origin is Signed) || !old(self).profiles@.contains_key(profile_id) || old(self).profiles@[profile_id].assignment is Some
                || old(self).profiles@[profile_id].account != origin->Signed_0
                ==> final(self).deposit_calls@ == old(self).deposit_calls@,
    {
        match origin {
            Origin::Signed(a) => self.do_delete_profile(profile_id, Some(a), currency),
            _ => Err(DispatchError::BadOrigin),
        }
    }

    /// Deletes a profile that is not assigned from the root origin, releasing its deposit.
    pub fn force_delete_profile<C: DepositCurrency>(&mut self, origin: Origin, profile_id: ProfileId, currency: &mut C) -> (res: Result<(), DispatchError>)
        ensures
            res is Err ==> final(self).same(old(self)),
            origin != Origin::Root ==> res == Err::<(), DispatchError>(DispatchError::BadOrigin),
            origin == Origin::Root ==> if !old(self).profiles@.contains_key(profile_id) {
                res == Err::<(), DispatchError>(DispatchError::Module(Error::UnknownProfileId))
            } else if old(self).profiles@[profile_id].assignment is Some {
                res == Err::<(), DispatchError>(DispatchError::Module(Error::CantDeleteAssignedProfile))
            } else {
                Self::delete_made(old(self), final(self), profile_id, res)
            },
            origin != Origin::Root || !old(self).profiles@.contains_key(profile_id) || old(self).profiles@[profile_id].assignment is Some
                ==> final(self).deposit_calls@ == old(self).deposit_calls@,
    {
        match origin {
            Origin::Root => self.do_delete_profile(profile_id, None, currency),
            _ => Err(DispatchError::BadOrigin),
        }
    }
}

/// The profiles registered for `ids`, in order; ids with no profile are skipped.
pub open spec fn profiles_of<Req, W>(ids: Seq<ProfileId>, m: Map<ProfileId, RegisteredProfile<Req, W>>) -> Seq<Profile<Req>>
    decreases ids.len(),
{
    if ids.len() == 0 {
        Seq::empty()
    } else {
        let rest = profiles_of(ids.drop_last(), m);
        if m.contains_key(ids.last()) { rest.push(m[ids.last()].profile) } else { rest }
    }
}

/// The elements of `s` in increasing order.
fn set_elements(s: &BTreeSet<ProfileId>) -> (r: Vec<ProfileId>)
    ensures
        r@.to_set() == s@,
        r@.no_duplicates(),
        forall|i: int, j: int| 0 <= i < j < r@.len() ==> r@[i] < r@[j],
{
    let mut r: Vec<ProfileId> = Vec::new();
    for k in it: s.iter()
        invariant
            r@ == it.seq().take(it.index() as int).unref(),
            it.seq() == vstd::std_specs::btree::spec_btree_keys_iter(s).remaining(),
    {
        r.push(*k);
        proof {
            assert(it.seq().take(it.index() as int + 1).unref() =~= r@);
        }
    }
    proof {
        broadcast use vstd::std_specs::btree::axiom_spec_btree_keys_iter;
        let q = vstd::std_specs::btree::spec_btree_keys_iter(s).remaining();
        assert(r@ =~= q.unref());
        lemma_increasing_ids(q);
    }
    r
}

/// Ids listed by a set in increasing order are strictly increasing integers.
proof fn lemma_increasing_ids(s: Seq<&ProfileId>)
    requires
        vstd::std_specs::btree::increasing_seq(s),
    ensures
        forall|i: int, j: int| 0 <= i < j < s.len() ==> *s[i] < *s[j],
{
    broadcast use vstd::std_specs::btree::axiom_increasing_seq_meaning;
    broadcast use vstd::laws_cmp::group_laws_cmp;
    assert forall|i: int, j: int| 0 <= i < j < s.len() implies *s[i] < *s[j] by {
        assert(vstd::std_specs::cmp::OrdSpec::cmp_spec(&s[i], &s[j]) is Less);
        assert(vstd::std_specs::cmp::OrdSpec::cmp_spec(s[i], s[j]) is Less);
    }
}

impl<Req, W> Pallet<Req, W> {
    /// Why assigning the profile `id` to `para_id` would fail, if it would.
    pub open spec fn start_error(&self, id: ProfileId, para_id: ParaId) -> Option<DispatchError> {
        let assigned = assigned_to(self.assignment_view(), para_id);
        if !self.profiles@.contains_key(id) {
            Some(DispatchError::Module(Error::UnknownProfileId))
        } else if self.profiles@[id].assignment is Some {
            Some(DispatchError::Module(Error::ProfileAlreadyAssigned))
        } else if !self.profiles@[id].profile.para_ids.allows(para_id) {
            Some(DispatchError::Module(Error::ProfileIsNotElligibleForParaId))
        } else if assigned.len() >= self.max_assignments_per_para_id && !assigned.contains(id) {
            Some(DispatchError::Module(Error::MaxAssignmentsPerParaIdReached))
        } else {
            None
        }
    }

    /// `after` is `before` with the profile `id` assigned to `para_id` with `witness`.
    pub open spec fn started(before: &Self, after: &Self, id: ProfileId, para_id: ParaId, witness: W) -> bool {
        let existing = before.profiles@[id];
        &&& after.max_assignments_per_para_id == before.max_assignments_per_para_id
        &&& after.next_profile_id == before.next_profile_id
        &&& after.profiles@ == before.profiles@.insert(
            id,
            RegisteredProfile {
                account: existing.account,
                deposit: existing.deposit,
                profile: existing.profile,
                assignment: Some((para_id, witness)),
            },
        )
        &&& after.assignment_view() == before.assignment_view().insert(
            para_id,
            assigned_to(before.assignment_view(), para_id).insert(id),
        )
        &&& after.events@ == before.events@.push(Event::AssignmentStarted { profile_id: id, para_id })
    }

    /// Why stopping the assignment of the profile `id` to `para_id` would fail (before the
    /// payment is stopped), if it would.
    pub open spec fn stop_error(&self, caller: StopCaller, id: ProfileId, para_id: ParaId) -> Option<DispatchError> {
        if !self.profiles@.contains_key(id) {
            Some(DispatchError::Module(Error::UnknownProfileId))
        } else if caller is Signed && self.profiles@[id].account != caller->Signed_0 {
            Some(DispatchError::BadOrigin)
        } else if self.profiles@[id].assignment is None {
            Some(DispatchError::Module(Error::ProfileNotAssigned))
        } else if self.profiles@[id].assignment->Some_0.0 != para_id {
            Some(DispatchError::Module(Error::WrongParaId))
        } else {
            None
        }
    }

    /// `after` is `before` with the assignment of the profile `id` to `para_id` stopped.
    pub open spec fn stopped(before: &Self, after: &Self, id: ProfileId, para_id: ParaId) -> bool {
        let existing = before.profiles@[id];
        &&& after.max_assignments_per_para_id == before.max_assignments_per_para_id
        &&& after.next_profile_id == before.next_profile_id
        &&& after.profiles@ == before.profiles@.insert(
            id,
            RegisteredProfile {
                account: existing.account,
                deposit: existing.deposit,
                profile: existing.profile,
                assignment: None,
            },
        )
        &&& after.assignment_view() == before.assignment_view().insert(
            para_id,
            assigned_to(before.assignment_view(), para_id).remove(id),
        )
        &&& after.events@ == before.events@.push(Event::AssignmentStopped { profile_id: id, para_id })
    }

    /// Checks that the profile `id` may be assigned to `para_id`.
    fn check_start(&self, id: ProfileId, para_id: ParaId) -> (res: Result<(), DispatchError>)
        ensures
            match self.start_error(id, para_id) {
                Some(e) => res == Err::<(), DispatchError>(e),
                None => res is Ok,
            },
    {
        broadcast use vstd::std_specs::btree::group_btree_axioms;
        let existing = match self.profiles.get(&id) {
            Some(p) => p,
            None => {
                return Err(DispatchError::Module(Error::UnknownProfileId));
            },
        };
        if existing.assignment.is_some() {
            return Err(DispatchError::Module(Error::ProfileAlreadyAssigned));
        }
        if !existing.profile.para_ids.can_assign(&para_id) {
            return Err(DispatchError::Module(Error::ProfileIsNotElligibleForParaId));
        }
        match self.assignments.get(&para_id) {
            Some(set) => {
                assert(assigned_to(self.assignment_view(), para_id) == set@);
                if set.len() >= self.max_assignments_per_para_id as usize && !set.contains(&id) {
                    return Err(DispatchError::Module(Error::MaxAssignmentsPerParaIdReached));
                }
            },
            None => {
                assert(assigned_to(self.assignment_view(), para_id) =~= Set::<ProfileId>::empty());
                if self.max_assignments_per_para_id == 0 {
                    return Err(DispatchError::Module(Error::MaxAssignmentsPerParaIdReached));
                }
            },
        }
        Ok(())
    }

    /// Assigns the profile `id` to `para_id` with `witness`, once the checks passed.
    fn finish_start(&mut self, id: ProfileId, para_id: ParaId, witness: W)
        requires
            old(self).start_error(id, para_id) is None,
        ensures
            Self::started(old(self), final(self), id, para_id, witness),
            final(self).payment_starts == old(self).payment_starts,
            final(self).payment_stops == old(self).payment_stops,
    {
        broadcast use vstd::std_specs::btree::group_btree_axioms;
        let ghost v0 = self.assignment_view();
        let mut set = match self.assignments.remove(&para_id) {
            Some(s) => s,
            None => BTreeSet::new(),
        };
        assert(set@ == assigned_to(v0, para_id));
        set.insert(id);
        self.assignments.insert(para_id, set);
        assert(self.assignment_view() =~= v0.insert(para_id, assigned_to(v0, para_id).insert(id)));
        let existing = self.profiles.remove(&id).unwrap();
        let RegisteredProfile { account, deposit, profile, assignment: _ } = existing;
        self.profiles.insert(id, RegisteredProfile { account, deposit, profile, assignment: Some((para_id, witness)) });
        self.events.push(Event::AssignmentStarted { profile_id: id, para_id });
        assert(self.profiles@ =~= old(self).profiles@.insert(
            id,
            RegisteredProfile { account, deposit, profile, assignment: Some((para_id, witness)) },
        ));
    }

    /// Assigns the profile `profile_id` to `para_id` at the request of `assigner` (the account
    /// the runtime's assignment origin resolved to, or why it refused the origin). The payment
    /// starts through `processor`, whose witness is kept with the assignment.
    pub fn start_assignment<P: AssignmentProcessor<ProviderRequest = Req, AssignmentWitness = W>>(
        &mut self,
        assigner: Result<AccountId, DispatchError>,
        profile_id: ProfileId,
        para_id: ParaId,
        assigner_param: P::AssignerParameter,
        processor: &mut P,
    ) -> (res: Result<(), DispatchError>)
        ensures
            res is Err ==> final(self).same(old(self)),
            match assigner {
                Err(e) => res == Err::<(), DispatchError>(e) && final(self).payment_starts@ == old(self).payment_starts@,
                Ok(a) => match old(self).start_error(profile_id, para_id) {
                    Some(e) => res == Err::<(), DispatchError>(e) && final(self).payment_starts@ == old(self).payment_starts@,
                    None => {
                        let existing = old(self).profiles@[profile_id];
                        let starts = final(self).payment_starts@;
                        &&& starts.len() == old(self).payment_starts@.len() + 1
                        &&& starts.drop_last() == old(self).payment_starts@
                        &&& starts.last().0 == a
                        &&& starts.last().1 == existing.account
                        &&& starts.last().2 == existing.profile.assignment_request
                        &&& match starts.last().3 {
                            Ok(w) => res is Ok && Self::started(old(self), final(self), profile_id, para_id, w),
                            Err(e) => res == Err::<(), DispatchError>(e),
                        }
                    },
                },
            },
    {
        let assigner = match assigner {
            Ok(a) => a,
            Err(e) => {
                return Err(e);
            },
        };
        match self.check_start(profile_id, para_id) {
            Ok(()) => {},
            Err(e) => {
                return Err(e);
            },
        }
        let witness = {
            let existing = self.profiles.get(&profile_id).unwrap();
            let answer = processor.try_start_assignment(assigner, existing.account, &existing.profile.assignment_request, assigner_param);
            self.payment_starts = Ghost(self.payment_starts@.push((assigner, existing.account, existing.profile.assignment_request, answer)));
            answer
        };
        proof { assert(self.payment_starts@.drop_last() =~= old(self).payment_starts@); }
        match witness {
            Ok(w) => {
                self.finish_start(profile_id, para_id, w);
                Ok(())
            },
            Err(e) => Err(e),
        }
    }

    /// Assigns the profile `profile_id` to `para_id` from the root origin, with a witness given
    /// by the caller.
    pub fn force_start_assignment(
        &mut self,
        origin: Origin,
        profile_id: ProfileId,
        para_id: ParaId,
        assignment_witness: W,
    ) -> (res: Result<(), DispatchError>)
        ensures
            origin != Origin::Root ==> res == Err::<(), DispatchError>(DispatchError::BadOrigin) && final(self).same(old(self)),
            origin == Origin::Root ==> match old(self).start_error(profile_id, para_id) {
                Some(e) => res == Err::<(), DispatchError>(e) && final(self).same(old(self)),
                None => res is Ok && Self::started(old(self), final(self), profile_id, para_id, assignment_witness),
            },
    {
        match origin {
            Origin::Root => {},
            _ => {
                return Err(DispatchError::BadOrigin);
            },
        }
        match self.check_start(profile_id, para_id) {
            Ok(()) => {},
            Err(e) => {
                return Err(e);
            },
        }
        self.finish_start(profile_id, para_id, assignment_witness);
        Ok(())
    }

    /// Registers, as the genesis config does, a bootnode of `para_id` run by `owner` at `url`:
    /// a profile with no deposit that only serves `para_id`, assigned to it at once with
    /// `witness` (no payment is started). The runtime refuses to start on an error.
    pub fn register_genesis_bootnode(&mut self, para_id: ParaId, owner: AccountId, url: Vec<u8>, request: Req, witness: W) -> (res: Result<
        (),
        DispatchError,
    >)
        ensures
            old(self).create_error() is Some ==> res == Err::<(), DispatchError>(old(self).create_error()->Some_0),
            old(self).create_error() is None && assigned_to(old(self).assignment_view(), para_id).len() < old(self).max_assignments_per_para_id
                ==> res is Ok,
            res is Ok ==> exists|mid: Self| {
                &&& Self::created(old(self), &mid, mid.profiles@[old(self).next_profile_id].profile, owner, 0)
                &&& mid.profiles@[old(self).next_profile_id].profile.para_ids.allows(para_id)
                &&& mid.profiles@[old(self).next_profile_id].profile.mode == ProfileMode::Bootnode
                &&& #[trigger] Self::started(&mid, final(self), old(self).next_profile_id, para_id, witness)
            },
    {
        let mut para_ids: BTreeSet<ParaId> = BTreeSet::new();
        para_ids.insert(para_id);
        let profile = Profile { url, para_ids: ParaIdsFilter::Whitelist(para_ids), mode: ProfileMode::Bootnode, assignment_request: request };
        let profile_id = self.next_profile_id;
        match self.do_create_profile(profile, owner, 0) {
            Ok(()) => {},
            Err(e) => {
                return Err(e);
            },
        }
        let ghost mid = *self;
        match self.check_start(profile_id, para_id) {
            Ok(()) => {},
            Err(e) => {
                return Err(e);
            },
        }
        self.finish_start(profile_id, para_id, witness);
        assert(mid.profiles@[profile_id].profile.para_ids.allows(para_id));
        Ok(())
    }

    /// Stops the assignment of the profile `profile_id` to `para_id`. `caller` is what the
    /// runtime's origins resolved to (root or the chain's manager, or a signed account that
    /// must own the profile), or why they refused the origin. The payment stops through
    /// `processor`.
    pub fn stop_assignment<P: AssignmentProcessor<ProviderRequest = Req, AssignmentWitness = W>>(
        &mut self,
        caller: Result<StopCaller, DispatchError>,
        profile_id: ProfileId,
        para_id: ParaId,
        processor: &mut P,
    ) -> (res: Result<(), DispatchError>)
        ensures
            res is Err ==> final(self).same(old(self)),
            match caller {
                Err(e) => res == Err::<(), DispatchError>(e) && final(self).payment_stops@ == old(self).payment_stops@,
                Ok(c) => match old(self).stop_error(c, profile_id, para_id) {
                    Some(e) => res == Err::<(), DispatchError>(e) && final(self).payment_stops@ == old(self).payment_stops@,
                    None => {
                        let existing = old(self).profiles@[profile_id];
                        &&& final(self).payment_stops@ == old(self).payment_stops@.push(
                            (existing.account, existing.assignment->Some_0.1, res),
                        )
                        &&& res is Ok ==> Self::stopped(old(self), final(self), profile_id, para_id)
                    },
                },
            },
    {
        broadcast use vstd::std_specs::btree::group_btree_axioms;
        let caller = match caller {
            Ok(c) => c,
            Err(e) => {
                return Err(e);
            },
        };
        let stopped = {
            let existing = match self.profiles.get(&profile_id) {
                Some(p) => p,
                None => {
                    return Err(DispatchError::Module(Error::UnknownProfileId));
                },
            };
            match caller {
                StopCaller::Signed(a) => {
                    if existing.account != a {
                        return Err(DispatchError::BadOrigin);
                    }
                },
                StopCaller::Privileged => {},
            }
            let witness = match &existing.assignment {
                Some((assigned_para_id, witness)) => {
                    if *assigned_para_id != para_id {
                        return Err(DispatchError::Module(Error::WrongParaId));
                    }
                    witness
                },
                None => {
                    return Err(DispatchError::Module(Error::ProfileNotAssigned));
                },
            };
            let answer: Result<(), DispatchError> = match processor.try_stop_assignment(existing.account, witness) {
                Ok(()) => Ok(()),
                Err(e) => Err(e),
            };
            self.payment_stops = Ghost(self.payment_stops@.push((existing.account, *witness, answer)));
            answer
        };
        match stopped {
            Ok(()) => {},
            Err(e) => {
                return Err(e);
            },
        }
        let existing = self.profiles.remove(&profile_id).unwrap();
        let RegisteredProfile { account, deposit, profile, assignment: _ } = existing;
        self.profiles.insert(profile_id, RegisteredProfile { account, deposit, profile, assignment: None });
        assert(self.profiles@ =~= old(self).profiles@.insert(
            profile_id,
            RegisteredProfile { account, deposit, profile, assignment: None },
        ));
        let ghost v0 = self.assignment_view();
        let mut set = match self.assignments.remove(&para_id) {
            Some(s) => s,
            None => BTreeSet::new(),
        };
        assert(set@ == assigned_to(v0, para_id));
        set.remove(&profile_id);
        self.assignments.insert(para_id, set);
        assert(self.assignment_view() =~= v0.insert(para_id, assigned_to(v0, para_id).remove(profile_id)));
        self.events.push(Event::AssignmentStopped { profile_id, para_id });
        Ok(())
    }

    /// The profiles assigned to `para_id`, by increasing profile id.
    pub fn assignments_profiles(&self, para_id: ParaId) -> (r: Vec<&Profile<Req>>)
        ensures
            exists|ids: Seq<ProfileId>| {
                &&& #[trigger] ids.to_set() == assigned_to(self.assignment_view(), para_id)
                &&& forall|i: int, j: int| 0 <= i < j < ids.len() ==> ids[i] < ids[j]
                &&& r@.map_values(|p: &Profile<Req>| *p) == profiles_of(ids, self.profiles@)
            },
    {
        let ids = match self.assignments.get(&para_id) {
            Some(set) => set_elements(set),
            None => Vec::new(),
        };
        let mut r: Vec<&Profile<Req>> = Vec::new();
        let mut i: usize = 0;
        while i < ids.len()
            invariant
                0 <= i <= ids.len(),
                r@.map_values(|p: &Profile<Req>| *p) == profiles_of(ids@.take(i as int), self.profiles@),
            decreases ids.len() - i,
        {
            assert(ids@.take(i as int + 1).drop_last() =~= ids@.take(i as int));
            match self.profiles.get(&ids[i]) {
                Some(p) => {
                    r.push(&p.profile);
                    assert(r@.map_values(|p: &Profile<Req>| *p) =~= profiles_of(ids@.take(i as int), self.profiles@).push(p.profile));
                },
                None => {},
            }
            i = i + 1;
        }
        assert(ids@.take(ids.len() as int) =~= ids@);
        proof {
            if !self.assignment_view().dom().contains(para_id) {
                assert(ids@.to_set() =~= Set::<ProfileId>::empty());
            }
        }
        r
    }

    /// Forgets the assignments of a chain that is deregistered.
    pub fn para_deregistered(&mut self, para_id: ParaId)
        ensures
            final(self).max_assignments_per_para_id == old(self).max_assignments_per_para_id,
            final(self).profiles@ == old(self).profiles@,
            final(self).next_profile_id == old(self).next_profile_id,
            final(self).assignment_view() == old(self).assignment_view().remove(para_id),
            final(self).events@ == old(self).events@,
    {
        self.assignments.remove(&para_id);
        assert(self.assignment_view() =~= old(self).assignment_view().remove(para_id));
    }

    /// Whether some boot node is assigned to `para_id`; fails with `NoBootNodes` otherwise.
    pub fn check_valid_for_collating(&self, para_id: ParaId) -> (res: Result<(), DispatchError>)
        ensures
            res is Ok <==> exists|id: ProfileId| {
                &&& #[trigger] assigned_to(self.assignment_view(), para_id).contains(id)
                &&& self.profiles@.contains_key(id)
                &&& self.profiles@[id].profile.mode == ProfileMode::Bootnode
            },
            res is Err ==> res == Err::<(), DispatchError>(DispatchError::Module(Error::NoBootNodes)),
    {
        let ids = match self.assignments.get(&para_id) {
            Some(set) => set_elements(set),
            None => Vec::new(),
        };
        proof {
            if !self.assignment_view().dom().contains(para_id) {
                assert(ids@.to_set() =~= Set::<ProfileId>::empty());
            }
        }
        let mut i: usize = 0;
        while i < ids.len()
            invariant
                0 <= i <= ids.len(),
                ids@.to_set() == assigned_to(self.assignment_view(), para_id),
                forall|j: int| 0 <= j < i ==> !(self.profiles@.contains_key(#[trigger] ids@[j])
                    && self.profiles@[ids@[j]].profile.mode == ProfileMode::Bootnode),
            decreases ids.len() - i,
        {
            match self.profiles.get(&ids[i]) {
                Some(p) => {
                    if p.profile.mode == ProfileMode::Bootnode {
                        assert(ids@.to_set().contains(ids@[i as int]));
                        return Ok(());
                    }
                },
                None => {},
            }
            i = i + 1;
        }
        proof {
            assert forall|id: ProfileId| #[trigger] assigned_to(self.assignment_view(), para_id).contains(id)
                implies !(self.profiles@.contains_key(id) && self.profiles@[id].profile.mode == ProfileMode::Bootnode) by {
                assert(ids@.to_set().contains(id));
                let j = choose|j: int| 0 <= j < ids@.len() && ids@[j] == id;
                assert(ids@[j] == id);
            }
        }
        Err(DispatchError::Module(Error::NoBootNodes))
    }
}

/// Deleting a profile just created leaves the profiles as they were before.
pub proof fn create_then_delete_restores_profiles<Req, W>(
    a: &Pallet<Req, W>,
    b: &Pallet<Req, W>,
    c: &Pallet<Req, W>,
    profile: Profile<Req>,
    account: AccountId,
    deposit: Balance,
)
    requires
        a.create_error() is None,
        Pallet::created(a, b, profile, account, deposit),
        Pallet::deleted(b, c, a.next_profile_id),
    ensures
        c.profiles@ == a.profiles@,
        c.assignment_view() == a.assignment_view(),
        c.next_profile_id == a.next_profile_id + 1,
{
    assert(c.profiles@ =~= a.profiles@);
}

/// Stopping an assignment just started leaves the profile and the chain's assignments as they
/// were, and a started assignment can be stopped (up to the payment) by root or the chain's
/// manager.
pub proof fn start_then_stop_restores<Req, W>(a: &Pallet<Req, W>, b: &Pallet<Req, W>, c: &Pallet<Req, W>, id: ProfileId, para_id: ParaId, witness: W)
    requires
        a.start_error(id, para_id) is None,
        !assigned_to(a.assignment_view(), para_id).contains(id),
        Pallet::started(a, b, id, para_id, witness),
        Pallet::stopped(b, c, id, para_id),
    ensures
        b.stop_error(StopCaller::Privileged, id, para_id) is None,
        c.profiles@ == a.profiles@,
        assigned_to(c.assignment_view(), para_id) == assigned_to(a.assignment_view(), para_id),
{
    assert(assigned_to(a.assignment_view(), para_id).insert(id).remove(id) =~= assigned_to(a.assignment_view(), para_id));
    assert(c.profiles@ =~= a.profiles@);
}

/// Starting an assignment never puts more profiles on a chain than its maximum, when the
/// chain was within it.
pub proof fn assignments_stay_within_the_maximum<Req, W>(a: &Pallet<Req, W>, b: &Pallet<Req, W>, id: ProfileId, para_id: ParaId, witness: W)
    requires
        a.start_error(id, para_id) is None,
        assigned_to(a.assignment_view(), para_id).finite(),
        assigned_to(a.assignment_view(), para_id).len() <= a.max_assignments_per_para_id,
        Pallet::started(a, b, id, para_id, witness),
    ensures
        assigned_to(b.assignment_view(), para_id).len() <= b.max_assignments_per_para_id,
{
    let s = assigned_to(a.assignment_view(), para_id);
    if s.contains(id) {
        assert(s.insert(id) =~= s);
    }
}

} // verus!
