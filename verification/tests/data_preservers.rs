use std::collections::{BTreeMap, BTreeSet};
use tanssi_pallets::assignment::{AccountId, ParaId};
use tanssi_pallets::data_preservers::{
    AssignmentProcessor, Balance, DepositCurrency, DispatchError, Error, Event, HoldReason, Pallet,
    ParaIdsFilter, Profile, ProfileMode, RegisteredProfile, StopCaller,
};
use tanssi_pallets::profile_migration::{migrate_profiles_content, NodeType};
use tanssi_pallets::origin::Origin;

const ALICE: u64 = 1;
const BOB: u64 = 2;

/// Free and held balances, as the balances pallet of the test runtime keeps them.
#[derive(Clone, Debug, PartialEq, Default)]
struct Balances {
    free: BTreeMap<AccountId, Balance>,
    held: BTreeMap<AccountId, Balance>,
}

impl Balances {
    fn with(balances: Vec<(AccountId, Balance)>) -> Self {
        Balances { free: balances.into_iter().collect(), held: BTreeMap::new() }
    }
}

impl DepositCurrency for Balances {
    fn hold(&mut self, _reason: HoldReason, who: AccountId, amount: Balance) -> Result<(), DispatchError> {
        let free = self.free.get(&who).copied().unwrap_or(0);
        if free < amount {
            return Err(DispatchError::FundsUnavailable);
        }
        self.free.insert(who, free - amount);
        *self.held.entry(who).or_default() += amount;
        Ok(())
    }

    fn release(&mut self, _reason: HoldReason, who: AccountId, amount: Balance) -> Result<(), DispatchError> {
        let held = self.held.get(&who).copied().unwrap_or(0);
        if held < amount {
            return Err(DispatchError::FundsUnavailable);
        }
        self.held.insert(who, held - amount);
        *self.free.entry(who).or_default() += amount;
        Ok(())
    }
}

/// Free assignments: nothing to pay, nothing to witness.
#[derive(Default)]
struct FreePayment {
    started: u32,
    stopped: u32,
}

impl AssignmentProcessor for FreePayment {
    type ProviderRequest = ();
    type AssignerParameter = ();
    type AssignmentWitness = ();

    fn try_start_assignment(&mut self, _a: AccountId, _p: AccountId, _r: &(), _e: ()) -> Result<(), DispatchError> {
        self.started += 1;
        Ok(())
    }

    fn try_stop_assignment(&mut self, _p: AccountId, _w: &()) -> Result<(), DispatchError> {
        self.stopped += 1;
        Ok(())
    }
}

type DataPreservers = Pallet<(), ()>;

/// Length of the SCALE compact encoding of `n`.
fn compact_len(n: usize) -> usize {
    if n < 1 << 6 {
        1
    } else if n < 1 << 14 {
        2
    } else if n < 1 << 30 {
        4
    } else {
        5
    }
}

/// Size of the SCALE encoding of a profile (its payment request takes no byte).
fn encoded_size(p: &Profile<()>) -> usize {
    let filter = match &p.para_ids {
        ParaIdsFilter::AnyParaId => 1,
        ParaIdsFilter::Whitelist(l) | ParaIdsFilter::Blacklist(l) => 1 + compact_len(l.len()) + 4 * l.len(),
    };
    let mode = match p.mode {
        ProfileMode::Bootnode => 1,
        ProfileMode::Rpc { .. } => 2,
    };
    compact_len(p.url.len()) + p.url.len() + filter + mode
}

/// The deposit of the test runtime: 1_000 plus 51 per byte of the encoded profile.
fn compute_deposit(p: &Profile<()>) -> Result<Balance, DispatchError> {
    Ok(1_000 + 51 * encoded_size(p) as Balance)
}

struct Ext {
    pallet: DataPreservers,
    balances: Balances,
}

impl Ext {
    fn new(balances: Vec<(AccountId, Balance)>) -> Self {
        Ext { pallet: DataPreservers::new(10), balances: Balances::with(balances) }
    }

    /// Runs a call as a transaction: when it fails, the balances are rolled back.
    fn call(&mut self, f: impl FnOnce(&mut DataPreservers, &mut Balances) -> Result<(), DispatchError>) -> Result<(), DispatchError> {
        let saved = self.balances.clone();
        let res = f(&mut self.pallet, &mut self.balances);
        if res.is_err() {
            self.balances = saved;
        }
        res
    }

    fn create_profile(&mut self, origin: Origin, profile: Profile<()>) -> Result<(), DispatchError> {
        let deposit = compute_deposit(&profile);
        self.call(|p, b| p.create_profile(origin, profile, deposit, b))
    }

    fn update_profile(&mut self, origin: Origin, id: u64, profile: Profile<()>) -> Result<(), DispatchError> {
        let deposit = compute_deposit(&profile);
        self.call(|p, b| p.update_profile(origin, id, profile, deposit, b))
    }

    fn force_update_profile(&mut self, origin: Origin, id: u64, profile: Profile<()>) -> Result<(), DispatchError> {
        self.call(|p, b| p.force_update_profile(origin, id, profile, b))
    }

    fn delete_profile(&mut self, origin: Origin, id: u64) -> Result<(), DispatchError> {
        self.call(|p, b| p.delete_profile(origin, id, b))
    }

    fn force_delete_profile(&mut self, origin: Origin, id: u64) -> Result<(), DispatchError> {
        self.call(|p, b| p.force_delete_profile(origin, id, b))
    }

    /// The registered profile `id`: owner, deposit, url, filter and mode.
    fn profile(&self, id: u64) -> Option<(AccountId, Balance, Vec<u8>, ParaIdsFilter, ProfileMode)> {
        self.pallet.profiles.get(&id).map(|r| {
            (r.account, r.deposit, r.profile.url.clone(), filter_copy(&r.profile.para_ids), r.profile.mode)
        })
    }

    fn events(&self) -> Vec<Event> {
        self.pallet.events.clone()
    }

    /// Everything a failed call must leave as it was.
    fn snapshot(&self) -> (Vec<Option<(AccountId, Balance, Vec<u8>, ParaIdsFilter, ProfileMode)>>, u64, Vec<Event>, Balances) {
        ((0..4).map(|i| self.profile(i)).collect(), self.pallet.next_profile_id, self.events(), self.balances.clone())
    }
}

fn filter_copy(f: &ParaIdsFilter) -> ParaIdsFilter {
    match f {
        ParaIdsFilter::AnyParaId => ParaIdsFilter::AnyParaId,
        ParaIdsFilter::Whitelist(l) => ParaIdsFilter::Whitelist(l.clone()),
        ParaIdsFilter::Blacklist(l) => ParaIdsFilter::Blacklist(l.clone()),
    }
}

impl PartialEq for FilterEq {
    fn eq(&self, other: &Self) -> bool {
        match (&self.0, &other.0) {
            (ParaIdsFilter::AnyParaId, ParaIdsFilter::AnyParaId) => true,
            (ParaIdsFilter::Whitelist(a), ParaIdsFilter::Whitelist(b)) => a == b,
            (ParaIdsFilter::Blacklist(a), ParaIdsFilter::Blacklist(b)) => a == b,
            _ => false,
        }
    }
}

struct FilterEq(ParaIdsFilter);

fn assert_same_snapshot(
    a: &(Vec<Option<(AccountId, Balance, Vec<u8>, ParaIdsFilter, ProfileMode)>>, u64, Vec<Event>, Balances),
    b: &(Vec<Option<(AccountId, Balance, Vec<u8>, ParaIdsFilter, ProfileMode)>>, u64, Vec<Event>, Balances),
) {
    assert_eq!(a.0.len(), b.0.len());
    for (x, y) in a.0.iter().zip(b.0.iter()) {
        match (x, y) {
            (None, None) => {},
            (Some(x), Some(y)) => {
                assert_eq!((x.0, x.1, &x.2, x.4), (y.0, y.1, &y.2, y.4));
                assert!(FilterEq(filter_copy(&x.3)) == FilterEq(filter_copy(&y.3)));
            },
            _ => panic!("profiles differ"),
        }
    }
    assert_eq!(a.1, b.1);
    assert_eq!(a.2, b.2);
    assert_eq!(a.3, b.3);
}

fn assert_noop(ext: &mut Ext, call: impl FnOnce(&mut Ext) -> Result<(), DispatchError>, err: DispatchError) {
    let before = ext.snapshot();
    assert_eq!(call(ext), Err(err));
    let after = ext.snapshot();
    assert_same_snapshot(&before, &after);
}

fn profile1() -> Profile<()> {
    Profile { url: b"test".to_vec(), para_ids: ParaIdsFilter::AnyParaId, mode: ProfileMode::Bootnode, assignment_request: () }
}

fn profile2() -> Profile<()> {
    Profile {
        url: b"test2".to_vec(),
        para_ids: ParaIdsFilter::Whitelist(BTreeSet::from_iter(vec![42])),
        mode: ProfileMode::Rpc { supports_ethereum_rpcs: false },
        assignment_request: (),
    }
}

fn is_profile(
    got: Option<(AccountId, Balance, Vec<u8>, ParaIdsFilter, ProfileMode)>,
    account: AccountId,
    deposit: Balance,
    profile: &Profile<()>,
) -> bool {
    match got {
        Some((a, d, url, filter, mode)) => {
            a == account
                && d == deposit
                && url == profile.url
                && FilterEq(filter) == FilterEq(filter_copy(&profile.para_ids))
                && mode == profile.mode
        },
        None => false,
    }
}

// ---------------------------------------------------------------- create_profile

#[test]
fn create_profile_works() {
    let mut ext = Ext::new(vec![(ALICE, 1_000_000_000_000)]);
    let profile = profile1();
    assert_eq!(ext.create_profile(Origin::Signed(ALICE), profile1()), Ok(()));
    // 1_000 base deposit + 51 * 7 bytes deposit
    assert!(is_profile(ext.profile(0), ALICE, 1_357, &profile));
    assert_eq!(ext.pallet.next_profile_id, 1);
    assert_eq!(ext.events(), vec![Event::ProfileCreated { account: ALICE, profile_id: 0, deposit: 1_357 }]);
    assert_eq!(ext.balances.held.get(&ALICE), Some(&1_357));
}

#[test]
fn insufficient_balance_for_deposit() {
    let mut ext = Ext::new(vec![(ALICE, 1_356)]);
    assert_noop(&mut ext, |e| e.create_profile(Origin::Signed(ALICE), profile1()), DispatchError::FundsUnavailable);
    assert!(ext.profile(0).is_none());
    assert_eq!(ext.pallet.next_profile_id, 0);
    assert_eq!(ext.events(), vec![]);
}

#[test]
fn protection_for_existing_profile() {
    let mut ext = Ext::new(vec![(ALICE, 1_000_000_000_000)]);
    // Set some profile at next id (this should not occur, but it is guarded against anyway).
    assert_eq!(ext.pallet.force_create_profile(Origin::Root, profile1(), ALICE), Ok(()));
    ext.pallet.next_profile_id = 0;
    ext.pallet.events.clear();
    assert_noop(
        &mut ext,
        |e| e.create_profile(Origin::Signed(ALICE), profile1()),
        DispatchError::Module(Error::NextProfileIdShouldBeAvailable),
    );
}

#[test]
fn forced_create_profile_works() {
    let mut ext = Ext::new(vec![(ALICE, 1_000_000_000_000)]);
    let profile = profile1();
    assert_eq!(ext.pallet.force_create_profile(Origin::Root, profile1(), ALICE), Ok(()));
    // no deposit when forced
    assert!(is_profile(ext.profile(0), ALICE, 0, &profile));
    assert_eq!(ext.pallet.next_profile_id, 1);
    assert_eq!(ext.events(), vec![Event::ProfileCreated { account: ALICE, profile_id: 0, deposit: 0 }]);
}

#[test]
fn forced_create_profile_filter() {
    let mut ext = Ext::new(vec![(ALICE, 1_000_000_000_000)]);
    assert_noop(
        &mut ext,
        |e| e.pallet.force_create_profile(Origin::Signed(BOB), profile1(), ALICE),
        DispatchError::BadOrigin,
    );
}

#[test]
fn create_profile_unsigned_is_refused() {
    let mut ext = Ext::new(vec![(ALICE, 1_000_000_000_000)]);
    assert_noop(&mut ext, |e| e.create_profile(Origin::Root, profile1()), DispatchError::BadOrigin);
}

#[test]
fn create_profile_overflowing_id_is_refused() {
    let mut ext = Ext::new(vec![(ALICE, 1_000_000_000_000)]);
    ext.pallet.next_profile_id = u64::MAX;
    assert_eq!(ext.create_profile(Origin::Signed(ALICE), profile1()), Err(DispatchError::Overflow));
    assert_eq!(ext.pallet.next_profile_id, u64::MAX);
    assert_eq!(ext.balances.held.get(&ALICE), None);
}

// ---------------------------------------------------------------- update_profile

#[test]
fn update_profile_works() {
    let mut ext = Ext::new(vec![(ALICE, 1_000_000_000_000)]);
    assert_eq!(ext.create_profile(Origin::Signed(ALICE), profile1()), Ok(()));
    assert_eq!(ext.update_profile(Origin::Signed(ALICE), 0, profile2()), Ok(()));
    // 1_000 base deposit + 51 * 14 bytes deposit
    assert!(is_profile(ext.profile(0), ALICE, 1_714, &profile2()));
    assert_eq!(
        ext.events(),
        vec![
            Event::ProfileCreated { account: ALICE, profile_id: 0, deposit: 1_357 },
            Event::ProfileUpdated { profile_id: 0, old_deposit: 1_357, new_deposit: 1_714 },
        ]
    );
    assert_eq!(ext.balances.held.get(&ALICE), Some(&1_714));
    // Back to the smaller profile: the difference is released.
    assert_eq!(ext.update_profile(Origin::Signed(ALICE), 0, profile1()), Ok(()));
    assert_eq!(ext.balances.held.get(&ALICE), Some(&1_357));
}

#[test]
fn tests_unknown_profile_id() {
    let mut ext = Ext::new(vec![(ALICE, 1_400)]);
    assert_eq!(ext.create_profile(Origin::Signed(ALICE), profile1()), Ok(()));
    assert_noop(
        &mut ext,
        |e| e.update_profile(Origin::Signed(ALICE), 1, profile2()),
        DispatchError::Module(Error::UnknownProfileId),
    );
}

#[test]
fn tests_wrong_user() {
    let mut ext = Ext::new(vec![(ALICE, 1_400)]);
    assert_eq!(ext.create_profile(Origin::Signed(ALICE), profile1()), Ok(()));
    assert_noop(&mut ext, |e| e.update_profile(Origin::Signed(BOB), 0, profile2()), DispatchError::BadOrigin);
}

#[test]
fn insufficient_balance_for_new_deposit() {
    let mut ext = Ext::new(vec![(ALICE, 1_400)]);
    assert_eq!(ext.create_profile(Origin::Signed(ALICE), profile1()), Ok(()));
    assert_noop(
        &mut ext,
        |e| e.update_profile(Origin::Signed(ALICE), 0, profile2()),
        DispatchError::FundsUnavailable,
    );
}

#[test]
fn forced_update_profile_works() {
    let mut ext = Ext::new(vec![(ALICE, 1_000_000_000_000)]);
    assert_eq!(ext.create_profile(Origin::Signed(ALICE), profile1()), Ok(()));
    assert_eq!(ext.force_update_profile(Origin::Root, 0, profile2()), Ok(()));
    // forced update releases the deposit
    assert!(is_profile(ext.profile(0), ALICE, 0, &profile2()));
    assert_eq!(
        ext.events(),
        vec![
            Event::ProfileCreated { account: ALICE, profile_id: 0, deposit: 1_357 },
            Event::ProfileUpdated { profile_id: 0, old_deposit: 1_357, new_deposit: 0 },
        ]
    );
    assert_eq!(ext.balances.held.get(&ALICE), Some(&0));
}

#[test]
fn forced_update_profile_filter() {
    let mut ext = Ext::new(vec![(ALICE, 1_000_000_000_000)]);
    assert_eq!(ext.create_profile(Origin::Signed(ALICE), profile1()), Ok(()));
    assert_noop(&mut ext, |e| e.force_update_profile(Origin::Signed(ALICE), 0, profile2()), DispatchError::BadOrigin);
}

// ---------------------------------------------------------------- delete_profile

#[test]
fn delete_profile_works() {
    let mut ext = Ext::new(vec![(ALICE, 1_000_000_000_000)]);
    assert_eq!(ext.create_profile(Origin::Signed(ALICE), profile1()), Ok(()));
    assert_eq!(ext.delete_profile(Origin::Signed(ALICE), 0), Ok(()));
    assert!(ext.profile(0).is_none());
    assert_eq!(
        ext.events(),
        vec![
            Event::ProfileCreated { account: ALICE, profile_id: 0, deposit: 1_357 },
            Event::ProfileDeleted { profile_id: 0, released_deposit: 1_357 },
        ]
    );
    assert_eq!(ext.balances.free.get(&ALICE), Some(&1_000_000_000_000));
}

#[test]
fn unknown_profile_id() {
    let mut ext = Ext::new(vec![(ALICE, 1_400)]);
    assert_eq!(ext.create_profile(Origin::Signed(ALICE), profile1()), Ok(()));
    assert_noop(&mut ext, |e| e.delete_profile(Origin::Signed(ALICE), 1), DispatchError::Module(Error::UnknownProfileId));
}

#[test]
fn wrong_user() {
    let mut ext = Ext::new(vec![(ALICE, 1_400)]);
    assert_eq!(ext.create_profile(Origin::Signed(ALICE), profile1()), Ok(()));
    assert_noop(&mut ext, |e| e.delete_profile(Origin::Signed(BOB), 0), DispatchError::BadOrigin);
}

#[test]
fn forced_delete_profile_works() {
    let mut ext = Ext::new(vec![(ALICE, 1_000_000_000_000)]);
    assert_eq!(ext.create_profile(Origin::Signed(ALICE), profile1()), Ok(()));
    assert_eq!(ext.force_delete_profile(Origin::Root, 0), Ok(()));
    assert!(ext.profile(0).is_none());
    assert_eq!(
        ext.events(),
        vec![
            Event::ProfileCreated { account: ALICE, profile_id: 0, deposit: 1_357 },
            Event::ProfileDeleted { profile_id: 0, released_deposit: 1_357 },
        ]
    );
}

#[test]
fn forced_delete_profile_filter() {
    let mut ext = Ext::new(vec![(ALICE, 1_000_000_000_000)]);
    assert_eq!(ext.create_profile(Origin::Signed(ALICE), profile1()), Ok(()));
    assert_noop(&mut ext, |e| e.force_delete_profile(Origin::Signed(ALICE), 0), DispatchError::BadOrigin);
}

// ---------------------------------------------------------------- assignments

fn assigned_to(ext: &Ext, para_id: ParaId) -> Vec<u64> {
    ext.pallet.assignments.get(&para_id).map(|s| s.iter().copied().collect()).unwrap_or_default()
}

#[test]
fn start_and_stop_assignment() {
    let mut ext = Ext::new(vec![(ALICE, 1_000_000_000_000)]);
    let mut payment = FreePayment::default();
    assert_eq!(ext.create_profile(Origin::Signed(ALICE), profile1()), Ok(()));
    assert_eq!(ext.pallet.check_valid_for_collating(1001), Err(DispatchError::Module(Error::NoBootNodes)));

    assert_eq!(ext.pallet.start_assignment(Ok(BOB), 0, 1001, (), &mut payment), Ok(()));
    assert_eq!(payment.started, 1);
    assert_eq!(assigned_to(&ext, 1001), vec![0]);
    assert_eq!(ext.pallet.check_valid_for_collating(1001), Ok(()));
    assert_eq!(ext.pallet.assignments_profiles(1001).len(), 1);
    assert_eq!(ext.events().last(), Some(&Event::AssignmentStarted { profile_id: 0, para_id: 1001 }));

    // Already assigned; an assigned profile cannot be deleted.
    assert_eq!(
        ext.pallet.start_assignment(Ok(BOB), 0, 1002, (), &mut payment),
        Err(DispatchError::Module(Error::ProfileAlreadyAssigned))
    );
    assert_noop(&mut ext, |e| e.delete_profile(Origin::Signed(ALICE), 0), DispatchError::Module(Error::CantDeleteAssignedProfile));

    // Only the owner (or a privileged caller) stops, and only for the right chain.
    assert_eq!(
        ext.pallet.stop_assignment(Ok(StopCaller::Signed(BOB)), 0, 1001, &mut payment),
        Err(DispatchError::BadOrigin)
    );
    assert_eq!(
        ext.pallet.stop_assignment(Ok(StopCaller::Privileged), 0, 1002, &mut payment),
        Err(DispatchError::Module(Error::WrongParaId))
    );
    assert_eq!(ext.pallet.stop_assignment(Ok(StopCaller::Signed(ALICE)), 0, 1001, &mut payment), Ok(()));
    assert_eq!(payment.stopped, 1);
    assert_eq!(assigned_to(&ext, 1001), Vec::<u64>::new());
    assert_eq!(
        ext.pallet.stop_assignment(Ok(StopCaller::Privileged), 0, 1001, &mut payment),
        Err(DispatchError::Module(Error::ProfileNotAssigned))
    );
    assert_eq!(ext.events().last(), Some(&Event::AssignmentStopped { profile_id: 0, para_id: 1001 }));
}

#[test]
fn assignment_respects_filter_and_limit() {
    let mut ext = Ext::new(vec![(ALICE, 1_000_000_000_000)]);
    ext.pallet.max_assignments_per_para_id = 1;
    for _ in 0..3 {
        assert_eq!(ext.pallet.force_create_profile(Origin::Root, profile2(), ALICE), Ok(()));
    }
    // profile2 is only for para 42.
    assert_eq!(
        ext.pallet.force_start_assignment(Origin::Root, 0, 1001, ()),
        Err(DispatchError::Module(Error::ProfileIsNotElligibleForParaId))
    );
    assert_eq!(ext.pallet.force_start_assignment(Origin::Signed(ALICE), 0, 42, ()), Err(DispatchError::BadOrigin));
    assert_eq!(ext.pallet.force_start_assignment(Origin::Root, 0, 42, ()), Ok(()));
    assert_eq!(
        ext.pallet.force_start_assignment(Origin::Root, 1, 42, ()),
        Err(DispatchError::Module(Error::MaxAssignmentsPerParaIdReached))
    );
    assert_eq!(
        ext.pallet.force_start_assignment(Origin::Root, 7, 42, ()),
        Err(DispatchError::Module(Error::UnknownProfileId))
    );
    // An RPC node is no boot node.
    assert_eq!(ext.pallet.check_valid_for_collating(42), Err(DispatchError::Module(Error::NoBootNodes)));
    ext.pallet.para_deregistered(42);
    assert_eq!(assigned_to(&ext, 42), Vec::<u64>::new());
}

#[test]
fn start_assignment_origin_error_passes_through() {
    let mut ext = Ext::new(vec![(ALICE, 1_000_000_000_000)]);
    let mut payment = FreePayment::default();
    assert_eq!(ext.create_profile(Origin::Signed(ALICE), profile1()), Ok(()));
    assert_eq!(
        ext.pallet.start_assignment(Err(DispatchError::BadOrigin), 0, 1001, (), &mut payment),
        Err(DispatchError::BadOrigin)
    );
    assert_eq!(payment.started, 0);
}

#[test]
fn para_ids_filter_len_and_can_assign() {
    let any = ParaIdsFilter::AnyParaId;
    let white = ParaIdsFilter::Whitelist(BTreeSet::from_iter(vec![1, 2]));
    let black = ParaIdsFilter::Blacklist(BTreeSet::from_iter(vec![1]));
    assert_eq!((any.len(), white.len(), black.len()), (0, 2, 1));
    assert!(any.can_assign(&7));
    assert!(white.can_assign(&2) && !white.can_assign(&3));
    assert!(!black.can_assign(&1) && black.can_assign(&3));
}

#[test]
fn genesis_bootnodes_are_assigned_at_once() {
    let mut pallet = DataPreservers::new(1);
    assert_eq!(pallet.register_genesis_bootnode(1001, ALICE, b"/ip4/127.0.0.1/tcp/33049".to_vec(), (), ()), Ok(()));
    assert_eq!(pallet.register_genesis_bootnode(1002, BOB, b"/ip4/127.0.0.1/tcp/33050".to_vec(), (), ()), Ok(()));
    let first = pallet.profiles.get(&0).unwrap();
    assert_eq!(first.account, ALICE);
    assert_eq!(first.deposit, 0);
    assert_eq!(first.profile.mode, ProfileMode::Bootnode);
    assert_eq!(first.assignment, Some((1001, ())));
    assert_eq!(pallet.check_valid_for_collating(1002), Ok(()));
    // At most one profile per chain here: a second bootnode of 1001 is refused.
    assert_eq!(
        pallet.register_genesis_bootnode(1001, BOB, b"/dns/boot".to_vec(), (), ()),
        Err(DispatchError::Module(Error::MaxAssignmentsPerParaIdReached))
    );
}

#[test]
fn profiles_move_to_the_new_layout() {
    let mut profiles: BTreeMap<u64, RegisteredProfile<(), ()>> = BTreeMap::new();
    profiles.insert(0, RegisteredProfile { account: ALICE, deposit: 10, profile: profile1(), assignment: Some((1001, ())) });
    profiles.insert(1, RegisteredProfile { account: BOB, deposit: 20, profile: profile2(), assignment: None });
    let mut frontier = profile2();
    frontier.mode = ProfileMode::Rpc { supports_ethereum_rpcs: true };
    profiles.insert(5, RegisteredProfile { account: BOB, deposit: 30, profile: frontier, assignment: None });
    let (migrated, count) = migrate_profiles_content(profiles);
    assert_eq!(count, 3);
    assert_eq!(migrated.keys().copied().collect::<Vec<_>>(), vec![0, 1, 5]);

    let boot = &migrated[&0];
    assert_eq!((boot.account, boot.deposit, boot.assignment), (ALICE, 10, Some((1001, ()))));
    assert_eq!(boot.profile.bootnode_url, Some(b"test".to_vec()));
    assert!(boot.profile.direct_rpc_urls.is_empty());
    assert!(boot.profile.proxy_rpc_urls.is_empty());
    assert_eq!(boot.profile.node_type, NodeType::Substrate);
    assert!(boot.profile.additional_info.is_empty());

    let rpc = &migrated[&1];
    assert_eq!(rpc.profile.bootnode_url, None);
    assert_eq!(rpc.profile.direct_rpc_urls, vec![b"test2".to_vec()]);
    assert_eq!(rpc.profile.node_type, NodeType::Substrate);
    assert!(matches!(&rpc.profile.para_ids, ParaIdsFilter::Whitelist(s) if s.contains(&42)));

    assert_eq!(migrated[&5].profile.node_type, NodeType::Frontier);
    assert_eq!(migrated[&5].profile.direct_rpc_urls, vec![b"test2".to_vec()]);
}
