use std::collections::{BTreeMap, BTreeSet};
use tanssi_pallets::assignment::AccountId;
use tanssi_pallets::community_projects::{
    balance_native_to_balance_xusd, balance_native_to_u128, balance_xusd_to_balance_native, balance_xusd_to_u128,
    u128_to_balance_native_option, u128_to_balance_option, u64_to_balance_option, Balance, CollectionId, DispatchError,
    Error, Event, ItemId, NftDonationTypes, Pallet, ProjectsConfig, ProjectsRuntime, Vote, BONDING_LOCK_ID, XUSD_ASSET_ID,
};
use tanssi_pallets::origin::Origin;

/// The pallet's account in the test runtime.
const PALLET: AccountId = 1_000;
/// The deposit that creating an NFT collection costs.
const COLLECTION_DEPOSIT: Balance = 2;

/// The parts of the test runtime that the pallet uses: the xUSD asset, native balances with
/// locks (existential deposit 1) and NFT collections.
#[derive(Clone, Debug, Default)]
struct Runtime {
    assets: BTreeMap<AccountId, Balance>,
    native: BTreeMap<AccountId, Balance>,
    locks: BTreeMap<AccountId, Balance>,
    next: Option<u32>,
    collections: BTreeSet<CollectionId>,
    owners: BTreeMap<(CollectionId, ItemId), AccountId>,
}

impl Runtime {
    fn asset_balance(&self, who: AccountId) -> Balance {
        self.assets.get(&who).copied().unwrap_or(0)
    }
    fn native_balance(&self, who: AccountId) -> Balance {
        self.native.get(&who).copied().unwrap_or(0)
    }
}

impl ProjectsRuntime for Runtime {
    fn next_collection_id(&self) -> Option<CollectionId> {
        self.next
    }
    fn set_next_collection_id(&mut self, id: Option<CollectionId>) {
        self.next = id;
    }
    fn create_collection(&mut self, collection: CollectionId, owner: AccountId) -> Result<(), DispatchError> {
        let free = self.native_balance(owner);
        if free < COLLECTION_DEPOSIT || self.collections.contains(&collection) {
            return Err(DispatchError::Other(1));
        }
        self.native.insert(owner, free - COLLECTION_DEPOSIT);
        self.collections.insert(collection);
        Ok(())
    }
    fn set_collection_metadata(&mut self, _who: AccountId, collection: CollectionId, _data: &Vec<u8>) -> Result<(), DispatchError> {
        if self.collections.contains(&collection) { Ok(()) } else { Err(DispatchError::Other(2)) }
    }
    fn mint(&mut self, collection: CollectionId, item: ItemId, owner: AccountId) -> Result<(), DispatchError> {
        if !self.collections.contains(&collection) || self.owners.contains_key(&(collection, item)) {
            return Err(DispatchError::Other(3));
        }
        self.owners.insert((collection, item), owner);
        Ok(())
    }
    fn set_metadata(&mut self, _who: AccountId, collection: CollectionId, item: ItemId, _data: &Vec<u8>) -> Result<(), DispatchError> {
        if self.owners.contains_key(&(collection, item)) { Ok(()) } else { Err(DispatchError::Other(4)) }
    }
    fn set_team(&mut self, _who: AccountId, collection: CollectionId) -> Result<(), DispatchError> {
        if self.collections.contains(&collection) { Ok(()) } else { Err(DispatchError::Other(5)) }
    }
    fn transfer_nft(&mut self, collection: CollectionId, item: ItemId, to: AccountId) -> Result<(), DispatchError> {
        match self.owners.get_mut(&(collection, item)) {
            Some(owner) => {
                *owner = to;
                Ok(())
            }
            None => Err(DispatchError::Other(6)),
        }
    }
    fn burn(&mut self, collection: CollectionId, item: ItemId) -> Result<(), DispatchError> {
        match self.owners.remove(&(collection, item)) {
            Some(_) => Ok(()),
            None => Err(DispatchError::Other(7)),
        }
    }
    fn transfer_asset(&mut self, asset: u32, from: AccountId, to: AccountId, amount: Balance) -> Result<(), DispatchError> {
        let free = self.asset_balance(from);
        if asset != XUSD_ASSET_ID || free < amount {
            return Err(DispatchError::Other(8));
        }
        self.assets.insert(from, free - amount);
        self.assets.insert(to, self.asset_balance(to) + amount);
        Ok(())
    }
    fn free_balance(&self, who: AccountId) -> Balance {
        self.native_balance(who)
    }
    fn transfer_native(&mut self, from: AccountId, to: AccountId, amount: Balance) -> Result<(), DispatchError> {
        let free = self.native_balance(from);
        let locked = self.locks.get(&from).copied().unwrap_or(0);
        if free < amount + 1 || free - amount < locked {
            return Err(DispatchError::Other(9));
        }
        self.native.insert(from, free - amount);
        self.native.insert(to, self.native_balance(to) + amount);
        Ok(())
    }
    fn set_lock(&mut self, id: [u8; 8], who: AccountId, amount: Balance) {
        assert_eq!(id, BONDING_LOCK_ID);
        self.locks.insert(who, amount);
    }
    fn remove_lock(&mut self, id: [u8; 8], who: AccountId) {
        assert_eq!(id, BONDING_LOCK_ID);
        self.locks.remove(&who);
    }
}

/// The pallet with its runtime and whitelist; a failing call leaves the runtime as it was.
struct Chain {
    pallet: Pallet,
    rt: Runtime,
    whitelist: BTreeSet<AccountId>,
}

fn new_test_ext() -> Chain {
    let mut rt = Runtime::default();
    for (who, amount) in [(0, 20_000_000), (1, 1_500), (2, 150_000), (4, 50), (5, 500), (PALLET, 0)] {
        rt.assets.insert(who, amount);
    }
    for (who, amount) in [(0, 20_000_000), (1, 1_000), (2, 1_000), (6, 0), (PALLET, 45)] {
        rt.native.insert(who, amount);
    }
    let config = ProjectsConfig {
        pallet_account: PALLET,
        max_nft_in_collection: 100,
        max_ongoing_projects: 250,
        minimum_remaining_amount: 0,
    };
    let mut pallet = Pallet::new(config);
    pallet.block_number = 1;
    Chain { pallet, rt, whitelist: BTreeSet::new() }
}

impl Chain {
    fn add_to_whitelist(&mut self, who: AccountId) {
        self.whitelist.insert(who);
    }

    fn transactional<F>(&mut self, f: F) -> Result<(), DispatchError>
    where
        F: FnOnce(&mut Pallet, &mut Runtime, &BTreeSet<AccountId>) -> Result<(), DispatchError>,
    {
        let saved = self.rt.clone();
        let res = f(&mut self.pallet, &mut self.rt, &self.whitelist);
        if res.is_err() {
            self.rt = saved;
        }
        res
    }

    fn list_project(&mut self, who: AccountId, types: Vec<NftDonationTypes>, metadata: Vec<Vec<u8>>, duration: u32, price: Balance) -> Result<(), DispatchError> {
        self.transactional(|p, rt, wl| p.list_project(Origin::Signed(who), types, metadata, duration, price, vec![22, 22], wl, rt))
    }

    fn buy_nft(&mut self, who: AccountId, coll: CollectionId, nft_type: u8, amount: u64) -> Result<(), DispatchError> {
        self.transactional(|p, rt, wl| p.buy_nft(Origin::Signed(who), coll, nft_type, amount, wl, rt))
    }

    fn vote_on_milestone(&mut self, who: AccountId, coll: CollectionId, vote: Vote) -> Result<(), DispatchError> {
        self.transactional(|p, _rt, wl| p.vote_on_milestone(Origin::Signed(who), coll, vote, wl))
    }

    fn bond_token(&mut self, who: AccountId, coll: CollectionId, amount: Balance) -> Result<(), DispatchError> {
        self.transactional(|p, rt, wl| p.bond_token(Origin::Signed(who), coll, amount, wl, rt))
    }

    fn claim_refunded_token(&mut self, who: AccountId, coll: CollectionId) -> Result<(), DispatchError> {
        self.transactional(|p, rt, _wl| p.claim_refunded_token(Origin::Signed(who), coll, rt))
    }

    fn claim_bonding(&mut self, who: AccountId, coll: CollectionId) -> Result<(), DispatchError> {
        self.transactional(|p, rt, _wl| p.claim_bonding(Origin::Signed(who), coll, rt))
    }

    fn run_to_block(&mut self, n: u64) {
        while self.pallet.block_number < n {
            let next = self.pallet.block_number + 1;
            self.pallet.on_initialize(next, &mut self.rt);
        }
    }

    fn assets(&self, who: AccountId) -> Balance {
        self.rt.asset_balance(who)
    }

    fn free_balance(&self, who: AccountId) -> Balance {
        self.rt.native_balance(who)
    }

    fn total_bonded(&self) -> Balance {
        self.pallet.total_bonded
    }

    fn project_bonding(&self, coll: CollectionId, who: AccountId) -> Option<Balance> {
        self.pallet.project_bonding.get(&coll).and_then(|m| m.get(&who)).copied()
    }

    fn user_bonded_amount(&self, who: AccountId) -> Option<Balance> {
        self.pallet.user_bonded_amount.get(&who).copied()
    }

    /// Everything the runtime stores, to check that a refused call left it as it was.
    fn storage(&self) -> String {
        let p = &self.pallet;
        format!(
            "{:?} {} {:?} {:?} {:?} {:?} {:?} {:?} {:?} {:?} {:?} {:?} {:?} {} {:?} {:?} {:?}",
            p.config,
            p.block_number,
            p.ongoing_nft_details,
            p.ongoing_projects,
            p.ended_projects,
            p.listed_nft_types,
            p.milestone_period_expiring,
            p.voting_period_expiring,
            p.ongoing_votes,
            p.voted_user,
            p.nft_holder,
            p.project_bonding,
            p.user_bonded_amount,
            p.total_bonded,
            p.voting_power,
            p.events,
            self.rt,
        )
    }
}

fn get_project_nfts(n: u32) -> Vec<NftDonationTypes> {
    (1..=n).map(|x| NftDonationTypes { price: (100 * x) as Balance, amount: x }).collect()
}

fn get_nft_metadata(n: u32) -> Vec<Vec<u8>> {
    (1..=n).map(|_| vec![22, 22]).collect()
}

fn module(e: Error) -> DispatchError {
    DispatchError::Module(e)
}

#[test]
fn list_works() {
    let mut t = new_test_ext();
    t.add_to_whitelist(0);
    assert_eq!(t.list_project(0, get_project_nfts(3), get_nft_metadata(3), 5, 400), Ok(()));
}

#[test]
fn list_fails_with_not_enough_metadata() {
    let mut t = new_test_ext();
    t.add_to_whitelist(0);
    let before = t.storage();
    assert_eq!(t.list_project(0, get_project_nfts(3), get_nft_metadata(4), 5, 400), Err(module(Error::WrongAmountOfMetadata)));
    assert_eq!(t.storage(), before);
}

#[test]
fn list_fails_with_price_too_high() {
    let mut t = new_test_ext();
    t.add_to_whitelist(0);
    let before = t.storage();
    assert_eq!(t.list_project(0, get_project_nfts(4), get_nft_metadata(4), 5, 3100), Err(module(Error::PriceCannotBeReached)));
    assert_eq!(t.storage(), before);
}

#[test]
fn buy_works() {
    let mut t = new_test_ext();
    t.add_to_whitelist(0);
    t.add_to_whitelist(1);
    assert_eq!(t.list_project(0, get_project_nfts(3), get_nft_metadata(3), 5, 400), Ok(()));
    assert_eq!(t.buy_nft(1, 0, 2, 1), Ok(()));
    assert_eq!(t.assets(1), 1300);
    assert_eq!(t.assets(t.pallet.account_id()), 200);
}

#[test]
fn buy_works_multiple_nfts_works() {
    let mut t = new_test_ext();
    t.add_to_whitelist(0);
    t.add_to_whitelist(1);
    assert_eq!(t.list_project(0, get_project_nfts(3), get_nft_metadata(3), 5, 600), Ok(()));
    assert_eq!(t.buy_nft(1, 0, 3, 3), Ok(()));
    assert_eq!(t.assets(1), 900);
    assert_eq!(t.assets(t.pallet.account_id()), 600);
    assert_eq!(t.pallet.listed_nft_types.get(&0).and_then(|m| m.get(&1)), None);
    assert_eq!(t.pallet.listed_nft_types.get(&0).and_then(|m| m.get(&1)), None);
}

#[test]
fn buy_fails_multiple_nfts() {
    let mut t = new_test_ext();
    t.add_to_whitelist(0);
    t.add_to_whitelist(5);
    assert_eq!(t.list_project(0, get_project_nfts(3), get_nft_metadata(3), 5, 600), Ok(()));
    let before = t.storage();
    assert_eq!(t.buy_nft(5, 0, 3, 3), Err(module(Error::NotEnoughFunds)));
    assert_eq!(t.storage(), before);
    assert_eq!(t.assets(5), 500);
}

#[test]
fn buy_fails_nft_not_available() {
    let mut t = new_test_ext();
    t.add_to_whitelist(0);
    t.add_to_whitelist(1);
    assert_eq!(t.list_project(0, get_project_nfts(3), get_nft_metadata(3), 5, 400), Ok(()));
    let before = t.storage();
    assert_eq!(t.buy_nft(1, 2, 1, 1), Err(module(Error::InvalidIndex)));
    assert_eq!(t.storage(), before);
}

#[test]
fn buy_fails_nft_not_enough_assets() {
    let mut t = new_test_ext();
    t.add_to_whitelist(0);
    t.add_to_whitelist(4);
    assert_eq!(t.list_project(0, get_project_nfts(3), get_nft_metadata(3), 5, 400), Ok(()));
    let before = t.storage();
    assert_eq!(t.buy_nft(4, 0, 1, 1), Err(module(Error::NotEnoughFunds)));
    assert_eq!(t.storage(), before);
}

#[test]
fn launch_project_works() {
    let mut t = new_test_ext();
    for who in [0, 1, 2] {
        t.add_to_whitelist(who);
    }
    assert_eq!(t.list_project(0, get_project_nfts(3), get_nft_metadata(3), 5, 300), Ok(()));
    assert_eq!(t.buy_nft(1, 0, 1, 1), Ok(()));
    assert_eq!(t.buy_nft(2, 0, 2, 1), Ok(()));
}

#[test]
fn voting_works() {
    let mut t = new_test_ext();
    for who in [0, 1, 2] {
        t.add_to_whitelist(who);
    }
    assert_eq!(t.list_project(0, get_project_nfts(3), get_nft_metadata(3), 5, 300), Ok(()));
    assert_eq!(t.buy_nft(1, 0, 2, 1), Ok(()));
    assert_eq!(t.buy_nft(2, 0, 1, 1), Ok(()));
    t.run_to_block(11);
    assert_eq!(t.vote_on_milestone(2, 0, Vote::Yes), Ok(()));
    assert_eq!(t.pallet.ongoing_votes.get(&0).unwrap().yes_votes, 100);
}

#[test]
fn rejecting_vote_works() {
    let mut t = new_test_ext();
    for who in [0, 1, 2] {
        t.add_to_whitelist(who);
    }
    assert_eq!(t.list_project(0, get_project_nfts(4), get_nft_metadata(4), 4, 900), Ok(()));
    assert_eq!(t.buy_nft(1, 0, 3, 1), Ok(()));
    assert_eq!(t.buy_nft(1, 0, 3, 1), Ok(()));
    assert_eq!(t.buy_nft(2, 0, 3, 1), Ok(()));
    assert_eq!(t.assets(1), 900);
    assert_eq!(t.assets(2), 149_700);
    assert_eq!(t.assets(t.pallet.account_id()), 900);
    t.run_to_block(11);
    assert_eq!(t.vote_on_milestone(2, 0, Vote::Yes), Ok(()));
    assert_eq!(t.vote_on_milestone(1, 0, Vote::Yes), Ok(()));
    assert_eq!(t.pallet.ongoing_votes.get(&0).unwrap().no_votes, 0);
    t.run_to_block(31);
    assert_eq!(t.vote_on_milestone(1, 0, Vote::No), Ok(()));
    t.run_to_block(51);
    assert_eq!(t.vote_on_milestone(1, 0, Vote::No), Ok(()));
    t.run_to_block(71);
    assert_eq!(t.vote_on_milestone(1, 0, Vote::No), Ok(()));
    t.run_to_block(81);
    assert_eq!(t.pallet.ongoing_projects.get(&0), None);
    assert_eq!(t.claim_refunded_token(1, 0), Ok(()));
    assert_eq!(t.claim_refunded_token(2, 0), Ok(()));
    assert_eq!(t.assets(1), 1_350);
    assert_eq!(t.assets(2), 149_925);
    assert_eq!(t.assets(t.pallet.account_id()), 0);
}

#[test]
fn voting_fails_with_no_permission() {
    let mut t = new_test_ext();
    for who in [0, 1, 2] {
        t.add_to_whitelist(who);
    }
    assert_eq!(t.list_project(0, get_project_nfts(3), get_nft_metadata(3), 3, 300), Ok(()));
    assert_eq!(t.buy_nft(1, 0, 3, 1), Ok(()));
    t.run_to_block(11);
    let before = t.storage();
    assert_eq!(t.vote_on_milestone(2, 0, Vote::Yes), Err(module(Error::InsufficientPermission)));
    assert_eq!(t.storage(), before);
}

#[test]
fn voting_fails_with_double_voting() {
    let mut t = new_test_ext();
    t.add_to_whitelist(0);
    t.add_to_whitelist(1);
    assert_eq!(t.list_project(0, get_project_nfts(3), get_nft_metadata(3), 3, 300), Ok(()));
    assert_eq!(t.buy_nft(1, 0, 3, 1), Ok(()));
    t.run_to_block(11);
    assert_eq!(t.vote_on_milestone(1, 0, Vote::Yes), Ok(()));
    let before = t.storage();
    assert_eq!(t.vote_on_milestone(1, 0, Vote::Yes), Err(module(Error::AlreadyVoted)));
    assert_eq!(t.storage(), before);
}

#[test]
fn voting_fails_with_no_ongoing_voting() {
    let mut t = new_test_ext();
    t.add_to_whitelist(0);
    t.add_to_whitelist(1);
    assert_eq!(t.list_project(0, get_project_nfts(3), get_nft_metadata(3), 3, 300), Ok(()));
    assert_eq!(t.buy_nft(1, 0, 3, 1), Ok(()));
    let before = t.storage();
    assert_eq!(t.vote_on_milestone(1, 0, Vote::Yes), Err(module(Error::NoOngoingVotingPeriod)));
    assert_eq!(t.storage(), before);
}

#[test]
fn set_strikes_works() {
    let mut t = new_test_ext();
    t.add_to_whitelist(0);
    t.add_to_whitelist(1);
    assert_eq!(t.list_project(0, get_project_nfts(3), get_nft_metadata(3), 3, 300), Ok(()));
    assert_eq!(t.buy_nft(1, 0, 3, 1), Ok(()));
    t.run_to_block(11);
    assert_eq!(t.vote_on_milestone(1, 0, Vote::No), Ok(()));
    t.run_to_block(31);
    assert_eq!(t.vote_on_milestone(1, 0, Vote::No), Ok(()));
    t.run_to_block(41);
    assert_eq!(t.pallet.ongoing_projects.get(&0).unwrap().strikes, 2);
    t.run_to_block(51);
    assert_eq!(t.vote_on_milestone(1, 0, Vote::Yes), Ok(()));
    t.run_to_block(61);
    assert_eq!(t.pallet.ongoing_projects.get(&0).unwrap().strikes, 0);
}

#[test]
fn distributing_funds_works() {
    let mut t = new_test_ext();
    for who in [0, 1, 2] {
        t.add_to_whitelist(who);
    }
    assert_eq!(t.list_project(0, get_project_nfts(3), get_nft_metadata(3), 3, 300), Ok(()));
    assert_eq!(t.buy_nft(1, 0, 1, 1), Ok(()));
    assert_eq!(t.buy_nft(2, 0, 2, 1), Ok(()));
    t.run_to_block(11);
    assert_eq!(t.vote_on_milestone(2, 0, Vote::Yes), Ok(()));
    t.run_to_block(22);
    assert_eq!(t.assets(0), 20_000_100);
    assert_eq!(t.assets(t.pallet.account_id()), 200);
}

#[test]
fn distributing_funds_for_2_rounds_works() {
    let mut t = new_test_ext();
    for who in [0, 1, 2] {
        t.add_to_whitelist(who);
    }
    assert_eq!(t.list_project(0, get_project_nfts(3), get_nft_metadata(3), 3, 300), Ok(()));
    assert_eq!(t.buy_nft(1, 0, 1, 1), Ok(()));
    assert_eq!(t.buy_nft(2, 0, 2, 1), Ok(()));
    t.run_to_block(11);
    assert_eq!(t.vote_on_milestone(2, 0, Vote::Yes), Ok(()));
    t.run_to_block(22);
    assert_eq!(t.assets(0), 20_000_100);
    assert_eq!(t.assets(t.pallet.account_id()), 200);
    t.run_to_block(32);
    assert_eq!(t.vote_on_milestone(2, 0, Vote::Yes), Ok(()));
    t.run_to_block(42);
    assert_eq!(t.assets(0), 20_000_200);
    assert_eq!(t.assets(t.pallet.account_id()), 100);
}

#[test]
fn delete_project_works() {
    let mut t = new_test_ext();
    for who in [0, 1, 2] {
        t.add_to_whitelist(who);
    }
    assert_eq!(t.list_project(0, get_project_nfts(3), get_nft_metadata(3), 1, 300), Ok(()));
    assert_eq!(t.buy_nft(1, 0, 2, 1), Ok(()));
    assert_eq!(t.buy_nft(2, 0, 1, 1), Ok(()));
    t.run_to_block(11);
    assert_eq!(t.vote_on_milestone(2, 0, Vote::Yes), Ok(()));
    t.run_to_block(22);
    assert_eq!(t.assets(0), 20_000_300);
    assert_eq!(t.assets(t.pallet.account_id()), 0);
    assert_eq!(t.pallet.ongoing_projects.get(&0), None);
}

#[test]
fn create_project_duration_longer_12() {
    let mut t = new_test_ext();
    for who in [0, 1, 2] {
        t.add_to_whitelist(who);
    }
    assert_eq!(t.list_project(0, get_project_nfts(3), get_nft_metadata(3), 24, 300), Ok(()));
    assert_eq!(t.buy_nft(1, 0, 2, 1), Ok(()));
    assert_eq!(t.buy_nft(2, 0, 1, 1), Ok(()));
    t.run_to_block(18);
    let before = t.storage();
    assert_eq!(t.vote_on_milestone(2, 0, Vote::Yes), Err(module(Error::NoOngoingVotingPeriod)));
    assert_eq!(t.storage(), before);
    t.run_to_block(21);
    assert_eq!(t.vote_on_milestone(2, 0, Vote::Yes), Ok(()));
    t.run_to_block(32);
    assert_eq!(t.assets(0), 20_000_025);
    assert_eq!(t.assets(t.pallet.account_id()), 275);
    t.run_to_block(52);
    assert_eq!(t.vote_on_milestone(2, 0, Vote::Yes), Ok(()));
}

#[test]
fn bonding_works() {
    let mut t = new_test_ext();
    for who in [0, 1, 2] {
        t.add_to_whitelist(who);
    }
    assert_eq!(t.list_project(0, get_project_nfts(3), get_nft_metadata(3), 2, 320), Ok(()));
    assert_eq!(t.free_balance(0), 19_999_998);
    assert_eq!(t.buy_nft(1, 0, 2, 1), Ok(()));
    assert_eq!(t.bond_token(1, 0, 30), Ok(()));
    assert_eq!(t.total_bonded(), 30);
    assert_eq!(t.project_bonding(0, 1).unwrap(), 30);
    assert_eq!(t.buy_nft(2, 0, 1, 1), Ok(()));
    t.run_to_block(11);
    assert_eq!(t.vote_on_milestone(2, 0, Vote::Yes), Ok(()));
    t.run_to_block(31);
    assert_eq!(t.vote_on_milestone(2, 0, Vote::Yes), Ok(()));
    assert_eq!(t.project_bonding(0, 1).unwrap(), 30);
    assert_eq!(t.user_bonded_amount(1).unwrap(), 30);
    t.run_to_block(42);
    assert_eq!(t.assets(0), 20_000_300);
    assert_eq!(t.free_balance(0), 20_000_028);
    assert_eq!(t.total_bonded(), 30);
    assert_eq!(t.user_bonded_amount(1).unwrap(), 30);
}

#[test]
fn bonding_on_more_projects_works() {
    let mut t = new_test_ext();
    for who in [0, 1, 2] {
        t.add_to_whitelist(who);
    }
    assert_eq!(t.list_project(0, get_project_nfts(3), get_nft_metadata(3), 1, 320), Ok(()));
    assert_eq!(t.list_project(0, get_project_nfts(4), get_nft_metadata(4), 2, 320), Ok(()));
    assert_eq!(t.free_balance(0), 19_999_996);
    assert_eq!(t.buy_nft(1, 0, 2, 1), Ok(()));
    assert_eq!(t.bond_token(1, 0, 30), Ok(()));
    assert_eq!(t.bond_token(1, 1, 10), Ok(()));
    assert_eq!(t.total_bonded(), 40);
    assert_eq!(t.project_bonding(0, 1).unwrap(), 30);
    assert_eq!(t.buy_nft(2, 0, 1, 1), Ok(()));
    t.run_to_block(11);
    assert_eq!(t.vote_on_milestone(2, 0, Vote::Yes), Ok(()));
    t.run_to_block(22);
    assert_eq!(t.assets(0), 20_000_300);
    assert_eq!(t.free_balance(0), 20_000_026);
    assert_eq!(t.total_bonded(), 40);
    assert_eq!(t.user_bonded_amount(1).unwrap(), 40);
}

#[test]
fn bonding_fails_not_enough_funds() {
    let mut t = new_test_ext();
    t.add_to_whitelist(0);
    t.add_to_whitelist(1);
    assert_eq!(t.list_project(0, get_project_nfts(4), get_nft_metadata(4), 2, 800), Ok(()));
    let before = t.storage();
    assert_eq!(t.bond_token(1, 0, 50), Err(module(Error::NotEnoughBondingFundsAvailable)));
    assert_eq!(t.storage(), before);
}

#[test]
fn bonding_fails_over_10_percent() {
    let mut t = new_test_ext();
    t.add_to_whitelist(0);
    t.add_to_whitelist(1);
    assert_eq!(t.list_project(0, get_project_nfts(4), get_nft_metadata(4), 2, 200), Ok(()));
    let before = t.storage();
    assert_eq!(t.bond_token(1, 0, 30), Err(module(Error::ProjectCanOnlyHave10PercentBonding)));
    assert_eq!(t.storage(), before);
}

#[test]
fn bonding_fails_project_ongoing() {
    let mut t = new_test_ext();
    for who in [0, 1, 2] {
        t.add_to_whitelist(who);
    }
    assert_eq!(t.list_project(0, get_project_nfts(3), get_nft_metadata(3), 2, 300), Ok(()));
    assert_eq!(t.buy_nft(1, 0, 2, 1), Ok(()));
    assert_eq!(t.buy_nft(2, 0, 1, 1), Ok(()));
    let before = t.storage();
    assert_eq!(t.bond_token(1, 0, 30), Err(module(Error::ProjectOngoing)));
    assert_eq!(t.storage(), before);
}

#[test]
fn bonding_fails_user_not_enough_funds() {
    let mut t = new_test_ext();
    for who in [0, 6, 2] {
        t.add_to_whitelist(who);
    }
    assert_eq!(t.list_project(0, get_project_nfts(3), get_nft_metadata(3), 2, 300), Ok(()));
    assert_eq!(t.bond_token(6, 0, 30), Ok(()));
    assert_eq!(t.total_bonded(), 0);
}

#[test]
fn claim_refunded_token_works() {
    let mut t = new_test_ext();
    for who in [0, 1, 2] {
        t.add_to_whitelist(who);
    }
    assert_eq!(t.list_project(0, get_project_nfts(3), get_nft_metadata(3), 3, 300), Ok(()));
    assert_eq!(t.buy_nft(1, 0, 1, 1), Ok(()));
    assert_eq!(t.buy_nft(2, 0, 2, 1), Ok(()));
    t.run_to_block(11);
    assert_eq!(t.vote_on_milestone(2, 0, Vote::Yes), Ok(()));
    t.run_to_block(22);
    assert_eq!(t.assets(0), 20_000_100);
    assert_eq!(t.assets(t.pallet.account_id()), 200);
    assert_eq!(t.assets(2), 149_800);
    t.run_to_block(100);
    assert_eq!(t.pallet.ended_projects.get(&0).unwrap().project_success, false);
    assert_eq!(t.claim_refunded_token(2, 0), Ok(()));
    assert_eq!(t.assets(2), 149_933);
}

#[test]
fn claim_refunded_token_fails() {
    let mut t = new_test_ext();
    for who in [0, 1, 2] {
        t.add_to_whitelist(who);
    }
    assert_eq!(t.list_project(0, get_project_nfts(3), get_nft_metadata(3), 3, 300), Ok(()));
    assert_eq!(t.buy_nft(1, 0, 1, 1), Ok(()));
    assert_eq!(t.buy_nft(2, 0, 2, 1), Ok(()));
    t.run_to_block(11);
    assert_eq!(t.vote_on_milestone(2, 0, Vote::Yes), Ok(()));
    t.run_to_block(22);
    assert_eq!(t.assets(0), 20_000_100);
    assert_eq!(t.assets(t.pallet.account_id()), 200);
    assert_eq!(t.assets(2), 149_800);
    let before = t.storage();
    assert_eq!(t.claim_refunded_token(2, 0), Err(module(Error::InvalidIndex)));
    assert_eq!(t.storage(), before);
    t.run_to_block(100);
    assert_eq!(t.pallet.ended_projects.get(&0).unwrap().project_success, false);
    let before = t.storage();
    assert_eq!(t.claim_refunded_token(3, 0), Err(module(Error::InsufficientPermission)));
    assert_eq!(t.storage(), before);
}

#[test]
fn claim_bonding_for_failed_project_works() {
    let mut t = new_test_ext();
    for who in [0, 1, 2] {
        t.add_to_whitelist(who);
    }
    assert_eq!(t.list_project(0, get_project_nfts(3), get_nft_metadata(3), 2, 320), Ok(()));
    assert_eq!(t.free_balance(0), 19_999_998);
    assert_eq!(t.buy_nft(1, 0, 2, 1), Ok(()));
    assert_eq!(t.bond_token(1, 0, 30), Ok(()));
    assert_eq!(t.total_bonded(), 30);
    assert_eq!(t.project_bonding(0, 1).unwrap(), 30);
    assert_eq!(t.buy_nft(2, 0, 1, 1), Ok(()));
    t.run_to_block(11);
    assert_eq!(t.vote_on_milestone(2, 0, Vote::Yes), Ok(()));
    t.run_to_block(100);
    assert_eq!(t.pallet.ended_projects.get(&0).unwrap().project_success, false);
    assert_eq!(t.claim_bonding(1, 0), Ok(()));
    assert_eq!(t.user_bonded_amount(1), None);
}

#[test]
fn claim_bonding_for_succeed_project_works() {
    let mut t = new_test_ext();
    for who in [0, 1, 2] {
        t.add_to_whitelist(who);
    }
    assert_eq!(t.list_project(0, get_project_nfts(3), get_nft_metadata(3), 1, 320), Ok(()));
    assert_eq!(t.free_balance(0), 19_999_998);
    assert_eq!(t.buy_nft(1, 0, 2, 1), Ok(()));
    assert_eq!(t.bond_token(1, 0, 30), Ok(()));
    assert_eq!(t.total_bonded(), 30);
    assert_eq!(t.project_bonding(0, 1).unwrap(), 30);
    assert_eq!(t.buy_nft(2, 0, 1, 1), Ok(()));
    t.run_to_block(11);
    assert_eq!(t.vote_on_milestone(2, 0, Vote::Yes), Ok(()));
    t.run_to_block(31);
    assert_eq!(t.pallet.ended_projects.get(&0).unwrap().project_success, true);
    assert_eq!(t.claim_bonding(1, 0), Ok(()));
    assert_eq!(t.user_bonded_amount(1), None);
}

#[test]
fn claim_bonding_for_failed_project_fails() {
    let mut t = new_test_ext();
    for who in [0, 1, 2] {
        t.add_to_whitelist(who);
    }
    assert_eq!(t.list_project(0, get_project_nfts(3), get_nft_metadata(3), 2, 320), Ok(()));
    assert_eq!(t.free_balance(0), 19_999_998);
    assert_eq!(t.buy_nft(1, 0, 2, 1), Ok(()));
    assert_eq!(t.bond_token(1, 0, 30), Ok(()));
    assert_eq!(t.total_bonded(), 30);
    assert_eq!(t.project_bonding(0, 1).unwrap(), 30);
    assert_eq!(t.buy_nft(2, 0, 1, 1), Ok(()));
    t.run_to_block(11);
    assert_eq!(t.vote_on_milestone(2, 0, Vote::Yes), Ok(()));
    let before = t.storage();
    assert_eq!(t.claim_bonding(1, 0), Err(module(Error::InvalidIndex)));
    assert_eq!(t.storage(), before);
    t.run_to_block(100);
    assert_eq!(t.pallet.ended_projects.get(&0).unwrap().project_success, false);
    let before = t.storage();
    assert_eq!(t.claim_bonding(2, 0), Err(module(Error::NoBondingYet)));
    assert_eq!(t.storage(), before);
}

// Scenarios of our own.

#[test]
fn listing_numbers_the_nfts_type_after_type() {
    let mut t = new_test_ext();
    t.add_to_whitelist(0);
    assert_eq!(t.list_project(0, get_project_nfts(3), get_nft_metadata(3), 15, 400), Ok(()));
    let project = *t.pallet.ongoing_projects.get(&0).unwrap();
    assert_eq!(project.milestones, 12);
    assert_eq!(project.remaining_milestones, 12);
    assert_eq!(project.nft_types, 3);
    let listed = t.pallet.listed_nft_types.get(&0).unwrap();
    assert_eq!(listed.get(&1).unwrap(), &vec![0]);
    assert_eq!(listed.get(&2).unwrap(), &vec![1, 2]);
    assert_eq!(listed.get(&3).unwrap(), &vec![3, 4, 5]);
    assert_eq!(t.pallet.ongoing_nft_details.get(&0).unwrap().get(&4).unwrap().price, 300);
    assert_eq!(t.rt.next, Some(1));
    assert_eq!(t.pallet.events.last(), Some(&Event::ProjectListed { collection_index: 0, seller: 0 }));
}

#[test]
fn listing_caps_each_type_at_the_collection_limit() {
    let mut t = new_test_ext();
    t.pallet.config.max_nft_in_collection = 2;
    t.add_to_whitelist(0);
    assert_eq!(t.list_project(0, get_project_nfts(3), get_nft_metadata(3), 2, 400), Ok(()));
    let listed = t.pallet.listed_nft_types.get(&0).unwrap();
    assert_eq!(listed.get(&3).unwrap(), &vec![3, 4]);
    // The third NFT of the last type is minted but not for sale.
    assert!(t.pallet.ongoing_nft_details.get(&0).unwrap().contains_key(&5));
}

#[test]
fn refused_callers_and_zero_duration() {
    let mut t = new_test_ext();
    assert_eq!(t.list_project(0, get_project_nfts(1), get_nft_metadata(1), 2, 100), Err(module(Error::UserNotWhitelisted)));
    t.add_to_whitelist(0);
    assert_eq!(t.list_project(0, get_project_nfts(1), get_nft_metadata(1), 0, 100), Err(module(Error::DurationMustBeHigherThanZero)));
    let res = t.transactional(|p, rt, wl| p.buy_nft(Origin::Root, 0, 1, 1, wl, rt));
    assert_eq!(res, Err(DispatchError::BadOrigin));
    assert_eq!(t.list_project(0, get_project_nfts(2), get_nft_metadata(2), 2, 100), Ok(()));
    assert_eq!(t.buy_nft(0, 0, 7, 1), Err(module(Error::NftTypeNotFound)));
    assert_eq!(t.buy_nft(0, 0, 1, 2), Err(module(Error::NotEnoughNftsAvailable)));
    assert_eq!(t.claim_bonding(0, 0), Err(module(Error::InvalidIndex)));
}

#[test]
fn buying_nothing_changes_nothing() {
    let mut t = new_test_ext();
    t.add_to_whitelist(0);
    t.add_to_whitelist(1);
    assert_eq!(t.list_project(0, get_project_nfts(2), get_nft_metadata(2), 2, 100), Ok(()));
    let project = t.pallet.ongoing_projects.get(&0).copied();
    assert!(project.is_some());
    assert_eq!(t.buy_nft(1, 0, 1, 0), Ok(()));
    assert_eq!(t.pallet.ongoing_projects.get(&0).copied(), project);
}

#[test]
fn launching_burns_the_unsold_nfts() {
    let mut t = new_test_ext();
    t.add_to_whitelist(0);
    t.add_to_whitelist(2);
    assert_eq!(t.list_project(0, get_project_nfts(3), get_nft_metadata(3), 2, 300), Ok(()));
    assert_eq!(t.buy_nft(2, 0, 3, 1), Ok(()));
    let project = *t.pallet.ongoing_projects.get(&0).unwrap();
    assert!(project.ongoing);
    assert_eq!(project.launching_timestamp, 1);
    assert!(t.pallet.listed_nft_types.get(&0).unwrap().is_empty());
    // Only the NFT bought is left.
    assert_eq!(t.rt.owners.len(), 1);
    assert_eq!(t.rt.owners.get(&(0, 3)), Some(&2));
    assert_eq!(t.pallet.milestone_period_expiring.get(&11), Some(&vec![0]));
    assert_eq!(t.pallet.voting_power.get(&0).unwrap().get(&2), Some(&300));
}

#[test]
fn voting_power_weighs_the_vote() {
    let mut t = new_test_ext();
    for who in [0, 1, 2] {
        t.add_to_whitelist(who);
    }
    assert_eq!(t.list_project(0, get_project_nfts(3), get_nft_metadata(3), 3, 400), Ok(()));
    assert_eq!(t.buy_nft(1, 0, 1, 1), Ok(()));
    assert_eq!(t.buy_nft(2, 0, 3, 1), Ok(()));
    t.run_to_block(11);
    assert_eq!(t.vote_on_milestone(1, 0, Vote::Yes), Ok(()));
    assert_eq!(t.vote_on_milestone(2, 0, Vote::No), Ok(()));
    let stats = *t.pallet.ongoing_votes.get(&0).unwrap();
    assert_eq!((stats.yes_votes, stats.no_votes), (100, 300));
    t.run_to_block(21);
    assert_eq!(t.pallet.ongoing_projects.get(&0).unwrap().strikes, 1);
    assert_eq!(t.assets(0), 20_000_000);
}

#[test]
fn conversions_keep_the_amount() {
    assert_eq!(u64_to_balance_option(7), Ok(7));
    assert_eq!(u128_to_balance_option(u128::MAX), Ok(u128::MAX));
    assert_eq!(balance_xusd_to_u128(5), Ok(5));
    assert_eq!(balance_xusd_to_balance_native(6), Ok(6));
    assert_eq!(balance_native_to_balance_xusd(8), Ok(8));
    assert_eq!(balance_native_to_u128(9), Ok(9));
    assert_eq!(u128_to_balance_native_option(10), Ok(10));
}

#[test]
fn bonding_everything_takes_what_the_bonder_has() {
    let mut t = new_test_ext();
    t.add_to_whitelist(0);
    t.add_to_whitelist(1);
    assert_eq!(t.list_project(0, get_project_nfts(3), get_nft_metadata(3), 2, 320), Ok(()));
    t.rt.native.insert(1, 30);
    assert_eq!(t.bond_token(1, 0, u128::MAX), Ok(()));
    assert_eq!(t.total_bonded(), 30);
    assert_eq!(t.project_bonding(0, 1).unwrap(), 30);
    assert_eq!(t.user_bonded_amount(1).unwrap(), 30);
}
