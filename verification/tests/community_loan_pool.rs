use std::collections::{BTreeMap, BTreeSet};
use tanssi_pallets::assignment::AccountId;
use tanssi_pallets::community_loan_pool::{
    calculate_apr, interests, Balance, DispatchError, Error, Event, LoanCurrency, LoanNfts, LoanPoolConfig,
    Pallet, ProposedMilestone, Vote,
};
use tanssi_pallets::origin::Origin;

/// The pool's account in the test runtime.
const POOL: AccountId = 1_000;

/// Free and reserved balances, as the balances pallet of the test runtime keeps them. The
/// existential deposit is 1.
#[derive(Clone, Debug, Default)]
struct Balances {
    free: BTreeMap<AccountId, Balance>,
    reserved: BTreeMap<AccountId, Balance>,
}

impl Balances {
    fn free_of(&self, who: AccountId) -> Balance {
        self.free.get(&who).copied().unwrap_or(0)
    }
    fn reserved_of(&self, who: AccountId) -> Balance {
        self.reserved.get(&who).copied().unwrap_or(0)
    }
}

impl LoanCurrency for Balances {
    fn free_balance(&self, who: AccountId) -> Balance {
        self.free_of(who)
    }

    fn reserve(&mut self, who: AccountId, amount: Balance) -> Result<(), DispatchError> {
        let free = self.free_of(who);
        if free < amount {
            return Err(DispatchError::Other(1));
        }
        self.free.insert(who, free - amount);
        self.reserved.insert(who, self.reserved_of(who) + amount);
        Ok(())
    }

    fn unreserve(&mut self, who: AccountId, amount: Balance) -> Balance {
        let reserved = self.reserved_of(who);
        let moved = amount.min(reserved);
        self.reserved.insert(who, reserved - moved);
        self.free.insert(who, self.free_of(who) + moved);
        amount - moved
    }

    fn slash_reserved(&mut self, who: AccountId, amount: Balance) {
        let reserved = self.reserved_of(who);
        self.reserved.insert(who, reserved - amount.min(reserved));
    }

    fn transfer(&mut self, from: AccountId, to: AccountId, amount: Balance) -> Result<(), DispatchError> {
        let free = self.free_of(from);
        // Keep the sender alive.
        if free < amount + 1 {
            return Err(DispatchError::Other(2));
        }
        self.free.insert(from, free - amount);
        self.free.insert(to, self.free_of(to) + amount);
        Ok(())
    }
}

/// The NFT collections of the test runtime.
#[derive(Clone, Debug, Default)]
struct Nfts {
    next: Option<u32>,
    collections: BTreeSet<u32>,
    items: BTreeSet<(u32, u32)>,
}

impl LoanNfts for Nfts {
    fn next_collection_id(&self) -> Option<u32> {
        self.next
    }
    fn set_next_collection_id(&mut self, id: Option<u32>) {
        self.next = id;
    }
    fn create_collection(&mut self, collection: u32, _owner: AccountId) -> Result<(), DispatchError> {
        if !self.collections.insert(collection) {
            return Err(DispatchError::Other(3));
        }
        Ok(())
    }
    fn mint(&mut self, collection: u32, item: u32, _owner: AccountId) -> Result<(), DispatchError> {
        if !self.collections.contains(&collection) || !self.items.insert((collection, item)) {
            return Err(DispatchError::Other(4));
        }
        Ok(())
    }
    fn burn(&mut self, collection: u32, item: u32) -> Result<(), DispatchError> {
        if !self.items.remove(&(collection, item)) {
            return Err(DispatchError::Other(5));
        }
        Ok(())
    }
}

/// The runtime used by these tests: the pool, the balances, the NFTs, the whitelist and the
/// clock (in milliseconds).
struct Runtime {
    pool: Pallet,
    balances: Balances,
    nfts: Nfts,
    whitelist: BTreeSet<AccountId>,
    timestamp: u64,
}

fn new_test_ext() -> Runtime {
    let config = LoanPoolConfig {
        proposal_bond: 50_000,
        proposal_bond_minimum: 1,
        proposal_bond_maximum: None,
        pallet_account: POOL,
        max_ongoing_loans: 100,
        voting_time: 10,
        max_committee_members: 10,
    };
    let mut balances = Balances::default();
    for (who, amount) in [(0, 1_000_000_000), (1, 15_000), (2, 15_000), (POOL, 110_000_000)] {
        balances.free.insert(who, amount);
    }
    Runtime { pool: Pallet::new(config), balances, nfts: Nfts::default(), whitelist: BTreeSet::new(), timestamp: 0 }
}

fn get_milestones(n: u32) -> Vec<ProposedMilestone> {
    (0..n).map(|_| ProposedMilestone { percentage_to_unlock: (100 / n) as u8 }).collect()
}

impl Runtime {
    fn set_block_number(&mut self, n: u64) {
        self.pool.block_number = n;
    }

    fn set_timestamp(&mut self, ms: u64) {
        self.timestamp = ms;
    }

    fn on_initialize(&mut self, n: u64) {
        self.pool.on_initialize(n, self.timestamp / 1000, &mut self.balances, &mut self.nfts);
    }

    fn run_to_block(&mut self, n: u64) {
        while self.pool.block_number < n {
            let b = self.pool.block_number + 1;
            self.on_initialize(b);
        }
    }

    fn add_to_whitelist(&mut self, who: AccountId) {
        self.whitelist.insert(who);
    }

    /// Runs a call as a transaction: when it fails, the balances are rolled back.
    fn call(&mut self, f: impl FnOnce(&mut Pallet, &BTreeSet<AccountId>, &mut Balances) -> Result<(), DispatchError>) -> Result<(), DispatchError> {
        let saved = self.balances.clone();
        let res = f(&mut self.pool, &self.whitelist, &mut self.balances);
        if res.is_err() {
            self.balances = saved;
        }
        res
    }

    fn propose(&mut self, who: AccountId, amount: Balance, beneficiary: AccountId, experience: u64, term: u64) -> Result<(), DispatchError> {
        self.call(|p, w, b| p.propose(Origin::Signed(who), amount, beneficiary, experience, term, w, b))
    }

    fn set_milestones(&mut self, who: AccountId, index: u32, milestones: Vec<ProposedMilestone>) -> Result<(), DispatchError> {
        self.call(|p, w, _| p.set_milestones(Origin::Signed(who), index, milestones, w))
    }

    fn vote_on_proposal(&mut self, who: AccountId, index: u32, vote: Vote) -> Result<(), DispatchError> {
        self.call(|p, w, _| p.vote_on_proposal(Origin::Signed(who), index, vote, w))
    }

    fn withdraw(&mut self, who: AccountId, loan: u32, amount: Balance) -> Result<(), DispatchError> {
        self.call(|p, w, b| p.withdraw(Origin::Signed(who), loan, amount, w, b))
    }

    fn repay(&mut self, who: AccountId, loan: u32, amount: Balance) -> Result<(), DispatchError> {
        self.call(|p, w, b| p.repay(Origin::Signed(who), loan, amount, w, b))
    }

    fn add_committee_member(&mut self, origin: Origin, member: AccountId) -> Result<(), DispatchError> {
        self.pool.add_committee_member(origin, member)
    }

    fn last_event(&self) -> Option<Event> {
        self.pool.events.last().copied()
    }

    /// Everything the runtime stores, to check that a refused call left it as it was.
    fn storage(&self) -> String {
        let p = &self.pool;
        format!(
            "{:?} {} {} {} {} {} {} {} {:?} {:?} {:?} {:?} {:?} {:?} {:?} {:?} {:?} {:?} {:?} {:?} {:?} {:?} {:?} {:?} {:?} {:?} {:?} {:?}",
            p.voting_committee,
            p.loan_count,
            p.proposal_count,
            p.milestone_proposal_count,
            p.deletion_proposal_count,
            p.total_loan_amount,
            p.total_loan_interests,
            p.reserved_loan_amount,
            p.ongoing_loans,
            p.proposals,
            p.milestone_proposals,
            p.milestone_info,
            p.deletion_proposals,
            p.loans,
            p.ongoing_votes,
            p.ongoing_milestone_votes,
            p.ongoing_deletion_votes,
            p.user_votes,
            p.user_milestone_votes,
            p.user_deletion_votes,
            p.rounds_expiring,
            p.milestone_rounds_expiring,
            p.deletion_rounds_expiring,
            p.block_number,
            p.events,
            self.balances,
            self.nfts,
            p.config,
        )
    }
}

fn module(e: Error) -> DispatchError {
    DispatchError::Module(e)
}

#[test]
fn propose_works() {
    let mut rt = new_test_ext();
    rt.set_block_number(1);
    rt.add_to_whitelist(0);
    assert_eq!(rt.propose(0, 100, 1, 13, 20), Ok(()));
    assert_eq!(rt.last_event(), Some(Event::Proposed { proposal_index: 1 }));
}

#[test]
fn propose_doesnt_work_not_enough_userbalance() {
    let mut rt = new_test_ext();
    rt.set_block_number(1);
    rt.add_to_whitelist(6);
    let before = rt.storage();
    assert_eq!(rt.propose(6, 100, 1, 13, 20), Err(module(Error::InsufficientProposersBalance)));
    assert_eq!(rt.storage(), before);
    assert_eq!(rt.pool.proposal_count, 0);
}

#[test]
fn propose_doesnt_work_too_much_reserved() {
    let mut rt = new_test_ext();
    rt.set_block_number(1);
    rt.add_to_whitelist(0);
    assert_eq!(rt.propose(0, 60_000_000, 1, 13, 20), Ok(()));
    rt.add_to_whitelist(1);
    let before = rt.storage();
    assert_eq!(rt.propose(1, 60_000_000, 1, 13, 20), Err(module(Error::NotEnoughLoanFundsAvailable)));
    assert_eq!(rt.storage(), before);
}

#[test]
fn free_reserved_funds_after_rejection() {
    let mut rt = new_test_ext();
    rt.set_block_number(1);
    assert_eq!(rt.add_committee_member(Origin::Root, 0), Ok(()));
    rt.add_to_whitelist(0);
    assert_eq!(rt.propose(0, 60_000_000, 1, 13, 20), Ok(()));
    rt.run_to_block(22);
    assert_eq!(rt.propose(0, 60_000_000, 1, 13, 20), Ok(()));
}

#[test]
fn add_committee_member_works() {
    let mut rt = new_test_ext();
    rt.set_block_number(1);
    assert_eq!(rt.add_committee_member(Origin::Root, 0), Ok(()));
    assert_eq!(rt.pool.voting_committee[0], 0);
}

#[test]
fn add_committee_member_fails_when_member_is_two_times_added() {
    let mut rt = new_test_ext();
    rt.set_block_number(1);
    assert_eq!(rt.add_committee_member(Origin::Root, 0), Ok(()));
    assert_eq!(rt.pool.voting_committee[0], 0);
    let before = rt.storage();
    assert_eq!(rt.add_committee_member(Origin::Root, 0), Err(module(Error::AlreadyMember)));
    assert_eq!(rt.storage(), before);
}

#[test]
fn tests_voting_works() {
    let mut rt = new_test_ext();
    rt.set_block_number(1);
    rt.set_timestamp(1);
    assert_eq!(rt.add_committee_member(Origin::Root, 0), Ok(()));
    assert_eq!(rt.add_committee_member(Origin::Root, 1), Ok(()));
    rt.add_to_whitelist(0);
    rt.add_to_whitelist(1);
    assert_eq!(rt.propose(1, 100, 1, 13, 20), Ok(()));
    assert_eq!(rt.set_milestones(0, 1, get_milestones(10)), Ok(()));
    assert_eq!(rt.vote_on_proposal(1, 1, Vote::Yes), Ok(()));
    assert_eq!(rt.pool.ongoing_votes.get(&1).unwrap().yes_votes, 2);
}

#[test]
fn vote_rejected_with_no_votes() {
    let mut rt = new_test_ext();
    rt.set_block_number(1);
    rt.set_timestamp(1);
    rt.add_to_whitelist(0);
    rt.add_to_whitelist(1);
    assert_eq!(rt.add_committee_member(Origin::Root, 0), Ok(()));
    assert_eq!(rt.add_committee_member(Origin::Root, 1), Ok(()));
    assert_eq!(rt.propose(1, 100, 1, 13, 20), Ok(()));
    assert_eq!(rt.set_milestones(0, 1, get_milestones(10)), Ok(()));
    rt.run_to_block(22);
    let before = rt.storage();
    assert_eq!(rt.vote_on_proposal(1, 1, Vote::No), Err(module(Error::InvalidIndex)));
    assert_eq!(rt.storage(), before);
}

#[test]
fn voting_works_only_for_members() {
    let mut rt = new_test_ext();
    rt.set_block_number(1);
    rt.add_to_whitelist(0);
    rt.add_to_whitelist(1);
    rt.add_to_whitelist(2);
    assert_eq!(rt.add_committee_member(Origin::Root, 0), Ok(()));
    assert_eq!(rt.propose(1, 100, 1, 13, 20), Ok(()));
    assert_eq!(rt.set_milestones(0, 1, get_milestones(10)), Ok(()));
    let before = rt.storage();
    assert_eq!(rt.vote_on_proposal(2, 1, Vote::Yes), Err(module(Error::InsufficientPermission)));
    assert_eq!(rt.storage(), before);
}

/// A loan of 100 to account 1, approved at block 11 with ten milestones of 10 percent.
fn approved_loan() -> Runtime {
    let mut rt = new_test_ext();
    rt.set_timestamp(1);
    rt.add_to_whitelist(0);
    rt.add_to_whitelist(1);
    assert_eq!(rt.add_committee_member(Origin::Root, 0), Ok(()));
    assert_eq!(rt.propose(1, 100, 1, 13, 20), Ok(()));
    assert_eq!(rt.set_milestones(0, 1, get_milestones(10)), Ok(()));
    rt
}

#[test]
fn vote_evaluated_after_yes_votes() {
    let mut rt = approved_loan();
    rt.set_block_number(1);
    rt.run_to_block(22);
    assert_eq!(rt.pool.loan_count, 1);
}

#[test]
fn milestone_works() {
    let mut rt = new_test_ext();
    rt.set_timestamp(1);
    rt.set_block_number(1);
    rt.add_to_whitelist(0);
    rt.add_to_whitelist(1);
    assert_eq!(rt.add_committee_member(Origin::Root, 0), Ok(()));
    assert_eq!(rt.propose(1, 100, 1, 13, 20), Ok(()));
    assert_eq!(rt.set_milestones(0, 1, get_milestones(10)), Ok(()));
    rt.run_to_block(22);
    assert_eq!(rt.pool.loans.get(&1).unwrap().available_amount, 10);
    let res = rt.call(|p, w, b| p.propose_milestone(Origin::Signed(1), 1, w, b));
    assert_eq!(res, Ok(()));
    let res = rt.call(|p, w, _| p.vote_on_milestone_proposal(Origin::Signed(0), 1, Vote::Yes, w));
    assert_eq!(res, Ok(()));
    rt.run_to_block(43);
    assert_eq!(rt.pool.loans.get(&1).unwrap().available_amount, 20);
    assert_eq!(rt.pool.loans.get(&1).unwrap().loan_apy, 1023);
}

#[test]
fn withdraw_works() {
    let mut rt = approved_loan();
    rt.run_to_block(22);
    assert_eq!(rt.withdraw(1, 1, 10), Ok(()));
    assert_eq!(rt.balances.free_of(1), 15_010);
    assert_eq!(rt.pool.loans.get(&1).unwrap().borrowed_amount, 10);
}

#[test]
fn withdraw_fails_by_wrong_caller() {
    let mut rt = approved_loan();
    rt.add_to_whitelist(2);
    rt.run_to_block(22);
    let before = rt.storage();
    assert_eq!(rt.withdraw(2, 1, 10), Err(module(Error::InsufficientPermission)));
    assert_eq!(rt.storage(), before);
}

#[test]
fn repay_works() {
    let mut rt = approved_loan();
    rt.run_to_block(22);
    assert_eq!(rt.withdraw(1, 1, 10), Ok(()));
    assert_eq!(rt.repay(1, 1, 10), Ok(()));
    assert_eq!(rt.balances.free_of(1), 15_000);
    assert_eq!(rt.pool.loans.get(&1).unwrap().borrowed_amount, 0);
}

#[test]
fn repay_if_its_too_much() {
    let mut rt = approved_loan();
    rt.run_to_block(22);
    assert_eq!(rt.withdraw(1, 1, 10), Ok(()));
    let before = rt.storage();
    assert_eq!(rt.repay(1, 1, 15), Err(module(Error::WantsToRepayTooMuch)));
    assert_eq!(rt.storage(), before);
}

#[test]
fn deletion_works() {
    let mut rt = approved_loan();
    rt.run_to_block(22);
    assert_eq!(rt.withdraw(1, 1, 10), Ok(()));
    assert_eq!(rt.repay(1, 1, 10), Ok(()));
    assert_eq!(rt.balances.free_of(1), 15_000);
    assert_eq!(rt.pool.loans.get(&1).unwrap().borrowed_amount, 0);
    let res = rt.call(|p, w, _| p.propose_deletion(Origin::Signed(1), 1, w));
    assert_eq!(res, Ok(()));
    let res = rt.call(|p, w, _| p.vote_on_deletion_proposal(Origin::Signed(0), 1, Vote::Yes, w));
    assert_eq!(res, Ok(()));
    rt.run_to_block(32);
    assert!(rt.pool.loans.get(&1).is_none());
}

/// A loan of 100_000_000 to account 0, approved at block 11.
fn big_loan() -> Runtime {
    let mut rt = new_test_ext();
    rt.set_timestamp(1);
    rt.add_to_whitelist(0);
    assert_eq!(rt.add_committee_member(Origin::Root, 0), Ok(()));
    assert_eq!(rt.propose(0, 100_000_000, 0, 1, 1), Ok(()));
    assert_eq!(rt.set_milestones(0, 1, get_milestones(10)), Ok(()));
    rt.run_to_block(11);
    rt.set_timestamp(10_000);
    let b = rt.pool.block_number + 1;
    rt.on_initialize(b);
    rt
}

#[test]
fn charge_apy_works() {
    let rt = big_loan();
    assert_eq!(rt.pool.loans.get(&1).unwrap().borrowed_amount, 3);
    assert_eq!(rt.last_event(), Some(Event::ApyCharged { loan_index: 1, interest_balance: 3 }));
}

#[test]
fn charge_apy_and_repaying_the_interests_works() {
    let mut rt = big_loan();
    assert_eq!(rt.pool.loans.get(&1).unwrap().borrowed_amount, 3);
    assert_eq!(rt.last_event(), Some(Event::ApyCharged { loan_index: 1, interest_balance: 3 }));
    assert_eq!(rt.pool.total_loan_amount, 100_000_000);
    assert_eq!(rt.pool.total_loan_interests, 3);
    assert_eq!(rt.withdraw(0, 1, 10_000_000), Ok(()));
    assert_eq!(rt.repay(0, 1, 10_000_000), Ok(()));
    assert_eq!(rt.pool.total_loan_amount, 90_000_000);
    assert_eq!(rt.pool.total_loan_interests, 3);
}

// ---------------------------------------------------------------- own tests

#[test]
fn apr_table() {
    assert_eq!(calculate_apr(1, 1), 525 * 17 * 14 / 100);
    assert_eq!(calculate_apr(13, 20), 1023);
    assert_eq!(calculate_apr(0, 0), 525 * 12 * 12 / 100);
    assert_eq!(calculate_apr(20, 24), 525 * 13 * 13 / 100);
    assert_eq!(calculate_apr(21, 25), 756);
}

#[test]
fn interests_formula() {
    assert_eq!(interests(100_000_000, 10, 1249), 3);
    assert_eq!(interests(100_000_000, 0, 1249), 0);
    assert_eq!(interests(1_000_000, 31_536_000, 10_000), 1_000_000);
}

#[test]
fn bond_is_capped_by_minimum_and_maximum() {
    let mut rt = new_test_ext();
    // 5 percent of 1_000 is 50.
    assert_eq!(rt.pool.calculate_bond(1_000), 50);
    // 5 percent of 10 is below the minimum.
    assert_eq!(rt.pool.calculate_bond(10), 1);
    rt.pool.config.proposal_bond_maximum = Some(20);
    assert_eq!(rt.pool.calculate_bond(1_000), 20);
}

#[test]
fn set_milestones_must_cover_the_loan() {
    let mut rt = new_test_ext();
    rt.add_to_whitelist(0);
    assert_eq!(rt.add_committee_member(Origin::Root, 0), Ok(()));
    assert_eq!(rt.propose(0, 100, 1, 13, 20), Ok(()));
    assert_eq!(rt.set_milestones(0, 1, get_milestones(3)), Err(module(Error::MilestonesHaveToCoverLoan)));
    assert_eq!(rt.set_milestones(0, 1, get_milestones(4)), Ok(()));
    assert_eq!(rt.set_milestones(0, 1, get_milestones(4)), Err(module(Error::MilestonesAlreadySet)));
    // The member voted yes when setting the milestones.
    assert_eq!(rt.vote_on_proposal(0, 1, Vote::Yes), Err(module(Error::AlreadyVoted)));
}

#[test]
fn unwhitelisted_and_unsigned_callers_are_refused() {
    let mut rt = new_test_ext();
    assert_eq!(rt.propose(0, 100, 1, 13, 20), Err(module(Error::UserNotWhitelisted)));
    let res = rt.call(|p, w, b| p.propose(Origin::Root, 100, 1, 13, 20, w, b));
    assert_eq!(res, Err(DispatchError::BadOrigin));
    assert_eq!(rt.add_committee_member(Origin::Signed(0), 0), Err(DispatchError::BadOrigin));
}

#[test]
fn repay_pays_the_loan_balance_before_the_interests() {
    let mut rt = big_loan();
    // Borrowed: 3 of interests only; current balance 100_000_000.
    assert_eq!(rt.withdraw(0, 1, 10_000_000), Ok(()));
    // Repay everything: the loan balance goes down first.
    assert_eq!(rt.repay(0, 1, 10_000_003), Ok(()));
    let loan = rt.pool.loans.get(&1).unwrap();
    assert_eq!(loan.borrowed_amount, 0);
    assert_eq!(loan.current_loan_balance, 100_000_000 - 10_000_003);
    assert_eq!(loan.charged_interests, 3);
}

#[test]
fn withdraw_is_locked_during_deletion_voting() {
    let mut rt = approved_loan();
    rt.run_to_block(22);
    let res = rt.call(|p, w, _| p.propose_deletion(Origin::Signed(1), 1, w));
    assert_eq!(res, Ok(()));
    assert_eq!(rt.withdraw(1, 1, 10), Err(module(Error::DeletionVotingOngoing)));
    // Rejected (no votes): withdrawals open again.
    rt.run_to_block(32);
    assert_eq!(rt.withdraw(1, 1, 10), Ok(()));
}

#[test]
fn repay_after_a_refused_transfer_changes_nothing() {
    let mut rt = approved_loan();
    rt.run_to_block(22);
    assert_eq!(rt.withdraw(1, 1, 10), Ok(()));
    let res = rt.pool.repay_after_transfer(1, 10, Err(DispatchError::Other(9)));
    assert_eq!(res, Err(DispatchError::Other(9)));
    assert_eq!(rt.pool.loans.get(&1).unwrap().borrowed_amount, 10);
}

#[test]
fn repay_after_an_accepted_transfer_pays_the_loan() {
    let mut rt = approved_loan();
    rt.run_to_block(22);
    assert_eq!(rt.withdraw(1, 1, 10), Ok(()));
    let balance = rt.pool.loans.get(&1).unwrap().current_loan_balance;
    assert_eq!(rt.pool.repay_after_transfer(1, 10, Ok(())), Ok(()));
    let loan = rt.pool.loans.get(&1).unwrap();
    assert_eq!(loan.borrowed_amount, 0);
    assert_eq!(loan.current_loan_balance, balance - 10);
}

#[test]
fn repay_with_a_poor_signer_fails_with_the_transfer_error() {
    let mut rt = approved_loan();
    rt.run_to_block(22);
    assert_eq!(rt.withdraw(1, 1, 10), Ok(()));
    rt.balances.free.insert(1, 5);
    assert_eq!(rt.repay(1, 1, 10), Err(DispatchError::Other(2)));
    assert_eq!(rt.pool.loans.get(&1).unwrap().borrowed_amount, 10);
}

#[test]
fn settling_a_proposal_without_votes_rejects_it() {
    let mut rt = new_test_ext();
    rt.set_block_number(1);
    rt.add_to_whitelist(0);
    assert_eq!(rt.propose(0, 100, 1, 13, 20), Ok(()));
    assert_eq!(rt.pool.reserved_loan_amount, 100);
    let bond = rt.balances.reserved_of(0);
    assert!(bond > 0);
    let res = rt.pool.settle_proposal(1, 0, &mut rt.balances, &mut rt.nfts);
    assert_eq!(res, Ok(()));
    assert!(rt.pool.proposals.get(&1).is_none());
    assert!(rt.pool.ongoing_votes.get(&1).is_none());
    assert_eq!(rt.pool.reserved_loan_amount, 0);
    assert_eq!(rt.balances.reserved_of(0), 0);
    assert_eq!(rt.last_event(), Some(Event::Rejected { proposal_index: 1 }));
}

#[test]
fn settling_an_unknown_proposal_does_nothing() {
    let mut rt = new_test_ext();
    let res = rt.pool.settle_proposal(7, 0, &mut rt.balances, &mut rt.nfts);
    assert_eq!(res, Ok(()));
    assert!(rt.pool.events.is_empty());
}

#[test]
fn a_proposal_without_yes_votes_is_rejected_by_the_hook() {
    let mut rt = new_test_ext();
    rt.set_block_number(1);
    rt.add_to_whitelist(1);
    assert_eq!(rt.propose(1, 100, 1, 13, 20), Ok(()));
    let bond = rt.balances.reserved_of(1);
    let free = rt.balances.free_of(1);
    assert!(bond > 0);
    assert_eq!(rt.pool.reserved_loan_amount, 100);
    rt.run_to_block(22);
    // The bond is slashed, the reserved amount drops and no loan is made.
    assert_eq!(rt.balances.reserved_of(1), 0);
    assert_eq!(rt.balances.free_of(1), free);
    assert_eq!(rt.pool.reserved_loan_amount, 0);
    assert!(rt.pool.proposals.is_empty());
    assert!(rt.pool.ongoing_votes.is_empty());
    assert_eq!(rt.pool.loan_count, 0);
}
