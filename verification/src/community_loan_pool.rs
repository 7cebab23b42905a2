//! Community loan pool: real estate developers propose loans, a committee sets milestones and
//! votes, approved loans are paid out milestone by milestone, interests accrue over time and the
//! developer repays.
//!
//! The runtime provides the currency, the NFT collections that represent loans, the whitelist of
//! accounts that passed KYC and the clock. A dispatchable that fails is rolled back by its caller;
//! the block hook is not, and keeps what it did before an error, as the runtime does.

use vstd::prelude::*;
use std::collections::{BTreeMap, BTreeSet};
use crate::assignment::AccountId;
use crate::origin::Origin;
use crate::perthings::{mul_nearest_pref_down, permill_mul_u128, PERMILL_ONE};

verus! {

/// Amount of the runtime's currency.
pub type Balance = u128;
/// Index of a loan proposal (and of milestone and deletion proposals).
pub type ProposalIndex = u32;
/// Index of a loan.
pub type LoanIndex = u32;
/// Yearly interest rate, in hundredths of a percent.
pub type LoanApy = u64;
/// Block number.
pub type BlockNumber = u64;

/// Base interest rate, in hundredths of a percent.
pub const BASEINTERESTRATE: u32 = 525;

/// A milestone: the share of the loan it unlocks, in percent.
#[derive(Debug, Clone, Copy, PartialEq, Eq, Structural)]
pub struct ProposedMilestone {
    pub percentage_to_unlock: u8,
}

/// Loan proposal with the details.
#[derive(Debug, Clone, PartialEq, Eq)]
pub struct Proposal {
    pub proposer: AccountId,
    pub amount: Balance,
    pub milestones: Vec<ProposedMilestone>,
    pub beneficiary: AccountId,
    pub apr_rate: LoanApy,
    pub bond: Balance,
    pub created_at: BlockNumber,
}

/// Infos from milestone proposals.
#[derive(Debug, Clone, Copy, PartialEq, Eq, Structural)]
pub struct MilestoneProposalInfo {
    pub proposer: AccountId,
    pub bond: Balance,
}

/// Infos for loan.
#[derive(Debug, Clone, PartialEq, Eq)]
pub struct LoanInfo {
    pub borrower: AccountId,
    /// The loan amount borrowed at the beginning
    pub loan_amount: Balance,
    /// The loan amount less the repayment installments
    pub current_loan_balance: Balance,
    /// The loan amount that is currently available for the real estate developer.
    pub available_amount: Balance,
    /// The loan amount that has been borrowed.
    pub borrowed_amount: Balance,
    pub charged_interests: Balance,
    pub milestones: Vec<ProposedMilestone>,
    pub collection_id: u32,
    pub item_id: u32,
    pub loan_apy: LoanApy,
    pub last_timestamp: u64,
    pub withdraw_lock: bool,
}

/// The account of the pallet.
#[derive(Debug, Clone, Copy, PartialEq, Eq, Structural)]
pub struct PalletIdStorage {
    pub pallet_id: AccountId,
}

/// Vote enum.
#[derive(Debug, Clone, Copy, PartialEq, Eq, Structural)]
pub enum Vote {
    Yes,
    No,
}

/// Voting stats.
#[derive(Debug, Clone, Copy, PartialEq, Eq, Structural)]
pub struct VoteStats {
    pub yes_votes: u64,
    pub no_votes: u64,
}

/// Errors of the pallet.
#[derive(Debug, Clone, Copy, PartialEq, Eq, Structural)]
pub enum Error {
    /// Proposer's balance is too low.
    InsufficientProposersBalance,
    /// Loan pool's balance is too low.
    InsufficientLoanPoolBalance,
    /// No proposal index.
    InvalidIndex,
    /// The caller doesn't have enough permission.
    InsufficientPermission,
    /// Max amount of ongoing loan reached.
    TooManyLoans,
    /// User has already voted.
    AlreadyVoted,
    /// Loan got not approved.
    NotApproved,
    /// The account is already a member in the voting committee.
    AlreadyMember,
    /// There are already enough committee members.
    TooManyMembers,
    /// There are not enough funds available in the loan.
    NotEnoughFundsToWithdraw,
    /// The loan is still ongoing.
    LoanStillOngoing,
    /// All milestones have been accomplished.
    NoMilestonesLeft,
    /// Milestones of the loan have to be 100 % in sum
    MilestonesHaveToCoverLoan,
    /// Withdrawl is locked during ongoing voting for deletion.
    DeletionVotingOngoing,
    /// The beneficiary didn't borrow that much funds.
    WantsToRepayTooMuch,
    /// There are not enough funds available in the loan pallet.
    NotEnoughLoanFundsAvailable,
    /// The Milestones for the proposal have already been set.
    MilestonesAlreadySet,
    /// There has been no milestones set in the proposal.
    NoMilestones,
    /// There is an issue by calling the next collection id.
    UnknownCollection,
    /// Error by convertion to balance type.
    ConversionError,
    ArithmeticUnderflow,
    /// Error by dividing a number.
    DivisionError,
    /// This loan does not exist
    NoLoanFound,
    /// User has not passed the kyc.
    UserNotWhitelisted,
}

/// Why a call failed: an error of this pallet, or one of the runtime.
#[derive(Debug, Clone, Copy, PartialEq, Eq, Structural)]
pub enum DispatchError {
    /// The origin may not make this call.
    BadOrigin,
    /// An error of this pallet.
    Module(Error),
    /// Another error of the runtime, by its index.
    Other(u32),
}

/// Events of the pallet.
#[derive(Debug, Clone, Copy, PartialEq, Eq, Structural)]
pub enum Event {
    /// New proposal has been created.
    Proposed { proposal_index: ProposalIndex },
    /// New milestone proposal has been created.
    MilestoneProposed { proposal_index: ProposalIndex },
    /// New deletion proposal has been created.
    DeletionProposed { proposal_index: ProposalIndex, loan_index: LoanIndex },
    /// Proposal has been approved.
    Approved { proposal_index: ProposalIndex },
    /// Proposal has been rejected.
    Rejected { proposal_index: ProposalIndex },
    /// Loan has been deleted.
    Deleted { loan_index: LoanIndex },
    /// Apy has been charged.
    ApyCharged { loan_index: LoanIndex, interest_balance: Balance },
    /// Loan has been updated.
    LoanUpdated { loan_index: LoanIndex },
    /// User withdrew money.
    Withdraw { loan_index: LoanIndex, amount: Balance },
    /// Voted on a proposal.
    VotedOnProposal { proposal_index: ProposalIndex, member: AccountId, vote: Vote },
    /// Voted on a milestone.
    VotedOnMilestone { proposal_index: ProposalIndex, member: AccountId, vote: Vote },
    /// Voted on a deletion.
    VotedOnDeletion { proposal_index: ProposalIndex, member: AccountId, vote: Vote },
    /// A new committee member has been added.
    CommiteeMemberAdded { new_member: AccountId },
    /// Milestone Proposal has been approved.
    MilestoneApproved { loan_id: LoanIndex },
    /// Milestone Proposal has been rejected.
    MilestoneRejected { proposal_index: ProposalIndex },
    /// Milestones have been set for a proposal.
    MilestonesSet { proposal_index: ProposalIndex },
}

/// The currency of the runtime, with reserves.
pub trait LoanCurrency {
    /// The free balance of `who`.
    fn free_balance(&self, who: AccountId) -> Balance;
    /// Moves `amount` of the free balance of `who` to its reserve.
    fn reserve(&mut self, who: AccountId, amount: Balance) -> Result<(), DispatchError>;
    /// Moves up to `amount` of the reserve of `who` back to its free balance; returns what
    /// could not be moved.
    fn unreserve(&mut self, who: AccountId, amount: Balance) -> Balance;
    /// Slashes up to `amount` of the reserve of `who`; the runtime handles what was slashed.
    fn slash_reserved(&mut self, who: AccountId, amount: Balance);
    /// Transfers `amount` from `from` to `to`, keeping `from` alive.
    fn transfer(&mut self, from: AccountId, to: AccountId, amount: Balance) -> Result<(), DispatchError>;
}

/// The NFT collections of the runtime: each loan is an NFT owned by the pallet.
pub trait LoanNfts {
    /// The id the next collection gets, if set.
    fn next_collection_id(&self) -> Option<u32>;
    /// Sets the id of the next collection.
    fn set_next_collection_id(&mut self, id: Option<u32>);
    /// Creates `collection`, owned and administered by `owner`.
    fn create_collection(&mut self, collection: u32, owner: AccountId) -> Result<(), DispatchError>;
    /// Mints `item` of `collection` for `owner`.
    fn mint(&mut self, collection: u32, item: u32, owner: AccountId) -> Result<(), DispatchError>;
    /// Burns `item` of `collection`.
    fn burn(&mut self, collection: u32, item: u32) -> Result<(), DispatchError>;
}

/// A call the pallet made to the runtime, with what the runtime answered.
pub enum LoanCall {
    FreeBalance { who: AccountId, balance: Balance },
    Reserve { who: AccountId, amount: Balance, result: Result<(), DispatchError> },
    Unreserve { who: AccountId, amount: Balance, left: Balance },
    SlashReserved { who: AccountId, amount: Balance },
    Transfer { from: AccountId, to: AccountId, amount: Balance, result: Result<(), DispatchError> },
    NextCollectionId { id: Option<u32> },
    SetNextCollectionId { id: Option<u32> },
    CreateCollection { collection: u32, owner: AccountId, result: Result<(), DispatchError> },
    Mint { collection: u32, item: u32, owner: AccountId, result: Result<(), DispatchError> },
    Burn { collection: u32, item: u32, result: Result<(), DispatchError> },
}

/// The calls made to the runtime from `before` on, when `before` is a prefix of `after`.
pub open spec fn calls_since(before: Seq<LoanCall>, after: Seq<LoanCall>) -> Seq<LoanCall> {
    after.subrange(before.len() as int, after.len() as int)
}

/// Constants of the runtime for this pallet.
#[derive(Debug, Clone, Copy, PartialEq, Eq, Structural)]
pub struct LoanPoolConfig {
    /// Fraction of a proposal's value that is bonded, in parts per million.
    pub proposal_bond: u32,
    /// Minimum bond of a proposal.
    pub proposal_bond_minimum: Balance,
    /// Maximum bond of a proposal, if any.
    pub proposal_bond_maximum: Option<Balance>,
    /// The pallet's account.
    pub pallet_account: AccountId,
    /// The maximum amount of loans that can run at the same time.
    pub max_ongoing_loans: u32,
    /// The number of blocks given to vote for a proposal.
    pub voting_time: BlockNumber,
    /// The maximum amount of committee members.
    pub max_committee_members: u32,
}

/// The apr for a loan, in hundredths of a percent, from the developer's years of experience and
/// the loan term in months.
pub open spec fn apr_spec(experience: u64, loan_term: u64) -> u64 {
    let e: int = if 1 <= experience <= 5 {
        17
    } else if 6 <= experience <= 15 {
        15
    } else if 16 <= experience <= 20 {
        13
    } else {
        12
    };
    let t: int = if 1 <= loan_term <= 12 {
        14
    } else if 13 <= loan_term <= 24 {
        13
    } else {
        12
    };
    ((BASEINTERESTRATE * e * t) / 100) as u64
}

/// The bond for a proposal of `value`: the configured fraction of it, at least the minimum and
/// at most the maximum.
pub open spec fn bond_spec(config: LoanPoolConfig, value: Balance) -> Balance {
    let share = mul_nearest_pref_down(value as int, config.proposal_bond as int, PERMILL_ONE as int);
    let r = if share < config.proposal_bond_minimum { config.proposal_bond_minimum as int } else { share };
    (match config.proposal_bond_maximum {
        Some(m) => if m < r { m as int } else { r },
        None => r,
    }) as Balance
}

/// The interests of `amount` over `seconds` at `apy` hundredths of a percent a year.
pub open spec fn interests_spec(amount: u64, seconds: u64, apy: u64) -> int {
    amount * seconds * apy / 365 / 60 / 60 / 24 / 10000
}

/// The sum of the percentages of `milestones`.
pub open spec fn milestones_sum(milestones: Seq<ProposedMilestone>) -> int
    decreases milestones.len(),
{
    if milestones.len() == 0 {
        0
    } else {
        milestones_sum(milestones.drop_last()) + milestones.last().percentage_to_unlock
    }
}

/// `v` as a `u64`, or the conversion error.
pub open spec fn to_u64(v: Balance) -> Result<u64, Error> {
    if v > u64::MAX { Err(Error::ConversionError) } else { Ok(v as u64) }
}

/// The apr for a loan, in hundredths of a percent, from the developer's years of experience and
/// the loan term in months.
pub fn calculate_apr(experience: u64, loan_term: u64) -> (r: u64)
    ensures
        r == apr_spec(experience, loan_term),
{
    let experience_number: u32 = if 1 <= experience && experience <= 5 {
        17
    } else if 6 <= experience && experience <= 15 {
        15
    } else if 16 <= experience && experience <= 20 {
        13
    } else {
        12
    };
    let loan_term_number: u32 = if 1 <= loan_term && loan_term <= 12 {
        14
    } else if 13 <= loan_term && loan_term <= 24 {
        13
    } else {
        12
    };
    assert(BASEINTERESTRATE * experience_number * loan_term_number <= 525 * 17 * 14) by (nonlinear_arith)
        requires
            experience_number <= 17,
            loan_term_number <= 14;
    let apr = BASEINTERESTRATE * experience_number * loan_term_number;
    let interest_points = apr / 100;
    interest_points as u64
}

/// The interests of `amount` over `seconds` at `apy` hundredths of a percent a year.
pub fn interests(amount: u64, seconds: u64, apy: u64) -> (r: u64)
    requires
        amount * seconds * apy <= u64::MAX,
    ensures
        r == interests_spec(amount, seconds, apy),
{
    if apy == 0 {
        assert(amount * seconds * apy == 0) by (nonlinear_arith)
            requires
                apy == 0;
        return 0;
    }
    assert(amount * seconds <= amount * seconds * apy) by (nonlinear_arith)
        requires
            apy >= 1;
    amount * seconds * apy / 365 / 60 / 60 / 24 / 10000
}

/// `v` as a `u64`, or the conversion error.
pub fn balance_to_u64(input: Balance) -> (r: Result<u64, Error>)
    ensures
        r == to_u64(input),
{
    if input > u64::MAX as u128 {
        Err(Error::ConversionError)
    } else {
        Ok(input as u64)
    }
}

/// `v` as a `u128`: always possible.
pub fn balance_to_u128(input: Balance) -> (r: Result<u128, Error>)
    ensures
        r == Ok::<u128, Error>(input),
{
    Ok(input)
}

/// `v` as a balance: always possible.
pub fn u64_to_balance_option(input: u64) -> (r: Result<Balance, Error>)
    ensures
        r == Ok::<Balance, Error>(input as Balance),
{
    Ok(input as u128)
}

/// `v` as a balance: always possible.
pub fn u128_to_balance_option(input: u128) -> (r: Result<Balance, Error>)
    ensures
        r == Ok::<Balance, Error>(input),
{
    Ok(input)
}

/// The part of a loan of `value` a milestone of `percentage` unlocks.
fn unlocked_u128(value: u128, percentage: u8) -> (r: u128)
    ensures
        r == (if value * percentage > u128::MAX { u128::MAX as int } else { value * percentage }) / 100,
{
    match value.checked_mul(percentage as u128) {
        Some(x) => x / 100,
        None => u128::MAX / 100,
    }
}

/// The sum of the percentages of `milestones`.
fn sum_milestones(milestones: &Vec<ProposedMilestone>) -> (r: u64)
    requires
        milestones@.len() <= u32::MAX,
    ensures
        r == milestones_sum(milestones@),
{
    let mut sum: u64 = 0;
    let mut i: usize = 0;
    while i < milestones.len()
        invariant
            0 <= i <= milestones.len(),
            milestones@.len() <= u32::MAX,
            sum == milestones_sum(milestones@.take(i as int)),
            sum <= 255 * i,
        decreases milestones.len() - i,
    {
        assert(milestones@.take(i as int + 1).drop_last() =~= milestones@.take(i as int));
        sum = sum + milestones[i].percentage_to_unlock as u64;
        i = i + 1;
    }
    assert(milestones@.take(milestones.len() as int) =~= milestones@);
    sum
}

/// A proposal, its milestones as a sequence.
#[verifier::ext_equal]
pub struct ProposalView {
    pub proposer: AccountId,
    pub amount: Balance,
    pub milestones: Seq<ProposedMilestone>,
    pub beneficiary: AccountId,
    pub apr_rate: LoanApy,
    pub bond: Balance,
    pub created_at: BlockNumber,
}

impl View for Proposal {
    type V = ProposalView;

    open spec fn view(&self) -> ProposalView {
        ProposalView {
            proposer: self.proposer,
            amount: self.amount,
            milestones: self.milestones@,
            beneficiary: self.beneficiary,
            apr_rate: self.apr_rate,
            bond: self.bond,
            created_at: self.created_at,
        }
    }
}

/// A loan, its milestones as a sequence.
#[verifier::ext_equal]
pub struct LoanView {
    pub borrower: AccountId,
    pub loan_amount: Balance,
    pub current_loan_balance: Balance,
    pub available_amount: Balance,
    pub borrowed_amount: Balance,
    pub charged_interests: Balance,
    pub milestones: Seq<ProposedMilestone>,
    pub collection_id: u32,
    pub item_id: u32,
    pub loan_apy: LoanApy,
    pub last_timestamp: u64,
    pub withdraw_lock: bool,
}

impl View for LoanInfo {
    type V = LoanView;

    open spec fn view(&self) -> LoanView {
        LoanView {
            borrower: self.borrower,
            loan_amount: self.loan_amount,
            current_loan_balance: self.current_loan_balance,
            available_amount: self.available_amount,
            borrowed_amount: self.borrowed_amount,
            charged_interests: self.charged_interests,
            milestones: self.milestones@,
            collection_id: self.collection_id,
            item_id: self.item_id,
            loan_apy: self.loan_apy,
            last_timestamp: self.last_timestamp,
            withdraw_lock: self.withdraw_lock,
        }
    }
}

/// The whole state of the pallet as mathematical values.
#[verifier::ext_equal]
pub struct PoolView {
    pub config: LoanPoolConfig,
    pub voting_committee: Seq<AccountId>,
    pub loan_count: LoanIndex,
    pub proposal_count: ProposalIndex,
    pub milestone_proposal_count: ProposalIndex,
    pub deletion_proposal_count: ProposalIndex,
    pub total_loan_amount: u64,
    pub total_loan_interests: u64,
    pub reserved_loan_amount: u64,
    pub ongoing_loans: Seq<LoanIndex>,
    pub proposals: Map<ProposalIndex, ProposalView>,
    pub milestone_proposals: Map<ProposalIndex, LoanIndex>,
    pub milestone_info: Map<ProposalIndex, MilestoneProposalInfo>,
    pub deletion_proposals: Map<ProposalIndex, LoanIndex>,
    pub loans: Map<LoanIndex, LoanView>,
    pub ongoing_votes: Map<ProposalIndex, VoteStats>,
    pub ongoing_milestone_votes: Map<ProposalIndex, VoteStats>,
    pub ongoing_deletion_votes: Map<ProposalIndex, VoteStats>,
    pub user_votes: Map<ProposalIndex, Map<AccountId, Vote>>,
    pub user_milestone_votes: Map<ProposalIndex, Map<AccountId, Vote>>,
    pub user_deletion_votes: Map<ProposalIndex, Map<AccountId, Vote>>,
    pub rounds_expiring: Map<BlockNumber, Seq<ProposalIndex>>,
    pub milestone_rounds_expiring: Map<BlockNumber, Seq<ProposalIndex>>,
    pub deletion_rounds_expiring: Map<BlockNumber, Seq<ProposalIndex>>,
    pub block_number: BlockNumber,
    pub events: Seq<Event>,
}

/// The proposals of a map, as views.
pub open spec fn proposals_view(m: Map<ProposalIndex, Proposal>) -> Map<ProposalIndex, ProposalView> {
    Map::new(|k: ProposalIndex| m.dom().contains(k), |k: ProposalIndex| m[k]@)
}

/// The loans of a map, as views.
pub open spec fn loans_view(m: Map<LoanIndex, LoanInfo>) -> Map<LoanIndex, LoanView> {
    Map::new(|k: LoanIndex| m.dom().contains(k), |k: LoanIndex| m[k]@)
}

/// The votes of each proposal, as maps.
pub open spec fn votes_view(m: Map<ProposalIndex, BTreeMap<AccountId, Vote>>) -> Map<ProposalIndex, Map<AccountId, Vote>> {
    Map::new(|k: ProposalIndex| m.dom().contains(k), |k: ProposalIndex| m[k]@)
}

/// The proposals ending at each block, as sequences.
pub open spec fn rounds_view(m: Map<BlockNumber, Vec<ProposalIndex>>) -> Map<BlockNumber, Seq<ProposalIndex>> {
    Map::new(|k: BlockNumber| m.dom().contains(k), |k: BlockNumber| m[k]@)
}

/// The votes of `who` on a proposal (none when the proposal has no entry).
pub open spec fn vote_of(m: Map<ProposalIndex, Map<AccountId, Vote>>, index: ProposalIndex, who: AccountId) -> Option<Vote> {
    if m.dom().contains(index) && m[index].dom().contains(who) { Some(m[index][who]) } else { None }
}

/// The votes after `who` voted `vote` on a proposal.
pub open spec fn with_vote(m: Map<ProposalIndex, Map<AccountId, Vote>>, index: ProposalIndex, who: AccountId, vote: Vote) -> Map<ProposalIndex, Map<AccountId, Vote>> {
    let inner = if m.dom().contains(index) { m[index] } else { Map::empty() };
    m.insert(index, inner.insert(who, vote))
}

/// The proposals ending at `block` (none when it has no entry).
pub open spec fn ending_at(m: Map<BlockNumber, Seq<ProposalIndex>>, block: BlockNumber) -> Seq<ProposalIndex> {
    if m.dom().contains(block) { m[block] } else { Seq::empty() }
}

/// The block at which a voting started at `now` ends.
pub open spec fn expiry(now: BlockNumber, voting_time: BlockNumber) -> BlockNumber {
    if now + voting_time > u64::MAX { u64::MAX } else { (now + voting_time) as u64 }
}

/// Stats after one more vote.
/// Whether `stats` can count one more `vote` without overflowing.
pub open spec fn can_tally(stats: VoteStats, vote: Vote) -> bool {
    match vote {
        Vote::Yes => stats.yes_votes < u64::MAX,
        Vote::No => stats.no_votes < u64::MAX,
    }
}

pub open spec fn tallied(stats: VoteStats, vote: Vote) -> VoteStats {
    match vote {
        Vote::Yes => VoteStats { yes_votes: (stats.yes_votes + 1) as u64, no_votes: stats.no_votes },
        Vote::No => VoteStats { yes_votes: stats.yes_votes, no_votes: (stats.no_votes + 1) as u64 },
    }
}

/// State of the community loan pool pallet.
pub struct Pallet {
    pub config: LoanPoolConfig,
    /// Admins who are able to vote.
    pub voting_committee: Vec<AccountId>,
    /// Number of loans that have been made.
    pub loan_count: LoanIndex,
    /// Number of proposals that have been made.
    pub proposal_count: ProposalIndex,
    /// Number of milestone proposals that have been made.
    pub milestone_proposal_count: ProposalIndex,
    /// Number of deletion proposals that have been made.
    pub deletion_proposal_count: ProposalIndex,
    /// Total amount of loan funds.
    pub total_loan_amount: u64,
    /// Total amount of not paid interests.
    pub total_loan_interests: u64,
    /// Amount of funds that is still on the pallet but is reserved for loans.
    pub reserved_loan_amount: u64,
    /// All currently ongoing loans.
    pub ongoing_loans: Vec<LoanIndex>,
    /// Proposals that have been made.
    pub proposals: BTreeMap<ProposalIndex, Proposal>,
    /// Milestone proposals that have been made: the loan of each.
    pub milestone_proposals: BTreeMap<ProposalIndex, LoanIndex>,
    /// Proposer and bond of each milestone proposal.
    pub milestone_info: BTreeMap<ProposalIndex, MilestoneProposalInfo>,
    /// Deletion proposals that have been made: the loan of each.
    pub deletion_proposals: BTreeMap<ProposalIndex, LoanIndex>,
    /// Ongoing loans.
    pub loans: BTreeMap<LoanIndex, LoanInfo>,
    /// Ongoing votes on proposals.
    pub ongoing_votes: BTreeMap<ProposalIndex, VoteStats>,
    /// Ongoing votes on milestone proposals.
    pub ongoing_milestone_votes: BTreeMap<ProposalIndex, VoteStats>,
    /// Ongoing votes on deletion proposals.
    pub ongoing_deletion_votes: BTreeMap<ProposalIndex, VoteStats>,
    /// Who voted what on each proposal.
    pub user_votes: BTreeMap<ProposalIndex, BTreeMap<AccountId, Vote>>,
    /// Who voted what on each milestone proposal.
    pub user_milestone_votes: BTreeMap<ProposalIndex, BTreeMap<AccountId, Vote>>,
    /// Who voted what on each deletion proposal.
    pub user_deletion_votes: BTreeMap<ProposalIndex, BTreeMap<AccountId, Vote>>,
    /// Proposals whose voting ends at each block.
    pub rounds_expiring: BTreeMap<BlockNumber, Vec<ProposalIndex>>,
    /// Milestone proposals whose voting ends at each block.
    pub milestone_rounds_expiring: BTreeMap<BlockNumber, Vec<ProposalIndex>>,
    /// Deletion proposals whose voting ends at each block.
    pub deletion_rounds_expiring: BTreeMap<BlockNumber, Vec<ProposalIndex>>,
    /// The current block.
    pub block_number: BlockNumber,
    /// Events deposited so far.
    pub events: Vec<Event>,
    /// Every call made to the runtime so far, in order, with its answer.
    pub calls: Ghost<Seq<LoanCall>>,
}

impl View for Pallet {
    type V = PoolView;

    open spec fn view(&self) -> PoolView {
        PoolView {
            config: self.config,
            voting_committee: self.voting_committee@,
            loan_count: self.loan_count,
            proposal_count: self.proposal_count,
            milestone_proposal_count: self.milestone_proposal_count,
            deletion_proposal_count: self.deletion_proposal_count,
            total_loan_amount: self.total_loan_amount,
            total_loan_interests: self.total_loan_interests,
            reserved_loan_amount: self.reserved_loan_amount,
            ongoing_loans: self.ongoing_loans@,
            proposals: proposals_view(self.proposals@),
            milestone_proposals: self.milestone_proposals@,
            milestone_info: self.milestone_info@,
            deletion_proposals: self.deletion_proposals@,
            loans: loans_view(self.loans@),
            ongoing_votes: self.ongoing_votes@,
            ongoing_milestone_votes: self.ongoing_milestone_votes@,
            ongoing_deletion_votes: self.ongoing_deletion_votes@,
            user_votes: votes_view(self.user_votes@),
            user_milestone_votes: votes_view(self.user_milestone_votes@),
            user_deletion_votes: votes_view(self.user_deletion_votes@),
            rounds_expiring: rounds_view(self.rounds_expiring@),
            milestone_rounds_expiring: rounds_view(self.milestone_rounds_expiring@),
            deletion_rounds_expiring: rounds_view(self.deletion_rounds_expiring@),
            block_number: self.block_number,
            events: self.events@,
        }
    }
}

/// Appends `index` to the proposals ending at `block`, unless `max` of them already end then.
fn push_round(rounds: &mut BTreeMap<BlockNumber, Vec<ProposalIndex>>, block: BlockNumber, index: ProposalIndex, max: u32) -> (ok: bool)
    ensures
        ok == (ending_at(rounds_view(old(rounds)@), block).len() < max),
        ok ==> rounds_view(final(rounds)@) == rounds_view(old(rounds)@).insert(
            block,
            ending_at(rounds_view(old(rounds)@), block).push(index),
        ),
        !ok ==> final(rounds)@ == old(rounds)@,
{
    let len = match rounds.get(&block) {
        Some(v) => v.len(),
        None => 0,
    };
    if len >= max as usize {
        return false;
    }
    let mut v = match rounds.remove(&block) {
        Some(v) => v,
        None => Vec::new(),
    };
    v.push(index);
    let ghost v0 = rounds_view(old(rounds)@);
    rounds.insert(block, v);
    assert(rounds_view(rounds@) =~= v0.insert(block, ending_at(v0, block).push(index)));
    true
}

/// Records that `who` voted `vote`.
fn record_vote(votes: &mut BTreeMap<ProposalIndex, BTreeMap<AccountId, Vote>>, index: ProposalIndex, who: AccountId, vote: Vote)
    ensures
        votes_view(final(votes)@) == with_vote(votes_view(old(votes)@), index, who, vote),
{
    let mut inner = match votes.remove(&index) {
        Some(m) => m,
        None => BTreeMap::new(),
    };
    inner.insert(who, vote);
    let ghost v0 = votes_view(old(votes)@);
    votes.insert(index, inner);
    assert(votes_view(votes@) =~= with_vote(v0, index, who, vote));
}

/// The vote of `who` on a proposal, if any.
fn get_vote(votes: &BTreeMap<ProposalIndex, BTreeMap<AccountId, Vote>>, index: ProposalIndex, who: AccountId) -> (r: Option<Vote>)
    ensures
        r == vote_of(votes_view(votes@), index, who),
{
    match votes.get(&index) {
        Some(m) => match m.get(&who) {
            Some(v) => Some(*v),
            None => None,
        },
        None => None,
    }
}

/// Whether `who` is in `members`.
fn is_member(members: &Vec<AccountId>, who: AccountId) -> (r: bool)
    ensures
        r == members@.contains(who),
{
    let mut i: usize = 0;
    while i < members.len()
        invariant
            0 <= i <= members.len(),
            forall|j: int| 0 <= j < i ==> members@[j] != who,
        decreases members.len() - i,
    {
        if members[i] == who {
            assert(members@[i as int] == who);
            return true;
        }
        i = i + 1;
    }
    false
}

/// The signed account of `origin`, and whether it may act: signed and whitelisted.
pub open spec fn signer_error(origin: Origin, whitelist: Set<AccountId>) -> Option<DispatchError> {
    match origin {
        Origin::Signed(a) => if whitelist.contains(a) { None } else { Some(DispatchError::Module(Error::UserNotWhitelisted)) },
        _ => Some(DispatchError::BadOrigin),
    }
}

/// The signed account of `origin` once it may act.
fn whitelisted_signer(origin: Origin, whitelist: &BTreeSet<AccountId>) -> (r: Result<AccountId, DispatchError>)
    ensures
        match signer_error(origin, whitelist@) {
            Some(e) => r == Err::<AccountId, DispatchError>(e),
            None => r == Ok::<AccountId, DispatchError>(origin->Signed_0),
        },
{
    match origin {
        Origin::Signed(a) => if whitelist.contains(&a) {
            Ok(a)
        } else {
            Err(DispatchError::Module(Error::UserNotWhitelisted))
        },
        _ => Err(DispatchError::BadOrigin),
    }
}

/// Which of the three kinds of vote.
pub enum VoteKind {
    Proposal,
    Milestone,
    Deletion,
}

impl Pallet {
    /// An empty pool with the runtime's constants, at block 0.
    pub fn new(config: LoanPoolConfig) -> (r: Self)
        ensures
            r@ == (PoolView {
                config,
                voting_committee: Seq::empty(),
                loan_count: 0,
                proposal_count: 0,
                milestone_proposal_count: 0,
                deletion_proposal_count: 0,
                total_loan_amount: 0,
                total_loan_interests: 0,
                reserved_loan_amount: 0,
                ongoing_loans: Seq::empty(),
                proposals: Map::empty(),
                milestone_proposals: Map::empty(),
                milestone_info: Map::empty(),
                deletion_proposals: Map::empty(),
                loans: Map::empty(),
                ongoing_votes: Map::empty(),
                ongoing_milestone_votes: Map::empty(),
                ongoing_deletion_votes: Map::empty(),
                user_votes: Map::empty(),
                user_milestone_votes: Map::empty(),
                user_deletion_votes: Map::empty(),
                rounds_expiring: Map::empty(),
                milestone_rounds_expiring: Map::empty(),
                deletion_rounds_expiring: Map::empty(),
                block_number: 0,
                events: Seq::empty(),
            }),
            r.calls@ == Seq::<LoanCall>::empty(),
    {
        let r = Pallet {
            config,
            voting_committee: Vec::new(),
            loan_count: 0,
            proposal_count: 0,
            milestone_proposal_count: 0,
            deletion_proposal_count: 0,
            total_loan_amount: 0,
            total_loan_interests: 0,
            reserved_loan_amount: 0,
            ongoing_loans: Vec::new(),
            proposals: BTreeMap::new(),
            milestone_proposals: BTreeMap::new(),
            milestone_info: BTreeMap::new(),
            deletion_proposals: BTreeMap::new(),
            loans: BTreeMap::new(),
            ongoing_votes: BTreeMap::new(),
            ongoing_milestone_votes: BTreeMap::new(),
            ongoing_deletion_votes: BTreeMap::new(),
            user_votes: BTreeMap::new(),
            user_milestone_votes: BTreeMap::new(),
            user_deletion_votes: BTreeMap::new(),
            rounds_expiring: BTreeMap::new(),
            milestone_rounds_expiring: BTreeMap::new(),
            deletion_rounds_expiring: BTreeMap::new(),
            block_number: 0,
            events: Vec::new(),
            calls: Ghost(Seq::empty()),
        };
        assert(r@.proposals =~= Map::empty());
        assert(r@.loans =~= Map::empty());
        assert(r@.user_votes =~= Map::empty());
        assert(r@.user_milestone_votes =~= Map::empty());
        assert(r@.user_deletion_votes =~= Map::empty());
        assert(r@.rounds_expiring =~= Map::empty());
        assert(r@.milestone_rounds_expiring =~= Map::empty());
        assert(r@.deletion_rounds_expiring =~= Map::empty());
        r
    }

    /// The account of the pallet.
    pub fn account_id(&self) -> (r: AccountId)
        ensures
            r == self.config.pallet_account,
    {
        self.config.pallet_account
    }

    /// The bond for a proposal whose spend is `value`.
    pub fn calculate_bond(&self, value: Balance) -> (r: Balance)
        requires
            self.config.proposal_bond <= PERMILL_ONE,
        ensures
            r == bond_spec(self.config, value),
    {
        let share = permill_mul_u128(self.config.proposal_bond, value);
        let mut r = if share < self.config.proposal_bond_minimum { self.config.proposal_bond_minimum } else { share };
        match self.config.proposal_bond_maximum {
            Some(m) => {
                if m < r {
                    r = m;
                }
            },
            None => {},
        }
        r
    }

    /// Adds a new address to the vote committee, from the root origin.
    pub fn add_committee_member(&mut self, origin: Origin, member: AccountId) -> (res: Result<(), DispatchError>)
        ensures
            res is Err ==> final(self)@ == old(self)@,
            res == (if origin != Origin::Root {
                Err::<(), DispatchError>(DispatchError::BadOrigin)
            } else if old(self)@.voting_committee.contains(member) {
                Err(DispatchError::Module(Error::AlreadyMember))
            } else if old(self)@.voting_committee.len() >= old(self)@.config.max_committee_members {
                Err(DispatchError::Module(Error::TooManyMembers))
            } else {
                Ok(())
            }),
            res is Ok ==> final(self)@ == (PoolView {
                voting_committee: old(self)@.voting_committee.push(member),
                events: old(self)@.events.push(Event::CommiteeMemberAdded { new_member: member }),
                ..old(self)@
            }),
    {
        match origin {
            Origin::Root => {},
            _ => {
                return Err(DispatchError::BadOrigin);
            },
        }
        if is_member(&self.voting_committee, member) {
            return Err(DispatchError::Module(Error::AlreadyMember));
        }
        if self.voting_committee.len() >= self.config.max_committee_members as usize {
            return Err(DispatchError::Module(Error::TooManyMembers));
        }
        self.voting_committee.push(member);
        self.events.push(Event::CommiteeMemberAdded { new_member: member });
        Ok(())
    }

    /// Why a member's vote would be refused, if it would.
    pub open spec fn vote_error(
        v: PoolView,
        kind: VoteKind,
        origin: Origin,
        whitelist: Set<AccountId>,
        index: ProposalIndex,
    ) -> Option<DispatchError> {
        let (stats, votes) = match kind {
            VoteKind::Proposal => (v.ongoing_votes, v.user_votes),
            VoteKind::Milestone => (v.ongoing_milestone_votes, v.user_milestone_votes),
            VoteKind::Deletion => (v.ongoing_deletion_votes, v.user_deletion_votes),
        };
        if signer_error(origin, whitelist) is Some {
            signer_error(origin, whitelist)
        } else if !v.voting_committee.contains(origin->Signed_0) {
            Some(DispatchError::Module(Error::InsufficientPermission))
        } else if !stats.contains_key(index) {
            Some(DispatchError::Module(Error::InvalidIndex))
        } else if vote_of(votes, index, origin->Signed_0) is Some {
            Some(DispatchError::Module(Error::AlreadyVoted))
        } else if kind is Proposal && !v.proposals.contains_key(index) {
            Some(DispatchError::Module(Error::InvalidIndex))
        } else if kind is Proposal && v.proposals[index].milestones.len() == 0 {
            Some(DispatchError::Module(Error::NoMilestones))
        } else {
            None
        }
    }

    /// The pool after `member` voted `vote` on a proposal of `kind`.
    pub open spec fn voted(v: PoolView, kind: VoteKind, index: ProposalIndex, member: AccountId, vote: Vote) -> PoolView {
        match kind {
            VoteKind::Proposal => PoolView {
                ongoing_votes: v.ongoing_votes.insert(index, tallied(v.ongoing_votes[index], vote)),
                user_votes: with_vote(v.user_votes, index, member, vote),
                events: v.events.push(Event::VotedOnProposal { proposal_index: index, member, vote }),
                ..v
            },
            VoteKind::Milestone => PoolView {
                ongoing_milestone_votes: v.ongoing_milestone_votes.insert(index, tallied(v.ongoing_milestone_votes[index], vote)),
                user_milestone_votes: with_vote(v.user_milestone_votes, index, member, vote),
                events: v.events.push(Event::VotedOnMilestone { proposal_index: index, member, vote }),
                ..v
            },
            VoteKind::Deletion => PoolView {
                ongoing_deletion_votes: v.ongoing_deletion_votes.insert(index, tallied(v.ongoing_deletion_votes[index], vote)),
                user_deletion_votes: with_vote(v.user_deletion_votes, index, member, vote),
                events: v.events.push(Event::VotedOnDeletion { proposal_index: index, member, vote }),
                ..v
            },
        }
    }

    /// The stats of the proposal `index` of `kind`, when there are.
    pub open spec fn stats_of(v: PoolView, kind: VoteKind, index: ProposalIndex) -> VoteStats {
        match kind {
            VoteKind::Proposal => v.ongoing_votes[index],
            VoteKind::Milestone => v.ongoing_milestone_votes[index],
            VoteKind::Deletion => v.ongoing_deletion_votes[index],
        }
    }

    /// Records the vote of a committee member.
    fn vote(&mut self, kind: VoteKind, origin: Origin, index: ProposalIndex, vote: Vote, whitelist: &BTreeSet<AccountId>) -> (res: Result<(), DispatchError>)
        requires
            Self::vote_error(old(self)@, kind, origin, whitelist@, index) is None ==> can_tally(Self::stats_of(old(self)@, kind, index), vote),
        ensures
            match Self::vote_error(old(self)@, kind, origin, whitelist@, index) {
                Some(e) => res == Err::<(), DispatchError>(e) && final(self)@ == old(self)@,
                None => res is Ok && final(self)@ == Self::voted(old(self)@, kind, index, origin->Signed_0, vote),
            },
    {
        let member = match whitelisted_signer(origin, whitelist) {
            Ok(a) => a,
            Err(e) => {
                return Err(e);
            },
        };
        if !is_member(&self.voting_committee, member) {
            return Err(DispatchError::Module(Error::InsufficientPermission));
        }
        let stats = match kind {
            VoteKind::Proposal => self.ongoing_votes.get(&index),
            VoteKind::Milestone => self.ongoing_milestone_votes.get(&index),
            VoteKind::Deletion => self.ongoing_deletion_votes.get(&index),
        };
        let mut stats = match stats {
            Some(s) => *s,
            None => {
                return Err(DispatchError::Module(Error::InvalidIndex));
            },
        };
        let voted = match kind {
            VoteKind::Proposal => get_vote(&self.user_votes, index, member),
            VoteKind::Milestone => get_vote(&self.user_milestone_votes, index, member),
            VoteKind::Deletion => get_vote(&self.user_deletion_votes, index, member),
        };
        if voted.is_some() {
            return Err(DispatchError::Module(Error::AlreadyVoted));
        }
        match kind {
            VoteKind::Proposal => {
                match self.proposals.get(&index) {
                    Some(p) => {
                        if p.milestones.len() == 0 {
                            return Err(DispatchError::Module(Error::NoMilestones));
                        }
                    },
                    None => {
                        return Err(DispatchError::Module(Error::InvalidIndex));
                    },
                }
            },
            _ => {},
        }
        match vote {
            Vote::Yes => {
                stats.yes_votes = stats.yes_votes + 1;
            },
            Vote::No => {
                stats.no_votes = stats.no_votes + 1;
            },
        }
        match kind {
            VoteKind::Proposal => {
                record_vote(&mut self.user_votes, index, member, vote);
                self.ongoing_votes.insert(index, stats);
                self.events.push(Event::VotedOnProposal { proposal_index: index, member, vote });
            },
            VoteKind::Milestone => {
                record_vote(&mut self.user_milestone_votes, index, member, vote);
                self.ongoing_milestone_votes.insert(index, stats);
                self.events.push(Event::VotedOnMilestone { proposal_index: index, member, vote });
            },
            VoteKind::Deletion => {
                record_vote(&mut self.user_deletion_votes, index, member, vote);
                self.ongoing_deletion_votes.insert(index, stats);
                self.events.push(Event::VotedOnDeletion { proposal_index: index, member, vote });
            },
        }
        proof {
            assert(self@ =~= Self::voted(old(self)@, kind, index, member, vote));
        }
        Ok(())
    }

    /// Lets committee members vote for a proposal, once its milestones are set.
    pub fn vote_on_proposal(&mut self, origin: Origin, proposal_index: ProposalIndex, vote: Vote, whitelist: &BTreeSet<AccountId>) -> (res: Result<(), DispatchError>)
        requires
            Self::vote_error(old(self)@, VoteKind::Proposal, origin, whitelist@, proposal_index) is None
                ==> can_tally(old(self)@.ongoing_votes[proposal_index], vote),
        ensures
            match Self::vote_error(old(self)@, VoteKind::Proposal, origin, whitelist@, proposal_index) {
                Some(e) => res == Err::<(), DispatchError>(e) && final(self)@ == old(self)@,
                None => res is Ok && final(self)@ == Self::voted(old(self)@, VoteKind::Proposal, proposal_index, origin->Signed_0, vote),
            },
    {
        self.vote(VoteKind::Proposal, origin, proposal_index, vote, whitelist)
    }

    /// Lets committee members vote on a milestone proposal.
    pub fn vote_on_milestone_proposal(&mut self, origin: Origin, proposal_index: ProposalIndex, vote: Vote, whitelist: &BTreeSet<AccountId>) -> (res: Result<(), DispatchError>)
        requires
            Self::vote_error(old(self)@, VoteKind::Milestone, origin, whitelist@, proposal_index) is None
                ==> can_tally(old(self)@.ongoing_milestone_votes[proposal_index], vote),
        ensures
            match Self::vote_error(old(self)@, VoteKind::Milestone, origin, whitelist@, proposal_index) {
                Some(e) => res == Err::<(), DispatchError>(e) && final(self)@ == old(self)@,
                None => res is Ok && final(self)@ == Self::voted(old(self)@, VoteKind::Milestone, proposal_index, origin->Signed_0, vote),
            },
    {
        self.vote(VoteKind::Milestone, origin, proposal_index, vote, whitelist)
    }

    /// Lets committee members vote on a deletion proposal.
    pub fn vote_on_deletion_proposal(&mut self, origin: Origin, proposal_index: ProposalIndex, vote: Vote, whitelist: &BTreeSet<AccountId>) -> (res: Result<(), DispatchError>)
        requires
            Self::vote_error(old(self)@, VoteKind::Deletion, origin, whitelist@, proposal_index) is None
                ==> can_tally(old(self)@.ongoing_deletion_votes[proposal_index], vote),
        ensures
            match Self::vote_error(old(self)@, VoteKind::Deletion, origin, whitelist@, proposal_index) {
                Some(e) => res == Err::<(), DispatchError>(e) && final(self)@ == old(self)@,
                None => res is Ok && final(self)@ == Self::voted(old(self)@, VoteKind::Deletion, proposal_index, origin->Signed_0, vote),
            },
    {
        self.vote(VoteKind::Deletion, origin, proposal_index, vote, whitelist)
    }
}

proof fn lemma_loans_insert(m: Map<LoanIndex, LoanInfo>, k: LoanIndex, v: LoanInfo)
    ensures
        loans_view(m.insert(k, v)) == loans_view(m).insert(k, v@),
{
    assert(loans_view(m.insert(k, v)) =~= loans_view(m).insert(k, v@));
}

proof fn lemma_loans_remove(m: Map<LoanIndex, LoanInfo>, k: LoanIndex)
    ensures
        loans_view(m.remove(k)) == loans_view(m).remove(k),
{
    assert(loans_view(m.remove(k)) =~= loans_view(m).remove(k));
}

proof fn lemma_proposals_insert(m: Map<ProposalIndex, Proposal>, k: ProposalIndex, v: Proposal)
    ensures
        proposals_view(m.insert(k, v)) == proposals_view(m).insert(k, v@),
{
    assert(proposals_view(m.insert(k, v)) =~= proposals_view(m).insert(k, v@));
}

proof fn lemma_proposals_remove(m: Map<ProposalIndex, Proposal>, k: ProposalIndex)
    ensures
        proposals_view(m.remove(k)) == proposals_view(m).remove(k),
{
    assert(proposals_view(m.remove(k)) =~= proposals_view(m).remove(k));
}

/// Number of proposals ending at `block`.
fn round_len(rounds: &BTreeMap<BlockNumber, Vec<ProposalIndex>>, block: BlockNumber) -> (r: usize)
    ensures
        r == ending_at(rounds_view(rounds@), block).len(),
{
    match rounds.get(&block) {
        Some(v) => v.len(),
        None => 0,
    }
}

/// `a + b`, or `u64::MAX` when it does not fit.
pub open spec fn sat_add_u64(a: int, b: int) -> u64 {
    if a + b > u64::MAX { u64::MAX } else { (a + b) as u64 }
}

/// `a + b`, or `u128::MAX` when it does not fit.
pub open spec fn sat_add_u128(a: int, b: int) -> u128 {
    if a + b > u128::MAX { u128::MAX } else { (a + b) as u128 }
}

impl Pallet {
    /// Why setting milestones would be refused, if it would.
    pub open spec fn set_milestones_error(v: PoolView, origin: Origin, whitelist: Set<AccountId>, index: ProposalIndex, milestones: Seq<ProposedMilestone>) -> Option<DispatchError> {
        if signer_error(origin, whitelist) is Some {
            signer_error(origin, whitelist)
        } else if !v.voting_committee.contains(origin->Signed_0) {
            Some(DispatchError::Module(Error::InsufficientPermission))
        } else if !v.proposals.contains_key(index) {
            Some(DispatchError::Module(Error::InvalidIndex))
        } else if v.proposals[index].milestones.len() != 0 {
            Some(DispatchError::Module(Error::MilestonesAlreadySet))
        } else if milestones_sum(milestones) != 100 {
            Some(DispatchError::Module(Error::MilestonesHaveToCoverLoan))
        } else if !v.ongoing_votes.contains_key(index) {
            Some(DispatchError::Module(Error::InvalidIndex))
        } else {
            None
        }
    }

    /// The pool after `member` set the milestones of a proposal, voting yes unless it voted.
    pub open spec fn milestones_set(v: PoolView, index: ProposalIndex, member: AccountId, milestones: Seq<ProposedMilestone>) -> PoolView {
        let with_milestones = PoolView {
            proposals: v.proposals.insert(index, ProposalView { milestones, ..v.proposals[index] }),
            ..v
        };
        if vote_of(v.user_votes, index, member) is None {
            PoolView {
                ongoing_votes: v.ongoing_votes.insert(index, tallied(v.ongoing_votes[index], Vote::Yes)),
                user_votes: with_vote(v.user_votes, index, member, Vote::Yes),
                events: v.events.push(Event::VotedOnProposal { proposal_index: index, member, vote: Vote::Yes }).push(
                    Event::MilestonesSet { proposal_index: index },
                ),
                ..with_milestones
            }
        } else {
            PoolView { events: v.events.push(Event::MilestonesSet { proposal_index: index }), ..with_milestones }
        }
    }

    /// Lets the committee set the milestones of a loan proposal; they must cover 100 percent.
    /// The caller votes yes for the proposal, unless it voted already.
    pub fn set_milestones(
        &mut self,
        origin: Origin,
        proposal_index: ProposalIndex,
        proposed_milestones: Vec<ProposedMilestone>,
        whitelist: &BTreeSet<AccountId>,
    ) -> (res: Result<(), DispatchError>)
        requires
            proposed_milestones@.len() <= u32::MAX,
            old(self)@.ongoing_votes.contains_key(proposal_index) ==> old(self)@.ongoing_votes[proposal_index].yes_votes < u64::MAX,
        ensures
            match Self::set_milestones_error(old(self)@, origin, whitelist@, proposal_index, proposed_milestones@) {
                Some(e) => res == Err::<(), DispatchError>(e) && final(self)@ == old(self)@,
                None => res is Ok && final(self)@ == Self::milestones_set(old(self)@, proposal_index, origin->Signed_0, proposed_milestones@),
            },
    {
        let member = match whitelisted_signer(origin, whitelist) {
            Ok(a) => a,
            Err(e) => {
                return Err(e);
            },
        };
        if !is_member(&self.voting_committee, member) {
            return Err(DispatchError::Module(Error::InsufficientPermission));
        }
        match self.proposals.get(&proposal_index) {
            Some(p) => {
                if p.milestones.len() != 0 {
                    return Err(DispatchError::Module(Error::MilestonesAlreadySet));
                }
            },
            None => {
                return Err(DispatchError::Module(Error::InvalidIndex));
            },
        }
        if sum_milestones(&proposed_milestones) != 100 {
            return Err(DispatchError::Module(Error::MilestonesHaveToCoverLoan));
        }
        let mut stats = match self.ongoing_votes.get(&proposal_index) {
            Some(s) => *s,
            None => {
                return Err(DispatchError::Module(Error::InvalidIndex));
            },
        };
        let ghost v0 = self@;
        let proposal = self.proposals.remove(&proposal_index).unwrap();
        let new_proposal = Proposal { milestones: proposed_milestones, ..proposal };
        proof {
            lemma_proposals_remove(self.proposals@.insert(proposal_index, proposal), proposal_index);
        }
        let ghost before_insert = self.proposals@;
        self.proposals.insert(proposal_index, new_proposal);
        proof {
            lemma_proposals_insert(before_insert, proposal_index, new_proposal);
            assert(proposals_view(self.proposals@) =~= v0.proposals.insert(
                proposal_index,
                ProposalView { milestones: proposed_milestones@, ..v0.proposals[proposal_index] },
            ));
        }
        let voted = get_vote(&self.user_votes, proposal_index, member);
        if voted.is_none() {
            stats.yes_votes = stats.yes_votes + 1;
            record_vote(&mut self.user_votes, proposal_index, member, Vote::Yes);
            self.ongoing_votes.insert(proposal_index, stats);
            self.events.push(Event::VotedOnProposal { proposal_index, member, vote: Vote::Yes });
        }
        self.events.push(Event::MilestonesSet { proposal_index });
        proof {
            assert(self@ =~= Self::milestones_set(v0, proposal_index, member, proposed_milestones@));
        }
        Ok(())
    }
}

impl Pallet {
    /// The pool after `proposer` proposed a loan of `amount` for `beneficiary` with `bond` held.
    pub open spec fn proposed(v: PoolView, proposer: AccountId, amount: Balance, beneficiary: AccountId, apr: LoanApy, bond: Balance) -> PoolView {
        let index = (v.proposal_count + 1) as ProposalIndex;
        let end = expiry(v.block_number, v.config.voting_time);
        PoolView {
            reserved_loan_amount: sat_add_u64(v.reserved_loan_amount as int, amount as int),
            ongoing_votes: v.ongoing_votes.insert(index, VoteStats { yes_votes: 0, no_votes: 0 }),
            proposals: v.proposals.insert(index, ProposalView {
                proposer,
                amount,
                milestones: Seq::empty(),
                beneficiary,
                apr_rate: apr,
                bond,
                created_at: v.block_number,
            }),
            proposal_count: index,
            rounds_expiring: v.rounds_expiring.insert(end, ending_at(v.rounds_expiring, end).push(index)),
            events: v.events.push(Event::Proposed { proposal_index: index }),
            ..v
        }
    }

    /// What a proposal leads to once the reservation of its bond answered `reserve`: the new
    /// state and the result.
    pub open spec fn propose_after_reserve(
        v: PoolView,
        proposer: AccountId,
        amount: Balance,
        beneficiary: AccountId,
        apr: LoanApy,
        bond: Balance,
        reserve: Result<(), DispatchError>,
    ) -> (PoolView, Result<(), DispatchError>) {
        let end = expiry(v.block_number, v.config.voting_time);
        if reserve is Err {
            (v, Err(DispatchError::Module(Error::InsufficientProposersBalance)))
        } else if ending_at(v.rounds_expiring, end).len() >= v.config.max_ongoing_loans {
            (v, Err(DispatchError::Module(Error::TooManyLoans)))
        } else if amount > u64::MAX {
            (v, Err(DispatchError::Module(Error::ConversionError)))
        } else {
            (Self::proposed(v, proposer, amount, beneficiary, apr, bond), Ok(()))
        }
    }

    /// Creates a proposal for a loan of `amount` to `beneficiary`. A bond is reserved from the
    /// proposer: slashed if the proposal is rejected, returned once it is approved. The pool
    /// must hold the amount on top of what it already reserved for loans.
    pub fn propose<C: LoanCurrency>(
        &mut self,
        origin: Origin,
        amount: Balance,
        beneficiary: AccountId,
        developer_experience: u64,
        loan_term: u64,
        whitelist: &BTreeSet<AccountId>,
        currency: &mut C,
    ) -> (res: Result<(), DispatchError>)
        requires
            old(self).config.proposal_bond <= PERMILL_ONE,
            old(self).proposal_count < u32::MAX,
        ensures
            res is Err ==> final(self)@ == old(self)@,
            signer_error(origin, whitelist@) is Some ==> {
                &&& res == Err::<(), DispatchError>(signer_error(origin, whitelist@)->Some_0)
                &&& final(self).calls@ == old(self).calls@
            },
            signer_error(origin, whitelist@) is None ==> {
                let calls = final(self).calls@;
                let k = old(self).calls@.len();
                &&& calls.len() > k
                &&& calls.subrange(0, k as int) == old(self).calls@
                &&& calls[k as int] matches LoanCall::FreeBalance { who, balance }
                    && who == old(self)@.config.pallet_account
                    && if balance < sat_add_u128(old(self)@.reserved_loan_amount as int, amount as int) {
                        &&& calls.len() == k + 1
                        &&& res == Err::<(), DispatchError>(DispatchError::Module(Error::NotEnoughLoanFundsAvailable))
                    } else {
                        &&& calls.len() == k + 2
                        &&& calls[k as int + 1] matches LoanCall::Reserve { who: w, amount: b, result }
                            && w == origin->Signed_0
                            && b == bond_spec(old(self)@.config, amount)
                            && (final(self)@, res) == Self::propose_after_reserve(
                                old(self)@,
                                origin->Signed_0,
                                amount,
                                beneficiary,
                                apr_spec(developer_experience, loan_term),
                                b,
                                result,
                            )
                    }
            },
    {
        let proposer = match whitelisted_signer(origin, whitelist) {
            Ok(a) => a,
            Err(e) => {
                return Err(e);
            },
        };
        let reserved_loan_amount = self.reserved_loan_amount as u128;
        let pallet_account = self.config.pallet_account;
        let pool_free = currency.free_balance(pallet_account);
        self.calls = Ghost(self.calls@.push(LoanCall::FreeBalance { who: pallet_account, balance: pool_free }));
        proof { assert(self.calls@.subrange(0, old(self).calls@.len() as int) =~= old(self).calls@); }
        if pool_free < reserved_loan_amount.saturating_add(amount) {
            return Err(DispatchError::Module(Error::NotEnoughLoanFundsAvailable));
        }
        let proposal_index = self.proposal_count + 1;
        let bond = self.calculate_bond(amount);
        let reserve = currency.reserve(proposer, bond);
        self.calls = Ghost(self.calls@.push(LoanCall::Reserve { who: proposer, amount: bond, result: reserve }));
        proof { assert(self.calls@.subrange(0, old(self).calls@.len() as int) =~= old(self).calls@); }
        match reserve {
            Ok(()) => {},
            Err(_) => {
                return Err(DispatchError::Module(Error::InsufficientProposersBalance));
            },
        }
        let current_block_number = self.block_number;
        let expiry_block = current_block_number.saturating_add(self.config.voting_time);
        if round_len(&self.rounds_expiring, expiry_block) >= self.config.max_ongoing_loans as usize {
            return Err(DispatchError::Module(Error::TooManyLoans));
        }
        let apr_rate = calculate_apr(developer_experience, loan_term);
        let amount_u64 = match balance_to_u64(amount) {
            Ok(x) => x,
            Err(e) => {
                return Err(DispatchError::Module(e));
            },
        };
        let ghost v0 = self@;
        push_round(&mut self.rounds_expiring, expiry_block, proposal_index, self.config.max_ongoing_loans);
        let proposal = Proposal {
            proposer,
            amount,
            milestones: Vec::new(),
            beneficiary,
            apr_rate,
            bond,
            created_at: current_block_number,
        };
        self.reserved_loan_amount = self.reserved_loan_amount.saturating_add(amount_u64);
        self.ongoing_votes.insert(proposal_index, VoteStats { yes_votes: 0, no_votes: 0 });
        let ghost before_insert = self.proposals@;
        self.proposals.insert(proposal_index, proposal);
        proof {
            lemma_proposals_insert(before_insert, proposal_index, proposal);
            assert(proposal@.milestones =~= Seq::<ProposedMilestone>::empty());
        }
        self.proposal_count = proposal_index;
        self.events.push(Event::Proposed { proposal_index });
        proof {
            assert(self@ =~= Self::proposed(v0, proposer, amount, beneficiary, apr_rate, bond));
        }
        Ok(())
    }

    /// The pool after `proposer` proposed the next milestone of loan `loan_id` with `bond` held.
    pub open spec fn milestone_proposed(v: PoolView, proposer: AccountId, loan_id: LoanIndex, bond: Balance) -> PoolView {
        let index = (v.milestone_proposal_count + 1) as ProposalIndex;
        let end = expiry(v.block_number, v.config.voting_time);
        PoolView {
            milestone_rounds_expiring: v.milestone_rounds_expiring.insert(end, ending_at(v.milestone_rounds_expiring, end).push(index)),
            ongoing_milestone_votes: v.ongoing_milestone_votes.insert(index, VoteStats { yes_votes: 0, no_votes: 0 }),
            milestone_info: v.milestone_info.insert(index, MilestoneProposalInfo { proposer, bond }),
            milestone_proposals: v.milestone_proposals.insert(index, loan_id),
            milestone_proposal_count: index,
            events: v.events.push(Event::MilestoneProposed { proposal_index: index }),
            ..v
        }
    }

    /// Creates a proposal for the next milestone of a loan, reserving a bond from the proposer.
    pub fn propose_milestone<C: LoanCurrency>(
        &mut self,
        origin: Origin,
        loan_id: LoanIndex,
        whitelist: &BTreeSet<AccountId>,
        currency: &mut C,
    ) -> (res: Result<(), DispatchError>)
        requires
            old(self).config.proposal_bond <= PERMILL_ONE,
            old(self).milestone_proposal_count < u32::MAX,
        ensures
            res is Err ==> final(self)@ == old(self)@,
            ({
                let v = old(self)@;
                let end = expiry(v.block_number, v.config.voting_time);
                if signer_error(origin, whitelist@) is Some {
                    res == Err::<(), DispatchError>(signer_error(origin, whitelist@)->Some_0)
                } else if !v.loans.contains_key(loan_id) {
                    res == Err::<(), DispatchError>(DispatchError::Module(Error::InvalidIndex))
                } else if v.loans[loan_id].milestones.len() == 0 {
                    res == Err::<(), DispatchError>(DispatchError::Module(Error::NoMilestonesLeft))
                } else if ending_at(v.milestone_rounds_expiring, end).len() >= v.config.max_ongoing_loans {
                    res == Err::<(), DispatchError>(DispatchError::Module(Error::TooManyLoans))
                } else {
                    let calls = final(self).calls@;
                    let bond = bond_spec(v.config, v.loans[loan_id].milestones[0].percentage_to_unlock as Balance);
                    &&& calls.len() == old(self).calls@.len() + 1
                    &&& calls.drop_last() == old(self).calls@
                    &&& calls.last() == LoanCall::Reserve { who: origin->Signed_0, amount: bond, result: calls.last()->Reserve_result }
                    &&& if calls.last()->Reserve_result is Err {
                        res == Err::<(), DispatchError>(DispatchError::Module(Error::InsufficientProposersBalance))
                    } else {
                        res is Ok && final(self)@ == Self::milestone_proposed(v, origin->Signed_0, loan_id, bond)
                    }
                }
            }),
            ({
                let v = old(self)@;
                let end = expiry(v.block_number, v.config.voting_time);
                signer_error(origin, whitelist@) is Some || !v.loans.contains_key(loan_id) || v.loans[loan_id].milestones.len() == 0
                    || ending_at(v.milestone_rounds_expiring, end).len() >= v.config.max_ongoing_loans
            }) ==> final(self).calls@ == old(self).calls@,
    {
        let proposer = match whitelisted_signer(origin, whitelist) {
            Ok(a) => a,
            Err(e) => {
                return Err(e);
            },
        };
        let first = match self.loans.get(&loan_id) {
            Some(loan) => {
                if loan.milestones.len() == 0 {
                    return Err(DispatchError::Module(Error::NoMilestonesLeft));
                }
                loan.milestones[0].percentage_to_unlock
            },
            None => {
                return Err(DispatchError::Module(Error::InvalidIndex));
            },
        };
        let index = self.milestone_proposal_count + 1;
        let expiry_block = self.block_number.saturating_add(self.config.voting_time);
        if round_len(&self.milestone_rounds_expiring, expiry_block) >= self.config.max_ongoing_loans as usize {
            return Err(DispatchError::Module(Error::TooManyLoans));
        }
        let bond = self.calculate_bond(first as u128);
        let reserved = currency.reserve(proposer, bond);
        self.calls = Ghost(self.calls@.push(LoanCall::Reserve { who: proposer, amount: bond, result: reserved }));
        proof { assert(self.calls@.drop_last() =~= old(self).calls@); }
        match reserved {
            Ok(()) => {},
            Err(_) => {
                return Err(DispatchError::Module(Error::InsufficientProposersBalance));
            },
        }
        let ghost v0 = self@;
        push_round(&mut self.milestone_rounds_expiring, expiry_block, index, self.config.max_ongoing_loans);
        self.ongoing_milestone_votes.insert(index, VoteStats { yes_votes: 0, no_votes: 0 });
        self.milestone_info.insert(index, MilestoneProposalInfo { proposer, bond });
        self.milestone_proposals.insert(index, loan_id);
        self.milestone_proposal_count = index;
        self.events.push(Event::MilestoneProposed { proposal_index: index });
        proof {
            assert(self@ =~= Self::milestone_proposed(v0, proposer, loan_id, bond));
        }
        Ok(())
    }

    /// The pool after the borrower proposed to delete loan `loan_id`.
    pub open spec fn deletion_proposed(v: PoolView, loan_id: LoanIndex) -> PoolView {
        let index = (v.deletion_proposal_count + 1) as ProposalIndex;
        let end = expiry(v.block_number, v.config.voting_time);
        PoolView {
            loans: v.loans.insert(loan_id, LoanView { withdraw_lock: true, ..v.loans[loan_id] }),
            deletion_rounds_expiring: v.deletion_rounds_expiring.insert(end, ending_at(v.deletion_rounds_expiring, end).push(index)),
            ongoing_deletion_votes: v.ongoing_deletion_votes.insert(index, VoteStats { yes_votes: 0, no_votes: 0 }),
            deletion_proposals: v.deletion_proposals.insert(index, loan_id),
            deletion_proposal_count: index,
            events: v.events.push(Event::DeletionProposed { proposal_index: index, loan_index: loan_id }),
            ..v
        }
    }

    /// Creates a proposal to delete a loan that is fully repaid, from its borrower. Withdrawals
    /// are locked while the committee votes.
    pub fn propose_deletion(&mut self, origin: Origin, loan_id: LoanIndex, whitelist: &BTreeSet<AccountId>) -> (res: Result<(), DispatchError>)
        requires
            old(self).deletion_proposal_count < u32::MAX,
        ensures
            ({
                let v = old(self)@;
                let end = expiry(v.block_number, v.config.voting_time);
                if signer_error(origin, whitelist@) is Some {
                    res == Err::<(), DispatchError>(signer_error(origin, whitelist@)->Some_0) && final(self)@ == v
                } else if !v.loans.contains_key(loan_id) {
                    res == Err::<(), DispatchError>(DispatchError::Module(Error::InvalidIndex)) && final(self)@ == v
                } else if v.loans[loan_id].borrower != origin->Signed_0 {
                    res == Err::<(), DispatchError>(DispatchError::Module(Error::InsufficientPermission)) && final(self)@ == v
                } else if v.loans[loan_id].borrowed_amount != 0 {
                    res == Err::<(), DispatchError>(DispatchError::Module(Error::LoanStillOngoing)) && final(self)@ == v
                } else if ending_at(v.deletion_rounds_expiring, end).len() >= v.config.max_ongoing_loans {
                    res == Err::<(), DispatchError>(DispatchError::Module(Error::TooManyLoans)) && final(self)@ == v
                } else {
                    res is Ok && final(self)@ == Self::deletion_proposed(v, loan_id)
                }
            }),
    {
        let signer = match whitelisted_signer(origin, whitelist) {
            Ok(a) => a,
            Err(e) => {
                return Err(e);
            },
        };
        match self.loans.get(&loan_id) {
            Some(loan) => {
                if loan.borrower != signer {
                    return Err(DispatchError::Module(Error::InsufficientPermission));
                }
                if loan.borrowed_amount != 0 {
                    return Err(DispatchError::Module(Error::LoanStillOngoing));
                }
            },
            None => {
                return Err(DispatchError::Module(Error::InvalidIndex));
            },
        }
        let index = self.deletion_proposal_count + 1;
        let expiry_block = self.block_number.saturating_add(self.config.voting_time);
        if round_len(&self.deletion_rounds_expiring, expiry_block) >= self.config.max_ongoing_loans as usize {
            return Err(DispatchError::Module(Error::TooManyLoans));
        }
        let ghost v0 = self@;
        let loan = self.loans.remove(&loan_id).unwrap();
        let locked = LoanInfo { withdraw_lock: true, ..loan };
        let ghost before_insert = self.loans@;
        self.loans.insert(loan_id, locked);
        proof {
            lemma_loans_insert(before_insert, loan_id, locked);
            assert(loans_view(self.loans@) =~= v0.loans.insert(loan_id, LoanView { withdraw_lock: true, ..v0.loans[loan_id] }));
        }
        push_round(&mut self.deletion_rounds_expiring, expiry_block, index, self.config.max_ongoing_loans);
        self.ongoing_deletion_votes.insert(index, VoteStats { yes_votes: 0, no_votes: 0 });
        self.deletion_proposals.insert(index, loan_id);
        self.deletion_proposal_count = index;
        self.events.push(Event::DeletionProposed { proposal_index: index, loan_index: loan_id });
        proof {
            assert(self@ =~= Self::deletion_proposed(v0, loan_id));
        }
        Ok(())
    }
}

impl Pallet {
    /// Why the borrower's call on loan `loan_id` would be refused before any transfer, if it
    /// would: checks common to withdrawing and repaying.
    pub open spec fn loan_caller_error(v: PoolView, origin: Origin, whitelist: Set<AccountId>, loan_id: LoanIndex) -> Option<DispatchError> {
        if signer_error(origin, whitelist) is Some {
            signer_error(origin, whitelist)
        } else if !v.loans.contains_key(loan_id) {
            Some(DispatchError::Module(Error::InvalidIndex))
        } else {
            None
        }
    }

    /// Why withdrawing `amount` from loan `loan_id` would be refused before the transfer.
    pub open spec fn withdraw_error(v: PoolView, origin: Origin, whitelist: Set<AccountId>, loan_id: LoanIndex, amount: Balance) -> Option<DispatchError> {
        if Self::loan_caller_error(v, origin, whitelist, loan_id) is Some {
            Self::loan_caller_error(v, origin, whitelist, loan_id)
        } else if origin->Signed_0 != v.loans[loan_id].borrower {
            Some(DispatchError::Module(Error::InsufficientPermission))
        } else if amount > v.loans[loan_id].available_amount {
            Some(DispatchError::Module(Error::NotEnoughFundsToWithdraw))
        } else if v.loans[loan_id].withdraw_lock {
            Some(DispatchError::Module(Error::DeletionVotingOngoing))
        } else if amount > u64::MAX {
            Some(DispatchError::Module(Error::ConversionError))
        } else {
            None
        }
    }

    /// The pool after the borrower withdrew `amount` from loan `loan_id`.
    pub open spec fn withdrawn(v: PoolView, loan_id: LoanIndex, amount: Balance) -> PoolView {
        let loan = v.loans[loan_id];
        PoolView {
            loans: v.loans.insert(loan_id, LoanView {
                borrowed_amount: sat_add_u128(loan.borrowed_amount as int, amount as int),
                available_amount: (loan.available_amount - amount) as Balance,
                ..loan
            }),
            reserved_loan_amount: (v.reserved_loan_amount - amount) as u64,
            events: v.events.push(Event::Withdraw { loan_index: loan_id, amount }),
            ..v
        }
    }

    /// Lets the borrower withdraw funds made available by the loan's milestones.
    pub fn withdraw<C: LoanCurrency>(
        &mut self,
        origin: Origin,
        loan_id: LoanIndex,
        amount: Balance,
        whitelist: &BTreeSet<AccountId>,
        currency: &mut C,
    ) -> (res: Result<(), DispatchError>)
        ensures
            res is Err ==> final(self)@ == old(self)@,
            match Self::withdraw_error(old(self)@, origin, whitelist@, loan_id, amount) {
                Some(e) => res == Err::<(), DispatchError>(e) && final(self).calls@ == old(self).calls@,
                None => {
                    let calls = final(self).calls@;
                    &&& calls.len() == old(self).calls@.len() + 1
                    &&& calls.drop_last() == old(self).calls@
                    &&& calls.last() == LoanCall::Transfer {
                        from: old(self)@.config.pallet_account,
                        to: origin->Signed_0,
                        amount,
                        result: calls.last()->Transfer_result,
                    }
                    &&& match calls.last()->Transfer_result {
                        Err(e) => res == Err::<(), DispatchError>(e),
                        Ok(()) => if old(self)@.reserved_loan_amount < amount {
                            res == Err::<(), DispatchError>(DispatchError::Module(Error::ArithmeticUnderflow))
                        } else {
                            res is Ok && final(self)@ == Self::withdrawn(old(self)@, loan_id, amount)
                        },
                    }
                },
            },
    {
        let signer = match whitelisted_signer(origin, whitelist) {
            Ok(a) => a,
            Err(e) => {
                return Err(e);
            },
        };
        match self.loans.get(&loan_id) {
            Some(loan) => {
                if signer != loan.borrower {
                    return Err(DispatchError::Module(Error::InsufficientPermission));
                }
                if amount > loan.available_amount {
                    return Err(DispatchError::Module(Error::NotEnoughFundsToWithdraw));
                }
                if loan.withdraw_lock {
                    return Err(DispatchError::Module(Error::DeletionVotingOngoing));
                }
            },
            None => {
                return Err(DispatchError::Module(Error::InvalidIndex));
            },
        }
        let sending_amount = match balance_to_u64(amount) {
            Ok(x) => x,
            Err(e) => {
                return Err(DispatchError::Module(e));
            },
        };
        let pallet_account = self.config.pallet_account;
        let sent: Result<(), DispatchError> = match currency.transfer(pallet_account, signer, sending_amount as u128) {
            Ok(()) => Ok(()),
            Err(e) => Err(e),
        };
        self.calls = Ghost(self.calls@.push(LoanCall::Transfer { from: pallet_account, to: signer, amount, result: sent }));
        proof { assert(self.calls@.drop_last() =~= old(self).calls@); }
        match sent {
            Ok(()) => {},
            Err(e) => {
                return Err(e);
            },
        }
        if self.reserved_loan_amount < sending_amount {
            return Err(DispatchError::Module(Error::ArithmeticUnderflow));
        }
        let ghost v0 = self@;
        let loan = self.loans.remove(&loan_id).unwrap();
        let updated = LoanInfo {
            borrowed_amount: loan.borrowed_amount.saturating_add(amount),
            available_amount: loan.available_amount - amount,
            ..loan
        };
        let ghost before_insert = self.loans@;
        self.loans.insert(loan_id, updated);
        proof {
            lemma_loans_insert(before_insert, loan_id, updated);
        }
        self.reserved_loan_amount = self.reserved_loan_amount - sending_amount;
        self.events.push(Event::Withdraw { loan_index: loan_id, amount });
        proof {
            assert(loans_view(self.loans@) =~= Self::withdrawn(v0, loan_id, amount).loans);
            assert(self@ =~= Self::withdrawn(v0, loan_id, amount));
        }
        Ok(())
    }

    /// Why repaying `amount` of loan `loan_id` would be refused before the transfer.
    pub open spec fn repay_error(v: PoolView, origin: Origin, whitelist: Set<AccountId>, loan_id: LoanIndex, amount: Balance) -> Option<DispatchError> {
        if Self::loan_caller_error(v, origin, whitelist, loan_id) is Some {
            Self::loan_caller_error(v, origin, whitelist, loan_id)
        } else if amount > v.loans[loan_id].borrowed_amount {
            Some(DispatchError::Module(Error::WantsToRepayTooMuch))
        } else if amount > u64::MAX {
            Some(DispatchError::Module(Error::ConversionError))
        } else {
            None
        }
    }

    /// Whether the pool's totals are too low for a repayment of `amount` of loan `loan_id`: the
    /// amount goes to the loan's balance first, the rest to its interests.
    pub open spec fn repay_underflows(v: PoolView, loan_id: LoanIndex, amount: Balance) -> bool {
        let c = v.loans[loan_id].current_loan_balance;
        if c >= amount {
            v.total_loan_amount < amount
        } else if c == 0 {
            v.total_loan_interests < amount
        } else {
            v.total_loan_amount < c || v.total_loan_interests < amount - c
        }
    }

    /// The pool after `amount` of loan `loan_id` was repaid: the loan's balance is paid first,
    /// then its interests.
    pub open spec fn repaid(v: PoolView, loan_id: LoanIndex, amount: Balance) -> PoolView {
        let loan = v.loans[loan_id];
        let c = loan.current_loan_balance;
        let i = loan.charged_interests;
        let borrowed = (loan.borrowed_amount - amount) as Balance;
        let events = v.events.push(Event::LoanUpdated { loan_index: loan_id });
        if c >= amount {
            PoolView {
                loans: v.loans.insert(loan_id, LoanView {
                    borrowed_amount: borrowed,
                    current_loan_balance: (c - amount) as Balance,
                    ..loan
                }),
                total_loan_amount: (v.total_loan_amount - amount) as u64,
                events,
                ..v
            }
        } else if c == 0 {
            PoolView {
                loans: v.loans.insert(loan_id, LoanView {
                    borrowed_amount: borrowed,
                    charged_interests: (if i >= amount { i - amount } else { 0 }) as Balance,
                    ..loan
                }),
                total_loan_interests: (v.total_loan_interests - amount) as u64,
                events,
                ..v
            }
        } else {
            let part = amount - c;
            PoolView {
                loans: v.loans.insert(loan_id, LoanView {
                    borrowed_amount: borrowed,
                    current_loan_balance: 0,
                    charged_interests: (if i >= part { i - part } else { 0 }) as Balance,
                    ..loan
                }),
                total_loan_amount: (v.total_loan_amount - c) as u64,
                total_loan_interests: (v.total_loan_interests - part) as u64,
                events,
                ..v
            }
        }
    }

    /// What a repayment of `amount` of loan `loan_id` leads to once the transfer of the amount
    /// to the pool answered `transfer`: the new state and the result.
    pub open spec fn repay_outcome(v: PoolView, loan_id: LoanIndex, amount: Balance, transfer: Result<(), DispatchError>) -> (PoolView, Result<(), DispatchError>) {
        match transfer {
            Err(e) => (v, Err(e)),
            Ok(()) => if Self::repay_underflows(v, loan_id, amount) {
                (v, Err(DispatchError::Module(Error::ArithmeticUnderflow)))
            } else {
                (Self::repaid(v, loan_id, amount), Ok(()))
            },
        }
    }

    /// Lets the signer repay borrowed funds of a loan: the loan's balance first, then its
    /// interests. The amount is transferred from the signer to the pool's account, and the
    /// rest is done by `repay_after_transfer` with the transfer's answer.
    pub fn repay<C: LoanCurrency>(
        &mut self,
        origin: Origin,
        loan_id: LoanIndex,
        amount: Balance,
        whitelist: &BTreeSet<AccountId>,
        currency: &mut C,
    ) -> (res: Result<(), DispatchError>)
        ensures
            match Self::repay_error(old(self)@, origin, whitelist@, loan_id, amount) {
                Some(e) => {
                    &&& res == Err::<(), DispatchError>(e)
                    &&& final(self)@ == old(self)@
                    &&& final(self).calls@ == old(self).calls@
                },
                None => {
                    let calls = final(self).calls@;
                    &&& calls.len() == old(self).calls@.len() + 1
                    &&& calls.drop_last() == old(self).calls@
                    &&& calls.last() matches LoanCall::Transfer { from, to, amount: sent, result }
                        && from == origin->Signed_0
                        && to == old(self)@.config.pallet_account
                        && sent == amount
                        && (final(self)@, res) == Self::repay_outcome(old(self)@, loan_id, amount, result)
                },
            },
    {
        let signer = match whitelisted_signer(origin, whitelist) {
            Ok(a) => a,
            Err(e) => {
                return Err(e);
            },
        };
        let borrowed = match self.loans.get(&loan_id) {
            Some(loan) => loan.borrowed_amount,
            None => {
                return Err(DispatchError::Module(Error::InvalidIndex));
            },
        };
        if amount > borrowed {
            return Err(DispatchError::Module(Error::WantsToRepayTooMuch));
        }
        let sending_amount = match balance_to_u64(amount) {
            Ok(x) => x,
            Err(e) => {
                return Err(DispatchError::Module(e));
            },
        };
        let pallet_account = self.config.pallet_account;
        let transfer = currency.transfer(signer, pallet_account, sending_amount as u128);
        self.calls = Ghost(self.calls@.push(LoanCall::Transfer { from: signer, to: pallet_account, amount, result: transfer }));
        let res = self.repay_after_transfer(loan_id, amount, transfer);
        assert(self.calls@.drop_last() =~= old(self).calls@);
        res
    }

    /// Completes a repayment of `amount` of loan `loan_id` once the transfer of the amount to
    /// the pool answered `transfer`: a failed transfer fails the repayment; otherwise the
    /// loan's balance is paid first, then its interests, unless the pool's totals are too low.
    pub fn repay_after_transfer(&mut self, loan_id: LoanIndex, amount: Balance, transfer: Result<(), DispatchError>) -> (res: Result<(), DispatchError>)
        requires
            old(self)@.loans.dom().contains(loan_id),
            amount <= old(self)@.loans[loan_id].borrowed_amount,
            amount <= u64::MAX,
        ensures
            (final(self)@, res) == Self::repay_outcome(old(self)@, loan_id, amount, transfer),
            final(self).calls == old(self).calls,
    {
        match transfer {
            Ok(()) => {},
            Err(e) => {
                return Err(e);
            },
        }
        let (borrowed, c, i) = match self.loans.get(&loan_id) {
            Some(loan) => (loan.borrowed_amount, loan.current_loan_balance, loan.charged_interests),
            None => {
                return Err(DispatchError::Module(Error::InvalidIndex));
            },
        };
        let sending_amount = amount as u64;
        let ghost v0 = self@;
        if c >= amount {
            if self.total_loan_amount < sending_amount {
                return Err(DispatchError::Module(Error::ArithmeticUnderflow));
            }
            let loan = self.loans.remove(&loan_id).unwrap();
            let updated = LoanInfo { borrowed_amount: borrowed - amount, current_loan_balance: c - amount, ..loan };
            let ghost before_insert = self.loans@;
            self.loans.insert(loan_id, updated);
            proof { lemma_loans_insert(before_insert, loan_id, updated); }
            self.total_loan_amount = self.total_loan_amount - sending_amount;
        } else if c == 0 {
            if self.total_loan_interests < sending_amount {
                return Err(DispatchError::Module(Error::ArithmeticUnderflow));
            }
            let loan = self.loans.remove(&loan_id).unwrap();
            let updated = LoanInfo { borrowed_amount: borrowed - amount, charged_interests: i.saturating_sub(amount), ..loan };
            let ghost before_insert = self.loans@;
            self.loans.insert(loan_id, updated);
            proof { lemma_loans_insert(before_insert, loan_id, updated); }
            self.total_loan_interests = self.total_loan_interests - sending_amount;
        } else {
            let loan_amount_part = c as u64;
            let interests_amount_part = sending_amount - loan_amount_part;
            if self.total_loan_amount < loan_amount_part || self.total_loan_interests < interests_amount_part {
                return Err(DispatchError::Module(Error::ArithmeticUnderflow));
            }
            let loan = self.loans.remove(&loan_id).unwrap();
            let updated = LoanInfo {
                borrowed_amount: borrowed - amount,
                current_loan_balance: 0,
                charged_interests: i.saturating_sub(interests_amount_part as u128),
                ..loan
            };
            let ghost before_insert = self.loans@;
            self.loans.insert(loan_id, updated);
            proof { lemma_loans_insert(before_insert, loan_id, updated); }
            self.total_loan_amount = self.total_loan_amount - loan_amount_part;
            self.total_loan_interests = self.total_loan_interests - interests_amount_part;
        }
        self.events.push(Event::LoanUpdated { loan_index: loan_id });
        proof {
            assert(loans_view(self.loans@) =~= Self::repaid(v0, loan_id, amount).loans);
            assert(self@ =~= Self::repaid(v0, loan_id, amount));
        }
        Ok(())
    }
}

/// `value * percentage / 100`, the product saturating at `u128::MAX`.
pub open spec fn unlocked_amount(value: Balance, percentage: u8) -> Balance {
    ((if value * percentage > u128::MAX { u128::MAX as int } else { value * percentage }) / 100) as Balance
}

impl Pallet {
    /// The pool after the proposal `index` was rejected: its bond is slashed and the amount it
    /// reserved in the pool is freed.
    pub open spec fn rejected(v: PoolView, index: ProposalIndex) -> PoolView {
        PoolView {
            proposals: v.proposals.remove(index),
            reserved_loan_amount: (v.reserved_loan_amount - v.proposals[index].amount) as u64,
            events: v.events.push(Event::Rejected { proposal_index: index }),
            ..v
        }
    }

    /// What rejecting the proposal `index` leads to: the calls made to the runtime (from
    /// `before` to `after`), the new state `fin` and the result `res`. The bond is slashed and
    /// the proposal is gone even when the reserved amount of the pool cannot be lowered.
    pub open spec fn reject_made(
        v: PoolView,
        index: ProposalIndex,
        before: Seq<LoanCall>,
        after: Seq<LoanCall>,
        fin: PoolView,
        res: Result<(), DispatchError>,
    ) -> bool {
        if !v.proposals.contains_key(index) {
            res == Err::<(), DispatchError>(DispatchError::Module(Error::InvalidIndex)) && fin == v && after == before
        } else {
            let p = v.proposals[index];
            let gone = PoolView { proposals: v.proposals.remove(index), ..v };
            &&& after == before.push(LoanCall::SlashReserved { who: p.proposer, amount: p.bond })
            &&& if p.amount > u64::MAX {
                res == Err::<(), DispatchError>(DispatchError::Module(Error::ConversionError)) && fin == gone
            } else if v.reserved_loan_amount < p.amount {
                res == Err::<(), DispatchError>(DispatchError::Module(Error::ArithmeticUnderflow)) && fin == gone
            } else {
                res is Ok && fin == Self::rejected(v, index)
            }
        }
    }

    /// Rejects the proposal for a loan, slashing its bond. The proposal is gone even when the
    /// reserved amount of the pool cannot be lowered.
    pub fn reject_loan_proposal<C: LoanCurrency>(&mut self, proposal_index: ProposalIndex, currency: &mut C) -> (res: Result<(), DispatchError>)
        ensures
            Self::reject_made(old(self)@, proposal_index, old(self).calls@, final(self).calls@, final(self)@, res),
    {
        let ghost v0 = self@;
        let proposal = match self.proposals.remove(&proposal_index) {
            Some(p) => p,
            None => {
                proof {
                    assert(self.proposals@ =~= old(self).proposals@);
                    assert(self@ =~= old(self)@);
                }
                return Err(DispatchError::Module(Error::InvalidIndex));
            },
        };
        proof {
            lemma_proposals_remove(old(self).proposals@, proposal_index);
            assert(self@ =~= (PoolView { proposals: v0.proposals.remove(proposal_index), ..v0 }));
        }
        currency.slash_reserved(proposal.proposer, proposal.bond);
        self.calls = Ghost(self.calls@.push(LoanCall::SlashReserved { who: proposal.proposer, amount: proposal.bond }));
        let amount = match balance_to_u64(proposal.amount) {
            Ok(x) => x,
            Err(e) => {
                return Err(DispatchError::Module(e));
            },
        };
        if self.reserved_loan_amount < amount {
            return Err(DispatchError::Module(Error::ArithmeticUnderflow));
        }
        self.reserved_loan_amount = self.reserved_loan_amount - amount;
        self.events.push(Event::Rejected { proposal_index });
        proof {
            assert(self@ =~= Self::rejected(v0, proposal_index));
        }
        Ok(())
    }

    /// The loan created from the proposal `index`, approved at `now` (in seconds), represented
    /// by collection `collection_id`.
    pub open spec fn new_loan(p: ProposalView, index: ProposalIndex, now: u64, collection_id: u32) -> LoanView {
        LoanView {
            borrower: p.beneficiary,
            loan_amount: p.amount,
            current_loan_balance: p.amount,
            available_amount: unlocked_amount(p.amount, p.milestones[0].percentage_to_unlock),
            borrowed_amount: 0,
            charged_interests: 0,
            milestones: p.milestones.drop_first(),
            collection_id,
            item_id: index,
            loan_apy: p.apr_rate,
            last_timestamp: now,
            withdraw_lock: false,
        }
    }

    /// The pool after the proposal `index` was approved at `now` as a loan represented by
    /// collection `collection_id`.
    pub open spec fn approved(v: PoolView, index: ProposalIndex, now: u64, collection_id: u32) -> PoolView {
        let loan_index = (v.loan_count + 1) as LoanIndex;
        PoolView {
            proposals: v.proposals.remove(index),
            loans: v.loans.insert(loan_index, Self::new_loan(v.proposals[index], index, now, collection_id)),
            ongoing_loans: v.ongoing_loans.push(loan_index),
            total_loan_amount: (v.total_loan_amount + v.proposals[index].amount) as u64,
            loan_count: loan_index,
            events: v.events.push(Event::Approved { proposal_index: index }),
            ..v
        }
    }

    /// Whether approving the proposal `index` runs without an arithmetic overflow or a missing
    /// milestone, the cases where the runtime panics.
    pub open spec fn can_approve(v: PoolView, index: ProposalIndex) -> bool {
        v.proposals.contains_key(index) ==> {
            &&& v.proposals[index].milestones.len() > 0
            &&& v.loan_count < u32::MAX
            &&& v.proposals[index].amount <= u64::MAX ==> v.total_loan_amount + v.proposals[index].amount <= u64::MAX
        }
    }

    /// The collection id read in `c`, the answer of a read of the next collection id; a
    /// collection id never set counts as its initial value, zero.
    pub open spec fn collection_read(c: LoanCall) -> u32 {
        match c {
            LoanCall::NextCollectionId { id: Some(x) } => x,
            _ => 0,
        }
    }

    /// What approving the proposal `index` at `now` as the loan of collection `c` leads to, given
    /// the calls made to the runtime once the collection id was taken (`rest`): the new state
    /// `fin` and the result `res`. The proposal is gone and the loan recorded even when a later
    /// step fails.
    pub open spec fn approve_outcome(
        v: PoolView,
        index: ProposalIndex,
        now: u64,
        c: u32,
        rest: Seq<LoanCall>,
        fin: PoolView,
        res: Result<(), DispatchError>,
    ) -> bool {
        let p = v.proposals[index];
        let loan_index = (v.loan_count + 1) as LoanIndex;
        let recorded = PoolView {
            proposals: v.proposals.remove(index),
            loans: v.loans.insert(loan_index, Self::new_loan(p, index, now, c)),
            ..v
        };
        let ongoing = PoolView { ongoing_loans: v.ongoing_loans.push(loan_index), ..recorded };
        if v.ongoing_loans.len() >= v.config.max_ongoing_loans {
            &&& rest.len() == 0
            &&& fin == recorded
            &&& res == Err::<(), DispatchError>(DispatchError::Module(Error::TooManyLoans))
        } else {
            &&& rest.len() >= 1
            &&& rest[0] matches LoanCall::CreateCollection { collection, owner, result: created }
                && collection == c
                && owner == v.config.pallet_account
                && if created is Err {
                    &&& rest.len() == 1
                    &&& fin == ongoing
                    &&& res == created
                } else {
                    &&& rest.len() == 2
                    &&& rest[1] matches LoanCall::Mint { collection: mc, item, owner: mo, result: minted }
                        && mc == c
                        && item == index
                        && mo == v.config.pallet_account
                        && if minted is Err {
                            fin == ongoing && res == minted
                        } else if p.amount > u64::MAX {
                            fin == ongoing && res == Err::<(), DispatchError>(DispatchError::Module(Error::ConversionError))
                        } else {
                            fin == Self::approved(v, index, now, c) && res is Ok
                        }
                }
        }
    }

    /// What approving the proposal `index` at `now` leads to: the calls made to the runtime
    /// (from `before` to `after`), the new state `fin` and the result `res`. The bond is
    /// returned, the next collection id is taken and moved on, then the collection is created
    /// and the loan's NFT minted, both owned by the pallet.
    pub open spec fn approve_made(
        v: PoolView,
        index: ProposalIndex,
        now: u64,
        before: Seq<LoanCall>,
        after: Seq<LoanCall>,
        fin: PoolView,
        res: Result<(), DispatchError>,
    ) -> bool {
        if !v.proposals.contains_key(index) {
            res == Err::<(), DispatchError>(DispatchError::Module(Error::InvalidIndex)) && fin == v && after == before
        } else {
            let p = v.proposals[index];
            let k = before.len();
            let seg = calls_since(before, after);
            let c = Self::collection_read(seg[1]);
            &&& after.len() >= k + 3
            &&& after.subrange(0, k as int) == before
            &&& seg[0] matches LoanCall::Unreserve { who, amount, .. } && who == p.proposer && amount == p.bond
            &&& seg[1] is NextCollectionId
            &&& seg[2] == LoanCall::SetNextCollectionId { id: c.checked_add(1) }
            &&& Self::approve_outcome(v, index, now, c, seg.subrange(3, seg.len() as int), fin, res)
        }
    }

    /// Approves the proposal and creates the loan: the bond is returned, the first milestone is
    /// unlocked, and an NFT of a new collection, owned by the pallet, represents the loan. The
    /// proposal is gone even when a later step fails.
    pub fn approve_loan_proposal<C: LoanCurrency, N: LoanNfts>(
        &mut self,
        proposal_index: ProposalIndex,
        now: u64,
        currency: &mut C,
        nfts: &mut N,
    ) -> (res: Result<(), DispatchError>)
        requires
            Self::can_approve(old(self)@, proposal_index),
        ensures
            Self::approve_made(old(self)@, proposal_index, now, old(self).calls@, final(self).calls@, final(self)@, res),
    {
        let ghost v0 = self@;
        let ghost k = self.calls@.len();
        let proposal = match self.proposals.remove(&proposal_index) {
            Some(p) => p,
            None => {
                proof {
                    assert(self.proposals@ =~= old(self).proposals@);
                    assert(self@ =~= old(self)@);
                }
                return Err(DispatchError::Module(Error::InvalidIndex));
            },
        };
        proof {
            lemma_proposals_remove(old(self).proposals@, proposal_index);
        }
        let left = currency.unreserve(proposal.proposer, proposal.bond);
        self.calls = Ghost(self.calls@.push(LoanCall::Unreserve { who: proposal.proposer, amount: proposal.bond, left }));
        let Proposal { proposer: _, amount: value, milestones, beneficiary, apr_rate, bond: _, created_at: _ } = proposal;
        let ghost m0 = milestones@;
        let available_amount = unlocked_u128(value, milestones[0].percentage_to_unlock);
        let mut milestones = milestones;
        milestones.remove(0);
        assert(milestones@ =~= m0.drop_first());
        let next = nfts.next_collection_id();
        self.calls = Ghost(self.calls@.push(LoanCall::NextCollectionId { id: next }));
        let collection_id = match next {
            Some(c) => c,
            None => 0,
        };
        nfts.set_next_collection_id(collection_id.checked_add(1));
        self.calls = Ghost(self.calls@.push(LoanCall::SetNextCollectionId { id: collection_id.checked_add(1) }));
        let item_id = proposal_index;
        let loan_info = LoanInfo {
            borrower: beneficiary,
            loan_amount: value,
            current_loan_balance: value,
            available_amount,
            borrowed_amount: 0,
            charged_interests: 0,
            milestones,
            collection_id,
            item_id,
            loan_apy: apr_rate,
            last_timestamp: now,
            withdraw_lock: false,
        };
        let loan_index = self.loan_count + 1;
        let ghost before_insert = self.loans@;
        self.loans.insert(loan_index, loan_info);
        proof {
            lemma_loans_insert(before_insert, loan_index, loan_info);
            assert(loan_info@ == Self::new_loan(v0.proposals[proposal_index], proposal_index, now, collection_id));
            assert(calls_since(old(self).calls@, self.calls@).subrange(3, 3) =~= Seq::<LoanCall>::empty());
            assert(self.calls@.subrange(0, k as int) =~= old(self).calls@);
        }
        if self.ongoing_loans.len() >= self.config.max_ongoing_loans as usize {
            proof { assert(self@ =~= (PoolView { proposals: v0.proposals.remove(proposal_index), loans: self@.loans, ..v0 })); }
            return Err(DispatchError::Module(Error::TooManyLoans));
        }
        self.ongoing_loans.push(loan_index);
        let pallet_account = self.config.pallet_account;
        let created = nfts.create_collection(collection_id, pallet_account);
        self.calls = Ghost(self.calls@.push(LoanCall::CreateCollection { collection: collection_id, owner: pallet_account, result: created }));
        proof {
            assert(self.calls@.subrange(0, k as int) =~= old(self).calls@);
            assert(calls_since(old(self).calls@, self.calls@).subrange(3, 4) =~= seq![LoanCall::CreateCollection { collection: collection_id, owner: pallet_account, result: created }]);
        }
        match created {
            Ok(()) => {},
            Err(e) => {
                proof { assert(self@ =~= (PoolView { proposals: v0.proposals.remove(proposal_index), loans: self@.loans, ongoing_loans: v0.ongoing_loans.push(loan_index), ..v0 })); }
                return Err(e);
            },
        }
        let minted = nfts.mint(collection_id, item_id, pallet_account);
        self.calls = Ghost(self.calls@.push(LoanCall::Mint { collection: collection_id, item: item_id, owner: pallet_account, result: minted }));
        proof {
            assert(self.calls@.subrange(0, k as int) =~= old(self).calls@);
            assert(calls_since(old(self).calls@, self.calls@).subrange(3, 5) =~= seq![
                LoanCall::CreateCollection { collection: collection_id, owner: pallet_account, result: created },
                LoanCall::Mint { collection: collection_id, item: item_id, owner: pallet_account, result: minted },
            ]);
            assert((PoolView { proposals: v0.proposals.remove(proposal_index), loans: self@.loans, ongoing_loans: v0.ongoing_loans.push(loan_index), ..v0 }) =~= self@);
        }
        match minted {
            Ok(()) => {},
            Err(e) => {
                return Err(e);
            },
        }
        let value_u64 = match balance_to_u64(value) {
            Ok(x) => x,
            Err(e) => {
                return Err(DispatchError::Module(e));
            },
        };
        self.total_loan_amount = self.total_loan_amount + value_u64;
        self.loan_count = loan_index;
        self.events.push(Event::Approved { proposal_index });
        proof {
            assert(self@ =~= Self::approved(v0, proposal_index, now, collection_id));
        }
        Ok(())
    }
}

/// `a * b`, or `u64::MAX` when it does not fit.
pub open spec fn sat_mul_u64(a: int, b: int) -> u64 {
    if a * b > u64::MAX { u64::MAX } else { (a * b) as u64 }
}

/// The interests charged to `loan` at `now`, when its balance fits a `u64`.
pub open spec fn loan_interests(loan: LoanView, now: u64) -> u64 {
    interests_spec(
        (loan.current_loan_balance + loan.charged_interests) as u64,
        (now - loan.last_timestamp) as u64,
        loan.loan_apy,
    ) as u64
}

/// Whether the interests of `loan` at `now` can be computed and added without an arithmetic
/// overflow, once its balance fits a `u64`.
pub open spec fn charge_fits(total_loan_interests: u64, loan: LoanView, now: u64) -> bool {
    let total = loan.current_loan_balance + loan.charged_interests;
    let i = loan_interests(loan, now);
    &&& total * (now - loan.last_timestamp) <= u64::MAX
    &&& total * (now - loan.last_timestamp) * loan.loan_apy <= u64::MAX
    &&& loan.borrowed_amount + i <= u128::MAX
    &&& loan.charged_interests + i <= u128::MAX
    &&& total_loan_interests + i <= u64::MAX
}

/// Charging the interests of loan `id` at `now`: the pool after it, and whether charging goes
/// on with the next loan. A missing loan stops the charging; a loan whose balance does not fit
/// a `u64` is lost and stops it too. Where the runtime would panic on an arithmetic overflow or
/// a clock that went back, the charging stops at that loan and leaves it as it was.
pub open spec fn charge_one(v: PoolView, id: LoanIndex, now: u64) -> (PoolView, bool) {
    if !v.loans.contains_key(id) {
        (v, false)
    } else {
        let loan = v.loans[id];
        let total = loan.current_loan_balance + loan.charged_interests;
        if now < loan.last_timestamp || total > u128::MAX {
            (v, false)
        } else if total > u64::MAX {
            (PoolView { loans: v.loans.remove(id), ..v }, false)
        } else if !charge_fits(v.total_loan_interests, loan, now) {
            (v, false)
        } else {
            let i = loan_interests(loan, now);
            (PoolView {
                loans: v.loans.insert(id, LoanView {
                    borrowed_amount: (loan.borrowed_amount + i) as Balance,
                    charged_interests: (loan.charged_interests + i) as Balance,
                    last_timestamp: now,
                    ..loan
                }),
                total_loan_interests: (v.total_loan_interests + i) as u64,
                events: v.events.push(Event::ApyCharged { loan_index: id, interest_balance: i as Balance }),
                ..v
            }, true)
        }
    }
}

/// Charging the interests of the loans `ids` in order: the pool after it, and whether it went
/// through all of them.
pub open spec fn charge_all(v: PoolView, ids: Seq<LoanIndex>, now: u64) -> (PoolView, bool)
    decreases ids.len(),
{
    if ids.len() == 0 {
        (v, true)
    } else {
        let (w, ok) = charge_all(v, ids.drop_last(), now);
        if ok { charge_one(w, ids.last(), now) } else { (w, false) }
    }
}

impl Pallet {
    /// The pool after the milestone proposal `index` of loan `loan_id` was approved: the next
    /// milestone is unlocked and the bond returned.
    pub open spec fn milestone_approved(v: PoolView, loan_id: LoanIndex, index: ProposalIndex) -> PoolView {
        let loan = v.loans[loan_id];
        let added = sat_mul_u64(loan.loan_amount as int, loan.milestones[0].percentage_to_unlock as int) / 100;
        PoolView {
            loans: v.loans.insert(loan_id, LoanView {
                milestones: loan.milestones.drop_first(),
                available_amount: sat_add_u128(loan.available_amount as int, added as int),
                ..loan
            }),
            milestone_info: v.milestone_info.remove(index),
            events: v.events.push(Event::MilestoneApproved { loan_id }),
            ..v
        }
    }

    /// Unlocks the next milestone of a loan when its milestone proposal is approved, returning
    /// the bond. The loan is lost when its amount does not fit a `u64` or the proposal has no
    /// info, as in the runtime.
    fn updating_available_amount<C: LoanCurrency>(&mut self, loan_id: LoanIndex, proposal_index: ProposalIndex, currency: &mut C) -> (res: Result<(), DispatchError>)
        requires
            old(self)@.loans.contains_key(loan_id) ==> old(self)@.loans[loan_id].milestones.len() > 0,
        ensures
            !old(self)@.loans.contains_key(loan_id) ==> res == Err::<(), DispatchError>(DispatchError::Module(Error::InvalidIndex)) && final(self)@ == old(self)@,
            old(self)@.loans.contains_key(loan_id) ==> if old(self)@.loans[loan_id].loan_amount > u64::MAX {
                res == Err::<(), DispatchError>(DispatchError::Module(Error::ConversionError))
                    && final(self)@ == (PoolView { loans: old(self)@.loans.remove(loan_id), ..old(self)@ })
            } else if !old(self)@.milestone_info.contains_key(proposal_index) {
                res == Err::<(), DispatchError>(DispatchError::Module(Error::InvalidIndex))
                    && final(self)@ == (PoolView { loans: old(self)@.loans.remove(loan_id), ..old(self)@ })
            } else {
                res is Ok && final(self)@ == Self::milestone_approved(old(self)@, loan_id, proposal_index)
            },
            Self::milestone_unlock_made(old(self)@, loan_id, proposal_index, old(self).calls@, final(self).calls@, final(self)@),
            res is Err ==> final(self).calls@ == old(self).calls@,
            res is Ok ==> {
                let info = old(self)@.milestone_info[proposal_index];
                let calls = final(self).calls@;
                &&& calls.len() == old(self).calls@.len() + 1
                &&& calls.drop_last() == old(self).calls@
                &&& calls.last() == LoanCall::Unreserve { who: info.proposer, amount: info.bond, left: calls.last()->Unreserve_left }
            },
    {
        let ghost v0 = self@;
        let loan = match self.loans.remove(&loan_id) {
            Some(l) => l,
            None => {
                return Err(DispatchError::Module(Error::InvalidIndex));
            },
        };
        proof {
            lemma_loans_remove(old(self).loans@, loan_id);
            assert(self@ =~= (PoolView { loans: v0.loans.remove(loan_id), ..v0 }));
        }
        let amount = match balance_to_u64(loan.loan_amount) {
            Ok(x) => x,
            Err(e) => {
                return Err(DispatchError::Module(e));
            },
        };
        let first = loan.milestones[0].percentage_to_unlock as u64;
        let added = match amount.checked_mul(first) {
            Some(x) => x,
            None => u64::MAX,
        } / 100;
        let info = match self.milestone_info.remove(&proposal_index) {
            Some(i) => i,
            None => {
                return Err(DispatchError::Module(Error::InvalidIndex));
            },
        };
        let LoanInfo {
            borrower, loan_amount, current_loan_balance, available_amount, borrowed_amount, charged_interests,
            milestones, collection_id, item_id, loan_apy, last_timestamp, withdraw_lock,
        } = loan;
        let ghost m0 = milestones@;
        let mut milestones = milestones;
        milestones.remove(0);
        assert(milestones@ =~= m0.drop_first());
        let updated = LoanInfo {
            borrower, loan_amount, current_loan_balance,
            available_amount: available_amount.saturating_add(added as u128),
            borrowed_amount, charged_interests, milestones, collection_id, item_id, loan_apy, last_timestamp, withdraw_lock,
        };
        let left = currency.unreserve(info.proposer, info.bond);
        self.calls = Ghost(self.calls@.push(LoanCall::Unreserve { who: info.proposer, amount: info.bond, left }));
        proof { assert(self.calls@.drop_last() =~= old(self).calls@); }
        let ghost before_insert = self.loans@;
        self.loans.insert(loan_id, updated);
        proof {
            lemma_loans_insert(before_insert, loan_id, updated);
        }
        self.events.push(Event::MilestoneApproved { loan_id });
        proof {
            assert(loans_view(self.loans@) =~= Self::milestone_approved(v0, loan_id, proposal_index).loans);
            assert(self@ =~= Self::milestone_approved(v0, loan_id, proposal_index));
        }
        Ok(())
    }

    /// Rejects a milestone proposal, slashing its bond.
    fn reject_milestone<C: LoanCurrency>(&mut self, proposal_index: ProposalIndex, currency: &mut C) -> (res: Result<(), DispatchError>)
        ensures
            !old(self)@.milestone_info.contains_key(proposal_index) ==> res == Err::<(), DispatchError>(DispatchError::Module(Error::InvalidIndex)) && final(self)@ == old(self)@,
            old(self)@.milestone_info.contains_key(proposal_index) ==> res is Ok && final(self)@ == (PoolView {
                milestone_info: old(self)@.milestone_info.remove(proposal_index),
                events: old(self)@.events.push(Event::MilestoneRejected { proposal_index }),
                ..old(self)@
            }),
            !old(self)@.milestone_info.contains_key(proposal_index) ==> final(self).calls@ == old(self).calls@,
            Self::milestone_reject_made(old(self)@, proposal_index, old(self).calls@, final(self).calls@, final(self)@),
            old(self)@.milestone_info.contains_key(proposal_index) ==> final(self).calls@ == old(self).calls@.push(LoanCall::SlashReserved {
                who: old(self)@.milestone_info[proposal_index].proposer,
                amount: old(self)@.milestone_info[proposal_index].bond,
            }),
    {
        let info = match self.milestone_info.remove(&proposal_index) {
            Some(i) => i,
            None => {
                return Err(DispatchError::Module(Error::InvalidIndex));
            },
        };
        currency.slash_reserved(info.proposer, info.bond);
        self.calls = Ghost(self.calls@.push(LoanCall::SlashReserved { who: info.proposer, amount: info.bond }));
        self.events.push(Event::MilestoneRejected { proposal_index });
        Ok(())
    }

    /// The pool after loan `loan_id` was deleted.
    pub open spec fn loan_deleted(v: PoolView, loan_id: LoanIndex) -> PoolView {
        PoolView {
            loans: v.loans.remove(loan_id),
            ongoing_loans: v.ongoing_loans.remove(v.ongoing_loans.index_of_first(loan_id)->Some_0),
            reserved_loan_amount: (v.reserved_loan_amount - v.loans[loan_id].current_loan_balance) as u64,
            events: v.events.push(Event::Deleted { loan_index: loan_id }),
            ..v
        }
    }

    /// Deletes a repaid loan when its deletion proposal is approved, burning its NFT. The loan
    /// is gone even when a later step fails, as in the runtime.
    fn delete_loan<N: LoanNfts>(&mut self, loan_id: LoanIndex, nfts: &mut N) -> (res: Result<(), DispatchError>)
        ensures
            !old(self)@.loans.contains_key(loan_id) ==> res == Err::<(), DispatchError>(DispatchError::Module(Error::InvalidIndex)) && final(self)@ == old(self)@,
            old(self)@.loans.contains_key(loan_id) ==> {
                let gone = PoolView { loans: old(self)@.loans.remove(loan_id), ..old(self)@ };
                let loan = old(self)@.loans[loan_id];
                if loan.borrowed_amount != 0 {
                    res == Err::<(), DispatchError>(DispatchError::Module(Error::LoanStillOngoing)) && final(self)@ == gone
                } else {
                    &&& res is Err ==> final(self)@ == gone
                    &&& !old(self)@.ongoing_loans.contains(loan_id) ==> res is Err
                    &&& loan.current_loan_balance > old(self)@.reserved_loan_amount ==> res is Err
                    &&& res is Ok ==> final(self)@ == Self::loan_deleted(old(self)@, loan_id)
                }
            },
            Self::delete_made(old(self)@, loan_id, old(self).calls@, final(self).calls@, final(self)@),
            res is Ok <==> (old(self)@.loans.contains_key(loan_id) && final(self)@ == Self::loan_deleted(old(self)@, loan_id)
                && old(self)@.loans[loan_id].borrowed_amount == 0 && final(self).calls@.last()->Burn_result is Ok
                && old(self)@.ongoing_loans.contains(loan_id) && old(self)@.loans[loan_id].current_loan_balance <= old(self)@.reserved_loan_amount),
            !old(self)@.loans.contains_key(loan_id) || old(self)@.loans[loan_id].borrowed_amount != 0 ==> final(self).calls@ == old(self).calls@,
            old(self)@.loans.contains_key(loan_id) && old(self)@.loans[loan_id].borrowed_amount == 0 ==> {
                let loan = old(self)@.loans[loan_id];
                let calls = final(self).calls@;
                &&& calls.len() == old(self).calls@.len() + 1
                &&& calls.drop_last() == old(self).calls@
                &&& calls.last() == LoanCall::Burn { collection: loan.collection_id, item: loan.item_id, result: calls.last()->Burn_result }
                &&& calls.last()->Burn_result is Err ==> res == calls.last()->Burn_result
            },
    {
        let ghost v0 = self@;
        let loan = match self.loans.remove(&loan_id) {
            Some(l) => l,
            None => {
                proof {
                    assert(self.loans@ =~= old(self).loans@);
                    assert(self@ =~= v0);
                }
                return Err(DispatchError::Module(Error::InvalidIndex));
            },
        };
        proof {
            lemma_loans_remove(old(self).loans@, loan_id);
            assert(self@ =~= (PoolView { loans: v0.loans.remove(loan_id), ..v0 }));
        }
        if loan.borrowed_amount != 0 {
            return Err(DispatchError::Module(Error::LoanStillOngoing));
        }
        let burnt: Result<(), DispatchError> = match nfts.burn(loan.collection_id, loan.item_id) {
            Ok(()) => Ok(()),
            Err(e) => Err(e),
        };
        self.calls = Ghost(self.calls@.push(LoanCall::Burn { collection: loan.collection_id, item: loan.item_id, result: burnt }));
        proof { assert(self.calls@.drop_last() =~= old(self).calls@); }
        match burnt {
            Ok(()) => {},
            Err(e) => {
                return Err(e);
            },
        }
        let mut pos: usize = 0;
        while pos < self.ongoing_loans.len() && self.ongoing_loans[pos] != loan_id
            invariant
                0 <= pos <= self.ongoing_loans.len(),
                forall|j: int| 0 <= j < pos ==> self.ongoing_loans@[j] != loan_id,
            decreases self.ongoing_loans.len() - pos,
        {
            pos = pos + 1;
        }
        proof {
            self.ongoing_loans@.index_of_first_ensures(loan_id);
        }
        if pos == self.ongoing_loans.len() {
            return Err(DispatchError::Module(Error::NoLoanFound));
        }
        proof {
            assert(self.ongoing_loans@.contains(loan_id));
            let k = self.ongoing_loans@.index_of_first(loan_id)->Some_0;
            assert(self.ongoing_loans@[k] == loan_id);
            if k < pos {
                assert(false);
            }
            if k > pos {
                assert(self.ongoing_loans@[pos as int] == loan_id);
            }
        }
        let current = match balance_to_u64(loan.current_loan_balance) {
            Ok(x) => x,
            Err(e) => {
                return Err(DispatchError::Module(e));
            },
        };
        if self.reserved_loan_amount < current {
            return Err(DispatchError::Module(Error::ArithmeticUnderflow));
        }
        self.ongoing_loans.remove(pos);
        self.reserved_loan_amount = self.reserved_loan_amount - current;
        self.events.push(Event::Deleted { loan_index: loan_id });
        proof {
            assert(self@ =~= Self::loan_deleted(v0, loan_id));
        }
        Ok(())
    }

    /// Opens the withdrawals of a loan again when its deletion proposal is rejected.
    fn open_withdrawl(&mut self, loan_id: LoanIndex) -> (res: Result<(), DispatchError>)
        ensures
            !old(self)@.loans.contains_key(loan_id) ==> res == Err::<(), DispatchError>(DispatchError::Module(Error::InvalidIndex)) && final(self)@ == old(self)@,
            old(self)@.loans.contains_key(loan_id) ==> res is Ok && final(self)@ == (PoolView {
                loans: old(self)@.loans.insert(loan_id, LoanView { withdraw_lock: false, ..old(self)@.loans[loan_id] }),
                ..old(self)@
            }),
            final(self).calls@ == old(self).calls@,
    {
        let ghost v0 = self@;
        let loan = match self.loans.remove(&loan_id) {
            Some(l) => l,
            None => {
                return Err(DispatchError::Module(Error::InvalidIndex));
            },
        };
        let unlocked = LoanInfo { withdraw_lock: false, ..loan };
        let ghost before_insert = self.loans@;
        self.loans.insert(loan_id, unlocked);
        proof {
            lemma_loans_insert(before_insert, loan_id, unlocked);
            assert(loans_view(self.loans@) =~= v0.loans.insert(loan_id, LoanView { withdraw_lock: false, ..v0.loans[loan_id] }));
            assert(self@ =~= (PoolView {
                loans: v0.loans.insert(loan_id, LoanView { withdraw_lock: false, ..v0.loans[loan_id] }),
                ..v0
            }));
        }
        Ok(())
    }
}

/// Why the interests of `loan` cannot be charged at `now`: a conversion error, or an overflow
/// (or a clock that went back) where the runtime would panic.
fn charge_check(loan: &LoanInfo, total_loan_interests: u64, now: u64) -> (r: Option<Error>)
    ensures
        r == (if now < loan.last_timestamp || loan.current_loan_balance + loan.charged_interests > u128::MAX {
            Some(Error::ArithmeticUnderflow)
        } else if loan.current_loan_balance + loan.charged_interests > u64::MAX {
            Some(Error::ConversionError)
        } else if !charge_fits(total_loan_interests, loan@, now) {
            Some(Error::ArithmeticUnderflow)
        } else {
            None::<Error>
        }),
{
    if now < loan.last_timestamp || loan.charged_interests > u128::MAX - loan.current_loan_balance {
        return Some(Error::ArithmeticUnderflow);
    }
    if loan.current_loan_balance + loan.charged_interests > u64::MAX as u128 {
        return Some(Error::ConversionError);
    }
    let total = (loan.current_loan_balance + loan.charged_interests) as u64;
    let seconds = now - loan.last_timestamp;
    let x = match total.checked_mul(seconds) {
        Some(x) => x,
        None => {
            return Some(Error::ArithmeticUnderflow);
        },
    };
    match x.checked_mul(loan.loan_apy) {
        Some(_) => {},
        None => {
            return Some(Error::ArithmeticUnderflow);
        },
    }
    let i = interests(total, seconds, loan.loan_apy);
    if loan.borrowed_amount <= u128::MAX - i as u128 && loan.charged_interests <= u128::MAX - i as u128
        && total_loan_interests <= u64::MAX - i {
        None
    } else {
        Some(Error::ArithmeticUnderflow)
    }
}

impl Pallet {
    /// Charges the interests of each ongoing loan since it was last charged, at `now` (in
    /// seconds), and adds them to the loan. A missing loan stops the charging, with the loans
    /// before it charged, as in the runtime; so does a loan whose interests would overflow,
    /// where the runtime panics.
    fn charge_apy(&mut self, now: u64) -> (res: Result<(), DispatchError>)
        ensures
            final(self)@ == charge_all(old(self)@, old(self)@.ongoing_loans, now).0,
            res is Ok <==> charge_all(old(self)@, old(self)@.ongoing_loans, now).1,
            final(self).calls@ == old(self).calls@,
    {
        let ghost v0 = self@;
        let ids = self.ongoing_loans.clone();
        assert(ids@ =~= v0.ongoing_loans);
        let mut i: usize = 0;
        while i < ids.len()
            invariant
                0 <= i <= ids.len(),
                ids@ == v0.ongoing_loans,
                v0 == old(self)@,
                self.calls@ == old(self).calls@,
                charge_all(v0, ids@.take(i as int), now) == (self@, true),
            decreases ids.len() - i,
        {
            let id = ids[i];
            proof {
                assert(ids@.take(i as int + 1).drop_last() =~= ids@.take(i as int));
            }
            let ghost w = self@;
            let ghost wl = self.loans@;
            let stop = match self.loans.get(&id) {
                None => Some(Error::InvalidIndex),
                Some(loan) => charge_check(loan, self.total_loan_interests, now),
            };
            match stop {
                Some(e) => {
                    if e == Error::ConversionError {
                        self.loans.remove(&id);
                        proof {
                            lemma_loans_remove(wl, id);
                        }
                    }
                    proof {
                        assert(self@ =~= charge_one(w, id, now).0);
                        assert(charge_all(v0, ids@.take(i as int + 1), now) == (self@, false));
                        assert(ids@.take(ids.len() as int) =~= ids@);
                        lemma_charge_stops(v0, ids@, now, i as int + 1);
                    }
                    return Err(DispatchError::Module(e));
                },
                None => {},
            }
            let loan = self.loans.remove(&id).unwrap();
            proof {
                lemma_loans_remove(wl, id);
            }
            assert(loan@ == w.loans[id]);
            let loan_amount = (loan.current_loan_balance + loan.charged_interests) as u64;
            let time_difference = now - loan.last_timestamp;
            let interests = interests(loan_amount, time_difference, loan.loan_apy);
            let interest_balance = interests as u128;
            let charged = LoanInfo {
                borrowed_amount: loan.borrowed_amount + interest_balance,
                charged_interests: loan.charged_interests + interest_balance,
                last_timestamp: now,
                ..loan
            };
            let ghost before_insert = self.loans@;
            self.loans.insert(id, charged);
            proof {
                lemma_loans_insert(before_insert, id, charged);
            }
            self.total_loan_interests = self.total_loan_interests + interests;
            self.events.push(Event::ApyCharged { loan_index: id, interest_balance });
            proof {
                assert(loans_view(self.loans@) =~= charge_one(w, id, now).0.loans);
                assert(self@ =~= charge_one(w, id, now).0);
            }
            i = i + 1;
        }
        assert(ids@.take(ids.len() as int) =~= ids@);
        Ok(())
    }
}

proof fn lemma_charge_stops(v: PoolView, ids: Seq<LoanIndex>, now: u64, k: int)
    requires
        0 <= k <= ids.len(),
        charge_all(v, ids.take(k), now).1 == false,
    ensures
        charge_all(v, ids, now) == charge_all(v, ids.take(k), now),
    decreases ids.len() - k,
{
    if k < ids.len() {
        assert(ids.take(k + 1).drop_last() =~= ids.take(k));
        lemma_charge_stops(v, ids, now, k + 1);
    } else {
        assert(ids.take(k) =~= ids);
    }
}

/// Takes the proposals ending at `block` out of `rounds`.
fn take_round(rounds: &mut BTreeMap<BlockNumber, Vec<ProposalIndex>>, block: BlockNumber) -> (r: Vec<ProposalIndex>)
    ensures
        r@ == ending_at(rounds_view(old(rounds)@), block),
        rounds_view(final(rounds)@) == rounds_view(old(rounds)@).remove(block),
{
    let r = match rounds.remove(&block) {
        Some(v) => v,
        None => Vec::new(),
    };
    assert(rounds_view(rounds@) =~= rounds_view(old(rounds)@).remove(block));
    r
}

impl Pallet {
    /// Whether approving the proposal `index` runs without the runtime panicking.
    fn can_approve_check(&self, index: ProposalIndex) -> (r: bool)
        ensures
            r == Self::can_approve(self@, index),
    {
        match self.proposals.get(&index) {
            Some(p) => {
                p.milestones.len() > 0 && self.loan_count < u32::MAX
                    && (p.amount > u64::MAX as u128 || self.total_loan_amount as u128 + p.amount <= u64::MAX as u128)
            },
            None => true,
        }
    }

    /// Whether the milestones of loan `loan_id` are not exhausted (or the loan is missing).
    fn has_milestone_left(&self, loan_id: LoanIndex) -> (r: bool)
        ensures
            r == (self@.loans.contains_key(loan_id) ==> self@.loans[loan_id].milestones.len() > 0),
    {
        match self.loans.get(&loan_id) {
            Some(l) => l.milestones.len() > 0,
            None => true,
        }
    }


    /// What settling the vote on the proposal `index` leads to, from `v` with the calls `before`
    /// made so far: without a vote nothing changes; otherwise the vote is dropped, and more yes
    /// than no votes approve the proposal (unless approving it would overflow, in which case it
    /// stays), while a tie or more no votes reject it.
    pub open spec fn settle_made(
        v: PoolView,
        index: ProposalIndex,
        now: u64,
        before: Seq<LoanCall>,
        after: Seq<LoanCall>,
        fin: PoolView,
        res: Result<(), DispatchError>,
    ) -> bool {
        if !v.ongoing_votes.contains_key(index) {
            &&& fin == v
            &&& after == before
            &&& res is Ok
        } else {
            let stats = v.ongoing_votes[index];
            let v1 = PoolView { ongoing_votes: v.ongoing_votes.remove(index), ..v };
            if stats.yes_votes > stats.no_votes {
                if Self::can_approve(v1, index) {
                    Self::approve_made(v1, index, now, before, after, fin, res)
                } else {
                    fin == v1 && after == before && res is Ok
                }
            } else {
                Self::reject_made(v1, index, before, after, fin, res)
            }
        }
    }

    /// What unlocking the next milestone of loan `loan_id` for the milestone proposal `index`
    /// leads to: the bond is returned and the milestone unlocked; a missing loan changes
    /// nothing; a loan whose amount does not fit a `u64`, or a proposal without info, loses the
    /// loan.
    pub open spec fn milestone_unlock_made(
        v: PoolView,
        loan_id: LoanIndex,
        index: ProposalIndex,
        before: Seq<LoanCall>,
        after: Seq<LoanCall>,
        fin: PoolView,
    ) -> bool {
        if !v.loans.contains_key(loan_id) {
            fin == v && after == before
        } else if v.loans[loan_id].loan_amount > u64::MAX || !v.milestone_info.contains_key(index) {
            fin == (PoolView { loans: v.loans.remove(loan_id), ..v }) && after == before
        } else {
            let info = v.milestone_info[index];
            &&& fin == Self::milestone_approved(v, loan_id, index)
            &&& after.len() == before.len() + 1
            &&& after.drop_last() == before
            &&& after.last() == LoanCall::Unreserve { who: info.proposer, amount: info.bond, left: after.last()->Unreserve_left }
        }
    }

    /// What rejecting the milestone proposal `index` leads to: its bond is slashed and its info
    /// dropped; without info nothing changes.
    pub open spec fn milestone_reject_made(v: PoolView, index: ProposalIndex, before: Seq<LoanCall>, after: Seq<LoanCall>, fin: PoolView) -> bool {
        if !v.milestone_info.contains_key(index) {
            fin == v && after == before
        } else {
            &&& fin == (PoolView {
                milestone_info: v.milestone_info.remove(index),
                events: v.events.push(Event::MilestoneRejected { proposal_index: index }),
                ..v
            })
            &&& after == before.push(LoanCall::SlashReserved { who: v.milestone_info[index].proposer, amount: v.milestone_info[index].bond })
        }
    }

    /// What deleting loan `loan_id` leads to: a repaid loan's NFT is burnt, and the loan is
    /// deleted when the runtime accepts the burn, the loan is ongoing and the pool's reserved
    /// amount covers its balance; otherwise the loan is gone all the same.
    pub open spec fn delete_made(v: PoolView, loan_id: LoanIndex, before: Seq<LoanCall>, after: Seq<LoanCall>, fin: PoolView) -> bool {
        if !v.loans.contains_key(loan_id) {
            fin == v && after == before
        } else {
            let loan = v.loans[loan_id];
            let gone = PoolView { loans: v.loans.remove(loan_id), ..v };
            if loan.borrowed_amount != 0 {
                fin == gone && after == before
            } else {
                &&& after.len() == before.len() + 1
                &&& after.drop_last() == before
                &&& after.last() == LoanCall::Burn { collection: loan.collection_id, item: loan.item_id, result: after.last()->Burn_result }
                &&& fin == (if after.last()->Burn_result is Ok && v.ongoing_loans.contains(loan_id)
                    && loan.current_loan_balance <= v.reserved_loan_amount {
                    Self::loan_deleted(v, loan_id)
                } else {
                    gone
                })
            }
        }
    }

    /// What the end of the voting on the milestone proposal `item` leads to: without a vote
    /// nothing changes; otherwise the vote is dropped, and more yes than no votes unlock the
    /// next milestone of its loan (the proposal is dropped; a loan without milestones left is
    /// skipped, where the runtime panics), while a tie or more no votes reject it.
    pub open spec fn milestone_vote_settled(v: PoolView, item: ProposalIndex, before: Seq<LoanCall>, after: Seq<LoanCall>, fin: PoolView) -> bool {
        let v1 = PoolView { ongoing_milestone_votes: v.ongoing_milestone_votes.remove(item), ..v };
        if !v.ongoing_milestone_votes.contains_key(item) {
            fin == v && after == before
        } else if v.ongoing_milestone_votes[item].yes_votes > v.ongoing_milestone_votes[item].no_votes {
            if !v1.milestone_proposals.contains_key(item) {
                fin == v1 && after == before
            } else {
                let loan_id = v1.milestone_proposals[item];
                let v2 = PoolView { milestone_proposals: v1.milestone_proposals.remove(item), ..v1 };
                if v2.loans.contains_key(loan_id) && v2.loans[loan_id].milestones.len() == 0 {
                    fin == v2 && after == before
                } else {
                    Self::milestone_unlock_made(v2, loan_id, item, before, after, fin)
                }
            }
        } else {
            Self::milestone_reject_made(v1, item, before, after, fin)
        }
    }

    /// What the end of the voting on the deletion proposal `item` leads to: the vote and the
    /// proposal are dropped; more yes than no votes delete its loan, while a tie or more no
    /// votes open the loan's withdrawals again.
    pub open spec fn deletion_vote_settled(v: PoolView, item: ProposalIndex, before: Seq<LoanCall>, after: Seq<LoanCall>, fin: PoolView) -> bool {
        let v1 = PoolView {
            ongoing_deletion_votes: v.ongoing_deletion_votes.remove(item),
            deletion_proposals: v.deletion_proposals.remove(item),
            ..v
        };
        if !v.ongoing_deletion_votes.contains_key(item) || !v.deletion_proposals.contains_key(item) {
            fin == v1 && after == before
        } else {
            let loan_id = v.deletion_proposals[item];
            if v.ongoing_deletion_votes[item].yes_votes > v.ongoing_deletion_votes[item].no_votes {
                Self::delete_made(v1, loan_id, before, after, fin)
            } else {
                &&& after == before
                &&& fin == (if v1.loans.contains_key(loan_id) {
                    PoolView { loans: v1.loans.insert(loan_id, LoanView { withdraw_lock: false, ..v1.loans[loan_id] }), ..v1 }
                } else {
                    v1
                })
            }
        }
    }

    /// Whether settling the votes on the proposals `items` one after the other goes from `vs[0]`
    /// through the states `vs`, with the calls `cs` made so far at each, and the results `rs`.
    pub open spec fn settles(items: Seq<ProposalIndex>, now: u64, vs: Seq<PoolView>, cs: Seq<Seq<LoanCall>>, rs: Seq<Result<(), DispatchError>>) -> bool {
        &&& vs.len() == items.len() + 1
        &&& cs.len() == items.len() + 1
        &&& rs.len() == items.len()
        &&& forall|j: int| 0 <= j < items.len() ==> Self::settle_made(vs[j], #[trigger] items[j], now, cs[j], cs[j + 1], vs[j + 1], rs[j])
    }

    /// Whether ending the milestone votings on `items` one after the other goes through `vs`.
    pub open spec fn milestone_settles(items: Seq<ProposalIndex>, vs: Seq<PoolView>, cs: Seq<Seq<LoanCall>>) -> bool {
        &&& vs.len() == items.len() + 1
        &&& cs.len() == items.len() + 1
        &&& forall|j: int| 0 <= j < items.len() ==> Self::milestone_vote_settled(vs[j], #[trigger] items[j], cs[j], cs[j + 1], vs[j + 1])
    }

    /// Whether ending the deletion votings on `items` one after the other goes through `vs`.
    pub open spec fn deletion_settles(items: Seq<ProposalIndex>, vs: Seq<PoolView>, cs: Seq<Seq<LoanCall>>) -> bool {
        &&& vs.len() == items.len() + 1
        &&& cs.len() == items.len() + 1
        &&& forall|j: int| 0 <= j < items.len() ==> Self::deletion_vote_settled(vs[j], #[trigger] items[j], cs[j], cs[j + 1], vs[j + 1])
    }

    /// What the block hook at block `n` and time `now` leads to, from `v` with the calls `c`
    /// made so far, through the states `vs1` (proposal votings), `vs2` (milestone votings) and
    /// `vs3` (deletion votings): each voting ending at `n` is settled in the order it was
    /// scheduled, the rounds of `n` are dropped, and then the interests of the ongoing loans are
    /// charged; `fin` and `cfin` are the pool and the calls at the end.
    pub open spec fn hook_made(
        v: PoolView,
        c: Seq<LoanCall>,
        n: BlockNumber,
        now: u64,
        vs1: Seq<PoolView>,
        cs1: Seq<Seq<LoanCall>>,
        rs1: Seq<Result<(), DispatchError>>,
        vs2: Seq<PoolView>,
        cs2: Seq<Seq<LoanCall>>,
        vs3: Seq<PoolView>,
        cs3: Seq<Seq<LoanCall>>,
        fin: PoolView,
        cfin: Seq<LoanCall>,
    ) -> bool {
        &&& Self::settles(ending_at(v.rounds_expiring, n), now, vs1, cs1, rs1)
        &&& vs1[0] == (PoolView { block_number: n, rounds_expiring: v.rounds_expiring.remove(n), ..v })
        &&& cs1[0] == c
        &&& Self::milestone_settles(ending_at(vs1.last().milestone_rounds_expiring, n), vs2, cs2)
        &&& vs2[0] == (PoolView { milestone_rounds_expiring: vs1.last().milestone_rounds_expiring.remove(n), ..vs1.last() })
        &&& cs2[0] == cs1.last()
        &&& Self::deletion_settles(ending_at(vs2.last().deletion_rounds_expiring, n), vs3, cs3)
        &&& vs3[0] == (PoolView { deletion_rounds_expiring: vs2.last().deletion_rounds_expiring.remove(n), ..vs2.last() })
        &&& cs3[0] == cs2.last()
        &&& fin == charge_all(vs3.last(), vs3.last().ongoing_loans, now).0
        &&& cfin == cs3.last()
    }

    /// Settles the vote on the proposal `index` once its voting ended: the vote is dropped;
    /// more yes than no votes approve the proposal (unless approving it would overflow, in
    /// which case it stays), otherwise it is rejected.
    pub fn settle_proposal<C: LoanCurrency, N: LoanNfts>(
        &mut self,
        index: ProposalIndex,
        now: u64,
        currency: &mut C,
        nfts: &mut N,
    ) -> (res: Result<(), DispatchError>)
        ensures
            Self::settle_made(old(self)@, index, now, old(self).calls@, final(self).calls@, final(self)@, res),
    {
        let ghost v0 = self@;
        let result = match self.ongoing_votes.remove(&index) {
            Some(r) => r,
            None => {
                proof {
                    assert(self.ongoing_votes@ =~= old(self).ongoing_votes@);
                    assert(self@ =~= old(self)@);
                }
                return Ok(());
            },
        };
        proof {
            assert(self@ =~= (PoolView { ongoing_votes: v0.ongoing_votes.remove(index), ..v0 }));
        }
        if result.yes_votes > result.no_votes {
            if self.can_approve_check(index) {
                self.approve_loan_proposal(index, now, currency, nfts)
            } else {
                Ok(())
            }
        } else {
            self.reject_loan_proposal(index, currency)
        }
    }

    /// The block hook, at block `n` and time `now` (in seconds): the votings that end at `n`
    /// are evaluated (a proposal with more yes than no votes is approved, otherwise rejected;
    /// the same for milestone and deletion proposals), then the interests of the ongoing loans
    /// are charged. What a step does before it fails stays, as in the runtime; a step on which
    /// the runtime would panic (an overflow, or a loan without milestones left) is skipped.
    pub fn on_initialize<C: LoanCurrency, N: LoanNfts>(&mut self, n: BlockNumber, now: u64, currency: &mut C, nfts: &mut N)
        ensures
            exists|
                vs1: Seq<PoolView>,
                cs1: Seq<Seq<LoanCall>>,
                rs1: Seq<Result<(), DispatchError>>,
                vs2: Seq<PoolView>,
                cs2: Seq<Seq<LoanCall>>,
                vs3: Seq<PoolView>,
                cs3: Seq<Seq<LoanCall>>,
            | #[trigger] Self::hook_made(old(self)@, old(self).calls@, n, now, vs1, cs1, rs1, vs2, cs2, vs3, cs3, final(self)@, final(self).calls@),
    {
        let ghost v_old = self@;
        let ghost c_old = self.calls@;
        self.block_number = n;
        let ended_votings = take_round(&mut self.rounds_expiring, n);
        assert(self@ =~= (PoolView { block_number: n, rounds_expiring: v_old.rounds_expiring.remove(n), ..v_old }));
        let ghost mut vs1: Seq<PoolView> = seq![self@];
        let ghost mut cs1: Seq<Seq<LoanCall>> = seq![self.calls@];
        let ghost mut rs1: Seq<Result<(), DispatchError>> = Seq::empty();
        let mut i: usize = 0;
        while i < ended_votings.len()
            invariant
                0 <= i <= ended_votings.len(),
                vs1.len() == i + 1,
                cs1.len() == i + 1,
                rs1.len() == i,
                vs1[0] == (PoolView { block_number: n, rounds_expiring: v_old.rounds_expiring.remove(n), ..v_old }),
                cs1[0] == c_old,
                vs1.last() == self@,
                cs1.last() == self.calls@,
                forall|j: int| 0 <= j < i ==> Self::settle_made(vs1[j], #[trigger] ended_votings@[j], now, cs1[j], cs1[j + 1], vs1[j + 1], rs1[j]),
            decreases ended_votings.len() - i,
        {
            let item = ended_votings[i];
            let ghost before = self@;
            let ghost cb = self.calls@;
            let r = self.settle_proposal(item, now, currency, nfts);
            proof {
                let ovs = vs1;
                let ocs = cs1;
                let ors = rs1;
                vs1 = ovs.push(self@);
                cs1 = ocs.push(self.calls@);
                rs1 = ors.push(r);
                assert forall|j: int| 0 <= j < i + 1 implies Self::settle_made(vs1[j], #[trigger] ended_votings@[j], now, cs1[j], cs1[j + 1], vs1[j + 1], rs1[j]) by {
                    if j < i {
                        assert(Self::settle_made(ovs[j], ended_votings@[j], now, ocs[j], ocs[j + 1], ovs[j + 1], ors[j]));
                    }
                }
            }
            i = i + 1;
        }
        let ended_milestone_votes = take_round(&mut self.milestone_rounds_expiring, n);
        assert(self@ =~= (PoolView { milestone_rounds_expiring: vs1.last().milestone_rounds_expiring.remove(n), ..vs1.last() }));
        let ghost mut vs2: Seq<PoolView> = seq![self@];
        let ghost mut cs2: Seq<Seq<LoanCall>> = seq![self.calls@];
        let mut i: usize = 0;
        while i < ended_milestone_votes.len()
            invariant
                0 <= i <= ended_milestone_votes.len(),
                vs2.len() == i + 1,
                cs2.len() == i + 1,
                vs2[0] == (PoolView { milestone_rounds_expiring: vs1.last().milestone_rounds_expiring.remove(n), ..vs1.last() }),
                cs2[0] == cs1.last(),
                vs2.last() == self@,
                cs2.last() == self.calls@,
                forall|j: int| 0 <= j < i ==> Self::milestone_vote_settled(vs2[j], #[trigger] ended_milestone_votes@[j], cs2[j], cs2[j + 1], vs2[j + 1]),
            decreases ended_milestone_votes.len() - i,
        {
            let item = ended_milestone_votes[i];
            self.settle_milestone_vote(item, currency);
            proof {
                let ovs = vs2;
                let ocs = cs2;
                vs2 = ovs.push(self@);
                cs2 = ocs.push(self.calls@);
                assert forall|j: int| 0 <= j < i + 1 implies Self::milestone_vote_settled(vs2[j], #[trigger] ended_milestone_votes@[j], cs2[j], cs2[j + 1], vs2[j + 1]) by {
                    if j < i {
                        assert(Self::milestone_vote_settled(ovs[j], ended_milestone_votes@[j], ocs[j], ocs[j + 1], ovs[j + 1]));
                    }
                }
            }
            i = i + 1;
        }
        let ended_deletion_votes = take_round(&mut self.deletion_rounds_expiring, n);
        assert(self@ =~= (PoolView { deletion_rounds_expiring: vs2.last().deletion_rounds_expiring.remove(n), ..vs2.last() }));
        let ghost mut vs3: Seq<PoolView> = seq![self@];
        let ghost mut cs3: Seq<Seq<LoanCall>> = seq![self.calls@];
        let mut i: usize = 0;
        while i < ended_deletion_votes.len()
            invariant
                0 <= i <= ended_deletion_votes.len(),
                vs3.len() == i + 1,
                cs3.len() == i + 1,
                vs3[0] == (PoolView { deletion_rounds_expiring: vs2.last().deletion_rounds_expiring.remove(n), ..vs2.last() }),
                cs3[0] == cs2.last(),
                vs3.last() == self@,
                cs3.last() == self.calls@,
                forall|j: int| 0 <= j < i ==> Self::deletion_vote_settled(vs3[j], #[trigger] ended_deletion_votes@[j], cs3[j], cs3[j + 1], vs3[j + 1]),
            decreases ended_deletion_votes.len() - i,
        {
            let item = ended_deletion_votes[i];
            self.settle_deletion_vote(item, nfts);
            proof {
                let ovs = vs3;
                let ocs = cs3;
                vs3 = ovs.push(self@);
                cs3 = ocs.push(self.calls@);
                assert forall|j: int| 0 <= j < i + 1 implies Self::deletion_vote_settled(vs3[j], #[trigger] ended_deletion_votes@[j], cs3[j], cs3[j + 1], vs3[j + 1]) by {
                    if j < i {
                        assert(Self::deletion_vote_settled(ovs[j], ended_deletion_votes@[j], ocs[j], ocs[j + 1], ovs[j + 1]));
                    }
                }
            }
            i = i + 1;
        }
        let _ = self.charge_apy(now);
        proof {
            assert(Self::hook_made(v_old, c_old, n, now, vs1, cs1, rs1, vs2, cs2, vs3, cs3, self@, self.calls@));
        }
    }

    /// Ends the voting on the milestone proposal `item`, as the block hook does.
    fn settle_milestone_vote<C: LoanCurrency>(&mut self, item: ProposalIndex, currency: &mut C)
        ensures
            Self::milestone_vote_settled(old(self)@, item, old(self).calls@, final(self).calls@, final(self)@),
    {
        let ghost v0 = self@;
        let voting_result = self.ongoing_milestone_votes.remove(&item);
        match voting_result {
            Some(result) => {
                assert(self@ =~= (PoolView { ongoing_milestone_votes: v0.ongoing_milestone_votes.remove(item), ..v0 }));
                if result.yes_votes > result.no_votes {
                    let ghost v1 = self@;
                    match self.milestone_proposals.remove(&item) {
                        Some(loan_id) => {
                            assert(self@ =~= (PoolView { milestone_proposals: v1.milestone_proposals.remove(item), ..v1 }));
                            if self.has_milestone_left(loan_id) {
                                let _ = self.updating_available_amount(loan_id, item, currency);
                            }
                        },
                        None => {
                            assert(self@ =~= v1);
                        },
                    }
                } else {
                    let _ = self.reject_milestone(item, currency);
                }
            },
            None => {
                assert(self@ =~= v0);
            },
        }
    }

    /// Ends the voting on the deletion proposal `item`, as the block hook does.
    fn settle_deletion_vote<N: LoanNfts>(&mut self, item: ProposalIndex, nfts: &mut N)
        ensures
            Self::deletion_vote_settled(old(self)@, item, old(self).calls@, final(self).calls@, final(self)@),
    {
        let ghost v0 = self@;
        let voting_result = self.ongoing_deletion_votes.remove(&item);
        let loan_id = self.deletion_proposals.remove(&item);
        assert(self@ =~= (PoolView {
            ongoing_deletion_votes: v0.ongoing_deletion_votes.remove(item),
            deletion_proposals: v0.deletion_proposals.remove(item),
            ..v0
        }));
        match voting_result {
            Some(result) => {
                if result.yes_votes > result.no_votes {
                    if let Some(loan_id) = loan_id {
                        let _ = self.delete_loan(loan_id, nfts);
                    }
                } else if let Some(loan_id) = loan_id {
                    let _ = self.open_withdrawl(loan_id);
                }
            },
            None => {},
        }
    }
}

} // verus!

verus! {

/// The apr of any loan lies between that of the most experienced developer on the longest
/// term and that of a beginner on the shortest one.
pub proof fn apr_is_bounded(experience: u64, loan_term: u64)
    ensures
        (BASEINTERESTRATE * 12 * 12) / 100 <= apr_spec(experience, loan_term) <= (BASEINTERESTRATE * 17 * 14) / 100,
{
}

/// The apr, in hundredths of a percent, by band of experience (1 to 5 years, 6 to 15, 16 to
/// 20, and none or more than 20) and of loan term (1 to 12 months, 13 to 24, and none or
/// more than 24): from one year of experience on, the less experienced the developer and the
/// shorter the loan, the higher.
pub proof fn apr_follows_experience_and_term_bands(experience: u64, loan_term: u64)
    ensures
        ({
            let r = apr_spec(experience, loan_term);
            let short = 1 <= loan_term <= 12;
            let medium = 13 <= loan_term <= 24;
            let long = !short && !medium;
            &&& 1 <= experience <= 5 ==> (short ==> r == 1249) && (medium ==> r == 1160) && (long ==> r == 1071)
            &&& 6 <= experience <= 15 ==> (short ==> r == 1102) && (medium ==> r == 1023) && (long ==> r == 945)
            &&& 16 <= experience <= 20 ==> (short ==> r == 955) && (medium ==> r == 887) && (long ==> r == 819)
            &&& (experience == 0 || experience > 20) ==> (short ==> r == 882) && (medium ==> r == 819) && (long ==> r == 756)
        }),
{
}

/// The apr never rises with experience (from one year on) nor with the loan term, and two
/// developers in the same band of experience get the same apr for the same term.
pub proof fn apr_falls_with_experience_and_term(e1: u64, e2: u64, t1: u64, t2: u64)
    ensures
        1 <= e1 <= e2 ==> apr_spec(e2, t1) <= apr_spec(e1, t1),
        1 <= t1 <= t2 ==> apr_spec(e1, t2) <= apr_spec(e1, t1),
        6 <= e1 <= 15 && 6 <= e2 <= 15 ==> apr_spec(e1, t1) == apr_spec(e2, t1),
        1 <= e1 <= 5 && 1 <= e2 <= 5 ==> apr_spec(e1, t1) == apr_spec(e2, t1),
{
    apr_follows_experience_and_term_bands(e1, t1);
    apr_follows_experience_and_term_bands(e2, t1);
    apr_follows_experience_and_term_bands(e1, t2);
}

/// The bond of a proposal is at least the minimum bond and at most the maximum one.
pub proof fn bond_is_capped(config: LoanPoolConfig, value: Balance)
    requires
        config.proposal_bond <= PERMILL_ONE,
        config.proposal_bond_maximum is Some ==> config.proposal_bond_minimum <= config.proposal_bond_maximum->Some_0,
    ensures
        bond_spec(config, value) >= config.proposal_bond_minimum,
        config.proposal_bond_maximum is Some ==> bond_spec(config, value) <= config.proposal_bond_maximum->Some_0,
{
    let share = mul_nearest_pref_down(value as int, config.proposal_bond as int, PERMILL_ONE as int);
    assert(share >= 0) by (nonlinear_arith)
        requires
            share == mul_nearest_pref_down(value as int, config.proposal_bond as int, PERMILL_ONE as int),
            value >= 0,
            config.proposal_bond >= 0,
    ;
    assert(share <= value) by (nonlinear_arith)
        requires
            share == (value * config.proposal_bond) / (PERMILL_ONE as int) + (if (value * config.proposal_bond) % (PERMILL_ONE as int) > (PERMILL_ONE as int) / 2 {
                1int
            } else {
                0int
            }),
            0 <= value,
            0 <= config.proposal_bond <= PERMILL_ONE,
    ;
}

/// A committee member votes once on a proposal: a second vote is refused.
pub proof fn one_vote_per_member(v: PoolView, kind: VoteKind, whitelist: Set<AccountId>, index: ProposalIndex, member: AccountId, first: Vote)
    requires
        Pallet::vote_error(v, kind, Origin::Signed(member), whitelist, index) is None,
    ensures
        Pallet::vote_error(Pallet::voted(v, kind, index, member, first), kind, Origin::Signed(member), whitelist, index) == Some(
            DispatchError::Module(Error::AlreadyVoted),
        ),
{
}

/// Withdrawing moves funds of a loan from available to borrowed, and out of the pool's
/// reserved funds.
pub proof fn withdraw_moves_available_to_borrowed(v: PoolView, loan_id: LoanIndex, amount: Balance)
    requires
        v.loans.contains_key(loan_id),
        amount <= v.loans[loan_id].available_amount,
        amount <= v.reserved_loan_amount,
        v.loans[loan_id].borrowed_amount + amount <= u128::MAX,
    ensures
        Pallet::withdrawn(v, loan_id, amount).loans[loan_id].available_amount + Pallet::withdrawn(v, loan_id, amount).loans[loan_id].borrowed_amount
            == v.loans[loan_id].available_amount + v.loans[loan_id].borrowed_amount,
        Pallet::withdrawn(v, loan_id, amount).reserved_loan_amount == v.reserved_loan_amount - amount,
        Pallet::withdrawn(v, loan_id, amount).loans[loan_id].loan_amount == v.loans[loan_id].loan_amount,
{
}

} // verus!
